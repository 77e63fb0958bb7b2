//! The key/value mapping of a container: byte-string keys, each held once, in
//! ascending order of their bytes.

use vstd::prelude::*;
use vstd::slice::slice_to_vec;

verus! {

/// One key with its value, as contracts see it.
pub struct Pair {
    pub key: Seq<u8>,
    pub value: Seq<u8>,
}

/// Whether `a` comes before `b` when byte strings are ordered like words in
/// a dictionary.
pub open spec fn lex_less(a: Seq<u8>, b: Seq<u8>) -> bool
    decreases a.len(),
{
    if b.len() == 0 {
        false
    } else if a.len() == 0 {
        true
    } else if a[0] != b[0] {
        a[0] < b[0]
    } else {
        lex_less(a.skip(1), b.skip(1))
    }
}

/// Whether the keys of `pairs` strictly ascend, so that no key occurs twice.
pub open spec fn is_ascending(pairs: Seq<Pair>) -> bool {
    forall|i: int, j: int| 0 <= i < j < pairs.len() ==> lex_less(pairs[i].key, pairs[j].key)
}

/// How many of the leading pairs have a key before `key`.
pub open spec fn rank(pairs: Seq<Pair>, key: Seq<u8>) -> int
    decreases pairs.len(),
{
    if pairs.len() == 0 || !lex_less(pairs[0].key, key) {
        0
    } else {
        1 + rank(pairs.skip(1), key)
    }
}

/// The pairs with `key` bound to `value`: put in its place by order, and in
/// place of a pair that already has the key.
pub open spec fn inserted(pairs: Seq<Pair>, key: Seq<u8>, value: Seq<u8>) -> Seq<Pair> {
    let at = rank(pairs, key);
    let after = if at < pairs.len() && pairs[at].key == key {
        pairs.skip(at + 1)
    } else {
        pairs.skip(at)
    };
    pairs.take(at) + seq![Pair { key, value }] + after
}

/// The value of the first of `pairs` that has the key, if one has it.
pub open spec fn bound(pairs: Seq<Pair>, key: Seq<u8>) -> Option<Seq<u8>>
    decreases pairs.len(),
{
    if pairs.len() == 0 {
        None
    } else if pairs[0].key == key {
        Some(pairs[0].value)
    } else {
        bound(pairs.skip(1), key)
    }
}

/// The mapping that results from binding the pairs of `list` one after the
/// other, a later pair replacing an earlier one with the same key.
pub open spec fn collected(list: Seq<Pair>) -> Seq<Pair>
    decreases list.len(),
{
    if list.len() == 0 {
        Seq::empty()
    } else {
        inserted(collected(list.drop_last()), list.last().key, list.last().value)
    }
}

/// What comes before something that comes before `c` comes before `c`.
pub proof fn lemma_lex_less_transitive(a: Seq<u8>, b: Seq<u8>, c: Seq<u8>)
    requires
        lex_less(a, b),
        lex_less(b, c),
    ensures
        lex_less(a, c),
    decreases a.len(),
{
    if a.len() > 0 && a[0] == b[0] && b[0] == c[0] {
        lemma_lex_less_transitive(a.skip(1), b.skip(1), c.skip(1));
    }
}

/// Of two different byte strings one comes before the other.
pub proof fn lemma_lex_less_total(a: Seq<u8>, b: Seq<u8>)
    ensures
        lex_less(a, b) || lex_less(b, a) || a == b,
    decreases a.len(),
{
    if a.len() > 0 && b.len() > 0 && a[0] == b[0] {
        lemma_lex_less_total(a.skip(1), b.skip(1));
        if a.skip(1) == b.skip(1) {
            assert(a =~= seq![a[0]] + a.skip(1));
            assert(b =~= seq![b[0]] + b.skip(1));
        }
    } else if a.len() == 0 && b.len() == 0 {
        assert(a =~= b);
    }
}

/// The rank of `key` is the place `at` where the keys stop coming before it.
pub proof fn lemma_rank_is(pairs: Seq<Pair>, key: Seq<u8>, at: int)
    requires
        0 <= at <= pairs.len(),
        forall|i: int| 0 <= i < at ==> lex_less(#[trigger] pairs[i].key, key),
        at < pairs.len() ==> !lex_less(pairs[at].key, key),
    ensures
        rank(pairs, key) == at,
    decreases at,
{
    if at > 0 {
        assert(lex_less(pairs[0].key, key));
        let rest = pairs.skip(1);
        assert forall|i: int| 0 <= i < at - 1 implies lex_less(#[trigger] rest[i].key, key) by {
            assert(rest[i] == pairs[i + 1]);
        }
        lemma_rank_is(rest, key, at - 1);
    }
}

/// The rank of a key lies within the pairs; the keys before it come before
/// the key, and the key at it does not.
pub proof fn lemma_rank_bounds(pairs: Seq<Pair>, key: Seq<u8>)
    ensures
        0 <= rank(pairs, key) <= pairs.len(),
        forall|i: int| 0 <= i < rank(pairs, key) ==> lex_less(#[trigger] pairs[i].key, key),
        rank(pairs, key) < pairs.len() ==> !lex_less(pairs[rank(pairs, key)].key, key),
    decreases pairs.len(),
{
    if pairs.len() > 0 && lex_less(pairs[0].key, key) {
        let rest = pairs.skip(1);
        lemma_rank_bounds(rest, key);
        assert forall|i: int| 0 <= i < rank(pairs, key) implies lex_less(
            #[trigger] pairs[i].key,
            key,
        ) by {
            if i > 0 {
                assert(pairs[i] == rest[i - 1]);
            }
        }
        if rank(pairs, key) < pairs.len() {
            assert(pairs[rank(pairs, key)] == rest[rank(rest, key)]);
        }
    }
}

/// Binding a key in ascending pairs leaves them ascending.
pub proof fn lemma_inserted_is_ascending(pairs: Seq<Pair>, key: Seq<u8>, value: Seq<u8>)
    requires
        is_ascending(pairs),
    ensures
        is_ascending(inserted(pairs, key, value)),
{
    let at = rank(pairs, key);
    let result = inserted(pairs, key, value);
    lemma_rank_bounds(pairs, key);
    let replaced = at < pairs.len() && pairs[at].key == key;
    let shift = if replaced {
        0int
    } else {
        1int
    };
    assert forall|j: int| at < j < result.len() implies lex_less(key, #[trigger] result[j].key) by {
        let from = j - shift;
        assert(result[j] == pairs[from]);
        if replaced {
            assert(lex_less(pairs[at].key, pairs[from].key));
        } else {
            lemma_lex_less_total(pairs[at].key, key);
            if from > at {
                lemma_lex_less_transitive(key, pairs[at].key, pairs[from].key);
            }
        }
    }
    assert forall|i: int, j: int| 0 <= i < j < result.len() implies lex_less(
        result[i].key,
        result[j].key,
    ) by {
        if j < at {
            assert(result[i] == pairs[i] && result[j] == pairs[j]);
        } else if j == at {
            assert(result[i] == pairs[i]);
        } else if i == at {
        } else if i < at {
            assert(result[i] == pairs[i]);
            lemma_lex_less_transitive(pairs[i].key, key, result[j].key);
        } else {
            assert(result[i] == pairs[i - shift] && result[j] == pairs[j - shift]);
        }
    }
}

/// Binding a key that comes after every key appends the pair.
pub proof fn lemma_inserted_after_all(pairs: Seq<Pair>, key: Seq<u8>, value: Seq<u8>)
    requires
        forall|i: int| 0 <= i < pairs.len() ==> lex_less(#[trigger] pairs[i].key, key),
    ensures
        inserted(pairs, key, value) == pairs.push(Pair { key, value }),
{
    lemma_rank_is(pairs, key, pairs.len() as int);
    assert(inserted(pairs, key, value) =~= pairs.push(Pair { key, value }));
}

/// Collecting pairs gives ascending pairs, and gives ascending pairs back
/// as they are.
pub proof fn lemma_collected(list: Seq<Pair>)
    ensures
        is_ascending(collected(list)),
        is_ascending(list) ==> collected(list) == list,
    decreases list.len(),
{
    if list.len() > 0 {
        let front = list.drop_last();
        lemma_collected(front);
        lemma_inserted_is_ascending(collected(front), list.last().key, list.last().value);
        if is_ascending(list) {
            assert forall|i: int, j: int| 0 <= i < j < front.len() implies lex_less(
                front[i].key,
                front[j].key,
            ) by {
                assert(front[i] == list[i] && front[j] == list[j]);
            }
            assert forall|i: int| 0 <= i < front.len() implies lex_less(
                #[trigger] front[i].key,
                list.last().key,
            ) by {
                assert(front[i] == list[i]);
            }
            lemma_inserted_after_all(front, list.last().key, list.last().value);
            assert(front.push(list.last()) =~= list);
        }
    }
}

/// One key with its value.
#[derive(Debug)]
pub struct MetadataEntry {
    pub key: Vec<u8>,
    pub value: Vec<u8>,
}

impl View for MetadataEntry {
    type V = Pair;

    open spec fn view(&self) -> Pair {
        Pair { key: self.key@, value: self.value@ }
    }
}

/// A mapping from byte-string keys to byte-string values, held in ascending
/// order of the keys.
#[derive(Debug)]
pub struct Metadata {
    entries: Vec<MetadataEntry>,
}

impl View for Metadata {
    type V = Seq<Pair>;

    closed spec fn view(&self) -> Seq<Pair> {
        Seq::new(self.entries@.len(), |i: int| self.entries@[i]@)
    }
}

/// Whether `a` comes before `b` in dictionary order.
pub fn key_less(a: &[u8], b: &[u8]) -> (less: bool)
    ensures
        less == lex_less(a@, b@),
{
    let mut i: usize = 0;
    assert(a@.skip(0) =~= a@ && b@.skip(0) =~= b@);
    while i < a.len() && i < b.len() && a[i] == b[i]
        invariant
            i <= a.len(),
            i <= b.len(),
            lex_less(a@, b@) == lex_less(a@.skip(i as int), b@.skip(i as int)),
        decreases a.len() - i,
    {
        proof {
            assert(a@.skip(i as int).skip(1) =~= a@.skip(i + 1));
            assert(b@.skip(i as int).skip(1) =~= b@.skip(i + 1));
        }
        i += 1;
    }
    if i >= b.len() {
        false
    } else if i >= a.len() {
        true
    } else {
        a[i] < b[i]
    }
}

/// Whether `a` and `b` hold the same bytes.
pub fn same_bytes(a: &[u8], b: &[u8]) -> (same: bool)
    ensures
        same == (a@ == b@),
{
    if a.len() != b.len() {
        return false;
    }
    let mut i: usize = 0;
    while i < a.len()
        invariant
            i <= a.len(),
            a.len() == b.len(),
            forall|j: int| 0 <= j < i ==> a@[j] == b@[j],
        decreases a.len() - i,
    {
        if a[i] != b[i] {
            return false;
        }
        i += 1;
    }
    assert(a@ =~= b@);
    true
}

impl Metadata {
    /// The keys strictly ascend.
    pub open spec fn well_formed(&self) -> bool {
        is_ascending(self@)
    }

    /// The empty mapping.
    pub fn new() -> (metadata: Metadata)
        ensures
            metadata.well_formed(),
            metadata@ == Seq::<Pair>::empty(),
    {
        let metadata = Metadata { entries: Vec::new() };
        assert(metadata@ =~= Seq::<Pair>::empty());
        metadata
    }

    /// The number of keys.
    pub fn len(&self) -> (count: usize)
        ensures
            count == self@.len(),
    {
        self.entries.len()
    }

    /// The key at place `i` in ascending order.
    pub fn key_at(&self, i: usize) -> (key: &[u8])
        requires
            i < self@.len(),
        ensures
            key@ == self@[i as int].key,
    {
        self.entries[i].key.as_slice()
    }

    /// The value at place `i` in ascending order of the keys.
    pub fn value_at(&self, i: usize) -> (value: &[u8])
        requires
            i < self@.len(),
        ensures
            value@ == self@[i as int].value,
    {
        self.entries[i].value.as_slice()
    }

    /// The value bound to `key`, if there is one.
    pub fn get(&self, key: &[u8]) -> (value: Option<&[u8]>)
        ensures
            match value {
                Some(v) => bound(self@, key@) == Some(v@),
                None => bound(self@, key@) is None,
            },
    {
        let mut i: usize = 0;
        assert(self@.skip(0) =~= self@);
        while i < self.entries.len()
            invariant
                i <= self.entries.len(),
                bound(self@, key@) == bound(self@.skip(i as int), key@),
            decreases self.entries.len() - i,
        {
            let ghost rest = self@.skip(i as int);
            assert(rest[0] == self@[i as int]);
            if same_bytes(self.entries[i].key.as_slice(), key) {
                return Some(self.entries[i].value.as_slice());
            }
            assert(rest.skip(1) =~= self@.skip(i + 1));
            i += 1;
        }
        None
    }

    /// Binds `key` to `value`, in place of any value it was bound to.
    pub fn insert(&mut self, key: &[u8], value: &[u8])
        requires
            old(self).well_formed(),
        ensures
            final(self).well_formed(),
            final(self)@ == inserted(old(self)@, key@, value@),
    {
        let ghost before = self@;
        let mut at: usize = 0;
        while at < self.entries.len() && key_less(self.entries[at].key.as_slice(), key)
            invariant
                at <= self.entries.len(),
                self@ == before,
                forall|i: int| 0 <= i < at ==> lex_less(#[trigger] before[i].key, key@),
            decreases self.entries.len() - at,
        {
            assert(before[at as int].key == self.entries@[at as int].key@);
            at += 1;
        }
        proof {
            if at < before.len() {
                assert(before[at as int].key == self.entries@[at as int].key@);
            }
            lemma_rank_is(before, key@, at as int);
            lemma_inserted_is_ascending(before, key@, value@);
        }
        let entry = MetadataEntry { key: slice_to_vec(key), value: slice_to_vec(value) };
        if at < self.entries.len() && same_bytes(self.entries[at].key.as_slice(), key) {
            self.entries.set(at, entry);
        } else {
            self.entries.insert(at, entry);
        }
        assert(self@ =~= inserted(before, key@, value@));
    }

    /// A copy of this mapping.
    pub fn duplicate(&self) -> (copy: Metadata)
        ensures
            copy@ == self@,
    {
        let mut entries: Vec<MetadataEntry> = Vec::new();
        let mut i: usize = 0;
        while i < self.entries.len()
            invariant
                i <= self.entries.len(),
                entries@.len() == i,
                forall|j: int| 0 <= j < i ==> (#[trigger] entries@[j])@ == self.entries@[j]@,
            decreases self.entries.len() - i,
        {
            entries.push(
                MetadataEntry {
                    key: slice_to_vec(self.entries[i].key.as_slice()),
                    value: slice_to_vec(self.entries[i].value.as_slice()),
                },
            );
            i += 1;
        }
        let copy = Metadata { entries };
        assert(copy@ =~= self@);
        copy
    }
}

} // verus!
