//! Tools for KTX2 texture containers with verified contracts.
//!
//! The heart of the crate is the layout engine: [`writer::Writer`] frames
//! each mip level ([`framer`]), encodes the key/value metadata
//! ([`key_value`]) and lays out header, level index, sections and payloads
//! byte for byte ([`layout`]). [`reader::Reader`] reads a container back, and
//! [`round_trip`] proves that it finds what was written. Around the engine
//! stand the mip chain planner ([`planner`]), the block encoders and the
//! transcoder ([`encode`], [`transcode`]), and the conversions from and to
//! DirectDraw surfaces ([`surface`]).
//!
//! Calls into other crates are made in a few private functions whose
//! contracts are taken on trust; each says so in its documentation.

pub mod blocks;
pub mod bytes;
pub mod dfd;
pub mod encode;
pub mod error;
pub mod formats;
pub mod framer;
pub mod header;
pub mod key_value;
pub mod layout;
pub mod metadata;
pub mod pairs;
pub mod pipeline;
pub mod planner;
pub mod reader;
pub mod round_trip;
pub mod surface;
pub mod transcode;
pub mod writer;

pub use crate::header::WriterHeader;
pub use crate::layout::WriterLevel;
pub use crate::writer::Writer;
pub use ktx2;
