use ktx2_tools::error::Error;

#[test]
fn every_error_has_its_own_message() {
    let all = [
        Error::MalformedMetadata,
        Error::UnsupportedSupercompressionScheme,
        Error::DecompressionLengthMismatch,
        Error::UnsupportedPixelFormat,
        Error::TruncatedContainer,
        Error::BadIdentifier,
        Error::CodecFailed,
        Error::ContainerTooLarge,
    ];
    for (i, error) in all.iter().enumerate() {
        assert!(!error.message().is_empty());
        for other in &all[i + 1..] {
            assert_ne!(error.message(), other.message());
        }
    }
    assert_eq!(Error::TruncatedContainer.message(), "truncated container");
}
