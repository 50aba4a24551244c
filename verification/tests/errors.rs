use tucknotes::errors::AppError;

#[test]
fn display_variant_with_message() {
    assert_eq!(
        AppError::CaptureFailed("timeout".into()).message(),
        "Capture failed: timeout"
    );
}

#[test]
fn display_not_supported() {
    assert_eq!(
        AppError::NotSupported("this platform".into()).message(),
        "Not supported: this platform"
    );
}

#[test]
fn display_interrupted_has_no_message() {
    assert_eq!(AppError::Interrupted.message(), "Interrupted");
    assert!(AppError::Interrupted.is_interrupted());
    assert!(!AppError::NotFound("x".into()).is_interrupted());
}
