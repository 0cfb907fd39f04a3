use pixel_analyzer::error::AnalyzerError;

#[test]
fn error_empty_buffer_message() {
    let err = AnalyzerError::EmptyBuffer;
    let msg = err.to_string();
    assert!(msg.contains("[EmptyBuffer]"));
    assert!(msg.contains("is empty"));
}

#[test]
fn error_unsupported_format_message() {
    let err = AnalyzerError::UnsupportedFormat("Magic mismatch".to_string());
    let msg = err.to_string();
    assert!(msg.contains("[UnsupportedFormat]"));
    assert!(msg.contains("Magic mismatch"));
    assert!(msg.contains("Supported formats"));
}

#[test]
fn error_decoding_failed_message() {
    let err = AnalyzerError::DecodingFailed("CRC error".to_string());
    let msg = err.to_string();
    assert!(msg.contains("[DecodingFailed]"));
    assert!(msg.contains("CRC error"));
}

#[test]
fn error_invalid_config_message() {
    let err = AnalyzerError::InvalidConfig("max_colors=1".to_string());
    let msg = err.to_string();
    assert!(msg.contains("[InvalidConfig]"));
    assert!(msg.contains("max_colors=1"));
}

#[test]
fn error_insufficient_pixels_message() {
    let err = AnalyzerError::InsufficientPixels;
    let msg = err.to_string();
    assert!(msg.contains("[InsufficientPixels]"));
    assert!(msg.contains("Not enough pixels"));
}

#[test]
fn error_messages_are_exact() {
    assert_eq!(
        AnalyzerError::EmptyBuffer.to_string(),
        "AnalyzerError [EmptyBuffer]: The provided buffer is empty."
    );
    assert_eq!(
        AnalyzerError::UnsupportedFormat("x".to_string()).to_string(),
        "AnalyzerError [UnsupportedFormat]: x. Supported formats: PNG, JPEG, WebP."
    );
    assert_eq!(
        AnalyzerError::DecodingFailed("y".to_string()).to_string(),
        "AnalyzerError [DecodingFailed]: The image could not be decoded \u{2014} y."
    );
    assert_eq!(
        AnalyzerError::InvalidConfig("z".to_string()).to_string(),
        "AnalyzerError [InvalidConfig]: z."
    );
}
