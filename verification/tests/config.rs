use pixel_analyzer::config::{check_max_colors, check_max_iterations};
use pixel_analyzer::error::AnalyzerError;

#[test]
fn config_accepts_valid_defaults() {
    assert!(check_max_colors(5).is_ok());
    assert!(check_max_iterations(100).is_ok());
}

#[test]
fn config_rejects_max_colors_below_minimum() {
    assert!(check_max_colors(0).is_err());
}

#[test]
fn config_rejects_max_colors_of_one() {
    assert!(check_max_colors(1).is_err());
}

#[test]
fn config_rejects_max_colors_above_maximum() {
    assert!(check_max_colors(17).is_err());
}

#[test]
fn config_rejects_zero_max_iterations() {
    assert!(check_max_iterations(0).is_err());
}

#[test]
fn config_messages_name_the_setting() {
    match check_max_colors(17) {
        Err(AnalyzerError::InvalidConfig(m)) => {
            assert_eq!(m, "max_colors must be in the range [2, 16], got 17")
        }
        other => panic!("unexpected {:?}", other),
    }
    match check_max_iterations(0) {
        Err(AnalyzerError::InvalidConfig(m)) => assert_eq!(m, "max_iterations must be \u{2265} 1"),
        other => panic!("unexpected {:?}", other),
    }
    assert!(check_max_colors(2).is_ok());
    assert!(check_max_colors(16).is_ok());
}
