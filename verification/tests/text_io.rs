//! Textual display and entry of the amplitude parameter.

use ampli_fe::plugin_state::PluginState;
use ampli_fe::text::parse_fixed;

#[test]
fn label_and_name() {
    let hub = PluginState::new();
    assert_eq!(hub.get_parameter_label(0), "x");
    assert_eq!(hub.get_parameter_name(0), "Amplitude");
}

#[test]
fn text_shows_doubled_value() {
    let mut hub = PluginState::new();
    assert_eq!(hub.get_parameter_text(0), "1.00");
    hub.set_parameter(0, 750_000);
    assert_eq!(hub.get_parameter_text(0), "1.50");
}

#[test]
fn text_rounds_to_hundredths() {
    let mut hub = PluginState::new();
    hub.set_parameter(0, 123_456);
    assert_eq!(hub.get_parameter_text(0), "0.25");
    hub.set_parameter(0, 122_400);
    assert_eq!(hub.get_parameter_text(0), "0.24");
}

#[test]
fn text_handles_negative_values() {
    let mut hub = PluginState::new();
    hub.set_parameter(0, -400_000);
    assert_eq!(hub.get_parameter_text(0), "-0.80");
}

#[test]
fn string_entry_accepts_in_range_values() {
    let mut hub = PluginState::new();
    assert!(hub.string_to_parameter(0, "1.5".to_string()));
    assert_eq!(hub.get_parameter(0), 750_000);
    assert!(hub.string_to_parameter(0, "2".to_string()));
    assert_eq!(hub.get_parameter(0), 1_000_000);
    assert!(hub.string_to_parameter(0, "0".to_string()));
    assert_eq!(hub.get_parameter(0), 0);
    assert!(hub.string_to_parameter(0, "+0.5".to_string()));
    assert_eq!(hub.get_parameter(0), 250_000);
    assert!(hub.string_to_parameter(0, "1.".to_string()));
    assert_eq!(hub.get_parameter(0), 500_000);
    assert!(hub.string_to_parameter(0, ".5".to_string()));
    assert_eq!(hub.get_parameter(0), 250_000);
}

#[test]
fn string_entry_rejects_out_of_range_without_mutating() {
    let mut hub = PluginState::new();
    assert!(!hub.string_to_parameter(0, "2.5".to_string()));
    assert!(!hub.string_to_parameter(0, "2.000001".to_string()));
    assert!(!hub.string_to_parameter(0, "-0.1".to_string()));
    assert_eq!(hub.get_parameter(0), 500_000);
    assert!(hub.take_dsp_updates().is_empty());
}

#[test]
fn string_entry_rejects_malformed_input() {
    let mut hub = PluginState::new();
    assert!(!hub.string_to_parameter(0, "abc".to_string()));
    assert!(!hub.string_to_parameter(0, "".to_string()));
    assert!(!hub.string_to_parameter(0, ".".to_string()));
    assert!(!hub.string_to_parameter(0, "-".to_string()));
    assert!(!hub.string_to_parameter(0, "1.2.3".to_string()));
    assert!(!hub.string_to_parameter(0, "1,5".to_string()));
    assert!(!hub.string_to_parameter(0, "0.1234567".to_string()));
    assert_eq!(hub.get_parameter(0), 500_000);
}

#[test]
fn parse_is_exact_fixed_point() {
    assert_eq!(parse_fixed("1.5"), Some(1_500_000));
    assert_eq!(parse_fixed("0.000001"), Some(1));
    assert_eq!(parse_fixed("-0.25"), Some(-250_000));
    assert_eq!(parse_fixed("9999.999999"), Some(9_999_999_999));
    assert_eq!(parse_fixed("10000"), None);
    assert_eq!(parse_fixed("00123.4"), Some(123_400_000));
    assert_eq!(parse_fixed("1e3"), None);
}

#[test]
fn string_entry_halves_odd_values_toward_zero() {
    let mut hub = PluginState::new();
    assert!(hub.string_to_parameter(0, "0.000001".to_string()));
    assert_eq!(hub.get_parameter(0), 0);
}
