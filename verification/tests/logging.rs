use libre99::logging::{level_from_str, LogLevel};

#[test]
fn levels_are_named_case_insensitively_with_info_as_fallback() {
    assert_eq!(level_from_str("off"), LogLevel::Off);
    assert_eq!(level_from_str("ERROR"), LogLevel::Error);
    assert_eq!(level_from_str("Warn"), LogLevel::Warn);
    assert_eq!(level_from_str("debug"), LogLevel::Debug);
    assert_eq!(level_from_str("trace"), LogLevel::Trace);
    assert_eq!(level_from_str("info"), LogLevel::Info);
    assert_eq!(level_from_str("loud"), LogLevel::Info);
    assert_eq!(level_from_str(" debug"), LogLevel::Info);
}
