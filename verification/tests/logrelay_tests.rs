use ffbridge::logrelay::{level_from_native, relay_event, LogLevel};

#[test]
fn the_six_native_levels_map_in_order() {
    assert!(matches!(level_from_native(0), LogLevel::Trace));
    assert!(matches!(level_from_native(1), LogLevel::Debug));
    assert!(matches!(level_from_native(2), LogLevel::Info));
    assert!(matches!(level_from_native(3), LogLevel::Warn));
    assert!(matches!(level_from_native(4), LogLevel::Error));
    assert!(matches!(level_from_native(5), LogLevel::Critical));
}

#[test]
fn severities_off_the_scale_read_as_most_severe() {
    assert!(matches!(level_from_native(6), LogLevel::Critical));
    assert!(matches!(level_from_native(255), LogLevel::Critical));
}

#[test]
fn a_native_event_converts_whole() {
    let record = relay_event(2, &b"engine ready\0".to_vec());
    assert!(matches!(record.level, LogLevel::Info));
    assert_eq!(record.message, "engine ready");
}

#[test]
fn relaying_never_fails_on_strange_bytes() {
    let record = relay_event(99, &vec![0xffu8, 0x00, 0x41]);
    assert!(matches!(record.level, LogLevel::Critical));
    assert_eq!(record.message, "\u{FFFD}");
}
