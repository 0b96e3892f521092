use osboot::log_line::{log_line, Level};

#[test]
fn info_line_pads_level_and_shows_location() {
    assert_eq!(
        log_line(Level::Info, Some("kernel/src/main.rs"), Some(42), "Starting bootloader..."),
        "[INFO ] [kernel/src/main.rs:42] - Starting bootloader...\n"
    );
}

#[test]
fn five_letter_levels_are_not_padded() {
    assert_eq!(log_line(Level::Error, Some("a.rs"), Some(7), "x"), "[ERROR] [a.rs:7] - x\n");
    assert_eq!(log_line(Level::Debug, Some("a.rs"), Some(7), "x"), "[DEBUG] [a.rs:7] - x\n");
    assert_eq!(log_line(Level::Trace, Some("a.rs"), Some(7), "x"), "[TRACE] [a.rs:7] - x\n");
    assert_eq!(log_line(Level::Warn, Some("a.rs"), Some(7), "x"), "[WARN ] [a.rs:7] - x\n");
}

#[test]
fn missing_file_and_line_use_defaults() {
    assert_eq!(log_line(Level::Warn, None, None, "m"), "[WARN ] [<unknown>:0] - m\n");
}

#[test]
fn line_numbers_in_decimal() {
    assert_eq!(log_line(Level::Info, Some("f"), Some(10), ""), "[INFO ] [f:10] - \n");
    assert_eq!(
        log_line(Level::Info, Some("f"), Some(u32::MAX), "m"),
        "[INFO ] [f:4294967295] - m\n"
    );
}

#[test]
fn level_names_match_log_crate() {
    for (level, ours) in [
        (log::Level::Error, Level::Error),
        (log::Level::Warn, Level::Warn),
        (log::Level::Info, Level::Info),
        (log::Level::Debug, Level::Debug),
        (log::Level::Trace, Level::Trace),
    ] {
        let expected = format!("[{:5}] [f:1] - m\n", level);
        assert_eq!(log_line(ours, Some("f"), Some(1), "m"), expected);
    }
}
