use fox::log::LogLevel;
use fox::log::LoggerConfig;
use fox::log::category;
use fox::log::dim;
use fox::log::time;
use fox::log::short_file_name;

#[test]
fn level_ranks_round_trip() {
    for rank in 1u8..=5u8 {
        let level = LogLevel::from_u8(rank).unwrap();
        assert_eq!(level.as_u8(), rank);
    }
    assert!(LogLevel::from_u8(0).is_none());
    assert!(LogLevel::from_u8(6).is_none());
    assert!(LogLevel::from_u8(255).is_none());
}

#[test]
fn level_names() {
    assert_eq!(LogLevel::Debug.as_str(), "debug");
    assert_eq!(LogLevel::Info.as_str(), "info");
    assert_eq!(LogLevel::Warn.as_str(), "warn");
    assert_eq!(LogLevel::Error.as_str(), "error");
    assert_eq!(LogLevel::Critical.as_str(), "critical");
}

#[test]
fn level_from_name_is_case_insensitive() {
    assert_eq!(LogLevel::from_name("debug"), Some(LogLevel::Debug));
    assert_eq!(LogLevel::from_name("DEBUG"), Some(LogLevel::Debug));
    assert_eq!(LogLevel::from_name("Info"), Some(LogLevel::Info));
    assert_eq!(LogLevel::from_name("warning"), Some(LogLevel::Warn));
    assert_eq!(LogLevel::from_name("WARN"), Some(LogLevel::Warn));
    assert_eq!(LogLevel::from_name("error"), Some(LogLevel::Error));
    assert_eq!(LogLevel::from_name("crit"), Some(LogLevel::Critical));
    assert_eq!(LogLevel::from_name("CRITICAL"), Some(LogLevel::Critical));
    assert_eq!(LogLevel::from_name("nope"), None);
    assert_eq!(LogLevel::from_name(""), None);
}

#[test]
fn gate_defaults_to_most_verbose() {
    let gate = LoggerConfig::new();
    assert_eq!(gate.level, 5);
    assert_eq!(gate.get_logging_level(), LogLevel::Debug);
    assert!(gate.should_log(LogLevel::Debug));
    assert!(gate.should_log(LogLevel::Critical));
}

#[test]
fn gate_filters_below_threshold() {
    let mut gate = LoggerConfig::new();
    gate.set_logging_level(LogLevel::Warn);
    assert_eq!(gate.get_logging_level(), LogLevel::Warn);
    assert!(gate.should_log(LogLevel::Critical));
    assert!(gate.should_log(LogLevel::Error));
    assert!(gate.should_log(LogLevel::Warn));
    assert!(!gate.should_log(LogLevel::Info));
    assert!(!gate.should_log(LogLevel::Debug));
}

#[test]
fn gate_set_from_str() {
    let mut gate = LoggerConfig::new();
    assert_eq!(gate.set_logging_level_from_str("error"), Ok(()));
    assert_eq!(gate.get_logging_level(), LogLevel::Error);
    assert_eq!(gate.set_logging_level_from_str("bogus"), Err(()));
    assert_eq!(gate.get_logging_level(), LogLevel::Error);
}

#[test]
fn category_tags() {
    let debug = category("debug");
    assert!(debug == "DEBG =>" || debug == "\x1b[1;94mDEBG =>\x1b[0m");
    let info = category("info");
    assert!(info == "INFO =>" || info == "\x1b[1;92mINFO =>\x1b[0m");
    let warn = category("warn");
    assert!(warn == "WARN =>" || warn == "\x1b[1;93mWARN =>\x1b[0m");
    let error = category("error");
    assert!(error == "EROR =>" || error == "\x1b[1;91mEROR =>\x1b[0m");
    let critical = category("critical");
    assert!(critical == "CRIT =>" || critical == "\x1b[1;95mCRIT =>\x1b[0m");
    assert_eq!(category("strange"), "strange");
}

#[test]
fn dim_wraps_text() {
    assert_eq!(dim("abc"), "\x1b[2mabc\x1b[0m");
    assert_eq!(dim(""), "\x1b[2m\x1b[0m");
}

#[test]
fn time_has_clock_shape() {
    let t = time();
    let chars: Vec<char> = t.chars().collect();
    assert_eq!(chars.len(), 19);
    assert_eq!(&t[0..7], "\x1b[90;1m");
    assert_eq!(&t[15..19], "\x1b[0m");
    assert_eq!(chars[9], ':');
    assert_eq!(chars[12], ':');
    for idx in [7usize, 8, 10, 11, 13, 14] {
        assert!(chars[idx].is_ascii_digit());
    }
}

#[test]
fn short_file_names() {
    assert_eq!(short_file_name("src/log/cl.rs"), "cl.rs");
    assert_eq!(short_file_name("main.rs"), "main.rs");
    assert_eq!(short_file_name("C:\\code\\app.rs"), "app.rs");
    assert_eq!(short_file_name("a/b\\c.rs"), "b\\c.rs");
    assert_eq!(short_file_name("dir/"), "");
}
