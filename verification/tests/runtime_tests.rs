use supervisor::opts::{ansi_enabled, log_level, Color, LogFormat, LogLevel};
use supervisor::runtime::{exit_code, resolve_thread_count, WriteOnce};

#[test]
fn exit_codes_match_the_process_conventions() {
    assert_eq!(exit_code(true), exitcode::OK);
    assert_eq!(exit_code(false), exitcode::CONFIG);
    assert_eq!(exit_code(true), 0);
    assert_eq!(exit_code(false), 78);
}

#[test]
fn explicit_thread_count_is_taken_as_given() {
    assert_eq!(resolve_thread_count(Some(4)), Ok(4));
    assert_eq!(resolve_thread_count(Some(1)), Ok(1));
}

#[test]
fn zero_threads_is_refused() {
    assert!(resolve_thread_count(Some(0)).is_err());
}

#[test]
fn default_thread_count_is_at_least_one() {
    let n = resolve_thread_count(None).unwrap();
    assert!(n >= 1);
    assert_eq!(n, num_cpus::get().max(1));
}

#[test]
fn write_once_takes_one_value_and_refuses_the_second() {
    let mut slot: WriteOnce<String> = WriteOnce::new();
    assert!(slot.get().is_none());
    assert!(slot.set("timestamp".to_string()).is_ok());
    assert_eq!(slot.get().unwrap(), "timestamp");
    let rejected = slot.set("message".to_string());
    assert_eq!(rejected, Err("message".to_string()));
    assert_eq!(slot.get().unwrap(), "timestamp");
}

#[test]
fn color_choices_parse() {
    assert_eq!(Color::from_str("auto"), Ok(Color::Auto));
    assert_eq!(Color::from_str("always"), Ok(Color::Always));
    assert_eq!(Color::from_str("never"), Ok(Color::Never));
    assert_eq!(
        Color::from_str("sometimes"),
        Err("sometimes is not a valid option, expected `auto`, `always` or `never`".to_string())
    );
}

#[test]
fn log_format_choices_parse() {
    assert_eq!(LogFormat::from_str("text"), Ok(LogFormat::Text));
    assert_eq!(LogFormat::from_str("json"), Ok(LogFormat::Json));
    assert_eq!(
        LogFormat::from_str("xml"),
        Err("xml is not a valid option, expected `text` or `json`".to_string())
    );
}

#[test]
fn ansi_follows_the_color_choice() {
    assert!(ansi_enabled(Color::Always, false));
    assert!(!ansi_enabled(Color::Never, true));
    assert!(ansi_enabled(Color::Auto, true));
    assert!(!ansi_enabled(Color::Auto, false));
}

#[test]
fn quiet_and_verbose_ladder() {
    assert_eq!(log_level(0, 0), LogLevel::Info);
    assert_eq!(log_level(0, 1), LogLevel::Debug);
    assert_eq!(log_level(0, 2), LogLevel::Trace);
    assert_eq!(log_level(0, 255), LogLevel::Trace);
    assert_eq!(log_level(1, 0), LogLevel::Warn);
    assert_eq!(log_level(2, 5), LogLevel::ErrorsOnly);
    assert_eq!(log_level(3, 0), LogLevel::Off);
    assert_eq!(log_level(255, 0), LogLevel::Off);
}
