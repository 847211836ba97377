use random_ramble::cli::{log_settings, Edit, LogLevel, LogSettings};
use random_ramble::RambleError;

#[test]
fn given_entries_are_used() {
    let e = Edit::new("country".to_string(), vec!["Portugal".to_string()], false);
    assert!(!e.reads_input());
    assert_eq!(e.entries("ignored input"), vec!["Portugal"]);
}

#[test]
fn entries_come_from_input_otherwise() {
    let e = Edit::new("country".to_string(), vec![], true);
    assert!(e.reads_input());
    assert_eq!(e.entries("Portugal  Brazil\nFrance\n"), vec!["Portugal", "Brazil", "France"]);
}

#[test]
fn verbosity_sets_the_log() {
    assert_eq!(log_settings(0), LogSettings { level: LogLevel::Info, plain: true });
    assert_eq!(log_settings(1), LogSettings { level: LogLevel::Info, plain: false });
    assert_eq!(log_settings(2), LogSettings { level: LogLevel::Debug, plain: false });
    assert_eq!(log_settings(7), LogSettings { level: LogLevel::Trace, plain: false });
}

#[test]
fn error_messages() {
    assert_eq!(RambleError::Custom("x".to_string()).message(), "Ah shit, here we go again…");
    assert_eq!(RambleError::IO(std::io::Error::new(std::io::ErrorKind::Other, "x")).message(), "std::io says: We ain't found shit!");
}
