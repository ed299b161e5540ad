use qims_backend::config::{bind_address, convert_only, time_left, CONVERSION_TIMEOUT, MAX_BODY};
use qims_backend::database::{connect, connect_failed, ConnectStep, MAX_RETRIES, RETRY_DELAY};
use qims_backend::error::AppError;
use qims_backend::logger::{
    elapsed_str, init, level_color, Level, LevelFilter, LogRecord, QimsLogger,
};

#[test]
fn errors_are_answered_with_their_status() {
    let answers = vec![
        (AppError::BadRequest("bad".to_string()), 400, "bad"),
        (AppError::Forbidden("no".to_string()), 403, "no"),
        (AppError::NotFound, 404, "not found"),
        (AppError::Internal("broken".to_string()), 500, "broken"),
        (AppError::Db("down".to_string()), 500, "down"),
    ];
    for (error, status, message) in answers {
        let response = error.into_response();
        assert_eq!(response.status, status);
        assert_eq!(response.error, message);
    }
}

#[test]
fn errors_describe_themselves_in_the_log() {
    assert_eq!(AppError::Db("down".to_string()).describe(), "database error: down");
    assert_eq!(AppError::BadRequest("x".to_string()).describe(), "bad request: x");
    assert_eq!(AppError::Forbidden("x".to_string()).describe(), "forbidden: x");
    assert_eq!(AppError::NotFound.describe(), "not found");
    assert_eq!(AppError::Internal("x".to_string()).describe(), "x");
}

#[test]
fn the_service_has_its_defaults() {
    assert_eq!(MAX_BODY, 64 * 1024 * 1024);
    assert!(convert_only(Some("1")));
    assert!(convert_only(Some("true")));
    assert!(!convert_only(Some("TRUE")));
    assert!(!convert_only(Some("0")));
    assert!(!convert_only(None));
    assert_eq!(bind_address(None), "127.0.0.1:8787");
    assert_eq!(bind_address(Some("0.0.0.0:8787")), "0.0.0.0:8787");
}

#[test]
fn the_tools_of_a_conversion_share_one_minute() {
    assert_eq!(CONVERSION_TIMEOUT, 60 * 1000);
    assert_eq!(time_left(0), 60_000);
    assert_eq!(time_left(45_500), 14_500);
    assert_eq!(time_left(60_000), 0);
    assert_eq!(time_left(u128::MAX), 0);
}

#[test]
fn the_connection_has_its_defaults() {
    let c = connect(None, None, None);
    assert_eq!((c.endpoint.as_str(), c.user.as_str(), c.pass.as_str()), ("127.0.0.1:8000", "root", "root"));
    let c = connect(Some("db:1"), Some("u"), Some("p"));
    assert_eq!((c.endpoint.as_str(), c.user.as_str(), c.pass.as_str()), ("db:1", "u", "p"));
    assert_eq!(RETRY_DELAY, 500);
}

#[test]
fn connecting_is_tried_again_thirty_times() {
    assert_eq!(connect_failed(0), ConnectStep::Retry { attempt: 1, announce: true });
    assert_eq!(connect_failed(1), ConnectStep::Retry { attempt: 2, announce: false });
    let mut attempt = 0;
    let mut retries = 0;
    while let ConnectStep::Retry { attempt: next, .. } = connect_failed(attempt) {
        attempt = next;
        retries += 1;
    }
    assert_eq!(retries, 30);
    assert_eq!(attempt, MAX_RETRIES);
    assert_eq!(connect_failed(30), ConnectStep::GiveUp);
}

#[test]
fn the_log_level_is_read_in_any_case() {
    for (name, level) in [
        ("off", LevelFilter::Off),
        ("ERROR", LevelFilter::Error),
        ("Warn", LevelFilter::Warn),
        ("info", LevelFilter::Info),
        ("deBug", LevelFilter::Debug),
        ("trace", LevelFilter::Trace),
        ("verbose", LevelFilter::Info),
        ("", LevelFilter::Info),
        (" info", LevelFilter::Info),
    ] {
        assert_eq!(init(Some(name)).0.level, level);
    }
    assert_eq!(init(None).0.level, LevelFilter::Info);
}

#[test]
fn warnings_of_other_crates_are_always_let_through() {
    assert_eq!(init(Some("off")).1, LevelFilter::Warn);
    assert_eq!(init(Some("error")).1, LevelFilter::Warn);
    assert_eq!(init(Some("warn")).1, LevelFilter::Warn);
    assert_eq!(init(Some("debug")).1, LevelFilter::Debug);
    let logger = QimsLogger { level: LevelFilter::Trace };
    assert_eq!(logger.threshold("surrealdb::api"), LevelFilter::Warn);
    assert_eq!(logger.threshold("qims_backend::convert"), LevelFilter::Trace);
    assert_eq!(logger.threshold("qims_backend"), LevelFilter::Trace);
    // A crate whose name only begins like the own one is another crate.
    assert_eq!(logger.threshold("qims_backend_tools::run"), LevelFilter::Warn);
    assert_eq!(logger.threshold("qims_backend:x"), LevelFilter::Warn);
    assert!(!logger.enabled(Level::Info, "qims_backend_tools::run"));
    assert!(logger.enabled(Level::Warn, "surrealdb::api"));
    assert!(!logger.enabled(Level::Info, "surrealdb::api"));
    assert!(logger.enabled(Level::Trace, "qims_backend"));
    let quiet = QimsLogger { level: LevelFilter::Off };
    assert!(!quiet.enabled(Level::Error, "qims_backend"));
    assert!(quiet.enabled(Level::Error, "tower"));
}

fn line(target: &str, file: Option<&str>, line: Option<u32>) -> String {
    let logger = QimsLogger { level: LevelFilter::Trace };
    let record = LogRecord {
        level: Level::Warn,
        target: target.to_string(),
        file: file.map(|f| f.to_string()),
        line,
        message: "hello".to_string(),
    };
    let line = logger.log_at(&record, "14:03:22").expect("shown");
    assert!(line.to_stderr);
    line.text
}

#[test]
fn log_lines_have_their_shape() {
    let shape = |place: &str| {
        format!(
            "\u{1b}[2m[14:03:22]\u{1b}[0m \u{1b}[2m[{place}]\u{1b}[0m [\u{1b}[33mWARN\u{1b}[0m] ⋆.˚ hello"
        )
    };
    assert_eq!(line("qims_backend", Some("src/main.rs"), Some(143)), shape("qims_backend::main.rs:143"));
    assert_eq!(
        line("qims_backend::database::documents::update", Some("src/database/documents/update.rs"), Some(7)),
        shape("::documents::update.rs:7")
    );
    assert_eq!(
        line("qims_backend::database", Some("src/database/mod.rs"), Some(1)),
        shape("::database::mod.rs:1")
    );
    assert_eq!(line("tower::x", Some("lib.rs"), None), shape("tower::x::lib.rs:0"));
    assert_eq!(
        line("qims_backend_tools::run", Some("src/run.rs"), Some(9)),
        shape("qims_backend_tools::run::run.rs:9")
    );
    assert_eq!(line("qims_backend::convert", None, None), shape("::convert::?:0"));
}

#[test]
fn log_lines_go_where_they_belong() {
    let logger = QimsLogger { level: LevelFilter::Info };
    let record = |level: Level| LogRecord {
        level,
        target: "qims_backend".to_string(),
        file: None,
        line: None,
        message: String::new(),
    };
    assert!(logger.log(&record(Level::Error)).expect("shown").to_stderr);
    let info = logger.log(&record(Level::Info)).expect("shown");
    assert!(!info.to_stderr);
    // The time of day stands where it should: hours, minutes and seconds.
    let time: Vec<char> = info.text.chars().skip(5).take(8).collect();
    assert_eq!(time.len(), 8);
    for (i, c) in time.iter().enumerate() {
        assert_eq!(*c == ':', i == 2 || i == 5);
        assert!(*c == ':' || c.is_ascii_digit());
    }
    assert!(logger.log(&record(Level::Debug)).is_none());
}

#[test]
fn levels_have_their_colors() {
    assert_eq!(level_color(Level::Error), "\u{1b}[31m");
    assert_eq!(level_color(Level::Warn), "\u{1b}[33m");
    assert_eq!(level_color(Level::Info), "\u{1b}[32m");
    assert_eq!(level_color(Level::Debug), "\u{1b}[36m");
    assert_eq!(level_color(Level::Trace), "\u{1b}[35m");
}

#[test]
fn durations_are_told_in_micro_or_milliseconds() {
    assert_eq!(elapsed_str(0, "0.00"), "0µs");
    assert_eq!(elapsed_str(999, "1.00"), "999µs");
    assert_eq!(elapsed_str(1000, "1.00"), "1.00ms");
    assert_eq!(elapsed_str(12340, "12.34"), "12.34ms");
}
