//! Tests of the scheduler task timer-field parsing.

use std::time::Duration;

use mram_service::sched::{parse_hms_field, App, SchedulerError, Task};

#[test]
fn test_parse_seconds() {
    assert_eq!(
        parse_hms_field("21s".to_owned()),
        Ok(Duration::from_secs(21))
    );
}

#[test]
fn test_parse_minutes() {
    assert_eq!(
        parse_hms_field("3m".to_owned()),
        Ok(Duration::from_secs(180))
    );
}

#[test]
fn test_parse_hours() {
    assert_eq!(
        parse_hms_field("2h".to_owned()),
        Ok(Duration::from_secs(7200))
    );
}

#[test]
fn test_parse_minutes_seconds() {
    assert_eq!(
        parse_hms_field("1m 1s".to_owned()),
        Ok(Duration::from_secs(61))
    );
}

#[test]
fn test_parse_hours_minutes() {
    assert_eq!(
        parse_hms_field("3h 10m".to_owned()),
        Ok(Duration::from_secs(11400))
    );
}

#[test]
fn test_parse_hours_seconds() {
    assert_eq!(
        parse_hms_field("5h 44s".to_owned()),
        Ok(Duration::from_secs(18044))
    );
}

#[test]
fn test_parse_hours_minutes_seconds() {
    assert_eq!(
        parse_hms_field("2h 2m 2s".to_owned()),
        Ok(Duration::from_secs(7322))
    );
}

#[test]
fn test_parse_bad_unit() {
    let r = parse_hms_field("21x".to_owned());
    match r {
        Err(SchedulerError::HmsParseError { field, .. }) => assert_eq!(field, "21x"),
        other => panic!("expected an hms parse error, got {:?}", other),
    }
}

#[test]
fn test_parse_bad_number() {
    assert!(parse_hms_field("s".to_owned()).is_err());
    assert!(parse_hms_field("".to_owned()).is_err());
}

fn task(delay: Option<&str>, time: Option<&str>, period: Option<&str>) -> Task {
    Task {
        description: "test task".to_owned(),
        delay: delay.map(|s| s.to_owned()),
        time: time.map(|s| s.to_owned()),
        period: period.map(|s| s.to_owned()),
        app: App {
            name: "test-app".to_owned(),
            args: None,
            config: None,
        },
    }
}

#[test]
fn test_get_period() {
    let t = task(Some("1s"), None, Some("2h"));
    assert_eq!(t.get_period(), Ok(Some(Duration::from_secs(7200))));
    let t = task(Some("1s"), None, None);
    assert_eq!(t.get_period(), Ok(None));
}

#[test]
fn test_get_duration_both_fields() {
    let t = task(Some("1s"), Some("2030-01-01 00:00:00"), None);
    assert!(matches!(
        t.get_duration(),
        Err(SchedulerError::TaskParseError { .. })
    ));
}

#[test]
fn test_get_duration_at_time() {
    // 1970-01-02 00:00:00 UTC is 86400 seconds after the epoch.
    let t = task(None, Some("1970-01-02 00:00:00"), None);
    assert_eq!(t.get_duration_at(0), Ok(Duration::from_secs(86400)));
    // The same start time is in the past a year later.
    assert!(matches!(
        t.get_duration_at(40_000_000),
        Err(SchedulerError::TaskTimeError { .. })
    ));
    // And beyond ninety days from just after the epoch.
    assert!(matches!(
        t.get_duration_at(-10_000_000),
        Err(SchedulerError::TaskTimeError { .. })
    ));
}

#[test]
fn test_get_duration_neither_field() {
    let t = task(None, None, None);
    assert!(matches!(
        t.get_duration(),
        Err(SchedulerError::TaskParseError { .. })
    ));
}
