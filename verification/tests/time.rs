use lettersmith::time::Time;
use lettersmith::time::time_string;

#[test]
fn test_time_string_format() {
    let t = Time { year: 2020, month: 11, day: 10, secs: 92 };
    assert_eq!(time_string(&t), "2020-11-10T00:01:32Z");
}

#[test]
fn test_time_string_pads_small_years() {
    let t = Time { year: 33, month: 1, day: 2, secs: 0 };
    assert_eq!(time_string(&t), "0033-01-02T00:00:00Z");
}

#[test]
fn test_parse_rfc3339() {
    let t = Time::parse_rfc3339("2012-12-12T12:12:12Z").unwrap();
    assert_eq!(t, Time { year: 2012, month: 12, day: 12, secs: 12 * 3600 + 12 * 60 + 12 });
    assert!(Time::parse_rfc3339("not a date").is_none());
}

#[test]
fn test_time_order() {
    let early = Time { year: 2020, month: 1, day: 1, secs: 0 };
    let late = Time { year: 2020, month: 1, day: 1, secs: 1 };
    assert!(early.le(&late));
    assert!(!late.le(&early));
    assert!(early.le(&early));
}
