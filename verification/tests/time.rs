use barzel::time::{file_stamp, Timestamp};

#[test]
fn stamps_show_the_second() {
    assert_eq!(file_stamp(Timestamp { secs: 0, nanos: 0 }).as_deref(), Some("19700101-000000"));
    let t = Timestamp { secs: 1_736_942_400, nanos: 999_999_999 };
    assert_eq!(file_stamp(t).as_deref(), Some("20250115-120000"));
}

#[test]
fn times_out_of_range_have_no_stamp() {
    assert_eq!(file_stamp(Timestamp { secs: i64::MAX, nanos: 0 }), None);
}

#[test]
fn later_times_come_after() {
    let t = |secs: i64, nanos: u32| Timestamp { secs, nanos };
    assert!(t(1, 0).after(t(0, 9)));
    assert!(t(1, 2).after(t(1, 1)));
    assert!(!t(1, 1).after(t(1, 1)));
}
