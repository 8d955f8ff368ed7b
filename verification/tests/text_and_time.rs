//! Reading and writing texts and instants.
use flowlite::format::{counted, duration, optional_timestamp, timestamp};
use flowlite::limits::{count, is_full, limit_rows};
use flowlite::status::JobRunStatus;
use flowlite::text::{
    decimal_i64, is_before, join, pad_right, parse_i64, same, shorten, to_upper, trim,
};
use flowlite::time::Timestamp;
use flowlite::vars::Vars;

#[test]
fn an_instant_is_written_in_utc() {
    let at = Timestamp::new(1_788_836_401, 999_999_999).unwrap();
    assert_eq!(timestamp(&at), "2026-09-08 03:00:01");
    assert_eq!(optional_timestamp(&None), None);
    assert!(Timestamp::new(i64::MAX, 0).is_none());
    assert!(Timestamp::new(0, 1_000_000_000).is_none());
    let before = Timestamp::new(-1, 500_000_000).unwrap();
    let epoch = Timestamp::new(0, 0).unwrap();
    assert!(before.is_before(&epoch));
    assert_eq!(epoch.millis_since(&before), 500);
    assert_eq!(before.seconds_since(&epoch), 0);
}

#[test]
fn a_duration_is_written_from_its_largest_part() {
    assert_eq!(duration(0), "0s");
    assert_eq!(duration(-5), "0s");
    assert_eq!(duration(59), "59s");
    assert_eq!(duration(276), "4m 36s");
    assert_eq!(duration(7384), "2h 3m 4s");
    assert_eq!(counted(1, "task"), "1 task");
    assert_eq!(counted(2, "task"), "2 tasks");
}

#[test]
fn texts_are_cut_padded_and_joined() {
    assert_eq!(shorten("abcdef", 6), "abcdef");
    assert_eq!(shorten("abcdefg", 6), "abcde…");
    assert_eq!(pad_right("ab", 4), "ab  ");
    assert_eq!(pad_right("abcde", 4), "abcde");
    assert_eq!(join(&vec!["a".to_string(), "b".to_string()], ", "), "a, b");
    assert_eq!(join(&vec![], ", "), "");
    assert_eq!(trim(" \u{a0}x y\u{2003}\n"), "x y");
    assert_eq!(to_upper("aé-z"), "Aé-Z");
    assert!(same("é", "é") && !same("é", "e"));
    assert!(is_before("a", "ab") && is_before("Z", "a") && !is_before("b", "b"));
    assert!(!is_before("é", "z") && is_before("\u{ffff}", "\u{10000}"));
}

#[test]
fn numbers_are_read_as_they_are_written() {
    for n in [i64::MIN, -1, 0, 7, 10, i64::MAX] {
        assert_eq!(decimal_i64(n), n.to_string());
        assert_eq!(parse_i64(&n.to_string()), Some(n));
    }
    assert_eq!(parse_i64("+5"), "+5".parse::<i64>().ok());
    assert_eq!(parse_i64(""), None);
    assert_eq!(parse_i64("-"), None);
    assert_eq!(parse_i64("9223372036854775808"), None);
    assert_eq!(parse_i64("1 2"), None);
}

#[test]
fn a_status_is_named_as_it_is_stored() {
    for status in JobRunStatus::ALL {
        assert_eq!(JobRunStatus::parse(status.as_str()), Some(status));
    }
    assert_eq!(JobRunStatus::parse("pending"), None);
    assert_eq!(JobRunStatus::TimedOut.word(), "timed out");
}

#[test]
fn ceilings_are_counted_by_name() {
    let configured = vec![("a".to_string(), 2), ("b".to_string(), 0)];
    let rows = limit_rows(4, 4, &configured, &vec![("a".to_string(), 1), ("b".to_string(), 9)]);
    assert_eq!(rows[0].name, "global");
    assert!(is_full(&rows[0]) && !is_full(&rows[1]) && !is_full(&rows[2]));
    assert_eq!(count(&configured, "a"), Some(2));
    assert_eq!(count(&configured, "c"), None);
}

#[test]
fn a_later_variable_replaces_an_earlier_one() {
    let mut vars = Vars::from_entries(&vec![
        ("A".to_string(), "1".to_string()),
        ("B".to_string(), "2".to_string()),
        ("A".to_string(), "3".to_string()),
    ]);
    assert_eq!(vars.get("A").unwrap(), "3");
    assert_eq!(vars.entries().len(), 2);
    vars.insert("C", "4");
    vars.remove("B");
    vars.remove("D");
    assert!(vars.get("B").is_none());
    assert_eq!(vars.entries().len(), 2);
}
