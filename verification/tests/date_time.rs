use feedwatch::date_time::DateTime;
use feedwatch::order::{newest_first_order, oldest_first_order};

fn at(secs: i64) -> DateTime {
    DateTime { secs, nanos: 0 }
}

#[test]
fn parse_rfc2822_reads_a_date() {
    let date = DateTime::parse_rfc2822("Wed, 18 Feb 2015 23:16:09 GMT");
    assert_eq!(date, Some(DateTime { secs: 1_424_301_369, nanos: 0 }));
}

#[test]
fn parse_rfc2822_counts_from_the_epoch() {
    let date = DateTime::parse_rfc2822("Thu, 01 Jan 1970 00:00:00 +0000");
    assert_eq!(date, Some(DateTime { secs: 0, nanos: 0 }));
}

#[test]
fn parse_rfc2822_applies_the_offset() {
    let east = DateTime::parse_rfc2822("Wed, 01 Jan 2020 01:00:00 +0100");
    let utc = DateTime::parse_rfc2822("Wed, 01 Jan 2020 00:00:00 +0000");
    let west = DateTime::parse_rfc2822("Tue, 31 Dec 2019 19:00:00 -0500");
    assert_eq!(utc, Some(DateTime { secs: 1_577_836_800, nanos: 0 }));
    assert_eq!(east, utc);
    assert_eq!(west, utc);
}

#[test]
fn parse_rfc2822_rejects_what_is_no_date() {
    assert_eq!(DateTime::parse_rfc2822(""), None);
    assert_eq!(DateTime::parse_rfc2822("yesterday"), None);
    assert_eq!(DateTime::parse_rfc2822("2020-01-01T00:00:00Z"), None);
    assert_eq!(DateTime::parse_rfc2822("Wed, 32 Jan 2020 00:00:00 +0000"), None);
}

#[test]
fn dates_compare_by_seconds_then_nanoseconds() {
    let early = DateTime { secs: 10, nanos: 999_999_999 };
    let late = DateTime { secs: 11, nanos: 0 };
    let later = DateTime { secs: 11, nanos: 1 };
    assert!(early.is_before(&late));
    assert!(late.is_before(&later));
    assert!(later.is_after(&early));
    assert!(!late.is_before(&late));
    assert!(!late.is_after(&late));
    assert!(!later.is_before(&late));
    assert!(early < late && late < later);
    assert_eq!(late.max(early), late);
}

#[test]
fn dates_before_the_epoch_come_first() {
    let before = DateTime { secs: -1, nanos: 500 };
    let epoch = DateTime { secs: 0, nanos: 0 };
    assert!(before.is_before(&epoch));
    assert!(epoch.is_after(&before));
}

#[test]
fn oldest_first_order_sorts_ascending() {
    let dates = vec![at(3), at(1), at(2)];
    assert_eq!(oldest_first_order(&dates), vec![1, 2, 0]);
}

#[test]
fn newest_first_order_sorts_descending() {
    let dates = vec![at(1), at(3), at(2)];
    assert_eq!(newest_first_order(&dates), vec![1, 2, 0]);
}

#[test]
fn orders_keep_equal_dates_in_place() {
    let dates = vec![at(5), at(7), at(5), at(7), at(5)];
    assert_eq!(oldest_first_order(&dates), vec![0, 2, 4, 1, 3]);
    assert_eq!(newest_first_order(&dates), vec![1, 3, 0, 2, 4]);
}

#[test]
fn orders_tell_nanoseconds_apart() {
    let dates = vec![
        DateTime { secs: 1, nanos: 2 },
        DateTime { secs: 1, nanos: 1 },
        DateTime { secs: 0, nanos: 9 },
    ];
    assert_eq!(oldest_first_order(&dates), vec![2, 1, 0]);
    assert_eq!(newest_first_order(&dates), vec![0, 1, 2]);
}

#[test]
fn orders_of_nothing_are_empty() {
    let dates: Vec<DateTime> = Vec::new();
    assert_eq!(oldest_first_order(&dates), Vec::<usize>::new());
    assert_eq!(newest_first_order(&dates), Vec::<usize>::new());
    assert_eq!(oldest_first_order(&vec![at(4)]), vec![0]);
    assert_eq!(newest_first_order(&vec![at(4)]), vec![0]);
}

#[test]
fn a_leap_second_comes_after_the_second_before_it() {
    let before = DateTime::parse_rfc2822("Sat, 31 Dec 2016 23:59:59 +0000").unwrap();
    let leap = DateTime::parse_rfc2822("Sat, 31 Dec 2016 23:59:60 +0000").unwrap();
    let after = DateTime::parse_rfc2822("Sun, 01 Jan 2017 00:00:00 +0000").unwrap();
    assert_eq!(before, DateTime { secs: 1_483_228_799, nanos: 0 });
    assert_eq!(leap, DateTime { secs: 1_483_228_799, nanos: 1_000_000_000 });
    assert_eq!(after, DateTime { secs: 1_483_228_800, nanos: 0 });
    assert!(before.is_before(&leap) && leap.is_before(&after));
    assert!(before < leap && leap < after);
}

#[test]
fn to_string_writes_the_instant_in_utc() {
    let date = DateTime::parse_rfc2822("Wed, 18 Feb 2015 23:16:09 GMT").unwrap();
    assert_eq!(date.to_string(), Some("2015-02-18T23:16:09+00:00".to_string()));
    let east = DateTime::parse_rfc2822("Wed, 01 Jan 2020 01:00:00 +0100").unwrap();
    assert_eq!(east.to_string(), Some("2020-01-01T00:00:00+00:00".to_string()));
    assert_eq!(at(0).to_string(), Some("1970-01-01T00:00:00+00:00".to_string()));
    assert_eq!(at(-1).to_string(), Some("1969-12-31T23:59:59+00:00".to_string()));
}

#[test]
fn to_string_writes_the_fraction_of_a_second() {
    let half = DateTime { secs: 1_577_836_800, nanos: 500_000_000 };
    assert_eq!(half.to_string(), Some("2020-01-01T00:00:00.500+00:00".to_string()));
    let leap = DateTime { secs: 1_483_228_799, nanos: 1_000_000_000 };
    assert_eq!(leap.to_string(), Some("2016-12-31T23:59:60+00:00".to_string()));
}

#[test]
fn to_string_has_no_text_for_what_cannot_be_a_date() {
    assert_eq!(DateTime { secs: i64::MAX, nanos: 0 }.to_string(), None);
    assert_eq!(DateTime { secs: i64::MIN, nanos: 0 }.to_string(), None);
    assert_eq!(DateTime { secs: 0, nanos: 2_000_000_000 }.to_string(), None);
    assert_eq!(DateTime { secs: 0, nanos: 1_000_000_000 }.to_string(), None);
}
