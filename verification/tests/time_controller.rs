use std::time::Duration;

use calaos_core::io_config::{Date, InputKind};
use calaos_core::time_controller::{
    lookup_millis, next_wait, order_durations, target_of, to_duration, to_ordered_durations, unwrap_date, until,
    LocalLookup, LocalTime,
};

fn date(year: Option<i32>, month: Option<u32>, day: Option<u32>, hour: u32, min: u32, sec: u32) -> Date {
    Date { year, month, day, hour, min, sec }
}

#[test]
fn date_to_durations() {
    let now = LocalTime::at(2020, 1, 1, 0, 0, 0).unwrap();
    let d1 = date(Some(2020), Some(1), Some(1), 1, 0, 0);
    let d2 = date(Some(2020), Some(1), Some(1), 0, 1, 0);
    // d3 should be ignored as < now
    let d3 = date(Some(2019), Some(1), Some(1), 0, 1, 0);
    let d4 = date(None, None, None, 0, 1, 1);
    let durations = to_ordered_durations(&now, &vec![("d1", d1), ("d2", d2), ("d3", d3), ("d4", d4)]);
    let durations: Vec<(&str, Duration)> =
        durations.into_iter().map(|(k, ms)| (k, Duration::from_millis(ms))).collect();
    assert!(
        durations
            == vec![
                ("d2", Duration::from_secs(60)),
                ("d4", Duration::from_secs(61)),
                ("d1", Duration::from_secs(3600))
            ]
    );
}

#[test]
fn local_time_keeps_its_date() {
    let t = LocalTime::at(2021, 6, 15, 12, 30, 0).unwrap();
    assert_eq!((t.year, t.month, t.day), (2021, 6, 15));
    assert!(LocalTime::at(2021, 2, 30, 0, 0, 0).is_none());
    assert!(LocalTime::at(2021, 1, 1, 25, 0, 0).is_none());
}

#[test]
fn local_time_millis_advance_with_the_clock() {
    let a = LocalTime::at(2020, 1, 1, 0, 0, 0).unwrap();
    let b = LocalTime::at(2020, 1, 1, 0, 0, 1).unwrap();
    assert_eq!(b.millis - a.millis, 1000);
}

#[test]
fn target_fills_in_today() {
    let now = LocalTime { year: 2022, month: 3, day: 4, millis: 0 };
    assert_eq!(target_of(&now, &date(None, None, None, 5, 6, 7)), (2022, 3, 4, 5, 6, 7));
    assert_eq!(target_of(&now, &date(Some(2030), None, Some(9), 5, 6, 7)), (2030, 3, 9, 5, 6, 7));
}

#[test]
fn until_counts_forward_only() {
    assert_eq!(until(1000, Some(4000)), Some(3000));
    assert_eq!(until(1000, Some(1000)), Some(0));
    assert_eq!(until(1000, Some(999)), None);
    assert_eq!(until(1000, None), None);
    assert_eq!(until(i64::MIN, Some(i64::MAX)), Some(u64::MAX));
}

#[test]
fn duration_of_a_passed_time_is_none() {
    let now = LocalTime::at(2020, 1, 1, 12, 0, 0).unwrap();
    assert_eq!(to_duration(&now, &date(None, None, None, 11, 0, 0)), None);
    assert_eq!(to_duration(&now, &date(None, None, None, 12, 0, 0)), Some(0));
    assert_eq!(to_duration(&now, &date(None, None, None, 13, 0, 0)), Some(3_600_000));
}

#[test]
fn ordering_is_stable_and_drops_missing() {
    let v = vec![("a", Some(5)), ("b", None), ("c", Some(3)), ("d", Some(5)), ("e", Some(0))];
    assert_eq!(order_durations(&v), vec![("e", 0), ("c", 3), ("a", 5), ("d", 5)]);
}

#[test]
fn waits_for_the_first_or_a_second() {
    assert_eq!(next_wait(&vec![]), 1000);
    assert_eq!(next_wait(&vec![("x", 42), ("y", 50)]), 42);
}

#[test]
fn date_of_a_time_input() {
    let d = date(Some(2020), None, None, 1, 2, 3);
    assert_eq!(unwrap_date(&InputKind::InputTime(d)), d);
}

#[test]
fn local_time_of_known_millis() {
    assert_eq!(
        LocalTime::of_millis(2020, 1, 2, Some(86_400_000)),
        Some(LocalTime { year: 2020, month: 1, day: 2, millis: 86_400_000 })
    );
    assert_eq!(LocalTime::of_millis(2020, 1, 2, None), None);
    assert!(LocalTime::at(2021, 13, 1, 0, 0, 0).is_none());
    assert!(LocalTime::at(2021, 1, 32, 0, 0, 0).is_none());
    assert!(LocalTime::at(2021, 1, 1, 0, 60, 0).is_none());
    assert!(LocalTime::at(2021, 1, 1, 0, 0, 60).is_none());
}

#[test]
fn out_of_range_times_never_come() {
    assert!(LocalTime::at(2021, 0, 1, 0, 0, 0).is_none());
    assert!(LocalTime::at(2021, 1, 0, 0, 0, 0).is_none());
    let now = LocalTime::at(2020, 1, 1, 0, 0, 0).unwrap();
    assert_eq!(to_duration(&now, &date(None, None, None, 24, 0, 0)), None);
    assert_eq!(to_duration(&now, &date(None, Some(13), None, 1, 0, 0)), None);
    let r = to_ordered_durations(&now, &vec![("bad", date(None, None, None, 0, 61, 0)), ("ok", date(None, None, None, 0, 0, 5))]);
    assert_eq!(r, vec![("ok", 5000)]);
}

#[test]
fn only_a_single_moment_is_a_time() {
    assert_eq!(lookup_millis(LocalLookup::Single(42)), Some(42));
    assert_eq!(lookup_millis(LocalLookup::Ambiguous(1, 2)), None);
    assert_eq!(lookup_millis(LocalLookup::NoTime), None);
}

#[test]
fn local_times_are_within_a_day_of_utc() {
    // 2020-01-01T00:00:00 read as UTC is 1577836800000 ms after the epoch.
    let t = LocalTime::at(2020, 1, 1, 0, 0, 0).unwrap();
    assert!((t.millis - 1_577_836_800_000).abs() < 86_400_000);
}
