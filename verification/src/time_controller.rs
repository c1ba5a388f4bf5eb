//! Time inputs: how long until each configured time of day comes, in the
//! order in which they come. The calendar and the local time zone are
//! chrono's; waiting is the application's job.

use vstd::prelude::*;

use chrono::{MappedLocalTime, TimeZone, Local};

use crate::io_config::{Date, InputKind};

verus! {

/// The local date and time of a moment: its calendar date in the local time
/// zone and its milliseconds since the Unix epoch.
#[derive(Clone, Copy, Debug, PartialEq, Eq)]
pub struct LocalTime {
    pub year: i32,
    pub month: u32,
    pub day: u32,
    pub millis: i64,
}

/// A month, day or time of day out of range: no date and time has it
/// (month or day 0, month over 12, day over 31, hour over 23, minute or
/// second over 59).
pub open spec fn out_of_range(month: u32, day: u32, hour: u32, min: u32, sec: u32) -> bool {
    month == 0 || month > 12 || day == 0 || day > 31 || hour >= 24 || min >= 60 || sec >= 60
}

/// What the local time zone makes of a date and time: one moment, two (the
/// time comes twice where the clocks go back), or none (no such date or
/// time, or the clocks skip it); a moment as milliseconds since the Unix
/// epoch.
#[derive(Clone, Copy, Debug, PartialEq, Eq)]
pub enum LocalLookup {
    Single(i64),
    Ambiguous(i64, i64),
    NoTime,
}

/// Days from 1970-01-01 to `year-month-day` in the proleptic Gregorian
/// calendar (negative before it).
pub open spec fn days_from_civil(year: int, month: int, day: int) -> int {
    let y = if month <= 2 {
        year - 1
    } else {
        year
    };
    let era = y / 400;
    let yoe = y - era * 400;
    let mp = if month > 2 {
        month - 3
    } else {
        month + 9
    };
    let doy = (153 * mp + 2) / 5 + day - 1;
    let doe = yoe * 365 + yoe / 4 - yoe / 100 + doy;
    era * 146097 + doe - 719468
}

/// The calendar count agrees with known dates: the Unix epoch, the first
/// day of 2020, the day after the leap day of 2000, and a date before the
/// epoch.
pub proof fn lemma_days_from_civil_examples()
    ensures
        days_from_civil(1970, 1, 1) == 0,
        days_from_civil(2020, 1, 1) == 18262,
        days_from_civil(2000, 3, 1) == 11017,
        days_from_civil(1969, 12, 31) == -1,
{
}

/// Milliseconds from 1970-01-01T00:00:00 to the date and time, read as
/// UTC.
pub open spec fn naive_millis(year: i32, month: u32, day: u32, hour: u32, min: u32, sec: u32) -> int {
    days_from_civil(year as int, month as int, day as int) * 86_400_000 + (hour * 3600 + min * 60 + sec)
        * 1000
}

/// A moment at the local date and time: it is within a day of that date
/// and time read as UTC, as every UTC offset is under a day.
pub open spec fn moment_at(m: i64, year: i32, month: u32, day: u32, hour: u32, min: u32, sec: u32) -> bool {
    let n = naive_millis(year, month, day, hour, min, sec);
    n - 86_400_000 < m && m < n + 86_400_000
}

/// Every moment that the lookup gives is at the local date and time.
pub open spec fn lookup_at(l: LocalLookup, year: i32, month: u32, day: u32, hour: u32, min: u32, sec: u32) -> bool {
    match l {
        LocalLookup::Single(m) => moment_at(m, year, month, day, hour, min, sec),
        LocalLookup::Ambiguous(a, b) => moment_at(a, year, month, day, hour, min, sec) && moment_at(
            b,
            year,
            month,
            day,
            hour,
            min,
            sec,
        ),
        LocalLookup::NoTime => true,
    }
}

/// chrono's `Local.with_ymd_and_hms(..)`, each moment it gives taken by
/// `timestamp_millis`. Claimed: `NoTime` for a month, day or time of day out
/// of range, which chrono's `NaiveDate::from_ymd_opt` and
/// `NaiveTime::from_hms_opt` refuse; and every moment given is within a day
/// of the date and time read as UTC, since chrono builds it as that local
/// date and time minus the zone's `FixedOffset`, which `east_opt` keeps
/// strictly within a day. Which moments, and whether there are any, depend
/// on the time zone of the machine and are not stated.
#[verifier::external_body]
fn local_lookup(year: i32, month: u32, day: u32, hour: u32, min: u32, sec: u32) -> (r: LocalLookup)
    ensures
        out_of_range(month, day, hour, min, sec) ==> r is NoTime,
        lookup_at(r, year, month, day, hour, min, sec),
{
    match Local.with_ymd_and_hms(year, month, day, hour, min, sec) {
        MappedLocalTime::Single(t) => LocalLookup::Single(t.timestamp_millis()),
        MappedLocalTime::Ambiguous(a, b) => LocalLookup::Ambiguous(a.timestamp_millis(), b.timestamp_millis()),
        MappedLocalTime::None => LocalLookup::NoTime,
    }
}

/// The moment a lookup gives, when it gives exactly one: a local time that
/// comes twice is taken as no time, as one that never comes.
pub open spec fn lookup_millis_spec(l: LocalLookup) -> Option<i64> {
    match l {
        LocalLookup::Single(m) => Some(m),
        _ => None,
    }
}

/// The moment a lookup gives, when it gives exactly one; `None` for a time
/// that comes twice or never.
pub fn lookup_millis(l: LocalLookup) -> (r: Option<i64>)
    ensures
        r == lookup_millis_spec(l),
{
    match l {
        LocalLookup::Single(m) => Some(m),
        LocalLookup::Ambiguous(_, _) => None,
        LocalLookup::NoTime => None,
    }
}

/// The local time on `year-month-day` whose milliseconds since the Unix
/// epoch are `millis`, when they are known.
pub open spec fn of_millis_spec(year: i32, month: u32, day: u32, millis: Option<i64>) -> Option<
    LocalTime,
> {
    match millis {
        Some(m) => Some(LocalTime { year, month, day, millis: m }),
        None => None,
    }
}

impl LocalTime {
    /// The local time on `year-month-day` whose milliseconds since the Unix
    /// epoch are `millis`; `None` when they are not known.
    pub fn of_millis(year: i32, month: u32, day: u32, millis: Option<i64>) -> (r: Option<LocalTime>)
        ensures
            r == of_millis_spec(year, month, day, millis),
    {
        match millis {
            Some(m) => Some(LocalTime { year, month, day, millis: m }),
            None => None,
        }
    }

    /// The local time `year-month-day hour:min:sec`, or `None` where that is
    /// no valid date and time or falls in a gap or an overlap of the local
    /// time zone: the local time of that date with the milliseconds that
    /// the local time zone gives it.
    pub fn at(year: i32, month: u32, day: u32, hour: u32, min: u32, sec: u32) -> (r: Option<
        LocalTime,
    >)
        ensures
            exists|l: LocalLookup|
                lookup_at(l, year, month, day, hour, min, sec) && r == #[trigger] of_millis_spec(
                    year,
                    month,
                    day,
                    lookup_millis_spec(l),
                ),
            r matches Some(t) ==> t.year == year && t.month == month && t.day == day,
            out_of_range(month, day, hour, min, sec) ==> r is None,
    {
        let l = local_lookup(year, month, day, hour, min, sec);
        LocalTime::of_millis(year, month, day, lookup_millis(l))
    }
}

/// The date and time that a time input stands for, seen at `now`: the
/// year, month and day that the input leaves out are today's.
pub open spec fn target_spec(now: LocalTime, date: Date) -> (i32, u32, u32, u32, u32, u32) {
    (
        match date.year {
            Some(y) => y,
            None => now.year,
        },
        match date.month {
            Some(m) => m,
            None => now.month,
        },
        match date.day {
            Some(d) => d,
            None => now.day,
        },
        date.hour,
        date.min,
        date.sec,
    )
}

/// The date and time that `date` stands for, seen at `now`.
pub fn target_of(now: &LocalTime, date: &Date) -> (r: (i32, u32, u32, u32, u32, u32))
    ensures
        r == target_spec(*now, *date),
{
    let year = match date.year {
        Some(y) => y,
        None => now.year,
    };
    let month = match date.month {
        Some(m) => m,
        None => now.month,
    };
    let day = match date.day {
        Some(d) => d,
        None => now.day,
    };
    (year, month, day, date.hour, date.min, date.sec)
}

/// Milliseconds from `from` until `to`; `None` where there is no `to` or it
/// lies before `from`.
pub open spec fn until_spec(from: i64, to: Option<i64>) -> Option<u64> {
    match to {
        Some(t) => if from <= t {
            Some((t - from) as u64)
        } else {
            None
        },
        None => None,
    }
}

/// Milliseconds from `from` until `to`, where `to` is known and not before
/// `from`.
pub fn until(from: i64, to: Option<i64>) -> (r: Option<u64>)
    ensures
        r == until_spec(from, to),
        r matches Some(d) ==> to matches Some(t) && d == t - from,
{
    match to {
        Some(t) => if from <= t {
            let d: i128 = t as i128 - from as i128;
            Some(d as u64)
        } else {
            None
        },
        None => None,
    }
}

/// The date of a time input.
pub fn unwrap_date(kind: &InputKind) -> (r: Date)
    requires
        kind is InputTime,
    ensures
        *kind == InputKind::InputTime(r),
{
    match kind {
        InputKind::InputTime(date) => *date,
        _ => {
            assert(false);
            Date { year: None, month: None, day: None, hour: 0, min: 0, sec: 0 }
        },
    }
}

/// Milliseconds from `now` until the local time that `date` stands for
/// (today's date where `date` leaves the year, month or day out); `None`
/// when that time has passed, or is no valid time in the local time zone,
/// or comes twice there.
pub fn to_duration(now: &LocalTime, date: &Date) -> (r: Option<u64>)
    ensures
        duration_fits(*now, *date, r),
        target_out_of_range(*now, *date) ==> r is None,
{
    let (year, month, day, hour, min, sec) = target_of(now, date);
    let to = lookup_millis(local_lookup(year, month, day, hour, min, sec));
    until(now.millis, to)
}

/// `d` is the duration from `now` until the date and time that `date`
/// stands for, by some lookup of that date and time in the local time zone.
pub open spec fn duration_fits(now: LocalTime, date: Date, d: Option<u64>) -> bool {
    let t = target_spec(now, date);
    exists|l: LocalLookup|
        lookup_at(l, t.0, t.1, t.2, t.3, t.4, t.5) && d == #[trigger] until_spec(now.millis, lookup_millis_spec(l))
}

/// Whether the date and time that `date` stands for at `now` has a month,
/// day or time of day out of range.
pub open spec fn target_out_of_range(now: LocalTime, date: Date) -> bool {
    let t = target_spec(now, date);
    out_of_range(t.1, t.2, t.3, t.4, t.5)
}

/// A time input and the milliseconds until it comes.
pub open spec fn due_of<'a>(x: (&'a str, Option<u64>)) -> Option<(&'a str, u64)> {
    match x.1 {
        Some(d) => Some((x.0, d)),
        None => None,
    }
}

/// Inserts `x` after every entry of a sorted `s` that does not come later.
pub open spec fn insert_sorted<'a>(s: Seq<(&'a str, u64)>, x: (&'a str, u64)) -> Seq<(&'a str, u64)>
    decreases s.len(),
{
    if s.len() == 0 {
        seq![x]
    } else if s.last().1 <= x.1 {
        s.push(x)
    } else {
        insert_sorted(s.drop_last(), x).push(s.last())
    }
}

/// The time inputs that come, by the time until they come; inputs that
/// come at the same time keep their order.
pub open spec fn ordered<'a>(s: Seq<(&'a str, Option<u64>)>) -> Seq<(&'a str, u64)>
    decreases s.len(),
{
    if s.len() == 0 {
        Seq::empty()
    } else {
        match due_of(s.last()) {
            Some(x) => insert_sorted(ordered(s.drop_last()), x),
            None => ordered(s.drop_last()),
        }
    }
}

pub open spec fn sorted_by_due<'a>(s: Seq<(&'a str, u64)>) -> bool {
    forall|i: int, j: int| 0 <= i < j < s.len() ==> s[i].1 <= s[j].1
}

fn insert_in_order<'a>(v: &mut Vec<(&'a str, u64)>, x: (&'a str, u64))
    ensures
        final(v)@ == insert_sorted(old(v)@, x),
{
    let mut i = v.len();
    proof {
        assert(old(v)@.take(i as int) =~= old(v)@);
        assert(insert_sorted(old(v)@, x) + old(v)@.skip(i as int) =~= insert_sorted(old(v)@, x));
    }
    while i > 0 && v[i - 1].1 > x.1
        invariant
            i <= old(v)@.len(),
            *v == *old(v),
            insert_sorted(old(v)@, x) == insert_sorted(old(v)@.take(i as int), x) + old(v)@.skip(
                i as int,
            ),
        decreases i,
    {
        proof {
            let s = old(v)@.take(i as int);
            assert(s.drop_last() =~= old(v)@.take(i - 1));
            assert(s.last() == old(v)@[i - 1]);
            assert(old(v)@.skip(i - 1) =~= seq![old(v)@[i - 1]] + old(v)@.skip(i as int));
            assert(insert_sorted(s, x) == insert_sorted(old(v)@.take(i - 1), x).push(old(v)@[i - 1]));
            assert(insert_sorted(old(v)@.take(i - 1), x).push(old(v)@[i - 1]) + old(v)@.skip(i as int)
                =~= insert_sorted(old(v)@.take(i - 1), x) + old(v)@.skip(i - 1));
        }
        i = i - 1;
    }
    proof {
        let s = old(v)@.take(i as int);
        if i > 0 {
            assert(s.last() == old(v)@[i - 1]);
            assert(insert_sorted(s, x) == s.push(x));
        } else {
            assert(s =~= Seq::<(&'a str, u64)>::empty());
        }
        assert(s.push(x) + old(v)@.skip(i as int) =~= old(v)@.insert(i as int, x));
    }
    v.insert(i, x);
}

/// Orders the time inputs that come by the time until they come (inputs
/// that come at the same time keep their order); inputs with no time are
/// left out.
pub fn order_durations<'a>(durations: &Vec<(&'a str, Option<u64>)>) -> (r: Vec<(&'a str, u64)>)
    ensures
        r@ == ordered(durations@),
{
    let mut res: Vec<(&'a str, u64)> = Vec::new();
    let mut i: usize = 0;
    while i < durations.len()
        invariant
            i <= durations@.len(),
            res@ == ordered(durations@.take(i as int)),
        decreases durations@.len() - i,
    {
        proof {
            assert(durations@.take(i + 1).drop_last() =~= durations@.take(i as int));
            assert(durations@.take(i + 1).last() == durations@[i as int]);
        }
        let (k, d) = durations[i];
        match d {
            Some(ms) => insert_in_order(&mut res, (k, ms)),
            None => {},
        }
        i = i + 1;
    }
    assert(durations@.take(i as int) =~= durations@);
    res
}

/// Each time input beside the milliseconds until it comes, as `ds` gives
/// them.
pub open spec fn paired<'a>(dates: Seq<(&'a str, Date)>, ds: Seq<Option<u64>>) -> Seq<
    (&'a str, Option<u64>),
> {
    Seq::new(dates.len(), |i: int| (dates[i].0, ds[i]))
}

/// The time inputs that come after `now`, by the milliseconds until they
/// come, the soonest first; inputs that come at the same time keep their
/// order, inputs whose time has passed are left out.
pub fn to_ordered_durations<'a>(now: &LocalTime, dates: &Vec<(&'a str, Date)>) -> (r: Vec<
    (&'a str, u64),
>)
    ensures
        exists|ds: Seq<Option<u64>>|
            {
                &&& ds.len() == dates@.len()
                &&& r@ == ordered(#[trigger] paired(dates@, ds))
                &&& forall|i: int|
                    0 <= i < ds.len() && target_out_of_range(*now, dates@[i].1) ==> (#[trigger] ds[i]) is None
                &&& forall|i: int| 0 <= i < ds.len() ==> duration_fits(*now, dates@[i].1, #[trigger] ds[i])
            },
        sorted_by_due(r@),
        forall|i: int|
            0 <= i < r@.len() ==> exists|j: int|
                0 <= j < dates@.len() && (#[trigger] r@[i]).0 == dates@[j].0,
{
    let mut durations: Vec<(&'a str, Option<u64>)> = Vec::new();
    let mut i: usize = 0;
    while i < dates.len()
        invariant
            i <= dates@.len(),
            durations@.len() == i,
            forall|j: int| 0 <= j < i ==> (#[trigger] durations@[j]).0 == dates@[j].0,
            forall|j: int|
                0 <= j < i && target_out_of_range(*now, dates@[j].1) ==> (#[trigger] durations@[j]).1 is None,
            forall|j: int| 0 <= j < i ==> duration_fits(*now, dates@[j].1, (#[trigger] durations@[j]).1),
        decreases dates@.len() - i,
    {
        let (k, date) = &dates[i];
        durations.push((*k, to_duration(now, date)));
        i = i + 1;
    }
    let r = order_durations(&durations);
    proof {
        let ds = Seq::new(durations@.len(), |j: int| durations@[j].1);
        assert(paired(dates@, ds) =~= durations@);
        assert(forall|j: int|
            0 <= j < ds.len() && target_out_of_range(*now, dates@[j].1) ==> (#[trigger] ds[j]) is None);
        assert(forall|j: int| 0 <= j < ds.len() ==> duration_fits(*now, dates@[j].1, #[trigger] ds[j]));
        lemma_ordered_sorted(durations@);
        lemma_ordered_keys(durations@);
        assert forall|a: int| 0 <= a < r@.len() implies exists|j: int|
            0 <= j < dates@.len() && (#[trigger] r@[a]).0 == dates@[j].0 by {
            let j = choose|j: int| 0 <= j < durations@.len() && (#[trigger] durations@[j]).0 == r@[a].0;
            assert(durations@[j].0 == dates@[j].0);
        }
    }
    r
}

/// Milliseconds to wait before looking at the time inputs again: until the
/// first of them comes, or a second when none is to come.
pub fn next_wait(ordered: &Vec<(&str, u64)>) -> (r: u64)
    ensures
        ordered@.len() == 0 ==> r == 1000,
        ordered@.len() > 0 ==> r == ordered@[0].1,
{
    if ordered.len() == 0 {
        1000
    } else {
        ordered[0].1
    }
}

proof fn lemma_insert_sorted(s: Seq<(&str, u64)>, x: (&str, u64))
    requires
        sorted_by_due(s),
    ensures
        sorted_by_due(insert_sorted(s, x)),
        insert_sorted(s, x).len() == s.len() + 1,
        forall|i: int|
            0 <= i < insert_sorted(s, x).len() ==> #[trigger] insert_sorted(s, x)[i] == x || s.contains(
                insert_sorted(s, x)[i],
            ),
    decreases s.len(),
{
    if s.len() > 0 && s.last().1 > x.1 {
        let p = s.drop_last();
        assert(sorted_by_due(p));
        lemma_insert_sorted(p, x);
        let q = insert_sorted(p, x);
        assert forall|i: int| 0 <= i < q.len() implies q[i].1 <= s.last().1 by {
            if q[i] != x {
                let k = choose|k: int| 0 <= k < p.len() && p[k] == q[i];
                assert(s[k] == p[k]);
            }
        }
        assert forall|i: int| 0 <= i < q.len() + 1 implies #[trigger] insert_sorted(s, x)[i] == x
            || s.contains(insert_sorted(s, x)[i]) by {
            if i < q.len() && q[i] != x {
                let k = choose|k: int| 0 <= k < p.len() && p[k] == q[i];
                assert(s[k] == q[i]);
            } else if i == q.len() {
                assert(s[s.len() - 1] == s.last());
            }
        }
    } else if s.len() > 0 {
        assert forall|i: int| 0 <= i < s.len() + 1 implies #[trigger] insert_sorted(s, x)[i] == x
            || s.contains(insert_sorted(s, x)[i]) by {
            if i < s.len() {
                assert(s[i] == insert_sorted(s, x)[i]);
            }
        }
    }
}

/// What `ordered` gives is sorted by the time until each input comes.
proof fn lemma_ordered_sorted(s: Seq<(&str, Option<u64>)>)
    ensures
        sorted_by_due(ordered(s)),
    decreases s.len(),
{
    if s.len() > 0 {
        lemma_ordered_sorted(s.drop_last());
        match due_of(s.last()) {
            Some(x) => lemma_insert_sorted(ordered(s.drop_last()), x),
            None => {},
        }
    }
}

proof fn lemma_ordered_keys(s: Seq<(&str, Option<u64>)>)
    ensures
        forall|i: int|
            0 <= i < ordered(s).len() ==> exists|j: int|
                0 <= j < s.len() && (#[trigger] s[j]).0 == (#[trigger] ordered(s)[i]).0,
    decreases s.len(),
{
    if s.len() > 0 {
        let p = s.drop_last();
        lemma_ordered_keys(p);
        lemma_ordered_sorted(p);
        let o = ordered(s);
        let op = ordered(p);
        match due_of(s.last()) {
            Some(x) => {
                lemma_insert_sorted(op, x);
                assert forall|i: int| 0 <= i < o.len() implies exists|j: int|
                    0 <= j < s.len() && (#[trigger] s[j]).0 == (#[trigger] o[i]).0 by {
                    if o[i] == x {
                        assert(s[s.len() - 1].0 == o[i].0);
                    } else {
                        let k = choose|k: int| 0 <= k < op.len() && op[k] == o[i];
                        let j = choose|j: int| 0 <= j < p.len() && (#[trigger] p[j]).0 == op[k].0;
                        assert(s[j] == p[j]);
                    }
                }
            },
            None => {
                assert forall|i: int| 0 <= i < o.len() implies exists|j: int|
                    0 <= j < s.len() && (#[trigger] s[j]).0 == (#[trigger] o[i]).0 by {
                    let j = choose|j: int| 0 <= j < p.len() && (#[trigger] p[j]).0 == op[i].0;
                    assert(s[j] == p[j]);
                }
            },
        }
    }
}

} // verus!
