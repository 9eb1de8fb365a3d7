use vstd::prelude::*;
use chrono::{Datelike, NaiveDate};

verus! {

// Dates are handled as day numbers in the proleptic Gregorian calendar,
// January 1 of year 1 being day 1 (chrono's `num_days_from_ce`).

/// Earliest year chrono's `NaiveDate` represents.
pub const MIN_YEAR: i32 = -262143;
/// Latest year chrono's `NaiveDate` represents.
pub const MAX_YEAR: i32 = 262142;

/// Day of the week of a day number: 0 is Monday, 6 is Sunday (January 1 of year 1 is a Monday).
pub open spec fn spec_weekday(day: int) -> int {
    (day - 1) % 7
}

/// Monday to Friday.
pub open spec fn spec_is_workday(day: int) -> bool {
    spec_weekday(day) < 5
}

/// Day of the week of `day`, Monday being 0.
pub fn weekday(day: i32) -> (w: u32)
    ensures
        w == spec_weekday(day as int),
        w < 7,
{
    // Shift by a multiple of 7 so the dividend is non-negative.
    let d: u64 = (day as i64 - 1 + 2_800_000_000i64) as u64;
    let w: u64 = d % 7;
    assert(w == (day as int - 1) % 7) by (nonlinear_arith)
        requires
            d == day as int - 1 + 7 * 400_000_000,
            w == d % 7,
    {
        assert((day as int - 1 + 7 * 400_000_000) % 7 == (day as int - 1) % 7);
    }
    w as u32
}

/// Whether `day` is a Monday to Friday.
pub fn is_workday(day: i32) -> (b: bool)
    ensures
        b == spec_is_workday(day as int),
{
    weekday(day) < 5
}

/// Whether `day` falls in one of the inclusive `(start, end)` day ranges.
pub open spec fn in_any_range(day: int, ranges: Seq<(i32, i32)>) -> bool {
    exists|k: int| 0 <= k < ranges.len() && (#[trigger] ranges[k]).0 <= day <= ranges[k].1
}

/// Number of days `d` in `start..=end` satisfying `pred`.
pub open spec fn count_days(start: int, end: int, pred: spec_fn(int) -> bool) -> nat
    decreases end - start + 1,
{
    if end < start {
        0
    } else {
        count_days(start, end - 1, pred) + if pred(end) { 1nat } else { 0nat }
    }
}

proof fn lemma_count_days_bounded(start: int, end: int, pred: spec_fn(int) -> bool)
    ensures
        count_days(start, end, pred) <= if end < start { 0 } else { end - start + 1 },
    decreases end - start + 1,
{
    if end >= start {
        lemma_count_days_bounded(start, end - 1, pred);
    }
}

/// Workdays of `start..=end` that no absence covers.
pub open spec fn spec_count_workdays(start: int, end: int, absences: Seq<(i32, i32)>) -> nat {
    count_days(start, end, |d: int| spec_is_workday(d) && !in_any_range(d, absences))
}

fn covered_by_any(day: i32, ranges: &[(i32, i32)]) -> (b: bool)
    ensures
        b == in_any_range(day as int, ranges@),
{
    let mut k: usize = 0;
    while k < ranges.len()
        invariant
            0 <= k <= ranges@.len(),
            forall|j: int| 0 <= j < k ==> !((#[trigger] ranges@[j]).0 <= day <= ranges@[j].1),
        decreases ranges@.len() - k,
    {
        if ranges[k].0 <= day && day <= ranges[k].1 {
            return true;
        }
        k = k + 1;
    }
    false
}

/// Counts the workdays (Monday to Friday) of `start..=end` on which no absence falls.
pub fn count_workdays(start: i32, end: i32, absences: &[(i32, i32)]) -> (n: i64)
    requires
        end < i32::MAX,
    ensures
        n == spec_count_workdays(start as int, end as int, absences@),
{
    let ghost pred = |d: int| spec_is_workday(d) && !in_any_range(d, absences@);
    let mut workdays: i64 = 0;
    if end < start {
        return 0;
    }
    let mut current = start;
    while current <= end
        invariant
            start <= current <= end + 1,
            end < i32::MAX,
            workdays == count_days(start as int, current - 1, pred),
            pred == (|d: int| spec_is_workday(d) && !in_any_range(d, absences@)),
        decreases end - current + 1,
    {
        proof {
            lemma_count_days_bounded(start as int, current - 1, pred);
        }
        if is_workday(current) && !covered_by_any(current, absences) {
            workdays = workdays + 1;
        }
        current = current + 1;
    }
    workdays
}

/// Whether an absence `start..=end` overlaps a sprint; a sprint without both dates overlaps nothing.
pub open spec fn spec_absence_overlaps(absence: (i32, i32), sprint_start: Option<i32>, sprint_end: Option<i32>) -> bool {
    match (sprint_start, sprint_end) {
        (Some(s), Some(e)) => absence.0 <= e && absence.1 >= s,
        _ => false,
    }
}

/// Whether the absence overlaps the sprint's period.
pub fn absence_overlaps(absence: (i32, i32), sprint_start: Option<i32>, sprint_end: Option<i32>) -> (b: bool)
    ensures
        b == spec_absence_overlaps(absence, sprint_start, sprint_end),
{
    match (sprint_start, sprint_end) {
        (Some(s), Some(e)) => absence.0 <= e && absence.1 >= s,
        _ => false,
    }
}

/// Workdays of a sprint: the Monday-to-Friday days of its period that none of the
/// absences overlapping the sprint covers; 0 for a sprint without both dates.
pub open spec fn spec_sprint_workdays(sprint_start: Option<i32>, sprint_end: Option<i32>, absences: Seq<(i32, i32)>) -> int {
    match (sprint_start, sprint_end) {
        (Some(s), Some(e)) => spec_count_workdays(
            s as int,
            e as int,
            absences.filter(|a: (i32, i32)| spec_absence_overlaps(a, sprint_start, sprint_end)),
        ) as int,
        _ => 0,
    }
}

/// Counts a sprint's workdays, leaving out the days of absences that overlap it.
pub fn sprint_workdays(sprint_start: Option<i32>, sprint_end: Option<i32>, absences: &[(i32, i32)]) -> (n: i64)
    requires
        sprint_end matches Some(e) ==> e < i32::MAX,
    ensures
        n == spec_sprint_workdays(sprint_start, sprint_end, absences@),
{
    let ghost keep = |a: (i32, i32)| spec_absence_overlaps(a, sprint_start, sprint_end);
    let mut overlapping: Vec<(i32, i32)> = Vec::new();
    let mut i: usize = 0;
    while i < absences.len()
        invariant
            0 <= i <= absences@.len(),
            overlapping@ == absences@.take(i as int).filter(keep),
            keep == (|a: (i32, i32)| spec_absence_overlaps(a, sprint_start, sprint_end)),
        decreases absences@.len() - i,
    {
        proof {
            reveal_with_fuel(Seq::filter, 1);
            assert(absences@.take(i as int + 1).drop_last() =~= absences@.take(i as int));
        }
        if absence_overlaps(absences[i], sprint_start, sprint_end) {
            overlapping.push(absences[i]);
        }
        i = i + 1;
    }
    proof {
        assert(absences@.take(absences@.len() as int) =~= absences@);
    }
    match (sprint_start, sprint_end) {
        (Some(s), Some(e)) => count_workdays(s, e, overlapping.as_slice()),
        _ => 0,
    }
}

} // verus!

verus! {

/// Gregorian leap years.
pub open spec fn is_leap_year(year: int) -> bool {
    (year % 4 == 0 && year % 100 != 0) || year % 400 == 0
}

/// Number of days in a month of a year.
pub open spec fn days_in_month(year: int, month: int) -> int {
    if month == 2 {
        if is_leap_year(year) { 29 } else { 28 }
    } else if month == 4 || month == 6 || month == 9 || month == 11 {
        30
    } else {
        31
    }
}

/// Whether `year-month-day` is a date chrono's `NaiveDate` represents.
pub open spec fn valid_ymd(year: i32, month: u32, day: u32) -> bool {
    &&& MIN_YEAR <= year <= MAX_YEAR
    &&& 1 <= month <= 12
    &&& 1 <= day <= days_in_month(year as int, month as int)
}

/// The day number chrono gives `year-month-day`, or nothing for an invalid date.
pub uninterp spec fn ce_day_from_ymd(year: i32, month: u32, day: u32) -> Option<i32>;

/// Calls `chrono::NaiveDate::from_ymd_opt` and `Datelike::num_days_from_ce`.
/// Claimed: the result is `ce_day_from_ymd(year, month, day)`; it is present
/// exactly for valid dates in chrono's year range (`from_ymd_opt` returns
/// `None` on an out-of-range year or an invalid month or day); day numbers of
/// dates in that year range lie strictly between -96,000,000 and 96,000,000.
#[verifier::external_body]
fn ymd_to_ce_day(year: i32, month: u32, day: u32) -> (r: Option<i32>)
    ensures
        r == ce_day_from_ymd(year, month, day),
        r is Some <==> valid_ymd(year, month, day),
        r matches Some(n) ==> -96_000_000 < n < 96_000_000,
{
    match NaiveDate::from_ymd_opt(year, month, day) {
        Some(date) => Some(date.num_days_from_ce()),
        None => None,
    }
}

/// The text chrono writes for the date with day number `day` in the format
/// `%b %d` (abbreviated English month name, space, two-digit day of the
/// month), or nothing when the day number is out of range.
pub uninterp spec fn month_day_text(day: i32) -> Option<Seq<char>>;

/// Calls `chrono::NaiveDate::from_num_days_from_ce_opt`, then
/// `format("%b %d")` and `to_string`. Claimed: the result is `month_day_text(day)`.
#[verifier::external_body]
pub(crate) fn month_day_label(day: i32) -> (r: Option<String>)
    ensures
        match r {
            Some(t) => month_day_text(day) == Some(t@),
            None => month_day_text(day) is None,
        },
{
    match NaiveDate::from_num_days_from_ce_opt(day) {
        Some(date) => Some(date.format("%b %d").to_string()),
        None => None,
    }
}

/// The year chrono gives the date with day number `day`, or nothing when it is out of range.
pub uninterp spec fn year_of_ce_day(day: i32) -> Option<i32>;

/// Calls `chrono::NaiveDate::from_num_days_from_ce_opt` and `Datelike::year`.
/// Claimed: the result is `year_of_ce_day(day)`, and a year it yields lies in
/// chrono's year range (every `NaiveDate` does).
#[verifier::external_body]
fn ce_day_to_year(day: i32) -> (r: Option<i32>)
    ensures
        r == year_of_ce_day(day),
        r matches Some(y) ==> MIN_YEAR <= y <= MAX_YEAR,
{
    match NaiveDate::from_num_days_from_ce_opt(day) {
        Some(date) => Some(date.year()),
        None => None,
    }
}

/// First and last day of a calendar quarter (1 to 4): from the first day of
/// its first month to the day before the next quarter starts, or to
/// December 31 for the fourth quarter.
pub open spec fn spec_quarter_bounds(year: i32, quarter: u32) -> (int, int) {
    let start_month = ((quarter - 1) * 3 + 1) as u32;
    let start = ce_day_from_ymd(year, start_month, 1u32)->0 as int;
    let end = if quarter == 4 {
        ce_day_from_ymd(year, 12u32, 31u32)->0 as int
    } else {
        ce_day_from_ymd(year, (start_month + 3) as u32, 1u32)->0 - 1
    };
    (start, end)
}

/// First and last day of quarter `quarter` of `year`.
pub fn quarter_bounds(year: i32, quarter: u32) -> (bounds: (i32, i32))
    requires
        MIN_YEAR <= year <= MAX_YEAR,
        1 <= quarter <= 4,
    ensures
        bounds.0 as int == spec_quarter_bounds(year, quarter).0,
        bounds.1 as int == spec_quarter_bounds(year, quarter).1,
        -96_000_000 < bounds.0,
        bounds.1 < 96_000_000,
{
    let start_month = (quarter - 1) * 3 + 1;
    let start = match ymd_to_ce_day(year, start_month, 1) {
        Some(d) => d,
        None => 0,
    };
    let end = if quarter == 4 {
        match ymd_to_ce_day(year, 12, 31) {
            Some(d) => d,
            None => 0,
        }
    } else {
        match ymd_to_ce_day(year, start_month + 3, 1) {
            Some(d) => d - 1,
            None => 0,
        }
    };
    (start, end)
}

/// Workdays of `start..=end` that appear among `days`.
pub open spec fn covered_workdays(start: int, end: int, days: Seq<i32>) -> nat {
    count_days(start, end, |d: int| spec_is_workday(d) && days.contains(d as i32))
}

/// Workdays of `start..=end`.
pub open spec fn workdays_in(start: int, end: int) -> nat {
    count_days(start, end, |d: int| spec_is_workday(d))
}

/// A quarter counts as crunched when it has ended before `today`, has
/// workdays, and at least 90% of them (rounding the percentage down) carry a
/// pushed worklog.
pub open spec fn quarter_crunched(year: i32, quarter: u32, pushed_days: Seq<i32>, today: i32) -> bool {
    let (start, end) = spec_quarter_bounds(year, quarter);
    &&& end < today
    &&& workdays_in(start, end) > 0
    &&& covered_workdays(start, end, pushed_days) * 100 / workdays_in(start, end) >= 90
}

/// Quarter `quarter` of the year of `day` is crunched.
pub open spec fn crunched_in_year_of(day: i32, quarter: u32, pushed_days: Seq<i32>, today: i32) -> bool {
    match year_of_ce_day(day) {
        Some(y) => quarter_crunched(y, quarter, pushed_days, today),
        None => false,
    }
}

/// Some full quarter of a year in which a worklog was pushed is crunched.
pub open spec fn spec_completes_quarter_crunch(pushed_days: Seq<i32>, today: i32) -> bool {
    exists|i: int, quarter: u32|
        0 <= i < pushed_days.len() && 1 <= quarter <= 4
            && #[trigger] crunched_in_year_of(pushed_days[i], quarter, pushed_days, today)
}

fn contains_day(days: &[i32], day: i32) -> (b: bool)
    ensures
        b == days@.contains(day),
{
    let mut k: usize = 0;
    while k < days.len()
        invariant
            0 <= k <= days@.len(),
            forall|j: int| 0 <= j < k ==> days@[j] != day,
        decreases days@.len() - k,
    {
        if days[k] == day {
            return true;
        }
        k = k + 1;
    }
    false
}

/// Counts the workdays of `start..=end`, and those of them found in `days`.
fn count_covered_workdays(start: i32, end: i32, days: &[i32]) -> (counts: (u64, u64))
    requires
        -96_000_000 < start,
        end < 96_000_000,
    ensures
        counts.0 == workdays_in(start as int, end as int),
        counts.1 == covered_workdays(start as int, end as int, days@),
{
    let ghost all = |d: int| spec_is_workday(d);
    let ghost cov = |d: int| spec_is_workday(d) && days@.contains(d as i32);
    let mut total: u64 = 0;
    let mut covered: u64 = 0;
    if end < start {
        return (0, 0);
    }
    let mut current = start;
    while current <= end
        invariant
            start <= current <= end + 1,
            -96_000_000 < start,
            end < 96_000_000,
            total == count_days(start as int, current - 1, all),
            covered == count_days(start as int, current - 1, cov),
            all == (|d: int| spec_is_workday(d)),
            cov == (|d: int| spec_is_workday(d) && days@.contains(d as i32)),
        decreases end - current + 1,
    {
        proof {
            lemma_count_days_bounded(start as int, current - 1, all);
            lemma_count_days_bounded(start as int, current - 1, cov);
        }
        if is_workday(current) {
            total = total + 1;
            if contains_day(days, current) {
                covered = covered + 1;
            }
        }
        current = current + 1;
    }
    (total, covered)
}

/// Whether quarter `quarter` of `year` is crunched.
fn is_quarter_crunched(year: i32, quarter: u32, pushed_days: &[i32], today: i32) -> (b: bool)
    requires
        MIN_YEAR <= year <= MAX_YEAR,
        1 <= quarter <= 4,
    ensures
        b == quarter_crunched(year, quarter, pushed_days@, today),
{
    let (q_start, q_end) = quarter_bounds(year, quarter);
    if q_end >= today {
        return false;
    }
    let (total, covered) = count_covered_workdays(q_start, q_end, pushed_days);
    if total == 0 {
        return false;
    }
    proof {
        lemma_count_days_bounded(q_start as int, q_end as int, |d: int| spec_is_workday(d) && pushed_days@.contains(d as i32));
    }
    covered * 100 / total >= 90
}

/// Quarter Crunch: some calendar quarter that has fully ended, in a year in
/// which a worklog was pushed, has at least 90% of its workdays covered by
/// pushed worklogs. `pushed_days` are the days of the pushed worklogs.
pub fn completes_quarter_crunch(pushed_days: &[i32], today: i32) -> (b: bool)
    ensures
        b == spec_completes_quarter_crunch(pushed_days@, today),
{
    if pushed_days.len() == 0 {
        return false;
    }
    let mut i: usize = 0;
    while i < pushed_days.len()
        invariant
            0 <= i <= pushed_days@.len(),
            forall|j: int, quarter: u32|
                0 <= j < i && 1 <= quarter <= 4
                    ==> !#[trigger] crunched_in_year_of(pushed_days@[j], quarter, pushed_days@, today),
        decreases pushed_days@.len() - i,
    {
        match ce_day_to_year(pushed_days[i]) {
            Some(year) => {
                let mut quarter: u32 = 1;
                while quarter <= 4
                    invariant
                        1 <= quarter <= 5,
                        i < pushed_days@.len(),
                        MIN_YEAR <= year <= MAX_YEAR,
                        year_of_ce_day(pushed_days@[i as int]) == Some(year),
                        forall|j: int, q: u32|
                            0 <= j < i && 1 <= q <= 4
                                ==> !#[trigger] crunched_in_year_of(pushed_days@[j], q, pushed_days@, today),
                        forall|q: u32| 1 <= q < quarter ==> !#[trigger] quarter_crunched(year, q, pushed_days@, today),
                    decreases 5 - quarter,
                {
                    if is_quarter_crunched(year, quarter, pushed_days, today) {
                        assert(crunched_in_year_of(pushed_days@[i as int], quarter, pushed_days@, today));
                        return true;
                    }
                    quarter = quarter + 1;
                }
            },
            None => {},
        }
        i = i + 1;
    }
    false
}

/// Every workday of `start..=end` appears among `days`, and there is at least one.
pub open spec fn all_workdays_covered(start: int, end: int, days: Seq<i32>) -> bool {
    workdays_in(start, end) > 0 && covered_workdays(start, end, days) == workdays_in(start, end)
}

/// A sprint with both dates whose every workday carries a pushed worklog, there being at least one.
pub open spec fn sprint_fully_covered(sprint: (Option<i32>, Option<i32>), pushed_days: Seq<i32>) -> bool {
    match sprint {
        (Some(s), Some(e)) => all_workdays_covered(s as int, e as int, pushed_days),
        _ => false,
    }
}

/// Perfect Sprint: some sprint with both dates has workdays and every one of
/// them carries a pushed worklog.
pub open spec fn spec_completes_perfect_sprint(pushed_days: Seq<i32>, sprints: Seq<(Option<i32>, Option<i32>)>) -> bool {
    exists|k: int| 0 <= k < sprints.len() && sprint_fully_covered(#[trigger] sprints[k], pushed_days)
}

/// Whether some followed sprint has every workday covered by a pushed worklog.
/// `sprints` holds each sprint's first and last day, when it has them.
pub fn completes_perfect_sprint(pushed_days: &[i32], sprints: &[(Option<i32>, Option<i32>)]) -> (b: bool)
    requires
        forall|k: int| 0 <= k < sprints@.len() ==> ((#[trigger] sprints@[k]).0 matches Some(s) ==> -96_000_000 < s),
        forall|k: int| 0 <= k < sprints@.len() ==> ((#[trigger] sprints@[k]).1 matches Some(e) ==> e < 96_000_000),
    ensures
        b == spec_completes_perfect_sprint(pushed_days@, sprints@),
{
    if pushed_days.len() == 0 {
        proof {
            assert forall|k: int| 0 <= k < sprints@.len() implies !sprint_fully_covered(#[trigger] sprints@[k], pushed_days@) by {
                if let (Some(s), Some(e)) = sprints@[k] {
                    lemma_nothing_covered(s as int, e as int, pushed_days@);
                }
            }
        }
        return false;
    }
    let mut k: usize = 0;
    while k < sprints.len()
        invariant
            0 <= k <= sprints@.len(),
            forall|k: int| 0 <= k < sprints@.len() ==> ((#[trigger] sprints@[k]).0 matches Some(s) ==> -96_000_000 < s),
            forall|k: int| 0 <= k < sprints@.len() ==> ((#[trigger] sprints@[k]).1 matches Some(e) ==> e < 96_000_000),
            forall|j: int| 0 <= j < k ==> !sprint_fully_covered(#[trigger] sprints@[j], pushed_days@),
        decreases sprints@.len() - k,
    {
        match sprints[k] {
            (Some(s), Some(e)) => {
                let (total, covered) = count_covered_workdays(s, e, pushed_days);
                if total > 0 && covered == total {
                    return true;
                }
            },
            _ => {},
        }
        k = k + 1;
    }
    false
}

proof fn lemma_nothing_covered(start: int, end: int, days: Seq<i32>)
    requires
        days.len() == 0,
    ensures
        covered_workdays(start, end, days) == 0,
    decreases end - start + 1,
{
    if end >= start {
        lemma_nothing_covered(start, end - 1, days);
    }
}

} // verus!
