//! The age label of a file: how old the child was on the day the file was made.
use vstd::prelude::*;
use crate::text::{decimal_of, push_decimal};

verus! {

/// A calendar day of the proleptic Gregorian calendar.
#[derive(Clone, Copy, Debug, PartialEq, Eq, Structural)]
pub struct CivilDate {
    pub year: i32,
    pub month: u32,
    pub day: u32,
}

pub open spec fn is_leap_year(y: int) -> bool {
    (y % 4 == 0 && y % 100 != 0) || y % 400 == 0
}

pub open spec fn days_in_month(y: int, m: int) -> int {
    if m == 2 {
        if is_leap_year(y) { 29 } else { 28 }
    } else if m == 4 || m == 6 || m == 9 || m == 11 {
        30
    } else {
        31
    }
}

/// Year, month and day name a day that exists.
pub open spec fn is_valid_ymd(ymd: (i32, u32, u32)) -> bool {
    1 <= ymd.1 <= 12 && 1 <= ymd.2 <= days_in_month(ymd.0 as int, ymd.1 as int)
}

/// What `chrono::NaiveDate::parse_from_str(s, "%Y-%m-%d")` yields, as year, month, day.
pub uninterp spec fn parsed_iso_date(s: Seq<char>) -> Option<(i32, u32, u32)>;

/// The UTC calendar day of `chrono::DateTime::from_timestamp(secs, 0)`, as year, month, day.
pub uninterp spec fn utc_day_of(secs: i64) -> Option<(i32, u32, u32)>;

/// Relies on `chrono::NaiveDate::parse_from_str` with the format `%Y-%m-%d`: it
/// fails on text that is no date, and a date it yields is a real calendar day.
#[verifier::external_body]
fn parse_iso_date(s: &str) -> (r: Option<(i32, u32, u32)>)
    ensures
        r == parsed_iso_date(s@),
        r matches Some(ymd) ==> is_valid_ymd(ymd),
{
    match chrono::NaiveDate::parse_from_str(s, "%Y-%m-%d") {
        Ok(d) => Some((
            chrono::Datelike::year(&d),
            chrono::Datelike::month(&d),
            chrono::Datelike::day(&d),
        )),
        Err(_) => None,
    }
}

/// Relies on `chrono::DateTime::from_timestamp`: `None` for seconds out of its
/// range, else a moment whose UTC date is a real calendar day.
#[verifier::external_body]
fn utc_day(secs: i64) -> (r: Option<(i32, u32, u32)>)
    ensures
        r == utc_day_of(secs),
        r matches Some(ymd) ==> is_valid_ymd(ymd),
{
    match chrono::DateTime::from_timestamp(secs, 0) {
        Some(t) => {
            let d = t.date_naive();
            Some((
                chrono::Datelike::year(&d),
                chrono::Datelike::month(&d),
                chrono::Datelike::day(&d),
            ))
        },
        None => None,
    }
}

impl CivilDate {
    pub open spec fn from_ymd(ymd: (i32, u32, u32)) -> CivilDate {
        CivilDate { year: ymd.0, month: ymd.1, day: ymd.2 }
    }

    pub open spec fn is_valid(self) -> bool {
        is_valid_ymd((self.year, self.month, self.day))
    }

    /// Calendar order: `self` is a strictly earlier day than `other`.
    pub open spec fn precedes(self, other: CivilDate) -> bool {
        self.year < other.year
        || (self.year == other.year && self.month < other.month)
        || (self.year == other.year && self.month == other.month && self.day < other.day)
    }
}

/// Whole calendar months from `birth` to `day`, counted down when the day of
/// the month has not yet come round.
pub open spec fn months_between(birth: CivilDate, day: CivilDate) -> int {
    (day.year - birth.year) * 12 + (day.month - birth.month)
        - (if day.day < birth.day { 1int } else { 0int })
}

pub open spec fn before_birth_label() -> Seq<char> {
    "before birth"@
}

pub open spec fn unknown_label() -> Seq<char> {
    "unknown"@
}

pub open spec fn not_set_label() -> Seq<char> {
    "not set"@
}

/// The label of an age of `total` whole months.
pub open spec fn months_label(total: nat) -> Seq<char> {
    let years = total / 12;
    let months = total % 12;
    if years == 0 {
        decimal_of(months) + " months"@
    } else if months == 0 {
        decimal_of(years) + " years"@
    } else {
        decimal_of(years) + " years "@ + decimal_of(months) + " months"@
    }
}

/// The label of `day` for a child born on `birth`.
pub open spec fn label_of_dates(birth: CivilDate, day: CivilDate) -> Seq<char> {
    if day.precedes(birth) {
        before_birth_label()
    } else {
        months_label(months_between(birth, day) as nat)
    }
}

/// The label of a file made at `secs` for a child born on the date that `birth` spells.
pub open spec fn age_label(birth: Seq<char>, secs: i64) -> Seq<char> {
    match (parsed_iso_date(birth), utc_day_of(secs)) {
        (Some(b), Some(d)) => label_of_dates(CivilDate::from_ymd(b), CivilDate::from_ymd(d)),
        _ => unknown_label(),
    }
}

proof fn lemma_months_nonnegative(birth: CivilDate, day: CivilDate)
    requires
        birth.is_valid(),
        day.is_valid(),
        !day.precedes(birth),
    ensures
        months_between(birth, day) >= 0,
{
    if day.year > birth.year {
        assert((day.year - birth.year) * 12 >= 12) by (nonlinear_arith)
            requires day.year - birth.year >= 1;
    }
}

/// The label of `day` for a child born on `birth`, both real calendar days.
pub fn label_for_dates(birth: CivilDate, day: CivilDate) -> (r: String)
    requires
        birth.is_valid(),
        day.is_valid(),
    ensures
        r@ == label_of_dates(birth, day),
{
    let earlier = day.year < birth.year
        || (day.year == birth.year && day.month < birth.month)
        || (day.year == birth.year && day.month == birth.month && day.day < birth.day);
    if earlier {
        return String::from_str("before birth");
    }
    proof {
        lemma_months_nonnegative(birth, day);
    }
    let years = day.year as i64 - birth.year as i64;
    let mut total: i64 = years * 12 + (day.month as i64 - birth.month as i64);
    if day.day < birth.day {
        total = total - 1;
    }
    let age_years = (total / 12) as u64;
    let age_months = (total % 12) as u64;
    let mut out = String::new();
    if age_years == 0 {
        push_decimal(&mut out, age_months);
        out.append(" months");
    } else if age_months == 0 {
        push_decimal(&mut out, age_years);
        out.append(" years");
    } else {
        push_decimal(&mut out, age_years);
        out.append(" years ");
        push_decimal(&mut out, age_months);
        out.append(" months");
    }
    proof {
        assert(out@ =~= label_of_dates(birth, day));
    }
    out
}

/// The age label of a file made at `file_timestamp` (seconds since the Unix
/// epoch) for a child born on `birth_date` (`YYYY-MM-DD`). A date that does not
/// parse, or a timestamp with no calendar day, gives the unknown label.
pub fn calculate_age_group(birth_date: &str, file_timestamp: i64) -> (r: String)
    ensures
        r@ == age_label(birth_date@, file_timestamp),
{
    let birth = match parse_iso_date(birth_date) {
        Some(ymd) => CivilDate { year: ymd.0, month: ymd.1, day: ymd.2 },
        None => return String::from_str("unknown"),
    };
    let day = match utc_day(file_timestamp) {
        Some(ymd) => CivilDate { year: ymd.0, month: ymd.1, day: ymd.2 },
        None => return String::from_str("unknown"),
    };
    label_for_dates(birth, day)
}

/// The same birth date and the same timestamp always give the same label.
pub proof fn lemma_age_label_deterministic(b1: Seq<char>, s1: i64, b2: Seq<char>, s2: i64)
    requires
        b1 == b2,
        s1 == s2,
    ensures
        age_label(b1, s1) == age_label(b2, s2),
{
}

/// A file whose day precedes the day of birth is labelled as made before birth.
pub proof fn lemma_before_birth(birth: Seq<char>, secs: i64)
    requires
        parsed_iso_date(birth) is Some,
        utc_day_of(secs) is Some,
        CivilDate::from_ymd(utc_day_of(secs).unwrap()).precedes(
            CivilDate::from_ymd(parsed_iso_date(birth).unwrap()),
        ),
    ensures
        age_label(birth, secs) == before_birth_label(),
{
}

/// A birth date that does not parse gives the unknown label, whatever the time.
pub proof fn lemma_unparsed_birth_date(birth: Seq<char>, secs: i64)
    requires
        parsed_iso_date(birth) is None,
    ensures
        age_label(birth, secs) == unknown_label(),
{
}

} // verus!
