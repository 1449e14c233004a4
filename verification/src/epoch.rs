//! Sampling instants, durations and time scales.
//!
//! An [`Epoch`] holds what `hifitime` tells of an instant as plain
//! integers: the nanoseconds elapsed in TAI since 1900 January 01 at
//! midnight, and the time scale the instant was given in. Calendar
//! arithmetic is left to `hifitime`.

use crate::text::all_ascii;
use crate::text::decimal_value;
use crate::text::first_index;
use crate::text::is_ascii_bytes;
use crate::text::is_digit;
use crate::text::is_digit_byte;
use crate::text::lemma_first_index_is;
use crate::text::starts_with;
use crate::text::trim;
use crate::text::trimmed;
use crate::text::is_space;
use crate::text::is_space_byte;
use crate::text::parse_decimal;
use crate::text::parse_unsigned;
use crate::text::unsigned_value;
use vstd::prelude::*;
use vstd::slice::slice_subrange;
use vstd::string::StringSliceAdditionalSpecFns;

verus! {

/// `hifitime::Errors`: why `hifitime` gives no instant or span. Nothing
/// is said of what it holds.
#[verifier::external_type_specification]
#[verifier::external_body]
pub struct ExHifitimeErrors(hifitime::Errors);

/// Time scales, in the order of the codes that `hifitime` gives them.
#[derive(Clone, Copy, Debug, PartialEq, Eq, Structural, Hash)]
pub enum TimeScale {
    TAI,
    TT,
    ET,
    TDB,
    UTC,
    GPST,
    GST,
    BDT,
}

impl TimeScale {
    /// The code of the time scale in `hifitime`.
    pub open spec fn spec_code(&self) -> u8 {
        match *self {
            TimeScale::TAI => 0u8,
            TimeScale::TT => 1u8,
            TimeScale::ET => 2u8,
            TimeScale::TDB => 3u8,
            TimeScale::UTC => 4u8,
            TimeScale::GPST => 5u8,
            TimeScale::GST => 6u8,
            TimeScale::BDT => 7u8,
        }
    }

    #[verifier::when_used_as_spec(spec_code)]
    pub fn code(&self) -> (r: u8)
        ensures
            r == self.spec_code(),
    {
        match *self {
            TimeScale::TAI => 0u8,
            TimeScale::TT => 1u8,
            TimeScale::ET => 2u8,
            TimeScale::TDB => 3u8,
            TimeScale::UTC => 4u8,
            TimeScale::GPST => 5u8,
            TimeScale::GST => 6u8,
            TimeScale::BDT => 7u8,
        }
    }

    /// The time scale of a code; whatever is no code stands for TAI.
    pub open spec fn spec_from_code(code: u8) -> TimeScale {
        if code == 1 {
            TimeScale::TT
        } else if code == 2 {
            TimeScale::ET
        } else if code == 3 {
            TimeScale::TDB
        } else if code == 4 {
            TimeScale::UTC
        } else if code == 5 {
            TimeScale::GPST
        } else if code == 6 {
            TimeScale::GST
        } else if code == 7 {
            TimeScale::BDT
        } else {
            TimeScale::TAI
        }
    }

    #[verifier::when_used_as_spec(spec_from_code)]
    pub fn from_code(code: u8) -> (r: TimeScale)
        ensures
            r == TimeScale::spec_from_code(code),
    {
        match code {
            1 => TimeScale::TT,
            2 => TimeScale::ET,
            3 => TimeScale::TDB,
            4 => TimeScale::UTC,
            5 => TimeScale::GPST,
            6 => TimeScale::GST,
            7 => TimeScale::BDT,
            _ => TimeScale::TAI,
        }
    }
}

/// A calendar date and time of day.
#[derive(Clone, Copy, Debug, PartialEq, Eq, Structural)]
pub struct Gregorian {
    pub year: i32,
    pub month: u8,
    pub day: u8,
    pub hour: u8,
    pub minute: u8,
    pub second: u8,
    pub nanos: u32,
}

/// The instant that `hifitime::Epoch::maybe_from_gregorian` gives for a
/// date in a time scale, in TAI nanoseconds since 1900; `None` where it
/// refuses the date.
pub uninterp spec fn gregorian_tai_nanos(
    year: i32,
    month: u8,
    day: u8,
    hour: u8,
    minute: u8,
    second: u8,
    nanos: u32,
    scale: u8,
) -> Option<i128>;

/// The calendar date that `hifitime` gives for an instant, counted in a
/// time scale.
pub uninterp spec fn tai_nanos_gregorian(nanos: i128, scale: u8) -> (i32, u8, u8, u8, u8, u8, u32);

/// What `hifitime::Epoch::from_str` makes of an ASCII text: the instant
/// in TAI nanoseconds since 1900, and the code of the time scale.
pub uninterp spec fn epoch_text_value(text: Seq<u8>) -> Option<(i128, u8)>;

/// What `hifitime::Duration::from_str` makes of an ASCII text, in
/// nanoseconds.
pub uninterp spec fn duration_text_value(text: Seq<u8>) -> Option<i128>;

/// `hifitime::Epoch::maybe_from_gregorian`, then the TAI duration of the
/// epoch in nanoseconds. The year is kept within four digits, where the
/// arithmetic of the outside function stays in range.
#[verifier::external_body]
fn epoch_from_gregorian(g: Gregorian, scale: u8) -> (r: Result<i128, hifitime::Errors>)
    requires
        0 <= g.year <= 9999,
    ensures
        match r {
            Ok(n) => gregorian_tai_nanos(
                g.year,
                g.month,
                g.day,
                g.hour,
                g.minute,
                g.second,
                g.nanos,
                scale,
            ) == Some(n),
            Err(_) => gregorian_tai_nanos(
                g.year,
                g.month,
                g.day,
                g.hour,
                g.minute,
                g.second,
                g.nanos,
                scale,
            ) is None,
        },
{
    hifitime::Epoch::maybe_from_gregorian(
        g.year,
        g.month,
        g.day,
        g.hour,
        g.minute,
        g.second,
        g.nanos,
        hifitime::TimeScale::from(scale),
    ).map(|e| e.to_tai_duration().total_nanoseconds())
}

/// `hifitime::Epoch::to_duration_since_j1900_in_time_scale`, read as a
/// calendar date by `hifitime::Epoch::to_gregorian_tai`.
#[verifier::external_body]
fn epoch_to_gregorian(nanos: i128, scale: u8) -> (r: Gregorian)
    ensures
        (r.year, r.month, r.day, r.hour, r.minute, r.second, r.nanos) == tai_nanos_gregorian(
            nanos,
            scale,
        ),
{
    let e = hifitime::Epoch::from_tai_duration(hifitime::Duration::from_total_nanoseconds(nanos));
    let d = e.to_duration_since_j1900_in_time_scale(hifitime::TimeScale::from(scale));
    let (year, month, day, hour, minute, second, nanos) = hifitime::Epoch::from_tai_duration(
        d,
    ).to_gregorian_tai();
    Gregorian { year, month, day, hour, minute, second, nanos }
}

/// A byte that may stand in a plain number: a digit, a point, a sign or
/// a blank.
pub open spec fn is_number_byte(b: u8) -> bool {
    is_digit(b) || b == 46 || b == 43 || b == 45 || b == 32
}

/// A plain number: digits, points, signs and blanks only, and no more
/// than `width` of them before the first point.
pub open spec fn plain_number(s: Seq<u8>, width: int) -> bool {
    &&& forall|i: int| 0 <= i < s.len() ==> is_number_byte(#[trigger] s[i])
    &&& first_index(s, 46) <= width
}

/// Length of the run of digits that ends before the position `n`.
pub open spec fn digits_before(s: Seq<u8>, n: nat) -> nat
    decreases n,
{
    if n == 0 || !is_digit(s[n - 1]) {
        0
    } else {
        digits_before(s, (n - 1) as nat) + 1
    }
}

/// The longest run of digits that may end before `n` in a plain date:
/// four digits for the run that starts the text, which is the year,
/// nine for any other.
pub open spec fn run_limit(s: Seq<u8>, n: nat) -> nat {
    if digits_before(s, n) == n {
        4
    } else {
        9
    }
}

/// True for `+` and `-`.
pub open spec fn is_sign(b: u8) -> bool {
    b == 43 || b == 45
}

/// A plain date: no run of digits passes its limit, and a digit
/// follows every sign but one that ends the text.
pub open spec fn plain_date(s: Seq<u8>) -> bool {
    &&& forall|n: nat| n <= s.len() ==> #[trigger] digits_before(s, n) <= run_limit(s, n)
    &&& forall|i: int| 0 <= i < s.len() - 1 && is_sign(#[trigger] s[i]) ==> is_digit(s[i + 1])
}

/// `JD`
pub open spec fn julian_mark() -> Seq<u8> {
    seq![74u8, 68]
}

/// `MJD`
pub open spec fn modified_julian_mark() -> Seq<u8> {
    seq![77u8, 74, 68]
}

/// `SEC`
pub open spec fn seconds_mark() -> Seq<u8> {
    seq![83u8, 69, 67]
}

/// True when `s` starts with `mark`.
pub open spec fn opens_with(s: Seq<u8>, mark: Seq<u8>) -> bool {
    mark.len() <= s.len() && s.take(mark.len() as int) == mark
}

/// The texts of instants that are handed to `hifitime`. Blanks around
/// the text set aside, a text of fewer than seven characters is handed
/// over as it is. A text that opens with `JD`, `MJD` or `SEC` holds,
/// between that mark and its last three characters, a plain number of
/// nine columns at most before the point for days and thirteen for
/// seconds: no exponent, no infinity, no number that is none. Any other
/// text is a plain date.
pub open spec fn plain_instant(text: Seq<u8>) -> bool {
    let s = trimmed(text);
    if s.len() < 7 {
        true
    } else if opens_with(s, julian_mark()) {
        plain_number(s.subrange(2, s.len() - 3), 9)
    } else if opens_with(s, modified_julian_mark()) {
        plain_number(s.subrange(3, s.len() - 3), 9)
    } else if opens_with(s, seconds_mark()) {
        plain_number(s.subrange(3, s.len() - 3), 13)
    } else {
        plain_date(s)
    }
}

/// Tells whether a text is a plain number.
pub fn is_plain_number(s: &[u8], width: usize) -> (r: bool)
    ensures
        r == plain_number(s@, width as int),
{
    let mut i: usize = 0;
    let mut point: usize = s.len();
    while i < s.len()
        invariant
            i <= s.len(),
            point <= s.len(),
            forall|j: int| 0 <= j < i ==> is_number_byte(#[trigger] s@[j]),
            point == s.len() ==> forall|j: int| 0 <= j < i ==> #[trigger] s@[j] != 46,
            point < s.len() ==> point < i && s@[point as int] == 46 && forall|j: int|
                0 <= j < point ==> #[trigger] s@[j] != 46,
        decreases s.len() - i,
    {
        let b = s[i];
        if !(is_digit_byte(b) || b == 46 || b == 43 || b == 45 || b == 32) {
            return false;
        }
        if b == 46 && point == s.len() {
            point = i;
        }
        i += 1;
    }
    proof {
        lemma_first_index_is(s@, 46, point as int);
    }
    point <= width
}

/// Tells whether a text is a plain date.
pub fn is_plain_date(s: &[u8]) -> (r: bool)
    ensures
        r == plain_date(s@),
{
    let mut i: usize = 0;
    let mut run: usize = 0;
    while i < s.len()
        invariant
            i <= s.len(),
            run == digits_before(s@, i as nat),
            run <= i,
            forall|n: nat| n <= i ==> #[trigger] digits_before(s@, n) <= run_limit(s@, n),
            forall|j: int|
                0 <= j < i && j < s.len() - 1 && is_sign(#[trigger] s@[j]) ==> is_digit(s@[j + 1]),
        decreases s.len() - i,
    {
        if (s[i] == 43 || s[i] == 45) && i + 1 < s.len() && !is_digit_byte(s[i + 1]) {
            return false;
        }
        run = if is_digit_byte(s[i]) {
            run + 1
        } else {
            0
        };
        i += 1;
        assert(run == digits_before(s@, i as nat));
        let limit: usize = if run == i {
            4
        } else {
            9
        };
        if run > limit {
            assert(!(digits_before(s@, i as nat) <= run_limit(s@, i as nat)));
            return false;
        }
    }
    true
}

/// Tells whether a text of an instant is handed to `hifitime`.
pub fn is_plain_instant(text: &[u8]) -> (r: bool)
    ensures
        r == plain_instant(text@),
{
    let s = trim(text);
    if s.len() < 7 {
        return true;
    }
    let julian: [u8; 2] = [74, 68];
    let modified: [u8; 3] = [77, 74, 68];
    let seconds: [u8; 3] = [83, 69, 67];
    assert(julian@ =~= julian_mark());
    assert(modified@ =~= modified_julian_mark());
    assert(seconds@ =~= seconds_mark());
    if starts_with(s, julian.as_slice()) {
        is_plain_number(slice_subrange(s, 2, s.len() - 3), 9)
    } else if starts_with(s, modified.as_slice()) {
        is_plain_number(slice_subrange(s, 3, s.len() - 3), 9)
    } else if starts_with(s, seconds.as_slice()) {
        is_plain_number(slice_subrange(s, 3, s.len() - 3), 13)
    } else {
        is_plain_date(s)
    }
}

/// `hifitime::Epoch::from_str`, which slices its argument by bytes: the
/// text is ASCII. The outside function asserts that the number of a
/// `JD`, `MJD` or `SEC` form is finite, counts the digits of a fraction
/// of seconds up to nine, and passes over the character that follows
/// the sign of an offset: the text is a plain instant, whose numbers
/// are plain decimals within reach of the calendar, whose year has four
/// digits at most, whose fractions have nine at most, and whose signs
/// come before a digit. The code of the time scale stays below 8.
#[verifier::external_body]
fn epoch_from_text(text: &[u8]) -> (r: Result<(i128, u8), hifitime::Errors>)
    requires
        all_ascii(text@),
        plain_instant(text@),
    ensures
        match r {
            Ok(v) => epoch_text_value(text@) == Some(v) && v.1 <= 7,
            Err(_) => epoch_text_value(text@) is None,
        },
{
    let parsed: Result<hifitime::Epoch, _> = std::str::FromStr::from_str(
        std::str::from_utf8(text).unwrap_or(""),
    );
    parsed.map(|e| (e.to_tai_duration().total_nanoseconds(), u8::from(e.time_scale)))
}

/// `hifitime::Duration::from_str`, which slices its argument by bytes:
/// the text is ASCII.
#[verifier::external_body]
fn duration_from_text(text: &[u8]) -> (r: Result<i128, hifitime::Errors>)
    requires
        all_ascii(text@),
    ensures
        match r {
            Ok(v) => duration_text_value(text@) == Some(v),
            Err(_) => duration_text_value(text@) is None,
        },
{
    let parsed: Result<hifitime::Duration, _> = std::str::FromStr::from_str(
        std::str::from_utf8(text).unwrap_or(""),
    );
    parsed.map(|d| d.total_nanoseconds())
}

/// `hifitime::Epoch::now`: the system's clock, of which nothing is known.
#[verifier::external_body]
fn epoch_of_clock() -> (r: Result<i128, hifitime::Errors>) {
    hifitime::Epoch::now().map(|e| e.to_tai_duration().total_nanoseconds())
}

/// A span of time, in nanoseconds.
#[derive(Clone, Copy, Debug, PartialEq, Eq, Structural, Hash, PartialOrd, Ord)]
pub struct Duration {
    pub nanos: i128,
}

impl Default for Duration {
    fn default() -> (r: Self)
        ensures
            r.nanos == 0,
    {
        Duration { nanos: 0 }
    }
}

/// A sampling instant.
#[derive(Clone, Copy, Debug, PartialEq, Eq, Structural, Hash)]
pub struct Epoch {
    /// Nanoseconds elapsed in TAI since 1900 January 01 at midnight.
    pub tai_nanos: i128,
    /// Time scale in which the instant was given.
    pub time_scale: TimeScale,
}

/// Why a date and time could not be read.
#[derive(Clone, Copy, Debug, PartialEq, Eq, Structural)]
pub enum EpochParsingError {
    /// Fewer than six fields.
    Format,
    Year,
    Month,
    Day,
    Hours,
    Minutes,
    Seconds,
    /// The fields are numbers that form no date.
    Date,
    /// `hifitime` does not read the text as an instant or a span.
    Description,
}

/// First position at or after `from` that holds no blank.
pub open spec fn skip_spaces(s: Seq<u8>, from: int) -> int
    decreases s.len() - from,
{
    if 0 <= from < s.len() && is_space(s[from]) {
        skip_spaces(s, from + 1)
    } else {
        from
    }
}

/// First position at or after `from` that holds a blank, or the end.
pub open spec fn token_end(s: Seq<u8>, from: int) -> int
    decreases s.len() - from,
{
    if 0 <= from < s.len() && !is_space(s[from]) {
        token_end(s, from + 1)
    } else {
        from
    }
}

/// Bounds of the `k`-th field of a line whose fields are set apart by blanks.
pub open spec fn field_bounds(s: Seq<u8>, k: nat) -> (int, int)
    decreases k,
{
    let from = if k == 0 {
        0
    } else {
        field_bounds(s, (k - 1) as nat).1
    };
    (skip_spaces(s, from), token_end(s, skip_spaces(s, from)))
}

/// The `k`-th field of a line whose fields are set apart by blanks;
/// empty when the line has fewer fields.
pub open spec fn field(s: Seq<u8>, k: nat) -> Seq<u8> {
    s.subrange(field_bounds(s, k).0, field_bounds(s, k).1)
}

pub proof fn lemma_skip_spaces_bounds(s: Seq<u8>, from: int)
    requires
        0 <= from <= s.len(),
    ensures
        from <= skip_spaces(s, from) <= s.len(),
    decreases s.len() - from,
{
    if from < s.len() && is_space(s[from]) {
        lemma_skip_spaces_bounds(s, from + 1);
    }
}

pub proof fn lemma_token_end_bounds(s: Seq<u8>, from: int)
    requires
        0 <= from <= s.len(),
    ensures
        from <= token_end(s, from) <= s.len(),
    decreases s.len() - from,
{
    if from < s.len() && !is_space(s[from]) {
        lemma_token_end_bounds(s, from + 1);
    }
}

pub proof fn lemma_field_bounds(s: Seq<u8>, k: nat)
    ensures
        0 <= field_bounds(s, k).0 <= field_bounds(s, k).1 <= s.len(),
    decreases k,
{
    let from = if k == 0 {
        0
    } else {
        lemma_field_bounds(s, (k - 1) as nat);
        field_bounds(s, (k - 1) as nat).1
    };
    lemma_skip_spaces_bounds(s, from);
    lemma_token_end_bounds(s, skip_spaces(s, from));
}

/// Finds the field that starts at or after `from`.
pub fn next_field(s: &[u8], from: usize) -> (r: (usize, usize))
    requires
        from <= s.len(),
    ensures
        r.0 == skip_spaces(s@, from as int),
        r.1 == token_end(s@, r.0 as int),
        from <= r.0 <= r.1 <= s.len(),
{
    let mut a: usize = from;
    while a < s.len() && is_space_byte(s[a])
        invariant
            from <= a <= s.len(),
            skip_spaces(s@, from as int) == skip_spaces(s@, a as int),
        decreases s.len() - a,
    {
        a += 1;
    }
    let mut b: usize = a;
    while b < s.len() && !is_space_byte(s[b])
        invariant
            a <= b <= s.len(),
            token_end(s@, a as int) == token_end(s@, b as int),
        decreases s.len() - b,
    {
        b += 1;
    }
    (a, b)
}

/// The year that a year field stands for: two-digit years below 80 belong
/// to the 2000s, the other two-digit years to the 1900s.
pub open spec fn full_year(y: nat) -> nat {
    if y < 80 {
        y + 2000
    } else if y < 100 {
        y + 1900
    } else {
        y
    }
}

/// The date and time that the first six fields of `s` spell: year, month,
/// day, hours, minutes, and seconds with their decimals.
pub open spec fn datetime_value(s: Seq<u8>) -> Result<Gregorian, EpochParsingError> {
    if field(s, 5).len() == 0 {
        Err(EpochParsingError::Format)
    } else {
        match unsigned_value(field(s, 0)) {
            Some(y) if y <= 9999 => match unsigned_value(field(s, 1)) {
                Some(m) if m <= 255 => match unsigned_value(field(s, 2)) {
                    Some(d) if d <= 255 => match unsigned_value(field(s, 3)) {
                        Some(hh) if hh <= 255 => match unsigned_value(field(s, 4)) {
                            Some(mm) if mm <= 255 => match decimal_value(field(s, 5), 9) {
                                Some(v) if 0 <= v <= 255_999_999_999 && field(s, 5)[0] != 45 => Ok(
                                    Gregorian {
                                        year: full_year(y) as i32,
                                        month: m as u8,
                                        day: d as u8,
                                        hour: hh as u8,
                                        minute: mm as u8,
                                        second: (v / 1_000_000_000) as u8,
                                        nanos: (v % 1_000_000_000) as u32,
                                    },
                                ),
                                _ => Err(EpochParsingError::Seconds),
                            },
                            _ => Err(EpochParsingError::Minutes),
                        },
                        _ => Err(EpochParsingError::Hours),
                    },
                    _ => Err(EpochParsingError::Day),
                },
                _ => Err(EpochParsingError::Month),
            },
            _ => Err(EpochParsingError::Year),
        }
    }
}

/// Reads the date and time that the first six fields of `s` spell.
pub fn parse_datetime(s: &[u8]) -> (r: Result<Gregorian, EpochParsingError>)
    ensures
        r == datetime_value(s@),
        r matches Ok(g) ==> 0 <= g.year <= 9999,
{
    proof {
        lemma_field_bounds(s@, 0);
        lemma_field_bounds(s@, 1);
        lemma_field_bounds(s@, 2);
        lemma_field_bounds(s@, 3);
        lemma_field_bounds(s@, 4);
        lemma_field_bounds(s@, 5);
    }
    let f0 = next_field(s, 0);
    let f1 = next_field(s, f0.1);
    let f2 = next_field(s, f1.1);
    let f3 = next_field(s, f2.1);
    let f4 = next_field(s, f3.1);
    let f5 = next_field(s, f4.1);
    assert(f0.0 == field_bounds(s@, 0).0 && f0.1 == field_bounds(s@, 0).1);
    assert(f1.0 == field_bounds(s@, 1).0 && f1.1 == field_bounds(s@, 1).1);
    assert(f2.0 == field_bounds(s@, 2).0 && f2.1 == field_bounds(s@, 2).1);
    assert(f3.0 == field_bounds(s@, 3).0 && f3.1 == field_bounds(s@, 3).1);
    assert(f4.0 == field_bounds(s@, 4).0 && f4.1 == field_bounds(s@, 4).1);
    assert(f5.0 == field_bounds(s@, 5).0 && f5.1 == field_bounds(s@, 5).1);
    if f5.0 == f5.1 {
        return Err(EpochParsingError::Format);
    }
    let y = match parse_unsigned(slice_subrange(s, f0.0, f0.1), 9999) {
        Some(y) => y,
        None => {
            return Err(EpochParsingError::Year);
        },
    };
    let m = match parse_unsigned(slice_subrange(s, f1.0, f1.1), 255) {
        Some(m) => m,
        None => {
            return Err(EpochParsingError::Month);
        },
    };
    let d = match parse_unsigned(slice_subrange(s, f2.0, f2.1), 255) {
        Some(d) => d,
        None => {
            return Err(EpochParsingError::Day);
        },
    };
    let hh = match parse_unsigned(slice_subrange(s, f3.0, f3.1), 255) {
        Some(hh) => hh,
        None => {
            return Err(EpochParsingError::Hours);
        },
    };
    let mm = match parse_unsigned(slice_subrange(s, f4.0, f4.1), 255) {
        Some(mm) => mm,
        None => {
            return Err(EpochParsingError::Minutes);
        },
    };
    let sec = slice_subrange(s, f5.0, f5.1);
    let v = match parse_decimal(sec, 9) {
        Some(v) => v,
        None => {
            return Err(EpochParsingError::Seconds);
        },
    };
    if v < 0 || v > 255_999_999_999 || sec[0] == 45 {
        return Err(EpochParsingError::Seconds);
    }
    let year: u64 = if y < 80 {
        y + 2000
    } else if y < 100 {
        y + 1900
    } else {
        y
    };
    Ok(
        Gregorian {
            year: year as i32,
            month: m as u8,
            day: d as u8,
            hour: hh as u8,
            minute: mm as u8,
            second: (v / 1_000_000_000) as u8,
            nanos: (v % 1_000_000_000) as u32,
        },
    )
}

impl Duration {
    pub fn from_nanoseconds(nanos: i128) -> (r: Self)
        ensures
            r.nanos == nanos,
    {
        Duration { nanos }
    }

    /// A whole number of seconds.
    pub fn from_seconds(seconds: i64) -> (r: Self)
        ensures
            r.nanos == seconds * 1_000_000_000,
    {
        Duration { nanos: seconds as i128 * 1_000_000_000 }
    }

    /// The span that an ASCII text describes, as `hifitime` reads it.
    pub open spec fn of_text(text: Seq<u8>) -> Option<Duration> {
        match duration_text_value(text) {
            Some(n) => Some(Duration { nanos: n }),
            None => None,
        }
    }

    /// Reads a span such as `30 s` or `1 hour` from an ASCII text.
    pub fn from_str(text: &str) -> (r: Result<Self, EpochParsingError>)
        ensures
            match r {
                Ok(d) => all_ascii(text.spec_bytes()) && Duration::of_text(text.spec_bytes())
                    == Some(d),
                Err(e) => e == EpochParsingError::Description && (!all_ascii(text.spec_bytes())
                    || Duration::of_text(text.spec_bytes()) is None),
            },
    {
        let bytes = text.as_bytes();
        if is_ascii_bytes(bytes) {
            Duration::from_bytes(bytes)
        } else {
            Err(EpochParsingError::Description)
        }
    }

    /// Reads a span such as `30 s` or `1 hour`.
    pub fn from_bytes(text: &[u8]) -> (r: Result<Self, EpochParsingError>)
        requires
            all_ascii(text@),
        ensures
            match r {
                Ok(d) => Duration::of_text(text@) == Some(d),
                Err(e) => Duration::of_text(text@) is None && e == EpochParsingError::Description,
            },
    {
        match duration_from_text(text) {
            Ok(n) => Ok(Duration { nanos: n }),
            Err(_) => Err(EpochParsingError::Description),
        }
    }
}

impl Epoch {
    /// The instant of a calendar date in a time scale, if the date
    /// exists and its year is one of the years 0 to 9999.
    pub open spec fn of_gregorian(g: Gregorian, ts: TimeScale) -> Option<Epoch> {
        if 0 <= g.year <= 9999 {
            match gregorian_tai_nanos(
                g.year,
                g.month,
                g.day,
                g.hour,
                g.minute,
                g.second,
                g.nanos,
                ts.spec_code(),
            ) {
                Some(n) => Some(Epoch { tai_nanos: n, time_scale: ts }),
                None => None,
            }
        } else {
            None
        }
    }

    /// The instant that the first six fields of `s` spell in a time scale.
    pub open spec fn of_datetime(s: Seq<u8>, ts: TimeScale) -> Result<Epoch, EpochParsingError> {
        match datetime_value(s) {
            Ok(g) => match Epoch::of_gregorian(g, ts) {
                Some(e) => Ok(e),
                None => Err(EpochParsingError::Date),
            },
            Err(e) => Err(e),
        }
    }

    /// The calendar date of the instant in its own time scale.
    pub open spec fn spec_gregorian(&self) -> Gregorian {
        let g = tai_nanos_gregorian(self.tai_nanos, self.time_scale.spec_code());
        Gregorian {
            year: g.0,
            month: g.1,
            day: g.2,
            hour: g.3,
            minute: g.4,
            second: g.5,
            nanos: g.6,
        }
    }

    /// The instant that an ASCII text describes, as `hifitime` reads it;
    /// none where the text is no plain instant.
    pub open spec fn of_text(text: Seq<u8>) -> Option<Epoch> {
        if plain_instant(text) {
            match epoch_text_value(text) {
                Some(v) => Some(
                    Epoch { tai_nanos: v.0, time_scale: TimeScale::spec_from_code(v.1) },
                ),
                None => None,
            }
        } else {
            None
        }
    }

    /// The instant of a calendar date in a time scale.
    pub fn from_gregorian(g: Gregorian, ts: TimeScale) -> (r: Option<Self>)
        ensures
            r == Epoch::of_gregorian(g, ts),
    {
        if g.year < 0 || g.year > 9999 {
            return None;
        }
        match epoch_from_gregorian(g, ts.code()) {
            Ok(n) => Some(Epoch { tai_nanos: n, time_scale: ts }),
            Err(_) => None,
        }
    }

    #[verifier::when_used_as_spec(spec_gregorian)]
    pub fn gregorian(&self) -> (r: Gregorian)
        ensures
            r == self.spec_gregorian(),
    {
        epoch_to_gregorian(self.tai_nanos, self.time_scale.code())
    }

    /// Reads the date and time that the first six fields of `s` spell.
    pub fn parse_datetime(s: &[u8], ts: TimeScale) -> (r: Result<Self, EpochParsingError>)
        ensures
            r == Epoch::of_datetime(s@, ts),
    {
        match parse_datetime(s) {
            Ok(g) => match Epoch::from_gregorian(g, ts) {
                Some(e) => Ok(e),
                None => Err(EpochParsingError::Date),
            },
            Err(e) => Err(e),
        }
    }

    /// Reads an instant such as `2020-01-01T00:00:00 UTC` from an ASCII
    /// text.
    pub fn from_str(text: &str) -> (r: Result<Self, EpochParsingError>)
        ensures
            match r {
                Ok(e) => all_ascii(text.spec_bytes()) && Epoch::of_text(text.spec_bytes()) == Some(
                    e,
                ),
                Err(e) => e == EpochParsingError::Description && (!all_ascii(text.spec_bytes())
                    || Epoch::of_text(text.spec_bytes()) is None),
            },
    {
        let bytes = text.as_bytes();
        if is_ascii_bytes(bytes) {
            Epoch::from_bytes(bytes)
        } else {
            Err(EpochParsingError::Description)
        }
    }

    /// Reads an instant such as `2020-01-01T00:00:00 UTC`.
    pub fn from_bytes(text: &[u8]) -> (r: Result<Self, EpochParsingError>)
        requires
            all_ascii(text@),
        ensures
            match r {
                Ok(e) => Epoch::of_text(text@) == Some(e),
                Err(e) => Epoch::of_text(text@) is None && e == EpochParsingError::Description,
            },
    {
        if !is_plain_instant(text) {
            return Err(EpochParsingError::Description);
        }
        match epoch_from_text(text) {
            Ok(v) => Ok(Epoch { tai_nanos: v.0, time_scale: TimeScale::from_code(v.1) }),
            Err(_) => Err(EpochParsingError::Description),
        }
    }

    /// The instant of a reading of the clock, which counts TAI
    /// nanoseconds and shows UTC; nothing where the clock could not be
    /// read.
    pub open spec fn of_reading(reading: Option<i128>) -> Option<Epoch> {
        match reading {
            Some(n) => Some(Epoch { tai_nanos: n, time_scale: TimeScale::UTC }),
            None => None,
        }
    }

    /// The instant of a reading of the clock.
    pub fn from_reading(reading: Option<i128>) -> (r: Option<Self>)
        ensures
            r == Epoch::of_reading(reading),
    {
        match reading {
            Some(n) => Some(Epoch { tai_nanos: n, time_scale: TimeScale::UTC }),
            None => None,
        }
    }

    /// The instant that the system's clock shows, if it can be read: the
    /// instant of whatever reading the clock gives.
    pub fn now() -> (r: Option<Self>)
        ensures
            r matches Some(e) ==> e.time_scale == TimeScale::UTC,
    {
        match epoch_of_clock() {
            Ok(n) => Epoch::from_reading(Some(n)),
            Err(_) => Epoch::from_reading(None),
        }
    }

    /// Time elapsed from `earlier` to `self`, in nanoseconds; a count
    /// that does not fit is replaced by the nearest that does.
    pub open spec fn spec_since(&self, earlier: &Epoch) -> Duration {
        Duration {
            nanos: if self.tai_nanos - earlier.tai_nanos > i128::MAX {
                i128::MAX
            } else if self.tai_nanos - earlier.tai_nanos < i128::MIN {
                i128::MIN
            } else {
                (self.tai_nanos - earlier.tai_nanos) as i128
            },
        }
    }

    /// Time elapsed from `earlier` to `self`.
    #[verifier::when_used_as_spec(spec_since)]
    pub fn since(&self, earlier: &Epoch) -> (r: Duration)
        ensures
            r == self.spec_since(earlier),
    {
        match self.tai_nanos.checked_sub(earlier.tai_nanos) {
            Some(n) => Duration { nanos: n },
            None => if self.tai_nanos > earlier.tai_nanos {
                Duration { nanos: i128::MAX }
            } else {
                Duration { nanos: i128::MIN }
            },
        }
    }
}

} // verus!
