//! Calendar date-time stamps and the time precision derived from their
//! fractional-second digit count.
use vstd::prelude::*;

use crate::error::ComtradeError;
use crate::parser::cfg::revisions::FormatRevision;
use crate::parser::cfg::ConfigLine;
use crate::rational::{pow10, Rational};
use crate::text::{
    all_digits, bytes_to_string, digits_val, spec_split, split_bytes, subrange_vec,
};

verus! {

/// The expected precision of the stored per-sample timestamps, derived from
/// how many fractional-second digits the stamp lines carry.
#[derive(Debug, Clone, Copy, PartialEq, Eq, Structural)]
pub enum TimePrecision {
    Microseconds,
    Nanoseconds,
}

impl TimePrecision {
    /// The base time unit in seconds: one millionth or one billionth.
    pub fn to_value(&self) -> (r: Rational)
        ensures
            r.wf(),
            r.num == 1 && !r.neg,
            *self is Microseconds ==> r.den == 1000000,
            *self is Nanoseconds ==> r.den == 1000000000,
    {
        match self {
            TimePrecision::Microseconds => Rational { neg: false, num: 1, den: 1000000 },
            TimePrecision::Nanoseconds => Rational { neg: false, num: 1, den: 1000000000 },
        }
    }

    /// The finer of two precisions: nanoseconds win.
    pub fn finer(self, other: TimePrecision) -> (r: TimePrecision)
        ensures
            r is Nanoseconds <==> (self is Nanoseconds || other is Nanoseconds),
    {
        if matches!(self, TimePrecision::Nanoseconds) || matches!(
            other,
            TimePrecision::Nanoseconds,
        ) {
            TimePrecision::Nanoseconds
        } else {
            TimePrecision::Microseconds
        }
    }
}

impl PartialOrd for TimePrecision {
    /// A coarser precision orders above a finer one: microseconds are
    /// greater than nanoseconds.
    fn partial_cmp(&self, other: &Self) -> (r: Option<core::cmp::Ordering>) {
        Some(
            match (self, other) {
                (TimePrecision::Microseconds, TimePrecision::Nanoseconds) => core::cmp::Ordering::Greater,
                (TimePrecision::Nanoseconds, TimePrecision::Microseconds) => core::cmp::Ordering::Less,
                _ => core::cmp::Ordering::Equal,
            },
        )
    }
}

impl vstd::std_specs::cmp::PartialOrdSpecImpl for TimePrecision {
    open spec fn obeys_partial_cmp_spec() -> bool {
        true
    }

    open spec fn partial_cmp_spec(&self, other: &Self) -> Option<core::cmp::Ordering> {
        Some(
            match (self, other) {
                (TimePrecision::Microseconds, TimePrecision::Nanoseconds) => core::cmp::Ordering::Greater,
                (TimePrecision::Nanoseconds, TimePrecision::Microseconds) => core::cmp::Ordering::Less,
                _ => core::cmp::Ordering::Equal,
            },
        )
    }
}

/// A calendar date.
#[derive(Debug, Clone, Copy, PartialEq, Eq, Structural)]
pub struct Date {
    pub year: i32,
    pub month: u8,
    pub day: u8,
}

/// A time of day with nanosecond resolution.
#[derive(Debug, Clone, Copy, PartialEq, Eq, Structural)]
pub struct Time {
    pub hour: u8,
    pub minute: u8,
    pub second: u8,
    pub nanosecond: u32,
}

/// A calendar date-time.
#[derive(Debug, Clone, Copy, PartialEq, Eq, Structural)]
pub struct DateTime {
    pub date: Date,
    pub time: Time,
}

// ---------------------------------------------------------------------------
// Calendar validity
// ---------------------------------------------------------------------------

pub open spec fn is_leap_year(y: int) -> bool {
    y % 4 == 0 && (y % 100 != 0 || y % 400 == 0)
}

pub open spec fn days_in_month(y: int, m: int) -> int {
    if m == 2 {
        if is_leap_year(y) {
            29
        } else {
            28
        }
    } else if m == 4 || m == 6 || m == 9 || m == 11 {
        30
    } else {
        31
    }
}

/// A proleptic Gregorian calendar date within the supported year span.
pub open spec fn valid_ymd(y: int, m: int, d: int) -> bool {
    &&& -262143 <= y <= 262142
    &&& 1 <= m <= 12
    &&& 1 <= d <= days_in_month(y, m)
}

/// Whether the calendar date exists: the year within the supported span,
/// the month in range, and the day within the month under the mod-400 leap
/// rule.
pub(crate) fn ymd_supported(year: i32, month: u32, day: u32) -> (r: bool)
    ensures
        r == valid_ymd(year as int, month as int, day as int),
{
    if year < -262143 || year > 262142 {
        return false;
    }
    if month < 1 || month > 12 {
        return false;
    }
    let leap = divisible(year, 4) && (!divisible(year, 100) || divisible(year, 400));
    proof {
        assert(leap == is_leap_year(year as int));
    }
    let dim: u32 = if month == 2 {
        if leap {
            29
        } else {
            28
        }
    } else if month == 4 || month == 6 || month == 9 || month == 11 {
        30
    } else {
        31
    };
    1 <= day && day <= dim
}

/// Whether `d` divides `y`, for the leap-year rule; agrees with the
/// mathematical remainder on negative years.
fn divisible(y: i32, d: i32) -> (r: bool)
    requires
        2 <= d <= 400,
    ensures
        r == ((y as int) % (d as int) == 0),
{
    let m = if y >= 0 {
        y % d
    } else {
        -((-(y as i64)) % (d as i64)) as i32
    };
    proof {
        lemma_neg_divisible(y as int, d as int);
    }
    m == 0
}

/// A number and its negation are divisible by the same divisors.
proof fn lemma_neg_divisible(y: int, d: int)
    requires
        d >= 1,
    ensures
        (y % d == 0) <==> ((-y) % d == 0),
{
    vstd::arithmetic::div_mod::lemma_fundamental_div_mod(y, d);
    vstd::arithmetic::div_mod::lemma_fundamental_div_mod(-y, d);
    if y % d == 0 {
        assert(y == d * (y / d));
        assert(-y == d * (-(y / d))) by (nonlinear_arith)
            requires
                y == d * (y / d),
        ;
        vstd::arithmetic::div_mod::lemma_mod_multiples_basic(-(y / d), d);
    }
    if (-y) % d == 0 {
        assert(-y == d * ((-y) / d));
        assert(y == d * (-((-y) / d))) by (nonlinear_arith)
            requires
                -y == d * ((-y) / d),
        ;
        vstd::arithmetic::div_mod::lemma_mod_multiples_basic(-((-y) / d), d);
    }
}

// ---------------------------------------------------------------------------
// Time-of-day tokens: HH:MM:SS with an optional decimal fraction
// ---------------------------------------------------------------------------

/// Colon.
pub const COLON: u8 = 58;

/// Dot.
pub const PERIOD: u8 = 46;

pub open spec fn time_parts(t: Seq<u8>) -> Seq<Seq<u8>> {
    spec_split(t, COLON)
}

pub open spec fn sec_parts(t: Seq<u8>) -> Seq<Seq<u8>> {
    spec_split(time_parts(t)[2], PERIOD)
}

/// A well-formed time token: three colon-separated all-digit fields in
/// range, the third optionally carrying one point and one to nine fraction
/// digits.
pub open spec fn valid_time_token(t: Seq<u8>) -> bool {
    let parts = time_parts(t);
    let sp = sec_parts(t);
    &&& parts.len() == 3
    &&& parts[0].len() >= 1 && all_digits(parts[0]) && digits_val(parts[0]) <= 23
    &&& parts[1].len() >= 1 && all_digits(parts[1]) && digits_val(parts[1]) <= 59
    &&& (sp.len() == 1 || sp.len() == 2)
    &&& sp[0].len() >= 1 && all_digits(sp[0]) && digits_val(sp[0]) <= 59
    &&& (sp.len() == 2 ==> 1 <= sp[1].len() <= 9 && all_digits(sp[1]))
}

/// The nanosecond value of the optional fraction field.
pub open spec fn time_nanos(t: Seq<u8>) -> nat {
    let sp = sec_parts(t);
    if sp.len() == 2 {
        digits_val(sp[1]) * pow10((9 - sp[1].len()) as nat)
    } else {
        0
    }
}

/// Parses a time-of-day token; the fraction is widened to nanoseconds.
pub fn parse_time(t: &[u8]) -> (r: Result<Time, ComtradeError>)
    ensures
        r is Ok <==> valid_time_token(t@),
        r is Ok ==> ({
            let v = r->Ok_0;
            &&& v.hour == digits_val(time_parts(t@)[0])
            &&& v.minute == digits_val(time_parts(t@)[1])
            &&& v.second == digits_val(sec_parts(t@)[0])
            &&& v.nanosecond == time_nanos(t@)
        }),
{
    let parts = split_bytes(t, COLON);
    proof {
        assert(parts@.map_values(|x: Vec<u8>| x@) == time_parts(t@));
        if parts@.len() == 3 {
            assert(parts@[0]@ == time_parts(t@)[0]);
            assert(parts@[1]@ == time_parts(t@)[1]);
            assert(parts@[2]@ == time_parts(t@)[2]);
        }
    }
    if parts.len() != 3 {
        return Err(
            ComtradeError::InvalidValue {
                value: bytes_to_string(t),
                type_: "time",
                field: "time",
            },
        );
    }
    let hour = match read_bounded_digits(parts[0].as_slice(), 23) {
        Some(v) => v,
        None => {
            return Err(
                ComtradeError::InvalidValue {
                    value: bytes_to_string(t),
                    type_: "time",
                    field: "time",
                },
            );
        },
    };
    let minute = match read_bounded_digits(parts[1].as_slice(), 59) {
        Some(v) => v,
        None => {
            return Err(
                ComtradeError::InvalidValue {
                    value: bytes_to_string(t),
                    type_: "time",
                    field: "time",
                },
            );
        },
    };
    let sp = split_bytes(parts[2].as_slice(), PERIOD);
    proof {
        assert(sp@.map_values(|x: Vec<u8>| x@) == sec_parts(t@));
        assert(sp@[0]@ == sec_parts(t@)[0]);
        if sp@.len() == 2 {
            assert(sp@[1]@ == sec_parts(t@)[1]);
        }
    }
    if sp.len() != 1 && sp.len() != 2 {
        return Err(
            ComtradeError::InvalidValue {
                value: bytes_to_string(t),
                type_: "time",
                field: "time",
            },
        );
    }
    let second = match read_bounded_digits(sp[0].as_slice(), 59) {
        Some(v) => v,
        None => {
            return Err(
                ComtradeError::InvalidValue {
                    value: bytes_to_string(t),
                    type_: "time",
                    field: "time",
                },
            );
        },
    };
    let mut nanosecond: u32 = 0;
    if sp.len() == 2 {
        let frac = &sp[1];
        let flen = frac.len();
        if flen < 1 || flen > 9 {
            return Err(
                ComtradeError::InvalidValue {
                    value: bytes_to_string(t),
                    type_: "time",
                    field: "time",
                },
            );
        }
        let fv = match crate::text::digits_in_range_to_u128(
            frac.as_slice(),
            0,
            flen,
            999999999u128,
        ) {
            Some(v) => v,
            None => {
                proof {
                    assert(frac@.subrange(0, flen as int) =~= frac@);
                    if all_digits(frac@) {
                        lemma_nine_digits_bound(frac@);
                    }
                }
                return Err(
                    ComtradeError::InvalidValue {
                        value: bytes_to_string(t),
                        type_: "time",
                        field: "time",
                    },
                );
            },
        };
        proof {
            assert(frac@.subrange(0, flen as int) =~= frac@);
        }
        let mut scale: u32 = 1;
        let mut i: usize = flen;
        while i < 9
            invariant
                1 <= flen <= i <= 9,
                scale == pow10((i - flen) as nat),
            decreases 9 - i,
        {
            proof {
                crate::rational::lemma_pow10_monotone((i + 1 - flen) as nat, 8);
                lemma_pow10_small();
                assert(10 * pow10((i - flen) as nat) == pow10((i + 1 - flen) as nat));
            }
            scale = scale * 10;
            i += 1;
        }
        proof {
            lemma_digits_bound(frac@);
            crate::rational::lemma_pow10_add((flen) as nat, (9 - flen) as nat);
            lemma_pow10_small();
            assert(digits_val(frac@) * pow10((9 - flen) as nat) < pow10(flen as nat) * pow10(
                (9 - flen) as nat,
            )) by (nonlinear_arith)
                requires
                    digits_val(frac@) < pow10(flen as nat),
                    pow10((9 - flen) as nat) >= 1,
            ;
        }
        nanosecond = (fv as u32) * scale;
    }
    Ok(Time { hour: hour as u8, minute: minute as u8, second: second as u8, nanosecond })
}

/// The value of a short all-digit field when it stays within `bound`.
fn read_bounded_digits(s: &[u8], bound: u128) -> (r: Option<u128>)
    ensures
        r is Some <==> (s@.len() >= 1 && all_digits(s@) && digits_val(s@) <= bound),
        r is Some ==> r->0 == digits_val(s@),
{
    let v = crate::text::digits_in_range_to_u128(s, 0, s.len(), bound);
    proof {
        assert(s@.subrange(0, s@.len() as int) =~= s@);
    }
    v
}

/// Up to nine digits read as a number stay below ten to the ninth.
proof fn lemma_nine_digits_bound(s: Seq<u8>)
    requires
        s.len() <= 9,
        all_digits(s),
    ensures
        digits_val(s) <= 999999999,
    decreases s.len(),
{
    lemma_digits_bound(s);
    lemma_pow10_small();
    crate::rational::lemma_pow10_monotone(s.len(), 9);
}

/// Small powers of ten, spelled out for the solver.
proof fn lemma_pow10_small()
    ensures
        pow10(0) == 1,
        pow10(1) == 10,
        pow10(2) == 100,
        pow10(3) == 1000,
        pow10(4) == 10000,
        pow10(5) == 100000,
        pow10(6) == 1000000,
        pow10(7) == 10000000,
        pow10(8) == 100000000,
        pow10(9) == 1000000000,
{
    assert(pow10(0) == 1);
    assert(pow10(1) == 10);
    assert(pow10(2) == 100);
    assert(pow10(3) == 1000);
    assert(pow10(4) == 10000);
    assert(pow10(5) == 100000);
    assert(pow10(6) == 1000000);
    assert(pow10(7) == 10000000);
    assert(pow10(8) == 100000000);
    assert(pow10(9) == 1000000000);
}

/// A digit string's value stays below ten to its length.
proof fn lemma_digits_bound(s: Seq<u8>)
    requires
        all_digits(s),
    ensures
        digits_val(s) < pow10(s.len()),
    decreases s.len(),
{
    if s.len() > 0 {
        assert(all_digits(s.drop_last())) by {
            assert(forall|i: int| 0 <= i < s.len() - 1 ==> s.drop_last()[i] == s[i]);
        }
        lemma_digits_bound(s.drop_last());
        assert(digits_val(s.drop_last()) * 10 + 9 < pow10((s.len() - 1) as nat) * 10)
            by (nonlinear_arith)
            requires
                digits_val(s.drop_last()) < pow10((s.len() - 1) as nat),
        ;
    }
}

// ---------------------------------------------------------------------------
// The combined stamp and its precision
// ---------------------------------------------------------------------------

/// Index of the last dot in `s`, or -1.
pub open spec fn rfind_dot(s: Seq<u8>) -> int
    decreases s.len(),
{
    if s.len() == 0 {
        -1
    } else if s.last() == PERIOD {
        s.len() - 1
    } else {
        rfind_dot(s.drop_last())
    }
}

/// The number of bytes after the last dot of a date-time stamp decides the
/// base time unit: six or fewer mean microseconds, more mean nanoseconds; a
/// stamp without a dot has no derivable precision.
pub fn ts_base_unit(datetime_stamp: &[u8]) -> (r: Result<TimePrecision, ComtradeError>)
    ensures
        r is Ok <==> rfind_dot(datetime_stamp@) >= 0,
        r is Ok ==> (r->Ok_0 is Microseconds <==> datetime_stamp@.len() - 1 - rfind_dot(
            datetime_stamp@,
        ) <= 6),
        r is Err ==> r->Err_0 == ComtradeError::CantFindTimestampPrecision,
{
    let n = datetime_stamp.len();
    let mut i: usize = n;
    proof {
        assert(datetime_stamp@.take(n as int) =~= datetime_stamp@);
    }
    while i > 0
        invariant
            0 <= i <= n == datetime_stamp@.len(),
            rfind_dot(datetime_stamp@) == rfind_dot(datetime_stamp@.take(i as int)),
        decreases i,
    {
        proof {
            assert(datetime_stamp@.take(i as int).drop_last() =~= datetime_stamp@.take(
                i as int - 1,
            ));
            assert(datetime_stamp@.take(i as int).last() == datetime_stamp@[i as int - 1]);
        }
        if datetime_stamp[i - 1] == PERIOD {
            let suffix_len = n - i;
            proof {
                assert(rfind_dot(datetime_stamp@.take(i as int)) == i - 1);
            }
            if suffix_len <= 6 {
                return Ok(TimePrecision::Microseconds);
            } else {
                return Ok(TimePrecision::Nanoseconds);
            }
        }
        i -= 1;
    }
    proof {
        assert(datetime_stamp@.take(0) =~= Seq::<u8>::empty());
    }
    Err(ComtradeError::CantFindTimestampPrecision)
}

/// A readable stamp line from position `p` on: a date in the revision's
/// layout, then a time whose fractional digits decide a precision.
pub open spec fn stamp_line_valid(toks: Seq<Seq<u8>>, p: int, revision: FormatRevision) -> bool {
    &&& toks.len() - p >= 2
    &&& revision.date_valid(toks[p])
    &&& valid_time_token(toks[p + 1])
    &&& rfind_dot(toks[p + 1]) >= 0
}

/// A date-time stamp read from a configuration line, with the precision its
/// fractional digits imply.
pub struct ComtradeDateTime {
    pub date_time: DateTime,
    pub precision: TimePrecision,
}

impl ComtradeDateTime {
    /// Reads `date,time` from a stamp line; the date layout follows the
    /// format revision, and the precision comes from the time's fractional
    /// digit count.
    pub fn from_config_line(line: ConfigLine, revision: &FormatRevision) -> (r: Result<
        ComtradeDateTime,
        ComtradeError,
    >)
        ensures
            ({
                let toks = line.toks();
                let p = line.pos as int;
                &&& (r is Ok <==> stamp_line_valid(toks, p, *revision))
                &&& r is Ok ==> ({
                    let v = r->Ok_0;
                    &&& toks.len() - p >= 2
                    &&& revision.date_matches(toks[p], v.date_time.date)
                    &&& valid_time_token(toks[p + 1])
                    &&& v.date_time.time.hour == digits_val(time_parts(toks[p + 1])[0])
                    &&& v.date_time.time.minute == digits_val(time_parts(toks[p + 1])[1])
                    &&& v.date_time.time.second == digits_val(sec_parts(toks[p + 1])[0])
                    &&& v.date_time.time.nanosecond == time_nanos(toks[p + 1])
                    &&& (v.precision is Microseconds <==> toks[p + 1].len() - 1 - rfind_dot(
                        toks[p + 1],
                    ) <= 6)
                    &&& rfind_dot(toks[p + 1]) >= 0
                })
            }),
    {
        let mut line = line;
        let date_string = line.read_next("date")?;
        let time_string = line.read_next("time")?;
        let date = revision.read_date(date_string.as_slice())?;
        let time = parse_time(time_string.as_slice())?;
        let precision = ts_base_unit(time_string.as_slice())?;
        Ok(ComtradeDateTime { date_time: DateTime { date, time }, precision })
    }
}

} // verus!
