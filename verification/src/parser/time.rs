//! Timestamp reconstruction: turning a sample number and an optional stored
//! raw timestamp into an elapsed time in seconds, and the UTC/local time
//! offset tokens of the newest revision.
use vstd::prelude::*;

use crate::parser::cfg::sample_rates::SamplingRate;
use crate::parser::{plain_error, token_error, ParseError};
use crate::rational::Rational;
use crate::text::{
    int_token_val, lower_seq, parse_i32, spec_split, spec_trim, split_bytes, trim_bytes,
    valid_int_token,
};

verus! {

// ---------------------------------------------------------------------------
// Time offsets (revision 2013)
// ---------------------------------------------------------------------------

/// Lower-case `h`, the separator of compound hour-and-minute offsets.
pub const HOUR_SEP: u8 = 104;

/// A time offset may not reach a full day in either direction.
pub open spec fn offset_in_range(x: int) -> bool {
    -86400 < x < 86400
}

/// What a time-offset token denotes: nothing parseable, "not applicable",
/// or a signed offset in seconds. The token is trimmed first; `x` in any
/// case means not applicable; a bare signed integer counts hours; a
/// compound `HhMM` adds the minutes away from zero when the hours are
/// negative, toward the east otherwise.
pub open spec fn spec_time_offset(t: Seq<u8>) -> Option<Option<int>> {
    let tv = spec_trim(t);
    if lower_seq(tv) == seq![120u8] {
        Some(None)
    } else if valid_int_token(tv) && i32::MIN <= int_token_val(tv) <= i32::MAX {
        if offset_in_range(int_token_val(tv) * 3600) {
            Some(Some(int_token_val(tv) * 3600))
        } else {
            None
        }
    } else {
        let parts = spec_split(tv, HOUR_SEP);
        if parts.len() == 2 && valid_int_token(parts[0]) && i32::MIN <= int_token_val(parts[0])
            <= i32::MAX && valid_int_token(parts[1]) && i32::MIN <= int_token_val(parts[1])
            <= i32::MAX {
            let h = int_token_val(parts[0]);
            let m = int_token_val(parts[1]);
            let total = if h < 0 {
                h * 3600 - m * 60
            } else {
                h * 3600 + m * 60
            };
            if offset_in_range(total) {
                Some(Some(total))
            } else {
                None
            }
        } else {
            None
        }
    }
}

/// Parses a UTC/local time-offset token into seconds east of UTC, `None`
/// meaning "not applicable". An offset of a day or more is rejected rather
/// than folded.
pub fn parse_time_offset(offset_str: &[u8]) -> (r: Result<Option<i32>, ParseError>)
    ensures
        r is Ok <==> spec_time_offset(offset_str@) is Some,
        r is Ok ==> ({
            let o = spec_time_offset(offset_str@)->0;
            match r->Ok_0 {
                Some(v) => o == Some(v as int),
                None => o is None,
            }
        }),
{
    let time_value = trim_bytes(offset_str);
    let lowered = crate::text::to_lower(time_value.as_slice());
    proof {
        assert(lowered@ == lower_seq(spec_trim(offset_str@)));
        assert(forall|c: u8| seq![c].len() == 1 && seq![c][0] == c);
    }
    if lowered.len() == 1 && lowered[0] == 120 {
        proof {
            assert(lowered@ =~= seq![120u8]);
        }
        return Ok(None);
    }
    if let Some(hours) = parse_i32(time_value.as_slice()) {
        let total: i64 = hours as i64 * 3600;
        if -86400 < total && total < 86400 {
            return Ok(Some(total as i32));
        }
        return Err(token_error("invalid time offset on line: ", offset_str));
    }
    let time_split = split_bytes(time_value.as_slice(), HOUR_SEP);
    proof {
        assert(time_split@.map_values(|x: Vec<u8>| x@) == spec_split(
            spec_trim(offset_str@),
            HOUR_SEP,
        ));
        if time_split@.len() == 2 {
            assert(time_split@[0]@ == spec_split(spec_trim(offset_str@), HOUR_SEP)[0]);
            assert(time_split@[1]@ == spec_split(spec_trim(offset_str@), HOUR_SEP)[1]);
        }
    }
    if time_split.len() != 2 {
        return Err(token_error("invalid time offset on line: ", offset_str));
    }
    let hours = match parse_i32(time_split[0].as_slice()) {
        Some(v) => v,
        None => {
            return Err(token_error("invalid hour offset in time offset: ", offset_str));
        },
    };
    let minutes = match parse_i32(time_split[1].as_slice()) {
        Some(v) => v,
        None => {
            return Err(token_error("invalid minute offset in time offset: ", offset_str));
        },
    };
    let total: i64 = if hours < 0 {
        hours as i64 * 3600 - minutes as i64 * 60
    } else {
        hours as i64 * 3600 + minutes as i64 * 60
    };
    if -86400 < total && total < 86400 {
        Ok(Some(total as i32))
    } else {
        Err(token_error("invalid time offset on line: ", offset_str))
    }
}

// ---------------------------------------------------------------------------
// Elapsed time of a sample
// ---------------------------------------------------------------------------

/// The rate governing a sample: the first segment whose end sample number
/// reaches it, or a defensive one hertz when no segment does.
pub open spec fn rate_for(rates: Seq<SamplingRate>, sample_number: u32) -> Rational
    decreases rates.len(),
{
    if rates.len() == 0 {
        Rational { neg: false, num: 1, den: 1 }
    } else if sample_number <= rates[0].end_sample_number {
        rates[0].rate_hz
    } else {
        rate_for(rates.drop_first(), sample_number)
    }
}

/// Finds the sampling rate that governs `sample_number`.
pub fn sampling_rate_for_sample(sampling_rates: &Vec<SamplingRate>, sample_number: u32) -> (r:
    Rational)
    ensures
        r == rate_for(sampling_rates@, sample_number),
{
    let n = sampling_rates.len();
    let mut i: usize = 0;
    proof {
        assert(sampling_rates@.skip(0) =~= sampling_rates@);
    }
    while i < n
        invariant
            0 <= i <= n == sampling_rates@.len(),
            rate_for(sampling_rates@, sample_number) == rate_for(
                sampling_rates@.skip(i as int),
                sample_number,
            ),
        decreases n - i,
    {
        proof {
            assert(sampling_rates@.skip(i as int).drop_first() =~= sampling_rates@.skip(
                i as int + 1,
            ));
        }
        if sample_number <= sampling_rates[i].end_sample_number {
            return sampling_rates[i].rate_hz;
        }
        i += 1;
    }
    Rational { neg: false, num: 1, den: 1 }
}

/// Whether the rate-derived elapsed time of `sample_number` can be formed:
/// the sample number is positive, the governing rate is not zero, and the
/// unreduced quotient fits.
pub open spec fn rate_time_fits(rates: Seq<SamplingRate>, sample_number: u32) -> bool {
    let rate = rate_for(rates, sample_number);
    &&& sample_number >= 1
    &&& rate.num != 0
    &&& (sample_number - 1) * rate.den <= u128::MAX
}

/// Whether the stored-timestamp elapsed time can be formed from the raw
/// value, the base unit and the multiplication factor.
pub open spec fn stored_time_fits(ts: u32, base: Rational, mult: Rational) -> bool {
    let t0 = Rational { neg: false, num: ts as u128, den: 1 };
    &&& t0.mul_fits(base)
    &&& crate::rational::spec_mul(t0, base).mul_fits(mult)
}

/// The true elapsed time, in seconds, of the sample numbered
/// `sample_number`. With a usable sampling-rate table the time is
/// `(sample_number - 1) / rate`; in timestamp-critical mode it is the
/// stored raw timestamp scaled by the base unit and the multiplication
/// factor, and a missing stored timestamp is an error. Channel skew is not
/// applied here.
pub fn real_time(
    sampling_rates: &Vec<SamplingRate>,
    is_timestamp_critical: bool,
    ts_base_unit: &Rational,
    timestamp_multiplication_factor: &Rational,
    sample_number: u32,
    timestamp: Option<u32>,
) -> (r: Result<Rational, ParseError>)
    requires
        ts_base_unit.wf(),
        timestamp_multiplication_factor.wf(),
        forall|i: int| 0 <= i < sampling_rates@.len() ==> (#[trigger] sampling_rates@[i]).rate_hz.wf(),
    ensures
        ({
            let rates = sampling_rates@;
            let rate = rate_for(rates, sample_number);
            let use_rate = rates.len() > 0 && (!is_timestamp_critical || timestamp is None);
            &&& (use_rate ==> ({
                &&& (r is Ok <==> rate_time_fits(rates, sample_number))
                &&& r is Ok ==> ({
                    let v = r->Ok_0;
                    &&& v.wf()
                    &&& v.val_num() * rate.val_num() == (sample_number - 1) * rate.val_den()
                        * v.val_den()
                })
            }))
            &&& (!use_rate ==> ({
                &&& (r is Ok <==> timestamp is Some && is_timestamp_critical && stored_time_fits(
                    timestamp->0,
                    *ts_base_unit,
                    *timestamp_multiplication_factor,
                ))
                &&& r is Ok ==> ({
                    let v = r->Ok_0;
                    &&& v.wf()
                    &&& v.val_num() == timestamp->0 * ts_base_unit.val_num()
                        * timestamp_multiplication_factor.val_num()
                    &&& v.val_den() == ts_base_unit.val_den()
                        * timestamp_multiplication_factor.val_den()
                })
            }))
        }),
{
    let has_rates = sampling_rates.len() > 0;
    if has_rates && (!is_timestamp_critical || timestamp.is_none()) {
        let rate = sampling_rate_for_sample(sampling_rates, sample_number);
        proof {
            lemma_rate_for_wf(sampling_rates@, sample_number);
        }
        if sample_number < 1 {
            return Err(
                plain_error("sample number must be positive, got sample number zero"),
            );
        }
        if rate.num == 0 {
            return Err(plain_error("sampling rate of zero hertz for a sample"));
        }
        let steps: u128 = (sample_number - 1) as u128;
        let num = match steps.checked_mul(rate.den) {
            Some(v) => v,
            None => {
                return Err(plain_error("sample number out of range of its rate"));
            },
        };
        let v = Rational { neg: rate.neg && num != 0, num, den: rate.num };
        proof {
            lemma_quotient_value(rate, sample_number, v);
        }
        return Ok(v);
    }
    match timestamp {
        Some(ts_value) => {
            if !is_timestamp_critical {
                // No sampling rates and not timestamp-critical: nothing can
                // produce a time.
                return Err(
                    plain_error("no sampling rate and no timestamp-critical mode"),
                );
            }
            let t0 = Rational { neg: false, num: ts_value as u128, den: 1 };
            let p1 = match t0.checked_mul(ts_base_unit) {
                Some(v) => v,
                None => {
                    return Err(plain_error("stored timestamp out of range"));
                },
            };
            let v = match p1.checked_mul(timestamp_multiplication_factor) {
                Some(v) => v,
                None => {
                    return Err(plain_error("stored timestamp out of range"));
                },
            };
            proof {
                assert(v.val_num() == ts_value * ts_base_unit.val_num()
                    * timestamp_multiplication_factor.val_num()) by (nonlinear_arith)
                    requires
                        p1.val_num() == ts_value * ts_base_unit.val_num(),
                        v.val_num() == p1.val_num() * timestamp_multiplication_factor.val_num(),
                ;
                assert(v.val_den() == ts_base_unit.val_den()
                    * timestamp_multiplication_factor.val_den()) by (nonlinear_arith)
                    requires
                        p1.val_den() == 1 * ts_base_unit.val_den(),
                        v.val_den() == p1.val_den() * timestamp_multiplication_factor.val_den(),
                ;
            }
            Ok(v)
        },
        None => Err(
            plain_error("timestamp is critical but not present in a sample"),
        ),
    }
}

/// The governing rate of a table of well-formed rates is well-formed.
proof fn lemma_rate_for_wf(rates: Seq<SamplingRate>, sample_number: u32)
    requires
        forall|i: int| 0 <= i < rates.len() ==> (#[trigger] rates[i]).rate_hz.wf(),
    ensures
        rate_for(rates, sample_number).wf(),
    decreases rates.len(),
{
    if rates.len() > 0 && sample_number > rates[0].end_sample_number {
        assert(forall|i: int|
            0 <= i < rates.drop_first().len() ==> (#[trigger] rates.drop_first()[i]).rate_hz
                == rates[i + 1].rate_hz);
        lemma_rate_for_wf(rates.drop_first(), sample_number);
    }
}

/// The constructed quotient value satisfies `v * rate == sample_number - 1`.
proof fn lemma_quotient_value(rate: Rational, sample_number: u32, v: Rational)
    requires
        rate.wf(),
        rate.num != 0,
        sample_number >= 1,
        v.num == (sample_number - 1) * rate.den,
        v.den == rate.num,
        v.neg == (rate.neg && v.num != 0),
    ensures
        v.wf(),
        v.val_num() * rate.val_num() == (sample_number - 1) * rate.val_den() * v.val_den(),
{
    let n1 = sample_number - 1;
    if rate.neg {
        assert((-((n1 * rate.den) as int)) * (-(rate.num as int)) == n1 * rate.den * rate.num)
            by (nonlinear_arith);
    }
    assert(v.val_num() * rate.val_num() == n1 * rate.den * rate.num) by (nonlinear_arith)
        requires
            v.num == n1 * rate.den,
            v.den == rate.num,
            v.neg == (rate.neg && v.num != 0),
            rate.num != 0,
            v.val_num() == (if v.neg { -(v.num as int) } else { v.num as int }),
            rate.val_num() == (if rate.neg { -(rate.num as int) } else { rate.num as int }),
            n1 >= 0,
    ;
    assert(n1 * rate.val_den() * v.val_den() == n1 * rate.den * rate.num) by (nonlinear_arith)
        requires
            rate.val_den() == rate.den as int,
            v.val_den() == v.den as int,
            v.den == rate.num,
    ;
}

// ---------------------------------------------------------------------------
// Laws of the reconstructor
// ---------------------------------------------------------------------------

/// Within one rate segment — the first segment whose end sample number
/// reaches the sample — the governing rate is that segment's rate, so the
/// reconstructed time is `(sample_number - 1)` over that very rate.
pub proof fn lemma_rate_for_in_segment(rates: Seq<SamplingRate>, i: int, sample_number: u32)
    requires
        0 <= i < rates.len(),
        sample_number <= rates[i].end_sample_number,
        forall|j: int| 0 <= j < i ==> (#[trigger] rates[j]).end_sample_number < sample_number,
    ensures
        rate_for(rates, sample_number) == rates[i].rate_hz,
    decreases i,
{
    if i > 0 {
        assert(rates[0].end_sample_number < sample_number);
        assert(forall|j: int|
            0 <= j < i - 1 ==> (#[trigger] rates.drop_first()[j]) == rates[j + 1]);
        lemma_rate_for_in_segment(rates.drop_first(), i - 1, sample_number);
    }
}

/// For a positive rate, the rate-derived time is non-decreasing in the
/// sample number: two reconstructed times of samples `n1 <= n2` governed by
/// the same rate compare as `t1 <= t2`.
pub proof fn lemma_real_time_nondecreasing(
    rate: Rational,
    n1: u32,
    n2: u32,
    v1: Rational,
    v2: Rational,
)
    requires
        rate.wf(),
        !rate.neg,
        rate.num > 0,
        1 <= n1 <= n2,
        v1.wf(),
        v2.wf(),
        v1.val_num() * rate.val_num() == (n1 - 1) * rate.val_den() * v1.val_den(),
        v2.val_num() * rate.val_num() == (n2 - 1) * rate.val_den() * v2.val_den(),
    ensures
        v1.val_num() * v2.val_den() <= v2.val_num() * v1.val_den(),
{
    let rn = rate.val_num();
    let rd = rate.val_den();
    assert(rn > 0);
    assert(rd > 0);
    assert(v1.val_den() > 0);
    assert(v2.val_den() > 0);
    assert((v1.val_num() * v2.val_den()) * rn == ((n1 - 1) * rd * v1.val_den()) * v2.val_den())
        by (nonlinear_arith)
        requires
            v1.val_num() * rn == (n1 - 1) * rd * v1.val_den(),
    ;
    assert((v2.val_num() * v1.val_den()) * rn == ((n2 - 1) * rd * v2.val_den()) * v1.val_den())
        by (nonlinear_arith)
        requires
            v2.val_num() * rn == (n2 - 1) * rd * v2.val_den(),
    ;
    assert(((n1 - 1) * rd * v1.val_den()) * v2.val_den() <= ((n2 - 1) * rd * v2.val_den())
        * v1.val_den()) by (nonlinear_arith)
        requires
            n1 <= n2,
            1 <= n1,
            rd > 0,
            v1.val_den() > 0,
            v2.val_den() > 0,
    ;
    assert(v1.val_num() * v2.val_den() <= v2.val_num() * v1.val_den()) by (nonlinear_arith)
        requires
            rn > 0,
            (v1.val_num() * v2.val_den()) * rn <= (v2.val_num() * v1.val_den()) * rn,
    ;
}

} // verus!
