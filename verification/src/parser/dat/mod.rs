//! The sample-data decoder: comma-separated text rows or fixed-width
//! little-endian binary records, either way yielding per-sample times and
//! per-channel scaled analog and status values.
use vstd::prelude::*;

pub mod formats;

use crate::parser::cfg::analog_channels::AnalogConfig;
use crate::parser::cfg::sample_rates::SamplingRate;
use crate::parser::cfg::spec_tokens;
use crate::parser::dat::formats::DataFormat;
use crate::parser::time::{rate_for, rate_time_fits, real_time, stored_time_fits};
use crate::parser::{plain_error, ParseError};
use crate::rational::{rat_of_token, spec_add, spec_mul, Rational};
use crate::text::{
    spec_split, spec_trim, split_bytes, trim_bytes, uint_token_val, valid_uint_token, NEWLINE,
};
use vstd::arithmetic::power2::pow2;

verus! {

/// The sentinel raw timestamp that marks "absent" in binary records.
pub const TIMESTAMP_MISSING: u32 = 0xffffffff;

/// Everything one pass over the data file yields, row-major: the data of
/// analog channel `j` at sample row `i` is `analog_rows[i][j]`.
pub struct DatData {
    pub sample_numbers: Vec<u32>,
    pub timestamps: Vec<Rational>,
    pub analog_rows: Vec<Vec<Rational>>,
    pub status_rows: Vec<Vec<u8>>,
}

// ---------------------------------------------------------------------------
// Shared time and scaling conditions
// ---------------------------------------------------------------------------

/// Whether the reconstructed time of this sample can be formed, mirroring
/// the timestamp reconstructor's success condition.
pub open spec fn time_ok(
    n: u32,
    ts: Option<u32>,
    rates: Seq<SamplingRate>,
    crit: bool,
    base: Rational,
    mult: Rational,
) -> bool {
    let use_rate = rates.len() > 0 && (!crit || ts is None);
    if use_rate {
        rate_time_fits(rates, n)
    } else {
        ts is Some && crit && stored_time_fits(ts->0, base, mult)
    }
}

/// `v` is the reconstructed time of this sample: rate-derived it satisfies
/// `v * rate == n - 1`, stored it is exactly `ts * base * mult`.
pub open spec fn time_value_matches(
    v: Rational,
    n: u32,
    ts: Option<u32>,
    rates: Seq<SamplingRate>,
    crit: bool,
    base: Rational,
    mult: Rational,
) -> bool {
    let use_rate = rates.len() > 0 && (!crit || ts is None);
    &&& v.wf()
    &&& if use_rate {
        let rate = rate_for(rates, n);
        v.val_num() * rate.val_num() == (n - 1) * rate.val_den() * v.val_den()
    } else {
        v.val_num() == ts->0 * base.val_num() * mult.val_num() && v.val_den() == base.val_den()
            * mult.val_den()
    }
}

/// Whether `raw * multiplier + offset` can be formed without overflow.
pub open spec fn scale_fits(raw: Rational, mult: Rational, adder: Rational) -> bool {
    raw.mul_fits(mult) && spec_mul(raw, mult).add_fits(adder)
}

/// The scaled sample: `raw * multiplier + offset`, unreduced.
pub open spec fn scaled(raw: Rational, mult: Rational, adder: Rational) -> Rational {
    spec_add(spec_mul(raw, mult), adder)
}

/// Applies a channel's scaling transform to one raw sample value.
pub fn scale_value(raw: &Rational, mult: &Rational, adder: &Rational) -> (r: Result<
    Rational,
    ParseError,
>)
    requires
        raw.wf(),
        mult.wf(),
        adder.wf(),
    ensures
        r is Ok <==> scale_fits(*raw, *mult, *adder),
        r is Ok ==> ({
            let v = r->Ok_0;
            &&& v.wf()
            &&& v == scaled(*raw, *mult, *adder)
            &&& v.val_num() == raw.val_num() * mult.val_num() * adder.val_den() + adder.val_num()
                * (raw.val_den() * mult.val_den())
            &&& v.val_den() == raw.val_den() * mult.val_den() * adder.val_den()
        }),
{
    let product = match raw.checked_mul(mult) {
        Some(v) => v,
        None => {
            return Err(plain_error("scaled analog value out of range"));
        },
    };
    let v = match product.checked_add(adder) {
        Some(v) => v,
        None => {
            return Err(plain_error("scaled analog value out of range"));
        },
    };
    proof {
        assert(v.val_num() == raw.val_num() * mult.val_num() * adder.val_den() + adder.val_num()
            * (raw.val_den() * mult.val_den())) by (nonlinear_arith)
            requires
                v.val_num() == product.val_num() * adder.val_den() + adder.val_num()
                    * product.val_den(),
                product.val_num() == raw.val_num() * mult.val_num(),
                product.val_den() == raw.val_den() * mult.val_den(),
        ;
        assert(v.val_den() == raw.val_den() * mult.val_den() * adder.val_den())
            by (nonlinear_arith)
            requires
                v.val_den() == product.val_den() * adder.val_den(),
                product.val_den() == raw.val_den() * mult.val_den(),
        ;
    }
    Ok(v)
}

// ---------------------------------------------------------------------------
// Text mode
// ---------------------------------------------------------------------------

/// The data rows of a text-mode file: its lines with the blank ones
/// dropped.
/// The predicate keeping the non-blank lines.
pub open spec fn nonblank_pred() -> spec_fn(Seq<u8>) -> bool {
    |l: Seq<u8>| spec_trim(l).len() != 0
}

pub open spec fn nonblank_lines(dat: Seq<u8>) -> Seq<Seq<u8>> {
    spec_split(dat, NEWLINE).filter(nonblank_pred())
}

/// One text row is shaped right: exactly `2 + analog + status` fields — a
/// sample number, a raw timestamp that may be empty, decimal analog values
/// and small status integers.
pub open spec fn ascii_row_shape_ok(toks: Seq<Seq<u8>>, na: int, ns: int) -> bool {
    &&& toks.len() == na + ns + 2
    &&& valid_uint_token(toks[0]) && uint_token_val(toks[0]) <= u32::MAX
    &&& (toks[1].len() == 0 || (valid_uint_token(toks[1]) && uint_token_val(toks[1])
        <= u32::MAX))
    &&& (forall|j: int|
        0 <= j < na ==> crate::parser::cfg::analog_channels::decimal_token_ok(#[trigger] toks[2 + j]))
    &&& (forall|j: int|
        0 <= j < ns ==> valid_uint_token(#[trigger] toks[2 + na + j]) && uint_token_val(
            toks[2 + na + j],
        ) <= u8::MAX)
}

/// The stored timestamp of a text row: an empty second field means absent.
pub open spec fn ascii_row_ts(toks: Seq<Seq<u8>>) -> Option<u32> {
    if toks[1].len() == 0 {
        None
    } else {
        Some(uint_token_val(toks[1]) as u32)
    }
}

/// A text row decodes completely: its shape, every channel's scaling, and
/// its reconstructed time.
pub open spec fn ascii_row_ok(
    line: Seq<u8>,
    configs: Seq<AnalogConfig>,
    ns: int,
    rates: Seq<SamplingRate>,
    crit: bool,
    base: Rational,
    mult: Rational,
) -> bool {
    let toks = spec_tokens(line);
    let na = configs.len() as int;
    &&& ascii_row_shape_ok(toks, na, ns)
    &&& (forall|j: int|
        0 <= j < na ==> scale_fits(
            rat_of_token(#[trigger] toks[2 + j]),
            configs[j].multiplier,
            configs[j].offset_adder,
        ))
    &&& time_ok(
        uint_token_val(toks[0]) as u32,
        ascii_row_ts(toks),
        rates,
        crit,
        base,
        mult,
    )
}

/// Row `i` of the output holds exactly what row `i` of the text decodes to.
pub open spec fn ascii_row_matches(
    d: DatData,
    i: int,
    line: Seq<u8>,
    configs: Seq<AnalogConfig>,
    ns: int,
    rates: Seq<SamplingRate>,
    crit: bool,
    base: Rational,
    mult: Rational,
) -> bool {
    let toks = spec_tokens(line);
    let na = configs.len() as int;
    &&& d.sample_numbers@[i] == uint_token_val(toks[0])
    &&& time_value_matches(
        d.timestamps@[i],
        uint_token_val(toks[0]) as u32,
        ascii_row_ts(toks),
        rates,
        crit,
        base,
        mult,
    )
    &&& d.analog_rows@[i]@.len() == na
    &&& (forall|j: int|
        0 <= j < na ==> d.analog_rows@[i]@[j] == scaled(
            rat_of_token(#[trigger] toks[2 + j]),
            configs[j].multiplier,
            configs[j].offset_adder,
        ))
    &&& d.status_rows@[i]@.len() == ns
    &&& (forall|j: int| 0 <= j < ns ==> d.status_rows@[i]@[j] == uint_token_val(#[trigger] toks[2 + na + j]))
}

/// Decodes a text-mode data file. Each non-blank line is one sample row;
/// any wrong column count, unparsable token, overflowing scale or missing
/// critical timestamp is fatal.
pub fn parse_dat_ascii(
    dat: &[u8],
    analog_configs: &Vec<AnalogConfig>,
    num_status: usize,
    sampling_rates: &Vec<SamplingRate>,
    is_timestamp_critical: bool,
    ts_base_unit: &Rational,
    timestamp_multiplication_factor: &Rational,
) -> (r: Result<DatData, ParseError>)
    requires
        ts_base_unit.wf(),
        timestamp_multiplication_factor.wf(),
        forall|i: int|
            0 <= i < sampling_rates@.len() ==> (#[trigger] sampling_rates@[i]).rate_hz.wf(),
        forall|j: int|
            0 <= j < analog_configs@.len() ==> (#[trigger] analog_configs@[j]).multiplier.wf()
                && analog_configs@[j].offset_adder.wf(),
    ensures
        ({
            let rows = nonblank_lines(dat@);
            &&& (r is Ok <==> (forall|i: int|
                0 <= i < rows.len() ==> ascii_row_ok(
                    #[trigger] rows[i],
                    analog_configs@,
                    num_status as int,
                    sampling_rates@,
                    is_timestamp_critical,
                    *ts_base_unit,
                    *timestamp_multiplication_factor,
                )))
            &&& (r is Err ==> exists|i: int|
                0 <= i < rows.len() && !ascii_row_ok(
                    #[trigger] rows[i],
                    analog_configs@,
                    num_status as int,
                    sampling_rates@,
                    is_timestamp_critical,
                    *ts_base_unit,
                    *timestamp_multiplication_factor,
                ))
            &&& (r is Ok ==> ({
                let d = r->Ok_0;
                &&& d.sample_numbers@.len() == rows.len()
                &&& d.timestamps@.len() == rows.len()
                &&& d.analog_rows@.len() == rows.len()
                &&& d.status_rows@.len() == rows.len()
                &&& (forall|i: int|
                    0 <= i < rows.len() ==> ascii_row_matches(
                        d,
                        i,
                        #[trigger] rows[i],
                        analog_configs@,
                        num_status as int,
                        sampling_rates@,
                        is_timestamp_critical,
                        *ts_base_unit,
                        *timestamp_multiplication_factor,
                    ))
            }))
        }),
{
    let lines = split_bytes(dat, NEWLINE);
    let nlines = lines.len();
    let ghost all_lines = spec_split(dat@, NEWLINE);

    let mut d = DatData {
        sample_numbers: Vec::new(),
        timestamps: Vec::new(),
        analog_rows: Vec::new(),
        status_rows: Vec::new(),
    };
    let mut li: usize = 0;
    proof {
        reveal(Seq::filter);
        assert(all_lines.take(0) =~= Seq::<Seq<u8>>::empty());
    }
    while li < nlines
        invariant
            0 <= li <= nlines == all_lines.len(),
            lines@.map_values(|t: Vec<u8>| t@) == all_lines,
            all_lines == spec_split(dat@, NEWLINE),
            d.sample_numbers@.len() == all_lines.take(li as int).filter(nonblank_pred()).len(),
            d.timestamps@.len() == d.sample_numbers@.len(),
            d.analog_rows@.len() == d.sample_numbers@.len(),
            d.status_rows@.len() == d.sample_numbers@.len(),
            forall|i: int|
                0 <= i < all_lines.take(li as int).filter(nonblank_pred()).len() ==> ascii_row_ok(
                    #[trigger] all_lines.take(li as int).filter(nonblank_pred())[i],
                    analog_configs@,
                    num_status as int,
                    sampling_rates@,
                    is_timestamp_critical,
                    *ts_base_unit,
                    *timestamp_multiplication_factor,
                ) && ascii_row_matches(
                    d,
                    i,
                    all_lines.take(li as int).filter(nonblank_pred())[i],
                    analog_configs@,
                    num_status as int,
                    sampling_rates@,
                    is_timestamp_critical,
                    *ts_base_unit,
                    *timestamp_multiplication_factor,
                ),
            ts_base_unit.wf(),
            timestamp_multiplication_factor.wf(),
            forall|i: int|
                0 <= i < sampling_rates@.len() ==> (#[trigger] sampling_rates@[i]).rate_hz.wf(),
            forall|j: int|
                0 <= j < analog_configs@.len() ==> (#[trigger] analog_configs@[j]).multiplier.wf()
                    && analog_configs@[j].offset_adder.wf(),
        decreases nlines - li,
    {
        let ghost prefix = all_lines.take(li as int);
        let ghost line_s = all_lines[li as int];
        proof {
            reveal(Seq::filter);
            assert(all_lines.take(li as int + 1).drop_last() =~= prefix);
            assert(all_lines.take(li as int + 1).last() == line_s);
        }
        let line = &lines[li];
        let trimmed = trim_bytes(line.as_slice());
        if trimmed.len() != 0 {
            let row_result = parse_ascii_row(
                line.as_slice(),
                analog_configs,
                num_status,
                sampling_rates,
                is_timestamp_critical,
                ts_base_unit,
                timestamp_multiplication_factor,
            );
            let row = match row_result {
                Ok(v) => v,
                Err(e) => {
                    proof {
                        reveal(Seq::filter);
                        assert(lines@[li as int]@ == line_s);
                        let rest = all_lines.skip(li as int);
                        let rest1 = rest.drop_first();
                        assert(all_lines =~= prefix + rest);
                        Seq::filter_distributes_over_add(prefix, rest, nonblank_pred());
                        assert(rest =~= seq![line_s] + rest1);
                        Seq::filter_distributes_over_add(seq![line_s], rest1, nonblank_pred());
                        assert(seq![line_s].filter(nonblank_pred()) =~= seq![line_s]) by {
                            assert(seq![line_s].drop_last() =~= Seq::<Seq<u8>>::empty());
                            assert(seq![line_s].last() == line_s);
                            assert(nonblank_pred()(line_s));
                        }
                        let a = prefix.filter(nonblank_pred());
                        let c = rest1.filter(nonblank_pred());
                        let idx = a.len() as int;
                        assert(all_lines.filter(nonblank_pred()) == a + (seq![line_s] + c));
                        assert((a + (seq![line_s] + c)).len() == a.len() + 1 + c.len());
                        assert((a + (seq![line_s] + c))[idx] == (seq![line_s] + c)[0]);
                        assert((seq![line_s] + c)[0] == line_s);
                        assert(all_lines == spec_split(dat@, NEWLINE));
                        assert(nonblank_lines(dat@) == spec_split(dat@, NEWLINE).filter(
                            nonblank_pred(),
                        ));
                        assert(nonblank_lines(dat@) == all_lines.filter(nonblank_pred()));
                        assert(nonblank_lines(dat@)[idx] == line_s);
                    }
                    // The error names the row that failed, counted from one.
                    let row_no = match d.sample_numbers.len().checked_add(1) {
                        Some(v) => v,
                        None => d.sample_numbers.len(),
                    };
                    let mut message = "data row ".to_owned();
                    message.append(
                        crate::text::bytes_to_string(
                            crate::text::usize_to_decimal(row_no).as_slice(),
                        ).as_str(),
                    );
                    message.append(": ");
                    message.append(e.message.as_str());
                    return Err(ParseError { message });
                },
            };
            let ghost old_d = d;
            d.sample_numbers.push(row.sample_number);
            d.timestamps.push(row.time);
            d.analog_rows.push(row.analog);
            d.status_rows.push(row.status);
            proof {
                let rows1 = all_lines.take(li as int + 1).filter(nonblank_pred());
                assert(rows1 == prefix.filter(nonblank_pred()).push(line_s));
                assert(forall|i: int|
                    0 <= i < prefix.filter(nonblank_pred()).len() ==> rows1[i] == prefix.filter(nonblank_pred())[i]);
                assert(rows1[rows1.len() - 1] == line_s);
                assert(forall|i: int, j: int|
                    0 <= i < old_d.analog_rows@.len() && 0 <= j < old_d.analog_rows@[i]@.len()
                        ==> d.analog_rows@[i]@[j] == old_d.analog_rows@[i]@[j]);
            }
        } else {
            proof {
                assert(all_lines.take(li as int + 1).filter(nonblank_pred()) == prefix.filter(nonblank_pred()));
            }
        }
        li += 1;
    }
    proof {
        assert(all_lines.take(nlines as int) =~= all_lines);
    }
    Ok(d)
}

/// One decoded text row.
struct AsciiRow {
    sample_number: u32,
    time: Rational,
    analog: Vec<Rational>,
    status: Vec<u8>,
}

/// Decodes one non-blank text row: sample number, optional raw timestamp,
/// the scaled analog values and the raw status values, and the
/// reconstructed time.
fn parse_ascii_row(
    line: &[u8],
    analog_configs: &Vec<AnalogConfig>,
    num_status: usize,
    sampling_rates: &Vec<SamplingRate>,
    is_timestamp_critical: bool,
    ts_base_unit: &Rational,
    timestamp_multiplication_factor: &Rational,
) -> (r: Result<AsciiRow, ParseError>)
    requires
        ts_base_unit.wf(),
        timestamp_multiplication_factor.wf(),
        forall|i: int|
            0 <= i < sampling_rates@.len() ==> (#[trigger] sampling_rates@[i]).rate_hz.wf(),
        forall|j: int|
            0 <= j < analog_configs@.len() ==> (#[trigger] analog_configs@[j]).multiplier.wf()
                && analog_configs@[j].offset_adder.wf(),
    ensures
        r is Ok <==> ascii_row_ok(
            line@,
            analog_configs@,
            num_status as int,
            sampling_rates@,
            is_timestamp_critical,
            *ts_base_unit,
            *timestamp_multiplication_factor,
        ),
        r is Ok ==> ({
            let v = r->Ok_0;
            let toks = spec_tokens(line@);
            let na = analog_configs@.len() as int;
            &&& v.sample_number == uint_token_val(toks[0])
            &&& time_value_matches(
                v.time,
                uint_token_val(toks[0]) as u32,
                ascii_row_ts(toks),
                sampling_rates@,
                is_timestamp_critical,
                *ts_base_unit,
                *timestamp_multiplication_factor,
            )
            &&& v.analog@.len() == na
            &&& (forall|j: int|
                0 <= j < na ==> v.analog@[j] == scaled(
                    rat_of_token(#[trigger] toks[2 + j]),
                    analog_configs@[j].multiplier,
                    analog_configs@[j].offset_adder,
                ))
            &&& v.status@.len() == num_status
            &&& (forall|j: int|
                0 <= j < num_status ==> v.status@[j] == uint_token_val(#[trigger] toks[2 + na + j]))
        }),
{
    let mut cursor = crate::parser::cfg::split_cfg_line(line);
    let ghost toks = spec_tokens(line@);
    let na = analog_configs.len();
    let ntoks = cursor.tokens.len();
    proof {
        assert(toks.len() == ntoks);
    }
    let expected = match na.checked_add(num_status) {
        Some(v) => match v.checked_add(2) {
            Some(w) => w,
            None => {
                return Err(plain_error("row has too many columns to count"));
            },
        },
        None => {
            return Err(plain_error("row has too many columns to count"));
        },
    };
    if ntoks != expected {
        let mut message = "row has an incorrect number of columns; expected ".to_owned();
        message.append(
            crate::text::bytes_to_string(crate::text::usize_to_decimal(expected).as_slice()).as_str(),
        );
        message.append(" but got ");
        message.append(
            crate::text::bytes_to_string(crate::text::usize_to_decimal(ntoks).as_slice()).as_str(),
        );
        return Err(ParseError { message });
    }
    let sample_number = match cursor.read_u32("sample number") {
        Ok(v) => v,
        Err(_) => {
            return Err(plain_error("invalid sample number in data row"));
        },
    };
    let ts_tok = match cursor.read_next("timestamp") {
        Ok(v) => v,
        Err(_) => {
            return Err(plain_error("missing timestamp column"));
        },
    };
    let timestamp: Option<u32>;
    if ts_tok.len() == 0 {
        timestamp = None;
    } else {
        match crate::text::parse_u32(ts_tok.as_slice()) {
            Some(v) => {
                timestamp = Some(v);
            },
            None => {
                return Err(plain_error("invalid timestamp in data row"));
            },
        }
    }
    let time = real_time(
        sampling_rates,
        is_timestamp_critical,
        ts_base_unit,
        timestamp_multiplication_factor,
        sample_number,
        timestamp,
    )?;
    let mut analog: Vec<Rational> = Vec::new();
    let mut j: usize = 0;
    while j < na
        invariant
            0 <= j <= na == analog_configs@.len(),
            toks == spec_tokens(line@),
            cursor.toks() == toks,
            toks.len() == na + num_status + 2,
            cursor.pos == 2 + j,
            analog@.len() == j,
            forall|k: int|
                0 <= k < j ==> crate::parser::cfg::analog_channels::decimal_token_ok(
                    #[trigger] toks[2 + k],
                ) && scale_fits(
                    rat_of_token(toks[2 + k]),
                    analog_configs@[k].multiplier,
                    analog_configs@[k].offset_adder,
                ) && analog@[k] == scaled(
                    rat_of_token(toks[2 + k]),
                    analog_configs@[k].multiplier,
                    analog_configs@[k].offset_adder,
                ),
            forall|k: int|
                0 <= k < analog_configs@.len() ==> (#[trigger] analog_configs@[k]).multiplier.wf()
                    && analog_configs@[k].offset_adder.wf(),
        decreases na - j,
    {
        let raw = match cursor.read_rational("analog value") {
            Ok(v) => v,
            Err(_) => {
                return Err(plain_error("invalid analog value in data row"));
            },
        };
        let config = &analog_configs[j];
        let value = scale_value(&raw, &config.multiplier, &config.offset_adder)?;
        analog.push(value);
        j += 1;
    }
    let mut status: Vec<u8> = Vec::new();
    let mut j2: usize = 0;
    while j2 < num_status
        invariant
            0 <= j2 <= num_status,
            toks == spec_tokens(line@),
            cursor.toks() == toks,
            toks.len() == na + num_status + 2,
            na == analog_configs@.len(),
            cursor.pos == 2 + na + j2,
            status@.len() == j2,
            forall|k: int|
                0 <= k < j2 ==> valid_uint_token(#[trigger] toks[2 + na + k]) && uint_token_val(
                    toks[2 + na + k],
                ) <= u8::MAX && status@[k] == uint_token_val(toks[2 + na + k]),
        decreases num_status - j2,
    {
        let value = match cursor.read_u8("status value") {
            Ok(v) => v,
            Err(_) => {
                return Err(plain_error("invalid status value in data row"));
            },
        };
        status.push(value);
        j2 += 1;
    }
    Ok(AsciiRow { sample_number, time, analog, status })
}

// ---------------------------------------------------------------------------
// Binary mode: little-endian fields
// ---------------------------------------------------------------------------

/// A little-endian 16-bit word at byte offset `off`.
pub open spec fn le_u16(s: Seq<u8>, off: int) -> int {
    s[off] + 256 * s[off + 1]
}

/// A little-endian 32-bit word at byte offset `off`.
pub open spec fn le_u32(s: Seq<u8>, off: int) -> int {
    s[off] + 256 * s[off + 1] + 65536 * s[off + 2] + 16777216 * s[off + 3]
}

/// A 16-bit word reinterpreted as a signed two's-complement value.
pub open spec fn as_i16(v: int) -> int {
    if v < 32768 {
        v
    } else {
        v - 65536
    }
}

/// A 32-bit word reinterpreted as a signed two's-complement value.
pub open spec fn as_i32(v: int) -> int {
    if v < 2147483648 {
        v
    } else {
        v - 4294967296
    }
}

/// An integer as an exact rational.
pub open spec fn rat_of_int(x: int) -> Rational {
    if x >= 0 {
        Rational { neg: false, num: x as u128, den: 1 }
    } else {
        Rational { neg: true, num: (-x) as u128, den: 1 }
    }
}

fn read_u16_le(s: &[u8], off: usize) -> (r: u16)
    requires
        off + 2 <= s@.len(),
    ensures
        r == le_u16(s@, off as int),
{
    s[off] as u16 + 256 * (s[off + 1] as u16)
}

fn read_u32_le(s: &[u8], off: usize) -> (r: u32)
    requires
        off + 4 <= s@.len(),
    ensures
        r == le_u32(s@, off as int),
{
    s[off] as u32 + 256 * (s[off + 1] as u32) + 65536 * (s[off + 2] as u32) + 16777216 * (s[off
        + 3] as u32)
}

/// Reads a signed 16-bit sample as an exact rational.
fn read_i16_rational(s: &[u8], off: usize) -> (r: Rational)
    requires
        off + 2 <= s@.len(),
    ensures
        r == rat_of_int(as_i16(le_u16(s@, off as int))),
        r.wf(),
{
    let v = read_u16_le(s, off);
    if v >= 32768 {
        Rational { neg: true, num: (65536 - v as u128), den: 1 }
    } else {
        Rational { neg: false, num: v as u128, den: 1 }
    }
}

/// Reads a signed 32-bit sample as an exact rational.
fn read_i32_rational(s: &[u8], off: usize) -> (r: Rational)
    requires
        off + 4 <= s@.len(),
    ensures
        r == rat_of_int(as_i32(le_u32(s@, off as int))),
        r.wf(),
{
    let v = read_u32_le(s, off);
    if v >= 2147483648 {
        Rational { neg: true, num: (4294967296u128 - v as u128), den: 1 }
    } else {
        Rational { neg: false, num: v as u128, den: 1 }
    }
}

// ---------------------------------------------------------------------------
// Binary mode: 32-bit floating samples as exact rationals
// ---------------------------------------------------------------------------

pub open spec fn f32_sign(bits: u32) -> bool {
    bits / 0x80000000 == 1
}

pub open spec fn f32_exp(bits: u32) -> int {
    (bits as int / 0x800000) % 256
}

pub open spec fn f32_frac(bits: u32) -> int {
    bits as int % 0x800000
}

pub open spec fn f32_mantissa(bits: u32) -> int {
    if f32_exp(bits) == 0 {
        f32_frac(bits)
    } else {
        f32_frac(bits) + 0x800000
    }
}

/// The exponent field 255 encodes an infinity or a non-number; everything
/// else is a finite value.
pub open spec fn f32_is_finite(bits: u32) -> bool {
    f32_exp(bits) != 255
}

/// The exact value of a finite 32-bit floating sample, as mantissa times a
/// power of two; magnitudes below two to the minus hundred-and-fourth — all
/// subnormals among them — are read as zero.
pub open spec fn f32_to_rational(bits: u32) -> Rational {
    let m = f32_mantissa(bits);
    let e = f32_exp(bits);
    if m == 0 || e < 23 {
        Rational { neg: false, num: 0, den: 1 }
    } else if e >= 150 {
        Rational { neg: f32_sign(bits), num: (m * pow2((e - 150) as nat)) as u128, den: 1 }
    } else {
        Rational { neg: f32_sign(bits), num: m as u128, den: pow2((150 - e) as nat) as u128 }
    }
}

/// Two to a small power.
fn pow2_u128(k: u32) -> (r: u128)
    requires
        k <= 127,
    ensures
        r == pow2(k as nat),
{
    let mut acc: u128 = 1;
    let mut i: u32 = 0;
    proof {
        vstd::arithmetic::power2::lemma2_to64();
    }
    while i < k
        invariant
            0 <= i <= k <= 127,
            acc == pow2(i as nat),
        decreases k - i,
    {
        proof {
            lemma_pow2_step(i as nat);
            vstd::arithmetic::power2::lemma_pow2_strictly_increases(i as nat + 1, 128);
            lemma_pow2_128();
        }
        acc = acc * 2;
        i += 1;
    }
    acc
}

/// Two to the 128th, spelled out.
proof fn lemma_pow2_128()
    ensures
        pow2(128) == 0x100000000000000000000000000000000,
{
    vstd::arithmetic::power2::lemma2_to64();
    vstd::arithmetic::power2::lemma_pow2_adds(64, 64);
}

/// One more power of two doubles the value.
proof fn lemma_pow2_step(i: nat)
    ensures
        pow2(i + 1) == 2 * pow2(i),
{
    vstd::arithmetic::power2::lemma_pow2_adds(i, 1);
    vstd::arithmetic::power2::lemma2_to64();
}

/// Powers of two are monotone.
proof fn lemma_pow2_le(e1: nat, e2: nat)
    requires
        e1 <= e2,
    ensures
        pow2(e1) <= pow2(e2),
{
    if e1 < e2 {
        vstd::arithmetic::power2::lemma_pow2_strictly_increases(e1, e2);
    }
}

/// Decodes the bit pattern of a 32-bit floating sample into its exact
/// rational value; an infinity or non-number is a decode error.
fn decode_f32(bits: u32) -> (r: Result<Rational, ParseError>)
    ensures
        r is Ok <==> f32_is_finite(bits),
        r is Ok ==> r->Ok_0 == f32_to_rational(bits) && r->Ok_0.wf(),
{
    let sign = bits / 0x80000000 == 1;
    let e: u32 = (bits / 0x800000) % 256;
    let frac: u32 = bits % 0x800000;
    if e == 255 {
        return Err(plain_error("non-finite floating sample in binary data"));
    }
    let m: u32 = if e == 0 {
        frac
    } else {
        frac + 0x800000
    };
    if m == 0 || e < 23 {
        return Ok(Rational { neg: false, num: 0, den: 1 });
    }
    if e >= 150 {
        let p = pow2_u128(e - 150);
        proof {
            vstd::arithmetic::power2::lemma_pow2_pos((e - 150) as nat);
            lemma_pow2_le((e - 150) as nat, 104);
            vstd::arithmetic::power2::lemma_pow2_adds(24, 104);
            lemma_pow2_128();
            vstd::arithmetic::power2::lemma2_to64();
            assert((m as int) * (pow2((e - 150) as nat) as int) < (pow2(24) as int) * (pow2(
                104,
            ) as int)) by (nonlinear_arith)
                requires
                    0 < m < pow2(24),
                    0 < pow2((e - 150) as nat) <= pow2(104),
            ;
        }
        let num: u128 = (m as u128) * p;
        proof {
            assert(num >= 1) by (nonlinear_arith)
                requires
                    m >= 1,
                    p >= 1,
                    num == m * p,
            ;
        }
        Ok(Rational { neg: sign, num, den: 1 })
    } else {
        let den = pow2_u128(150 - e);
        proof {
            vstd::arithmetic::power2::lemma_pow2_pos((150 - e) as nat);
        }
        Ok(Rational { neg: sign, num: m as u128, den })
    }
}

// ---------------------------------------------------------------------------
// Status words: group-wise 16-bit little-endian, least significant bit first
// ---------------------------------------------------------------------------

/// Bit `c` of a packed word.
pub open spec fn status_bit(w: int, c: int) -> int {
    (w / pow2(c as nat) as int) % 2
}

/// Packs status values into one integer, least significant bit first.
pub open spec fn pack_bits(bits: Seq<u8>) -> int
    decreases bits.len(),
{
    if bits.len() == 0 {
        0
    } else {
        bits[0] + 2 * pack_bits(bits.drop_first())
    }
}

/// Unpacking is the exact inverse of least-significant-bit-first packing:
/// bit `j` of the packed value is the `j`-th 0/1 status value again.
pub proof fn lemma_unpack_inverts_pack(bits: Seq<u8>, j: int)
    requires
        forall|i: int| 0 <= i < bits.len() ==> #[trigger] bits[i] <= 1,
        0 <= j < bits.len(),
    ensures
        status_bit(pack_bits(bits), j) == bits[j],
    decreases j,
{
    let rest = bits.drop_first();
    let w = pack_bits(bits);
    assert(w == bits[0] + 2 * pack_bits(rest));
    lemma_pack_bits_nonneg(rest);
    if j == 0 {
        assert(pow2(0) == 1) by {
            vstd::arithmetic::power2::lemma2_to64();
        }
        assert(w / 1 == w) by (nonlinear_arith);
        vstd::arithmetic::div_mod::lemma_mod_multiples_vanish(pack_bits(rest), bits[0] as int, 2);
        assert((2 * pack_bits(rest) + bits[0]) % 2 == bits[0] as int % 2);
        assert(bits[0] as int % 2 == bits[0]);
    } else {
        assert(forall|i: int| 0 <= i < rest.len() ==> #[trigger] rest[i] <= 1);
        vstd::arithmetic::div_mod::lemma_div_multiples_vanish_fancy(
            pack_bits(rest),
            bits[0] as int,
            2,
        );
        assert((2 * pack_bits(rest) + bits[0]) / 2 == pack_bits(rest));
        assert(w / 2 == pack_bits(rest));
        vstd::arithmetic::power2::lemma_pow2_pos((j - 1) as nat);
        vstd::arithmetic::div_mod::lemma_div_denominator(
            w,
            2,
            pow2((j - 1) as nat) as int,
        );
        assert(pow2(j as nat) == 2 * pow2((j - 1) as nat)) by {
            lemma_pow2_step((j - 1) as nat);
        }
        assert((w / 2) / pow2((j - 1) as nat) as int == w / pow2(j as nat) as int);
        lemma_unpack_inverts_pack(rest, j - 1);
        assert(rest[j - 1] == bits[j]);
    }
}

proof fn lemma_pack_bits_nonneg(bits: Seq<u8>)
    ensures
        pack_bits(bits) >= 0,
    decreases bits.len(),
{
    if bits.len() > 0 {
        lemma_pack_bits_nonneg(bits.drop_first());
    }
}

/// The words that group-wise packing of `values` yields: word `g` packs the
/// sixteen values starting at `16 g`, the last word padded with zeros.
pub open spec fn pack_status_words(values: Seq<u8>) -> Seq<int> {
    Seq::new(((values.len() + 15) / 16) as nat, |g: int| pack_bits(group_bits(values, g)))
}

/// The up-to-sixteen values of group `g`.
pub open spec fn group_bits(values: Seq<u8>, g: int) -> Seq<u8> {
    values.subrange(16 * g, if 16 * g + 16 <= values.len() {
        16 * g + 16
    } else {
        values.len() as int
    })
}

/// The unpacked status values: value `c` is bit `c % 16` of word `c / 16`,
/// bits beyond `count` discarded.
pub open spec fn unpack_status_words(words: Seq<int>, count: int) -> Seq<int> {
    Seq::new(count as nat, |c: int| status_bit(words[c / 16], c % 16))
}

/// Status bit-unpacking is the exact inverse of group-wise 16-bit
/// little-endian, least-significant-bit-first packing, truncated to the
/// declared status-channel count.
pub proof fn lemma_status_roundtrip(values: Seq<u8>)
    requires
        forall|i: int| 0 <= i < values.len() ==> #[trigger] values[i] <= 1,
    ensures
        unpack_status_words(pack_status_words(values), values.len() as int)
            =~= values.map_values(|v: u8| v as int),
{
    let words = pack_status_words(values);
    let out = unpack_status_words(words, values.len() as int);
    assert forall|c: int| 0 <= c < values.len() implies out[c] == values[c] by {
        let g = c / 16;
        let b = c % 16;
        vstd::arithmetic::div_mod::lemma_fundamental_div_mod(c, 16);
        assert(0 <= g < words.len()) by {
            vstd::arithmetic::div_mod::lemma_div_is_ordered(c, values.len() as int - 1, 16);
            if g >= (values.len() + 15) / 16 {
                vstd::arithmetic::div_mod::lemma_fundamental_div_mod(values.len() as int + 15, 16);
            }
            if g < 0 {
                vstd::arithmetic::div_mod::lemma_fundamental_div_mod(c, 16);
            }
        }
        let bits = group_bits(values, g);
        assert(0 <= b < bits.len());
        assert(forall|i: int| 0 <= i < bits.len() ==> #[trigger] bits[i] <= 1);
        lemma_unpack_inverts_pack(bits, b);
        assert(bits[b] == values[16 * g + b]);
        assert(16 * g + b == c);
    }
}

// ---------------------------------------------------------------------------
// Binary mode: records
// ---------------------------------------------------------------------------

/// How many bytes one analog sample takes in this encoding.
pub open spec fn analog_width(fmt: DataFormat) -> int {
    if fmt is Binary16 {
        2
    } else {
        4
    }
}

/// How many 16-bit status words one record carries.
pub open spec fn status_groups(ns: int) -> int {
    (ns + 15) / 16
}

/// The fixed width of one binary record: a 4-byte sample number, a 4-byte
/// raw timestamp, the analog samples, then the status words.
pub open spec fn record_size(fmt: DataFormat, na: int, ns: int) -> int {
    8 + na * analog_width(fmt) + 2 * status_groups(ns)
}

/// The stored timestamp of a record; the all-ones sentinel means absent.
pub open spec fn bin_ts(dat: Seq<u8>, base: int) -> Option<u32> {
    if le_u32(dat, base + 4) == 0xffffffff {
        None
    } else {
        Some(le_u32(dat, base + 4) as u32)
    }
}

/// The raw value of analog channel `j` in the record at `base`.
pub open spec fn bin_raw(dat: Seq<u8>, base: int, fmt: DataFormat, j: int) -> Rational {
    if fmt is Binary16 {
        rat_of_int(as_i16(le_u16(dat, base + 8 + 2 * j)))
    } else if fmt is Binary32 {
        rat_of_int(as_i32(le_u32(dat, base + 8 + 4 * j)))
    } else {
        f32_to_rational(le_u32(dat, base + 8 + 4 * j) as u32)
    }
}

/// The 0/1 value of status channel `c` in the record at `base`: bit
/// `c % 16` of status word `c / 16`, least significant bit first.
pub open spec fn bin_status_val(dat: Seq<u8>, base: int, fmt: DataFormat, na: int, c: int) -> int {
    status_bit(le_u16(dat, base + 8 + na * analog_width(fmt) + 2 * (c / 16)), c % 16)
}

/// The floating sample of channel `j` is finite.
pub open spec fn f32_finite_at(dat: Seq<u8>, base: int, j: int) -> bool {
    f32_is_finite(le_u32(dat, base + 8 + 4 * j) as u32)
}

/// A record decodes completely: finite floating samples, every channel's
/// scaling, and its reconstructed time.
pub open spec fn bin_record_ok(
    dat: Seq<u8>,
    base: int,
    fmt: DataFormat,
    configs: Seq<AnalogConfig>,
    rates: Seq<SamplingRate>,
    crit: bool,
    bu: Rational,
    mf: Rational,
) -> bool {
    let na = configs.len() as int;
    &&& (forall|j: int|
        0 <= j < na ==> (fmt is Float32 ==> #[trigger] f32_finite_at(dat, base, j)))
    &&& (forall|j: int|
        0 <= j < na ==> scale_fits(
            #[trigger] bin_raw(dat, base, fmt, j),
            configs[j].multiplier,
            configs[j].offset_adder,
        ))
    &&& time_ok(le_u32(dat, base) as u32, bin_ts(dat, base), rates, crit, bu, mf)
}

/// Row `i` of the output holds exactly what the record at `base` decodes
/// to.
pub open spec fn bin_record_matches(
    d: DatData,
    i: int,
    dat: Seq<u8>,
    base: int,
    fmt: DataFormat,
    configs: Seq<AnalogConfig>,
    ns: int,
    rates: Seq<SamplingRate>,
    crit: bool,
    bu: Rational,
    mf: Rational,
) -> bool {
    let na = configs.len() as int;
    &&& d.sample_numbers@[i] == le_u32(dat, base)
    &&& time_value_matches(
        d.timestamps@[i],
        le_u32(dat, base) as u32,
        bin_ts(dat, base),
        rates,
        crit,
        bu,
        mf,
    )
    &&& d.analog_rows@[i]@.len() == na
    &&& (forall|j: int|
        0 <= j < na ==> d.analog_rows@[i]@[j] == scaled(
            #[trigger] bin_raw(dat, base, fmt, j),
            configs[j].multiplier,
            configs[j].offset_adder,
        ))
    &&& d.status_rows@[i]@.len() == ns
    &&& (forall|c: int| 0 <= c < ns ==> d.status_rows@[i]@[c] == bin_status_val(dat, base, fmt, na, c))
}

/// The record conditions at record index `i`, for quantifying over
/// records.
pub open spec fn bin_record_ok_at(
    dat: Seq<u8>,
    i: int,
    rsize: int,
    fmt: DataFormat,
    configs: Seq<AnalogConfig>,
    rates: Seq<SamplingRate>,
    crit: bool,
    bu: Rational,
    mf: Rational,
) -> bool {
    bin_record_ok(dat, i * rsize, fmt, configs, rates, crit, bu, mf)
}

pub open spec fn bin_record_matches_at(
    d: DatData,
    i: int,
    dat: Seq<u8>,
    rsize: int,
    fmt: DataFormat,
    configs: Seq<AnalogConfig>,
    ns: int,
    rates: Seq<SamplingRate>,
    crit: bool,
    bu: Rational,
    mf: Rational,
) -> bool {
    bin_record_matches(d, i, dat, i * rsize, fmt, configs, ns, rates, crit, bu, mf)
}

/// The components of a record's size are non-negative and ordered.
proof fn lemma_record_size_parts(fmt: DataFormat, na: int, ns: int)
    requires
        na >= 0,
        ns >= 0,
    ensures
        analog_width(fmt) >= 2,
        status_groups(ns) >= 0,
        na * analog_width(fmt) >= 0,
        record_size(fmt, na, ns) >= 8 + na * analog_width(fmt),
        record_size(fmt, na, ns) >= 8,
{
    assert(status_groups(ns) >= 0) by {
        vstd::arithmetic::div_mod::lemma_div_is_ordered(0, ns + 15, 16);
        assert(0int / 16 == 0);
    }
    assert(na * analog_width(fmt) >= 0) by (nonlinear_arith)
        requires
            na >= 0,
            analog_width(fmt) >= 2,
    ;
}

/// A status channel's word lies within the record's status words.
proof fn lemma_group_index(c: int, ns: int)
    requires
        0 <= c < ns,
    ensures
        0 <= c / 16 < status_groups(ns),
        0 <= c % 16 < 16,
        16 * (c / 16) + c % 16 == c,
{
    vstd::arithmetic::div_mod::lemma_fundamental_div_mod(c, 16);
    vstd::arithmetic::div_mod::lemma_div_is_ordered(c, ns - 1, 16);
    assert((ns - 1) / 16 + 1 == (ns + 15) / 16) by {
        vstd::arithmetic::div_mod::lemma_hoist_over_denominator(ns - 1, 1, 16);
    }
}

/// One decoded binary record.
struct BinRow {
    sample_number: u32,
    time: Rational,
    analog: Vec<Rational>,
    status: Vec<u8>,
}

/// Decodes one fixed-width binary record.
fn parse_bin_record(
    dat: &[u8],
    base: usize,
    format: &DataFormat,
    analog_configs: &Vec<AnalogConfig>,
    num_status: usize,
    sampling_rates: &Vec<SamplingRate>,
    is_timestamp_critical: bool,
    ts_base_unit: &Rational,
    timestamp_multiplication_factor: &Rational,
) -> (r: Result<BinRow, ParseError>)
    requires
        !(format is Ascii),
        base + record_size(*format, analog_configs@.len() as int, num_status as int) <= dat@.len(),
        ts_base_unit.wf(),
        timestamp_multiplication_factor.wf(),
        forall|i: int|
            0 <= i < sampling_rates@.len() ==> (#[trigger] sampling_rates@[i]).rate_hz.wf(),
        forall|j: int|
            0 <= j < analog_configs@.len() ==> (#[trigger] analog_configs@[j]).multiplier.wf()
                && analog_configs@[j].offset_adder.wf(),
    ensures
        r is Ok <==> bin_record_ok(
            dat@,
            base as int,
            *format,
            analog_configs@,
            sampling_rates@,
            is_timestamp_critical,
            *ts_base_unit,
            *timestamp_multiplication_factor,
        ),
        r is Ok ==> ({
            let v = r->Ok_0;
            let na = analog_configs@.len() as int;
            &&& v.sample_number == le_u32(dat@, base as int)
            &&& time_value_matches(
                v.time,
                le_u32(dat@, base as int) as u32,
                bin_ts(dat@, base as int),
                sampling_rates@,
                is_timestamp_critical,
                *ts_base_unit,
                *timestamp_multiplication_factor,
            )
            &&& v.analog@.len() == na
            &&& (forall|j: int|
                0 <= j < na ==> v.analog@[j] == scaled(
                    #[trigger] bin_raw(dat@, base as int, *format, j),
                    analog_configs@[j].multiplier,
                    analog_configs@[j].offset_adder,
                ))
            &&& v.status@.len() == num_status
            &&& (forall|c: int|
                0 <= c < num_status ==> v.status@[c] == bin_status_val(
                    dat@,
                    base as int,
                    *format,
                    na,
                    c,
                ))
        }),
{
    let na = analog_configs.len();
    let width: usize = match format {
        DataFormat::Binary16 => 2,
        _ => 4,
    };
    let dlen = dat.len();
    let ghost rsize = record_size(*format, na as int, num_status as int);
    proof {
        lemma_record_size_parts(*format, na as int, num_status as int);
        assert(base + 8 <= dlen);
    }
    let sample_number = read_u32_le(dat, base);
    let raw_ts = read_u32_le(dat, base + 4);
    let timestamp: Option<u32> = if raw_ts == TIMESTAMP_MISSING {
        None
    } else {
        Some(raw_ts)
    };
    let time = real_time(
        sampling_rates,
        is_timestamp_critical,
        ts_base_unit,
        timestamp_multiplication_factor,
        sample_number,
        timestamp,
    )?;
    let mut analog: Vec<Rational> = Vec::new();
    let mut off: usize = base + 8;
    let mut j: usize = 0;
    while j < na
        invariant
            0 <= j <= na == analog_configs@.len(),
            width == analog_width(*format),
            !(format is Ascii),
            off == base + 8 + j * width,
            dlen == dat@.len(),
            base + record_size(*format, na as int, num_status as int) <= dat@.len(),
            record_size(*format, na as int, num_status as int) == 8 + na * width as int + 2
                * status_groups(num_status as int),
            status_groups(num_status as int) >= 0,
            analog@.len() == j,
            forall|k: int|
                0 <= k < j ==> (*format is Float32 ==> #[trigger] f32_finite_at(
                    dat@,
                    base as int,
                    k,
                )),
            forall|k: int|
                0 <= k < j ==> scale_fits(
                    #[trigger] bin_raw(dat@, base as int, *format, k),
                    analog_configs@[k].multiplier,
                    analog_configs@[k].offset_adder,
                ) && analog@[k] == scaled(
                    bin_raw(dat@, base as int, *format, k),
                    analog_configs@[k].multiplier,
                    analog_configs@[k].offset_adder,
                ),
            forall|k: int|
                0 <= k < analog_configs@.len() ==> (#[trigger] analog_configs@[k]).multiplier.wf()
                    && analog_configs@[k].offset_adder.wf(),
        decreases na - j,
    {
        proof {
            assert((j + 1) * width as int <= na * width as int) by (nonlinear_arith)
                requires
                    j + 1 <= na,
                    width >= 2,
            ;
            assert(j * width as int + width as int == (j + 1) * width as int) by (nonlinear_arith);
            assert(off + width as int <= base + record_size(
                *format,
                na as int,
                num_status as int,
            ));
            assert(off + width as int <= dat@.len());
            assert(off + width as int <= dlen);
        }
        let raw: Rational = match format {
            DataFormat::Binary16 => read_i16_rational(dat, off),
            DataFormat::Binary32 => read_i32_rational(dat, off),
            _ => {
                let bits = read_u32_le(dat, off);
                match decode_f32(bits) {
                    Ok(v) => v,
                    Err(e) => {
                        proof {
                            assert(!f32_finite_at(dat@, base as int, j as int));
                        }
                        return Err(e);
                    },
                }
            },
        };
        proof {
            assert(raw == bin_raw(dat@, base as int, *format, j as int));
            if format is Float32 {
                assert(f32_finite_at(dat@, base as int, j as int));
            }
            lemma_rat_of_int_wf(as_i16(le_u16(dat@, off as int)));
            lemma_rat_of_int_wf(as_i32(le_u32(dat@, off as int)));
        }
        let config = &analog_configs[j];
        let value = scale_value(&raw, &config.multiplier, &config.offset_adder)?;
        analog.push(value);
        off = off + width;
        j += 1;
    }
    let status_base: usize = off;
    proof {
        assert(status_base == base + 8 + na * width as int);
    }
    let mut status: Vec<u8> = Vec::new();
    let mut c: usize = 0;
    while c < num_status
        invariant
            0 <= c <= num_status,
            status_base == base + 8 + na * analog_width(*format),
            na == analog_configs@.len(),
            dlen == dat@.len(),
            base + record_size(*format, na as int, num_status as int) <= dat@.len(),
            record_size(*format, na as int, num_status as int) == 8 + na * analog_width(*format)
                + 2 * status_groups(num_status as int),
            status@.len() == c,
            forall|k: int|
                0 <= k < c ==> status@[k] == bin_status_val(
                    dat@,
                    base as int,
                    *format,
                    na as int,
                    k,
                ),
        decreases num_status - c,
    {
        proof {
            lemma_group_index(c as int, num_status as int);
        }
        let wi: usize = c / 16;
        let bit: usize = c % 16;
        proof {
            assert(2 * (wi as int) + 2 <= 2 * status_groups(num_status as int))
                by (nonlinear_arith)
                requires
                    wi as int + 1 <= status_groups(num_status as int),
            ;
            lemma_record_size_parts(*format, na as int, num_status as int);
            assert(status_base + 2 * (wi as int) + 2 <= dat@.len());
            assert(status_base + 2 * (wi as int) + 2 <= dlen);
        }
        let w = read_u16_le(dat, status_base + 2 * wi);
        let divisor = pow2_u16(bit);
        let v: u8 = ((w / divisor) % 2) as u8;
        status.push(v);
        c += 1;
    }
    proof {
        assert(forall|j: int|
            0 <= j < na ==> (*format is Float32 ==> #[trigger] f32_finite_at(
                dat@,
                base as int,
                j,
            )));
        assert(forall|j: int|
            0 <= j < na ==> scale_fits(
                #[trigger] bin_raw(dat@, base as int, *format, j),
                analog_configs@[j].multiplier,
                analog_configs@[j].offset_adder,
            ));
        assert(time_ok(
            le_u32(dat@, base as int) as u32,
            bin_ts(dat@, base as int),
            sampling_rates@,
            is_timestamp_critical,
            *ts_base_unit,
            *timestamp_multiplication_factor,
        ));
    }
    Ok(BinRow { sample_number, time, analog, status })
}

/// Two to a power below sixteen, as a word.
fn pow2_u16(k: usize) -> (r: u16)
    requires
        k < 16,
    ensures
        r == pow2(k as nat),
        r >= 1,
{
    let mut acc: u16 = 1;
    let mut i: usize = 0;
    proof {
        vstd::arithmetic::power2::lemma2_to64();
    }
    while i < k
        invariant
            0 <= i <= k < 16,
            acc == pow2(i as nat),
        decreases k - i,
    {
        proof {
            lemma_pow2_step(i as nat);
            lemma_pow2_le(i as nat + 1, 15);
            vstd::arithmetic::power2::lemma2_to64();
        }
        acc = acc * 2;
        i += 1;
    }
    acc
}

/// An integer's rational image is well-formed.
proof fn lemma_rat_of_int_wf(x: int)
    requires
        -0xffffffffffffffffffffffffffffffff <= x <= 0xffffffffffffffffffffffffffffffff,
    ensures
        rat_of_int(x).wf(),
{
}

/// Whether the data buffer's length agrees with the record count: in
/// timestamp-critical mode the records must tile the buffer exactly, else
/// the declared total must fit.
pub open spec fn bin_len_ok(len: int, crit: bool, total: int, rsize: int) -> bool {
    if crit {
        len % rsize == 0
    } else {
        total * rsize <= len
    }
}

/// How many records the binary decoder reads: the declared total, or, in
/// timestamp-critical mode, as many as the buffer holds.
pub open spec fn bin_count(len: int, crit: bool, total: int, rsize: int) -> int {
    if crit {
        len / rsize
    } else {
        total
    }
}

/// Decodes a binary data file of fixed-width little-endian records. A
/// truncated buffer, a non-finite floating sample, an overflowing scale or
/// a missing critical timestamp is a structured decode error.
pub fn parse_dat_binary(
    dat: &[u8],
    format: &DataFormat,
    analog_configs: &Vec<AnalogConfig>,
    num_status: usize,
    total_num_samples: u32,
    sampling_rates: &Vec<SamplingRate>,
    is_timestamp_critical: bool,
    ts_base_unit: &Rational,
    timestamp_multiplication_factor: &Rational,
) -> (r: Result<DatData, ParseError>)
    requires
        !(format is Ascii),
        ts_base_unit.wf(),
        timestamp_multiplication_factor.wf(),
        forall|i: int|
            0 <= i < sampling_rates@.len() ==> (#[trigger] sampling_rates@[i]).rate_hz.wf(),
        forall|j: int|
            0 <= j < analog_configs@.len() ==> (#[trigger] analog_configs@[j]).multiplier.wf()
                && analog_configs@[j].offset_adder.wf(),
    ensures
        ({
            let rsize = record_size(*format, analog_configs@.len() as int, num_status as int);
            let count = bin_count(
                dat@.len() as int,
                is_timestamp_critical,
                total_num_samples as int,
                rsize,
            );
            &&& (r is Ok <==> bin_len_ok(
                dat@.len() as int,
                is_timestamp_critical,
                total_num_samples as int,
                rsize,
            ) && (forall|i: int|
                0 <= i < count ==> #[trigger] bin_record_ok_at(
                    dat@,
                    i,
                    rsize,
                    *format,
                    analog_configs@,
                    sampling_rates@,
                    is_timestamp_critical,
                    *ts_base_unit,
                    *timestamp_multiplication_factor,
                )))
            &&& (r is Ok ==> ({
                let d = r->Ok_0;
                &&& d.sample_numbers@.len() == count
                &&& d.timestamps@.len() == count
                &&& d.analog_rows@.len() == count
                &&& d.status_rows@.len() == count
                &&& (forall|i: int|
                    0 <= i < count ==> #[trigger] bin_record_matches_at(
                        d,
                        i,
                        dat@,
                        rsize,
                        *format,
                        analog_configs@,
                        num_status as int,
                        sampling_rates@,
                        is_timestamp_critical,
                        *ts_base_unit,
                        *timestamp_multiplication_factor,
                    ))
            }))
        }),
{
    let na = analog_configs.len();
    let width: u128 = match format {
        DataFormat::Binary16 => 2,
        _ => 4,
    };
    let groups: u128 = (num_status as u128 + 15) / 16;
    let rsize128: u128 = 8 + (na as u128) * width + 2 * groups;
    let len = dat.len();
    let ghost rsize = record_size(*format, na as int, num_status as int);
    proof {
        assert(usize::MAX <= u64::MAX);
        assert((na as u128) * width == na as int * analog_width(*format)) by (nonlinear_arith)
            requires
                width == analog_width(*format),
                0 <= na <= u64::MAX,
                2 <= width <= 4,
        ;
        assert(rsize128 == rsize);
        assert(rsize >= 8);
    }
    let count: usize;
    if is_timestamp_critical {
        if (len as u128) % rsize128 != 0 {
            return Err(plain_error("binary data does not tile into whole records"));
        }
        let c128 = (len as u128) / rsize128;
        proof {
            vstd::arithmetic::div_mod::lemma_div_is_ordered_by_denominator(len as int, 1, rsize);
            vstd::arithmetic::div_mod::lemma_div_basics(len as int);
            vstd::arithmetic::div_mod::lemma_fundamental_div_mod(len as int, rsize);
            assert((c128 as int) * rsize == rsize * (len as int / rsize)) by (nonlinear_arith)
                requires
                    c128 == len as int / rsize,
            ;
            assert((c128 as int) * rsize <= dat@.len());
        }
        count = c128 as usize;
    } else {
        proof {
            assert(rsize128 <= 0x80000000000000000u128) by (nonlinear_arith)
                requires
                    rsize128 == 8 + (na as u128) * width + 2 * ((num_status as u128 + 15) / 16),
                    na <= 0xffffffffffffffffu128,
                    num_status as u128 + 15 <= 0x1000000000000000eu128,
                    2 <= width <= 4,
                    (num_status as u128 + 15) / 16 <= num_status as u128 + 15,
            ;
            assert((num_status as u128 + 15) / 16 <= num_status as u128 + 15) by {
                vstd::arithmetic::div_mod::lemma_div_is_ordered_by_denominator(
                    num_status as int + 15,
                    1,
                    16,
                );
                vstd::arithmetic::div_mod::lemma_div_basics(num_status as int + 15);
            }
            assert((total_num_samples as int) * rsize128 <= 0xffffffffu128
                * 0x80000000000000000u128) by (nonlinear_arith)
                requires
                    total_num_samples <= 0xffffffffu32,
                    0 <= rsize128 <= 0x80000000000000000u128,
            ;
        }
        let need = (total_num_samples as u128) * rsize128;
        if need > len as u128 {
            return Err(plain_error("binary data is shorter than the declared samples"));
        }
        count = total_num_samples as usize;
        proof {
            assert((count as int) * rsize == need) by (nonlinear_arith)
                requires
                    count == total_num_samples,
                    need == (total_num_samples as u128) * rsize128,
                    rsize128 == rsize,
            ;
            assert((count as int) * rsize <= dat@.len());
        }
    }
    let mut d = DatData {
        sample_numbers: Vec::new(),
        timestamps: Vec::new(),
        analog_rows: Vec::new(),
        status_rows: Vec::new(),
    };
    let mut base: usize = 0;
    let mut i: usize = 0;
    while i < count
        invariant
            0 <= i <= count,
            base == i * rsize,
            rsize == record_size(*format, analog_configs@.len() as int, num_status as int),
            rsize128 == rsize,
            rsize >= 8,
            na == analog_configs@.len(),
            len == dat@.len(),
            count * rsize <= dat@.len(),
            count == bin_count(
                dat@.len() as int,
                is_timestamp_critical,
                total_num_samples as int,
                rsize,
            ),
            bin_len_ok(
                dat@.len() as int,
                is_timestamp_critical,
                total_num_samples as int,
                rsize,
            ),
            !(format is Ascii),
            ts_base_unit.wf(),
            timestamp_multiplication_factor.wf(),
            forall|k: int|
                0 <= k < sampling_rates@.len() ==> (#[trigger] sampling_rates@[k]).rate_hz.wf(),
            forall|k: int|
                0 <= k < analog_configs@.len() ==> (#[trigger] analog_configs@[k]).multiplier.wf()
                    && analog_configs@[k].offset_adder.wf(),
            d.sample_numbers@.len() == i,
            d.timestamps@.len() == i,
            d.analog_rows@.len() == i,
            d.status_rows@.len() == i,
            forall|k: int|
                0 <= k < i ==> #[trigger] bin_record_ok_at(
                    dat@,
                    k,
                    rsize,
                    *format,
                    analog_configs@,
                    sampling_rates@,
                    is_timestamp_critical,
                    *ts_base_unit,
                    *timestamp_multiplication_factor,
                ),
            forall|k: int|
                0 <= k < i ==> #[trigger] bin_record_matches_at(
                    d,
                    k,
                    dat@,
                    rsize,
                    *format,
                    analog_configs@,
                    num_status as int,
                    sampling_rates@,
                    is_timestamp_critical,
                    *ts_base_unit,
                    *timestamp_multiplication_factor,
                ),
        decreases count - i,
    {
        proof {
            assert((i + 1) * rsize <= count * rsize) by (nonlinear_arith)
                requires
                    i + 1 <= count,
                    rsize >= 0,
            ;
            assert((i + 1) * rsize == i * rsize + rsize) by (nonlinear_arith);
        }
        let row_result = parse_bin_record(
            dat,
            base,
            format,
            analog_configs,
            num_status,
            sampling_rates,
            is_timestamp_critical,
            ts_base_unit,
            timestamp_multiplication_factor,
        );
        let row = match row_result {
            Ok(v) => v,
            Err(e) => {
                proof {
                    assert(!bin_record_ok_at(
                        dat@,
                        i as int,
                        rsize,
                        *format,
                        analog_configs@,
                        sampling_rates@,
                        is_timestamp_critical,
                        *ts_base_unit,
                        *timestamp_multiplication_factor,
                    ));
                }
                return Err(e);
            },
        };
        let ghost old_d = d;
        d.sample_numbers.push(row.sample_number);
        d.timestamps.push(row.time);
        d.analog_rows.push(row.analog);
        d.status_rows.push(row.status);
        proof {
            assert(forall|a: int, b: int|
                0 <= a < old_d.analog_rows@.len() && 0 <= b < old_d.analog_rows@[a]@.len()
                    ==> d.analog_rows@[a]@[b] == old_d.analog_rows@[a]@[b]);
            assert(forall|a: int, b: int|
                0 <= a < old_d.status_rows@.len() && 0 <= b < old_d.status_rows@[a]@.len()
                    ==> d.status_rows@[a]@[b] == old_d.status_rows@[a]@[b]);
            assert(bin_record_ok_at(
                dat@,
                i as int,
                rsize,
                *format,
                analog_configs@,
                sampling_rates@,
                is_timestamp_critical,
                *ts_base_unit,
                *timestamp_multiplication_factor,
            ));
            assert(bin_record_matches_at(
                d,
                i as int,
                dat@,
                rsize,
                *format,
                analog_configs@,
                num_status as int,
                sampling_rates@,
                is_timestamp_critical,
                *ts_base_unit,
                *timestamp_multiplication_factor,
            ));
            assert forall|k: int| 0 <= k < i + 1 implies #[trigger] bin_record_matches_at(
                d,
                k,
                dat@,
                rsize,
                *format,
                analog_configs@,
                num_status as int,
                sampling_rates@,
                is_timestamp_critical,
                *ts_base_unit,
                *timestamp_multiplication_factor,
            ) by {
                if k < i {
                    assert(bin_record_ok_at(
                        dat@,
                        k,
                        rsize,
                        *format,
                        analog_configs@,
                        sampling_rates@,
                        is_timestamp_critical,
                        *ts_base_unit,
                        *timestamp_multiplication_factor,
                    ));
                    assert(bin_record_matches_at(
                        old_d,
                        k,
                        dat@,
                        rsize,
                        *format,
                        analog_configs@,
                        num_status as int,
                        sampling_rates@,
                        is_timestamp_critical,
                        *ts_base_unit,
                        *timestamp_multiplication_factor,
                    ));
                }
            }
        }
        proof {
            assert(rsize <= count * rsize) by (nonlinear_arith)
                requires
                    count >= 1,
                    rsize >= 0,
            ;
        }
        let rsize_us: usize = rsize128 as usize;
        base = base + rsize_us;
        i += 1;
    }
    Ok(d)
}

} // verus!
