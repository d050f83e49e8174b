//! The configuration grammar: a line-oriented, comma-separated positional
//! grammar read through a token cursor that attaches a field label to every
//! coercion error.
use vstd::prelude::*;

pub mod analog_channels;
pub mod date_time;
pub mod id_line;
pub mod revisions;
pub mod sample_rates;
pub mod status_channel;

use crate::error::ComtradeError;
use crate::parser::cfg::analog_channels::{analog_config_matches, AnalogConfig};
use crate::parser::cfg::date_time::{ComtradeDateTime, TimePrecision};
use crate::parser::cfg::id_line::IdRow;
use crate::parser::cfg::revisions::{revision_of, FormatRevision};
use crate::parser::cfg::sample_rates::SamplingRate;
use crate::parser::cfg::status_channel::StatusConfig;
use crate::parser::dat::formats::{data_format_of, DataFormat};
use crate::parser::time::parse_time_offset;
use crate::rational::{dec_den, dec_num, decimal_fits, parse_rational, valid_decimal_token, Rational};
use crate::text::{
    bytes_to_string, chars_of_lossy, parse_uint, spec_split, spec_trim, split_bytes, subrange_vec,
    trim_bytes, uint_token_val, valid_uint_token, COMMA, NEWLINE,
};
use crate::{LeapSecondStatus, TimeQuality};

verus! {

/// The trimmed comma-separated tokens of one configuration line.
pub open spec fn spec_tokens(line: Seq<u8>) -> Seq<Seq<u8>> {
    spec_split(line, COMMA).map_values(|t: Seq<u8>| spec_trim(t))
}

/// A cursor over the trimmed tokens of one configuration line. All numeric
/// and enum coercion, and the attachment of field-name context to errors,
/// happens through its readers.
pub struct ConfigLine {
    pub tokens: Vec<Vec<u8>>,
    pub pos: usize,
}

impl ConfigLine {
    /// The token sequence the cursor walks.
    pub open spec fn toks(self) -> Seq<Seq<u8>> {
        self.tokens@.map_values(|t: Vec<u8>| t@)
    }

    /// Whether a token remains to be read.
    pub open spec fn has_next(self) -> bool {
        self.pos < self.toks().len()
    }

    /// The token the next read would take.
    pub open spec fn cur(self) -> Seq<u8> {
        self.toks()[self.pos as int]
    }

    /// Takes the next raw token, if one remains.
    pub fn next(&mut self) -> (r: Option<Vec<u8>>)
        ensures
            final(self).toks() == old(self).toks(),
            old(self).has_next() ==> r is Some && r->0@ == old(self).cur() && final(self).pos
                == old(self).pos + 1,
            !old(self).has_next() ==> r is None && *final(self) == *old(self),
    {
        match self.read_next("") {
            Ok(v) => Some(v),
            Err(_) => None,
        }
    }

    /// Takes the next raw token; fails with a labelled missing-elements
    /// error when the line is exhausted.
    pub fn read_next(&mut self, field: &'static str) -> (r: Result<Vec<u8>, ComtradeError>)
        ensures
            final(self).toks() == old(self).toks(),
            r is Ok <==> old(self).has_next(),
            r is Ok ==> r->Ok_0@ == old(self).cur() && final(self).pos == old(self).pos + 1,
            r is Err ==> r->Err_0 == ComtradeError::MissingLineElements(field) && *final(self)
                == *old(self),
    {
        if self.pos < self.tokens.len() {
            let t = &self.tokens[self.pos];
            let out = subrange_vec(t.as_slice(), 0, t.len());
            proof {
                assert(out@ =~= old(self).cur());
            }
            self.pos = self.pos + 1;
            Ok(out)
        } else {
            Err(ComtradeError::MissingLineElements(field))
        }
    }

    /// Reads the next token as free text.
    pub fn read_string(&mut self, field: &'static str) -> (r: Result<String, ComtradeError>)
        ensures
            final(self).toks() == old(self).toks(),
            r is Ok <==> old(self).has_next(),
            r is Ok ==> r->Ok_0@ == chars_of_lossy(old(self).cur()) && final(self).pos == old(
                self,
            ).pos + 1,
            r is Err ==> r->Err_0 == ComtradeError::MissingLineElements(field) && *final(self)
                == *old(self),
    {
        let t = self.read_next(field)?;
        Ok(bytes_to_string(t.as_slice()))
    }

    /// Reads the next token as an unsigned 32-bit integer.
    pub fn read_u32(&mut self, field: &'static str) -> (r: Result<u32, ComtradeError>)
        ensures
            final(self).toks() == old(self).toks(),
            r is Ok <==> old(self).has_next() && valid_uint_token(old(self).cur())
                && uint_token_val(old(self).cur()) <= u32::MAX,
            r is Ok ==> r->Ok_0 == uint_token_val(old(self).cur()) && final(self).pos == old(
                self,
            ).pos + 1,
            !old(self).has_next() ==> r->Err_0 == ComtradeError::MissingLineElements(field),
            old(self).has_next() && r is Err ==> (r->Err_0 matches ComtradeError::InvalidValue {
                value,
                type_,
                field: f,
            } && value@ == chars_of_lossy(old(self).cur()) && type_@ == "u32"@ && f@ == field@),
    {
        let t = self.read_next(field)?;
        match crate::text::parse_u32(t.as_slice()) {
            Some(v) => Ok(v),
            None => Err(
                ComtradeError::InvalidValue {
                    value: bytes_to_string(t.as_slice()),
                    type_: "u32",
                    field,
                },
            ),
        }
    }

    /// Reads the next token as an unsigned machine-sized integer.
    pub fn read_usize(&mut self, field: &'static str) -> (r: Result<usize, ComtradeError>)
        ensures
            final(self).toks() == old(self).toks(),
            r is Ok <==> old(self).has_next() && valid_uint_token(old(self).cur())
                && uint_token_val(old(self).cur()) <= usize::MAX,
            r is Ok ==> r->Ok_0 == uint_token_val(old(self).cur()) && final(self).pos == old(
                self,
            ).pos + 1,
            !old(self).has_next() ==> r->Err_0 == ComtradeError::MissingLineElements(field),
            old(self).has_next() && r is Err ==> (r->Err_0 matches ComtradeError::InvalidValue {
                value,
                type_,
                field: f,
            } && value@ == chars_of_lossy(old(self).cur()) && type_@ == "usize"@ && f@ == field@),
    {
        let t = self.read_next(field)?;
        match parse_uint(t.as_slice(), usize::MAX as u128) {
            Some(v) => Ok(v as usize),
            None => Err(
                ComtradeError::InvalidValue {
                    value: bytes_to_string(t.as_slice()),
                    type_: "usize",
                    field,
                },
            ),
        }
    }

    /// Reads the next token as an unsigned 8-bit integer.
    pub fn read_u8(&mut self, field: &'static str) -> (r: Result<u8, ComtradeError>)
        ensures
            final(self).toks() == old(self).toks(),
            r is Ok <==> old(self).has_next() && valid_uint_token(old(self).cur())
                && uint_token_val(old(self).cur()) <= u8::MAX,
            r is Ok ==> r->Ok_0 == uint_token_val(old(self).cur()) && final(self).pos == old(
                self,
            ).pos + 1,
            !old(self).has_next() ==> r->Err_0 == ComtradeError::MissingLineElements(field),
            old(self).has_next() && r is Err ==> (r->Err_0 matches ComtradeError::InvalidValue {
                value,
                type_,
                field: f,
            } && value@ == chars_of_lossy(old(self).cur()) && type_@ == "u8"@ && f@ == field@),
    {
        let t = self.read_next(field)?;
        match crate::text::parse_u8(t.as_slice()) {
            Some(v) => Ok(v),
            None => Err(
                ComtradeError::InvalidValue {
                    value: bytes_to_string(t.as_slice()),
                    type_: "u8",
                    field,
                },
            ),
        }
    }

    /// Reads the next token as an exact decimal number.
    pub fn read_rational(&mut self, field: &'static str) -> (r: Result<Rational, ComtradeError>)
        ensures
            final(self).toks() == old(self).toks(),
            r is Ok <==> old(self).has_next() && valid_decimal_token(old(self).cur())
                && decimal_fits(old(self).cur()),
            r is Ok ==> ({
                let v = r->Ok_0;
                &&& v.wf()
                &&& v.val_num() * dec_den(old(self).cur()) == dec_num(old(self).cur())
                    * v.val_den()
                &&& v == crate::rational::rat_of_token(old(self).cur())
                &&& final(self).pos == old(self).pos + 1
            }),
            !old(self).has_next() ==> r->Err_0 == ComtradeError::MissingLineElements(field),
            old(self).has_next() && r is Err ==> (r->Err_0 matches ComtradeError::InvalidValue {
                value,
                type_,
                field: f,
            } && value@ == chars_of_lossy(old(self).cur()) && type_@ == "real number"@ && f@
                == field@),
    {
        let t = self.read_next(field)?;
        match parse_rational(t.as_slice()) {
            Some(v) => Ok(v),
            None => Err(
                ComtradeError::InvalidValue {
                    value: bytes_to_string(t.as_slice()),
                    type_: "real number",
                    field,
                },
            ),
        }
    }

    /// The next token with its final byte removed, as the trailing-letter
    /// count fields are written (`4A`, `16D`).
    pub open spec fn cur_stripped(self) -> Seq<u8> {
        self.cur().take(if self.cur().len() > 0 {
            self.cur().len() - 1
        } else {
            0
        })
    }

    /// Reads the next token as an unsigned machine-sized integer after
    /// stripping one trailing character.
    pub fn read_usize_with_trailing_char(&mut self, field: &'static str) -> (r: Result<
        usize,
        ComtradeError,
    >)
        ensures
            final(self).toks() == old(self).toks(),
            r is Ok <==> old(self).has_next() && valid_uint_token(old(self).cur_stripped())
                && uint_token_val(old(self).cur_stripped()) <= usize::MAX,
            r is Ok ==> r->Ok_0 == uint_token_val(old(self).cur_stripped()) && final(self).pos
                == old(self).pos + 1,
            !old(self).has_next() ==> r->Err_0 == ComtradeError::MissingLineElements(field),
            old(self).has_next() && r is Err ==> (r->Err_0 matches ComtradeError::InvalidValue {
                value,
                type_,
                field: f,
            } && value@ == chars_of_lossy(old(self).cur()) && type_@ == "usize"@ && f@ == field@),
    {
        let t = self.read_next(field)?;
        let hi: usize = if t.len() > 0 {
            t.len() - 1
        } else {
            0
        };
        let stripped = subrange_vec(t.as_slice(), 0, hi);
        proof {
            assert(stripped@ =~= old(self).cur_stripped());
        }
        match parse_uint(stripped.as_slice(), usize::MAX as u128) {
            Some(v) => Ok(v as usize),
            None => Err(
                ComtradeError::InvalidValue {
                    value: bytes_to_string(t.as_slice()),
                    type_: "usize",
                    field,
                },
            ),
        }
    }
}

/// Splits one configuration line into trimmed comma-separated tokens.
pub fn split_cfg_line(line: &[u8]) -> (c: ConfigLine)
    ensures
        c.pos == 0,
        c.toks() == spec_tokens(line@),
        c.toks().len() >= 1,
{
    let fields = split_bytes(line, COMMA);
    let n = fields.len();
    let mut tokens: Vec<Vec<u8>> = Vec::new();
    let mut i: usize = 0;
    while i < n
        invariant
            0 <= i <= n == fields@.len(),
            fields@.map_values(|t: Vec<u8>| t@) == spec_split(line@, COMMA),
            tokens@.len() == i,
            forall|j: int| 0 <= j < i ==> tokens@.map_values(|t: Vec<u8>| t@)[j] == spec_trim(
                spec_split(line@, COMMA)[j],
            ),
        decreases n - i,
    {
        let t = trim_bytes(fields[i].as_slice());
        tokens.push(t);
        i += 1;
    }
    let c = ConfigLine { tokens, pos: 0 };
    proof {
        assert(c.toks() =~= spec_tokens(line@));
    }
    c
}

/// The declared channel counts from the second configuration line: the
/// total, and the analog and status counts written with their trailing
/// letters.
#[derive(Debug, Clone, Copy, PartialEq, Eq, Structural)]
pub struct ChannelSizes {
    pub total: usize,
    pub analog: usize,
    pub status: usize,
}

impl ChannelSizes {
    /// Reads `total,analog A,status D` from a count line.
    pub fn from_line(cfg_line: ConfigLine) -> (r: Result<Self, ComtradeError>)
        ensures
            ({
                let toks = cfg_line.toks();
                let p = cfg_line.pos as int;
                &&& r is Ok <==> (toks.len() - p >= 3 && valid_uint_token(toks[p])
                    && uint_token_val(toks[p]) <= usize::MAX && valid_uint_token(
                    strip_last(toks[p + 1]),
                ) && uint_token_val(strip_last(toks[p + 1])) <= usize::MAX && valid_uint_token(
                    strip_last(toks[p + 2]),
                ) && uint_token_val(strip_last(toks[p + 2])) <= usize::MAX)
                &&& r is Ok ==> ({
                    let v = r->Ok_0;
                    &&& v.total == uint_token_val(toks[p])
                    &&& v.analog == uint_token_val(strip_last(toks[p + 1]))
                    &&& v.status == uint_token_val(strip_last(toks[p + 2]))
                })
            }),
    {
        let mut cfg_line = cfg_line;
        let total = match cfg_line.read_usize("Channel Sizes: Total") {
            Ok(v) => v,
            Err(e) => {
                return Err(e.add_context("Channel Sizes: Total"));
            },
        };
        let analog = match cfg_line.read_usize_with_trailing_char("Channel Sizes: Analog") {
            Ok(v) => v,
            Err(e) => {
                return Err(e.add_context("Channel Sizes: Analog"));
            },
        };
        let status = match cfg_line.read_usize_with_trailing_char("Channel Sizes: Status") {
            Ok(v) => v,
            Err(e) => {
                return Err(e.add_context("Channel Sizes: Status"));
            },
        };
        Ok(ChannelSizes { total, analog, status })
    }
}

/// A token with its final byte removed; empty stays empty.
pub open spec fn strip_last(t: Seq<u8>) -> Seq<u8> {
    t.take(if t.len() > 0 {
        t.len() - 1
    } else {
        0
    })
}

// ---------------------------------------------------------------------------
// The whole configuration file
// ---------------------------------------------------------------------------

/// Everything the configuration grammar yields: station identity, the
/// channel tables, the sampling-rate table, the time stamps with their
/// derived precision, the data encoding, and the revision-gated tail.
pub struct CfgData {
    pub station_name: String,
    pub recording_device_id: String,
    pub revision: FormatRevision,
    pub num_analog_channels: usize,
    pub num_status_channels: usize,
    pub analog_configs: Vec<AnalogConfig>,
    pub status_configs: Vec<StatusConfig>,
    pub line_frequency: Rational,
    pub sampling_rates: Vec<SamplingRate>,
    pub total_num_samples: u32,
    pub is_timestamp_critical: bool,
    pub start_time: ComtradeDateTime,
    pub trigger_time: ComtradeDateTime,
    pub ts_base_unit: TimePrecision,
    pub data_format: DataFormat,
    pub timestamp_multiplication_factor: Rational,
    pub time_offset: Option<i32>,
    pub local_offset: Option<i32>,
    pub time_quality: Option<TimeQuality>,
    pub leap_second_status: Option<LeapSecondStatus>,
}

/// The greatest end-sample index in the rate table; zero when it is empty.
pub open spec fn max_end_sample(rates: Seq<SamplingRate>) -> int
    decreases rates.len(),
{
    if rates.len() == 0 {
        0
    } else {
        let rest = max_end_sample(rates.drop_last());
        if rates.last().end_sample_number > rest {
            rates.last().end_sample_number as int
        } else {
            rest
        }
    }
}

impl CfgData {
    /// Internal consistency: the channel tables have the declared lengths,
    /// every parsed number is a well-formed rational, the total sample
    /// count is the greatest end-sample index, and timestamp-critical mode
    /// means exactly that the rate table is empty.
    pub open spec fn wf(self) -> bool {
        &&& self.analog_configs@.len() == self.num_analog_channels
        &&& self.status_configs@.len() == self.num_status_channels
        &&& self.line_frequency.wf()
        &&& self.timestamp_multiplication_factor.wf()
        &&& (forall|i: int|
            0 <= i < self.sampling_rates@.len() ==> (#[trigger] self.sampling_rates@[i]).rate_hz.wf())
        &&& (forall|j: int|
            0 <= j < self.analog_configs@.len() ==> {
                let c = #[trigger] self.analog_configs@[j];
                c.multiplier.wf() && c.offset_adder.wf() && c.skew.wf() && c.min_value.wf()
                    && c.max_value.wf() && c.primary_factor.wf() && c.secondary_factor.wf()
            })
        &&& self.total_num_samples == max_end_sample(self.sampling_rates@)
        &&& self.is_timestamp_critical == (self.sampling_rates@.len() == 0)
    }

    /// Revision gating: the oldest revision leaves every later field at its
    /// default; the middle one sets the multiplication factor but leaves
    /// the newest fields unset.
    pub open spec fn revision_gated(self) -> bool {
        &&& self.revision is Revision1991 ==> self.timestamp_multiplication_factor == (Rational {
            neg: false,
            num: 1,
            den: 1,
        })
        &&& (self.revision is Revision1991 || self.revision is Revision1999) ==> {
            &&& self.time_offset is None
            &&& self.local_offset is None
            &&& self.time_quality is None
            &&& self.leap_second_status is None
        }
    }

    /// The fields stand exactly where the grammar's lines put them: the
    /// identity line, the count line, one row per declared channel, and the
    /// line frequency after the channel tables.
    pub open spec fn cfg_bound(self, cfg: Seq<u8>) -> bool {
        let lines = spec_split(cfg, NEWLINE);
        let t0 = spec_tokens(lines[0]);
        let t1 = spec_tokens(lines[1]);
        let na = self.num_analog_channels as int;
        let ns = self.num_status_channels as int;
        let ts = cfg_stamp_start(lines);
        &&& lines.len() >= 3 + na + ns
        &&& t0.len() >= 2
        &&& self.station_name@ == chars_of_lossy(t0[0])
        &&& self.recording_device_id@ == chars_of_lossy(t0[1])
        &&& (t0.len() >= 3 ==> Some(self.revision) == revision_of(t0[2]))
        &&& (t0.len() == 2 ==> self.revision is Revision1991)
        &&& self.num_analog_channels == uint_token_val(strip_last(t1[1]))
        &&& self.num_status_channels == uint_token_val(strip_last(t1[2]))
        &&& (forall|i: int|
            0 <= i < na ==> analog_config_matches(
                #[trigger] self.analog_configs@[i],
                spec_tokens(lines[2 + i]),
                0,
            ))
        &&& (forall|i: int|
            0 <= i < ns ==> status_row_matches(
                #[trigger] self.status_configs@[i],
                spec_tokens(lines[2 + na + i]),
            ))
        &&& rational_token_matches(self.line_frequency, spec_tokens(lines[2 + na + ns])[0])
        &&& self.sampling_rates@.len() == cfg_nrates(lines)
        &&& (forall|i: int|
            0 <= i < self.sampling_rates@.len() ==> rate_row_matches(
                lines,
                i,
                #[trigger] self.sampling_rates@[i],
            ))
        &&& self.is_timestamp_critical == (cfg_nrates(lines) == 0)
        &&& self.stamp_bound(lines, ts, self.start_time)
        &&& self.stamp_bound(lines, ts + 1, self.trigger_time)
        &&& (self.ts_base_unit is Nanoseconds <==> (self.start_time.precision is Nanoseconds
            || self.trigger_time.precision is Nanoseconds))
        &&& Some(self.data_format) == crate::parser::dat::formats::data_format_of(
            spec_tokens(lines[ts + 2])[0],
        )
        &&& (!(self.revision is Revision1991)
            ==> rational_token_matches(
            self.timestamp_multiplication_factor,
            spec_tokens(lines[ts + 3])[0],
        ))
        &&& (self.revision is Revision2013 ==> {
            let off = spec_tokens(lines[ts + 4]);
            let q = spec_tokens(lines[ts + 5]);
            &&& offset_bound(self.time_offset, off[0])
            &&& offset_bound(self.local_offset, off[1])
            &&& Some(self.time_quality->0) == crate::time_quality_of(q[0])
                && self.time_quality is Some
            &&& Some(self.leap_second_status->0) == crate::leap_second_status_of(q[1])
                && self.leap_second_status is Some
        })
    }

    /// The stamp at line `li` is exactly what `v` holds: the date in the
    /// revision's layout, the time fields from the digit groups, and the
    /// precision from the fractional digit count.
    pub open spec fn stamp_bound(self, lines: Seq<Seq<u8>>, li: int, v: ComtradeDateTime) -> bool {
        let toks = spec_tokens(lines[li]);
        let tt = toks[1];
        &&& self.revision.date_matches(toks[0], v.date_time.date)
        &&& v.date_time.time.hour == crate::text::digits_val(
            crate::parser::cfg::date_time::time_parts(tt)[0],
        )
        &&& v.date_time.time.minute == crate::text::digits_val(
            crate::parser::cfg::date_time::time_parts(tt)[1],
        )
        &&& v.date_time.time.second == crate::text::digits_val(
            crate::parser::cfg::date_time::sec_parts(tt)[0],
        )
        &&& v.date_time.time.nanosecond == crate::parser::cfg::date_time::time_nanos(tt)
        &&& (v.precision is Microseconds <==> tt.len() - 1 - crate::parser::cfg::date_time::rfind_dot(
            tt,
        ) <= 6)
    }
}

/// The stored offset is exactly what the token denotes.
pub open spec fn offset_bound(stored: Option<i32>, tok: Seq<u8>) -> bool {
    match stored {
        Some(v) => crate::parser::time::spec_time_offset(tok) == Some(Some(v as int)),
        None => crate::parser::time::spec_time_offset(tok) == Some(None::<int>),
    }
}

/// `c` holds exactly what a five-field status row declares.
pub open spec fn status_row_matches(c: StatusConfig, toks: Seq<Seq<u8>>) -> bool {
    &&& toks.len() >= 5
    &&& c.index == uint_token_val(toks[0])
    &&& c.name@ == chars_of_lossy(toks[1])
    &&& c.phase@ == chars_of_lossy(toks[2])
    &&& c.circuit_component_being_monitored@ == chars_of_lossy(toks[3])
    &&& c.normal_status_value == uint_token_val(toks[4])
}

/// `v` is exactly the number the decimal token writes, in the parser's
/// canonical representation.
pub open spec fn rational_token_matches(v: Rational, t: Seq<u8>) -> bool {
    &&& v.wf()
    &&& v == crate::rational::rat_of_token(t)
    &&& v.val_num() * dec_den(t) == dec_num(t) * v.val_den()
}


/// The identity line is readable.
pub open spec fn id_line_ok(lines: Seq<Seq<u8>>) -> bool {
    let t0 = spec_tokens(lines[0]);
    &&& lines.len() >= 1
    &&& t0.len() >= 2
    &&& (t0.len() == 2 || revision_of(t0[2]) is Some)
}

/// The revision the identity line selects; absent means the oldest.
pub open spec fn cfg_revision(lines: Seq<Seq<u8>>) -> FormatRevision {
    let t0 = spec_tokens(lines[0]);
    if t0.len() >= 3 {
        revision_of(t0[2])->0
    } else {
        FormatRevision::Revision1991
    }
}

/// The channel-count line is readable.
pub open spec fn counts_ok(lines: Seq<Seq<u8>>) -> bool {
    let t1 = spec_tokens(lines[1]);
    &&& lines.len() >= 2
    &&& t1.len() >= 3
    &&& valid_uint_token(t1[0]) && uint_token_val(t1[0]) <= usize::MAX
    &&& valid_uint_token(strip_last(t1[1])) && uint_token_val(strip_last(t1[1])) <= usize::MAX
    &&& valid_uint_token(strip_last(t1[2])) && uint_token_val(strip_last(t1[2])) <= usize::MAX
}

pub open spec fn cfg_na(lines: Seq<Seq<u8>>) -> int {
    uint_token_val(strip_last(spec_tokens(lines[1])[1])) as int
}

pub open spec fn cfg_ns(lines: Seq<Seq<u8>>) -> int {
    uint_token_val(strip_last(spec_tokens(lines[1])[2])) as int
}

/// Analog row `i` of the channel table is readable.
pub open spec fn analog_line_ok(lines: Seq<Seq<u8>>, i: int) -> bool {
    crate::parser::cfg::analog_channels::analog_row_valid(spec_tokens(lines[2 + i]), 0)
}

/// Status row `i` of the channel table is readable.
pub open spec fn status_line_ok(lines: Seq<Seq<u8>>, i: int) -> bool {
    let toks = spec_tokens(lines[2 + cfg_na(lines) + i]);
    &&& toks.len() == 5
    &&& valid_uint_token(toks[0]) && 1 <= uint_token_val(toks[0]) <= u32::MAX
    &&& valid_uint_token(toks[4]) && uint_token_val(toks[4]) <= 1
}

/// Sampling-rate row `i` is readable.
pub open spec fn rate_line_ok(lines: Seq<Seq<u8>>, i: int) -> bool {
    let toks = spec_tokens(lines[4 + cfg_na(lines) + cfg_ns(lines) + i]);
    &&& toks.len() >= 2
    &&& valid_decimal_token(toks[0]) && decimal_fits(toks[0])
    &&& valid_uint_token(toks[1]) && uint_token_val(toks[1]) <= u32::MAX
}

/// How many sampling-rate rows the table declares.
pub open spec fn cfg_nrates(lines: Seq<Seq<u8>>) -> int {
    uint_token_val(spec_tokens(lines[3 + cfg_na(lines) + cfg_ns(lines)])[0]) as int
}

/// The line index of the start-time stamp.
pub open spec fn cfg_stamp_start(lines: Seq<Seq<u8>>) -> int {
    4 + cfg_na(lines) + cfg_ns(lines) + cfg_nrates(lines) + (if cfg_nrates(lines) == 0 {
        1int
    } else {
        0int
    })
}

/// Sampling-rate row `i` of the table, as the file writes it.
pub open spec fn rate_row_matches(lines: Seq<Seq<u8>>, i: int, v: SamplingRate) -> bool {
    let toks = spec_tokens(lines[4 + cfg_na(lines) + cfg_ns(lines) + i]);
    &&& v.rate_hz == crate::rational::rat_of_token(toks[0])
    &&& v.end_sample_number == uint_token_val(toks[1])
}

/// The whole configuration text is acceptable: every stanza, in order, is
/// readable, through the tail the revision gates in.
pub open spec fn cfg_accepted(cfg: Seq<u8>) -> bool {
    let lines = spec_split(cfg, NEWLINE);
    let na = cfg_na(lines);
    let ns = cfg_ns(lines);
    let lf = 2 + na + ns;
    let nr = 3 + na + ns;
    let ts = cfg_stamp_start(lines);
    let rev = cfg_revision(lines);
    &&& id_line_ok(lines)
    &&& counts_ok(lines)
    &&& lines.len() >= 3 + na + ns
    &&& (forall|i: int| 0 <= i < na ==> #[trigger] analog_line_ok(lines, i))
    &&& (forall|i: int| 0 <= i < ns ==> #[trigger] status_line_ok(lines, i))
    &&& valid_decimal_token(spec_tokens(lines[lf])[0]) && decimal_fits(spec_tokens(lines[lf])[0])
    &&& lines.len() >= nr + 1
    &&& valid_uint_token(spec_tokens(lines[nr])[0]) && uint_token_val(spec_tokens(lines[nr])[0])
        <= usize::MAX
    &&& lines.len() >= nr + 1 + cfg_nrates(lines)
    &&& (forall|i: int| 0 <= i < cfg_nrates(lines) ==> #[trigger] rate_line_ok(lines, i))
    &&& lines.len() >= ts + 3
    &&& crate::parser::cfg::date_time::stamp_line_valid(spec_tokens(lines[ts]), 0, rev)
    &&& crate::parser::cfg::date_time::stamp_line_valid(spec_tokens(lines[ts + 1]), 0, rev)
    &&& data_format_of(spec_tokens(lines[ts + 2])[0]) is Some
    &&& (!(rev is Revision1991) ==> lines.len() >= ts + 4 && valid_decimal_token(
        spec_tokens(lines[ts + 3])[0],
    ) && decimal_fits(spec_tokens(lines[ts + 3])[0]))
    &&& (rev is Revision2013 ==> {
        let off = spec_tokens(lines[ts + 4]);
        let q = spec_tokens(lines[ts + 5]);
        &&& lines.len() >= ts + 6
        &&& off.len() >= 2
        &&& crate::parser::time::spec_time_offset(off[0]) is Some
        &&& crate::parser::time::spec_time_offset(off[1]) is Some
        &&& q.len() >= 2
        &&& crate::time_quality_of(q[0]) is Some
        &&& crate::leap_second_status_of(q[1]) is Some
    })
}


// ---------------------------------------------------------------------------
// The values an accepted configuration determines, as functions of the text
// ---------------------------------------------------------------------------

/// The multiplier of analog channel `j`, read off its row.
pub open spec fn cfg_mult_of(lines: Seq<Seq<u8>>, j: int) -> Rational {
    crate::rational::rat_of_token(spec_tokens(lines[2 + j])[5])
}

/// The offset adder of analog channel `j`, read off its row.
pub open spec fn cfg_adder_of(lines: Seq<Seq<u8>>, j: int) -> Rational {
    crate::rational::rat_of_token(spec_tokens(lines[2 + j])[6])
}

/// The sampling-rate table, read off the rate rows.
pub open spec fn cfg_rates_of(lines: Seq<Seq<u8>>) -> Seq<SamplingRate> {
    Seq::new(
        cfg_nrates(lines) as nat,
        |i: int|
            SamplingRate {
                rate_hz: crate::rational::rat_of_token(
                    spec_tokens(lines[4 + cfg_na(lines) + cfg_ns(lines) + i])[0],
                ),
                end_sample_number: uint_token_val(
                    spec_tokens(lines[4 + cfg_na(lines) + cfg_ns(lines) + i])[1],
                ) as u32,
            },
    )
}

/// Timestamp-critical mode holds exactly when the rate count is zero.
pub open spec fn cfg_crit_of(lines: Seq<Seq<u8>>) -> bool {
    cfg_nrates(lines) == 0
}

/// Whether either stamp line carries seven or more fractional digits.
pub open spec fn cfg_nano_of(lines: Seq<Seq<u8>>) -> bool {
    let ts = cfg_stamp_start(lines);
    stamp_frac_digits(lines, ts) >= 7 || stamp_frac_digits(lines, ts + 1) >= 7
}

/// How many bytes follow the last dot of the stamp's time token.
pub open spec fn stamp_frac_digits(lines: Seq<Seq<u8>>, li: int) -> int {
    let tt = spec_tokens(lines[li])[1];
    tt.len() - 1 - crate::parser::cfg::date_time::rfind_dot(tt)
}

/// The base time unit the stamp lines derive: a millionth or, when either
/// line shows seven or more fractional digits, a billionth of a second.
pub open spec fn cfg_base_unit_of(lines: Seq<Seq<u8>>) -> Rational {
    if cfg_nano_of(lines) {
        Rational { neg: false, num: 1, den: 1000000000 }
    } else {
        Rational { neg: false, num: 1, den: 1000000 }
    }
}

/// The timestamp multiplication factor: one for the oldest revision, else
/// the time-mult line's decimal.
pub open spec fn cfg_mf_of(lines: Seq<Seq<u8>>) -> Rational {
    if cfg_revision(lines) is Revision1991 {
        Rational { neg: false, num: 1, den: 1 }
    } else {
        crate::rational::rat_of_token(spec_tokens(lines[cfg_stamp_start(lines) + 3])[0])
    }
}

/// The encoding the format line names.
pub open spec fn cfg_format_of(lines: Seq<Seq<u8>>) -> DataFormat {
    data_format_of(spec_tokens(lines[cfg_stamp_start(lines) + 2])[0])->0
}

/// The declared total sample count: the greatest end-sample index.
pub open spec fn cfg_total_of(lines: Seq<Seq<u8>>) -> int {
    max_end_sample(cfg_rates_of(lines))
}

/// An accepted configuration pins every decoder-relevant output: a parse
/// result that is well-formed and bound to the text carries exactly the
/// values the text writes.
pub proof fn lemma_cfg_determines(cfg: Seq<u8>, c: CfgData)
    requires
        c.wf(),
        c.revision_gated(),
        c.cfg_bound(cfg),
    ensures
        ({
            let lines = spec_split(cfg, NEWLINE);
            &&& c.num_analog_channels == cfg_na(lines)
            &&& c.num_status_channels == cfg_ns(lines)
            &&& c.analog_configs@.len() == cfg_na(lines)
            &&& c.revision == cfg_revision(lines)
            &&& c.sampling_rates@ == cfg_rates_of(lines)
            &&& c.is_timestamp_critical == cfg_crit_of(lines)
            &&& c.total_num_samples == cfg_total_of(lines)
            &&& c.data_format == cfg_format_of(lines)
            &&& c.timestamp_multiplication_factor == cfg_mf_of(lines)
            &&& (c.ts_base_unit is Nanoseconds <==> cfg_nano_of(lines))
            &&& (forall|j: int|
                0 <= j < cfg_na(lines) ==> (#[trigger] c.analog_configs@[j]).multiplier
                    == cfg_mult_of(lines, j) && c.analog_configs@[j].offset_adder == cfg_adder_of(
                    lines,
                    j,
                ))
        }),
{
    let lines = spec_split(cfg, NEWLINE);
    assert forall|i: int| 0 <= i < c.sampling_rates@.len() implies c.sampling_rates@[i]
        == cfg_rates_of(lines)[i] by {
        assert(rate_row_matches(lines, i, c.sampling_rates@[i]));
    }
    assert(c.sampling_rates@ =~= cfg_rates_of(lines));
}

/// Parses the whole configuration text: the identity line, the channel
/// count line, one row per declared analog and status channel, the line
/// frequency, the sampling-rate table, the start and trigger stamps with
/// their derived precision, the data encoding, and the revision-gated
/// tail. Any missing line, wrong field count or unparsable token is fatal.
#[verifier::rlimit(100)]
pub fn parse_cfg(cfg: &[u8]) -> (r: Result<CfgData, ComtradeError>)
    ensures
        r is Ok <==> cfg_accepted(cfg@),
        r is Ok ==> ({
            let c = r->Ok_0;
            &&& c.wf()
            &&& c.revision_gated()
            &&& c.cfg_bound(cfg@)
        }),
{
    let lines = split_bytes(cfg, NEWLINE);
    let nlines = lines.len();
    let ghost lines_s = spec_split(cfg@, NEWLINE);

    // Identity line.
    proof {
        assert(lines@[0]@ == lines_s[0]);
    }
    let id_line = IdRow::from_config_line(split_cfg_line(lines[0].as_slice()))?;
    let station_name = id_line.station_name;
    let recording_device_id = id_line.recording_device_id;
    let format_revision = id_line.format_revision;
    proof {
        assert(id_line_ok(lines_s));
        assert(format_revision == cfg_revision(lines_s));
    }

    // Channel counts.
    if nlines < 2 {
        return Err(ComtradeError::UnexpectedEndOfCfgFile);
    }
    proof {
        assert(lines@[1]@ == lines_s[1]);
    }
    let sizes = ChannelSizes::from_line(split_cfg_line(lines[1].as_slice()))?;
    let num_analog_channels = sizes.analog;
    let num_status_channels = sizes.status;
    proof {
        assert(counts_ok(lines_s));
        assert(cfg_na(lines_s) == num_analog_channels);
        assert(cfg_ns(lines_s) == num_status_channels);
    }

    // Analog channel rows.
    let mut analog_configs: Vec<AnalogConfig> = Vec::new();
    let mut i: usize = 0;
    while i < num_analog_channels
        invariant
            0 <= i <= num_analog_channels,
            lines@.map_values(|t: Vec<u8>| t@) == lines_s,
            lines_s == spec_split(cfg@, NEWLINE),
            nlines == lines@.len(),
            id_line_ok(lines_s),
            counts_ok(lines_s),
            format_revision == cfg_revision(lines_s),
            cfg_na(lines_s) == num_analog_channels,
            cfg_ns(lines_s) == num_status_channels,
            analog_configs@.len() == i,
            i > 0 ==> nlines >= 2 + i,
            forall|k: int| 0 <= k < i ==> #[trigger] analog_line_ok(lines_s, k),
            forall|k: int|
                0 <= k < i ==> analog_config_matches(
                    #[trigger] analog_configs@[k],
                    spec_tokens(lines_s[2 + k]),
                    0,
                ),
            forall|k: int|
                0 <= k < i ==> {
                    let c = #[trigger] analog_configs@[k];
                    c.multiplier.wf() && c.offset_adder.wf() && c.skew.wf() && c.min_value.wf()
                        && c.max_value.wf() && c.primary_factor.wf() && c.secondary_factor.wf()
                },
        decreases num_analog_channels - i,
    {
        if 2 + i >= nlines {
            return Err(ComtradeError::UnexpectedEndOfCfgFile);
        }
        proof {
            assert(lines@[2 + i as int]@ == lines_s[2 + i as int]);
        }
        let cfg_line = split_cfg_line(lines[2 + i].as_slice());
        let c = match AnalogConfig::from_cfg_row(cfg_line) {
            Ok(v) => v,
            Err(e) => {
                proof {
                    assert(!analog_line_ok(lines_s, i as int));
                }
                return Err(e);
            },
        };
        analog_configs.push(c);
        i += 1;
    }

    // Status channel rows.
    let mut status_configs: Vec<StatusConfig> = Vec::new();
    let mut i2: usize = 0;
    let base_s = match num_analog_channels.checked_add(2) {
        Some(v) => v,
        None => {
            proof {
                assert(nlines < 3 + cfg_na(lines_s) + cfg_ns(lines_s));
            }
            return Err(ComtradeError::UnexpectedEndOfCfgFile);
        },
    };
    while i2 < num_status_channels
        invariant
            0 <= i2 <= num_status_channels,
            base_s == 2 + num_analog_channels,
            lines@.map_values(|t: Vec<u8>| t@) == lines_s,
            lines_s == spec_split(cfg@, NEWLINE),
            nlines == lines@.len(),
            id_line_ok(lines_s),
            counts_ok(lines_s),
            format_revision == cfg_revision(lines_s),
            cfg_na(lines_s) == num_analog_channels,
            cfg_ns(lines_s) == num_status_channels,
            analog_configs@.len() == num_analog_channels,
            status_configs@.len() == i2,
            i2 > 0 ==> nlines >= base_s + i2,
            forall|k: int| 0 <= k < num_analog_channels ==> #[trigger] analog_line_ok(lines_s, k),
            forall|k: int|
                0 <= k < num_analog_channels ==> analog_config_matches(
                    #[trigger] analog_configs@[k],
                    spec_tokens(lines_s[2 + k]),
                    0,
                ),
            forall|k: int|
                0 <= k < num_analog_channels ==> {
                    let c = #[trigger] analog_configs@[k];
                    c.multiplier.wf() && c.offset_adder.wf() && c.skew.wf() && c.min_value.wf()
                        && c.max_value.wf() && c.primary_factor.wf() && c.secondary_factor.wf()
                },
            forall|k: int| 0 <= k < i2 ==> #[trigger] status_line_ok(lines_s, k),
            forall|k: int|
                0 <= k < i2 ==> status_row_matches(
                    #[trigger] status_configs@[k],
                    spec_tokens(lines_s[base_s + k]),
                ),
        decreases num_status_channels - i2,
    {
        let li = match base_s.checked_add(i2) {
            Some(v) => v,
            None => {
                proof {
                    assert(nlines < 3 + cfg_na(lines_s) + cfg_ns(lines_s));
                }
                return Err(ComtradeError::UnexpectedEndOfCfgFile);
            },
        };
        if li >= nlines {
            return Err(ComtradeError::UnexpectedEndOfCfgFile);
        }
        proof {
            assert(lines@[li as int]@ == lines_s[li as int]);
        }
        let cfg_line = split_cfg_line(lines[li].as_slice());
        let c = match StatusConfig::from_config_row(cfg_line) {
            Ok(v) => v,
            Err(e) => {
                proof {
                    assert(!status_line_ok(lines_s, i2 as int));
                }
                return Err(e);
            },
        };
        status_configs.push(c);
        i2 += 1;
    }

    // Line frequency.
    let mut li: usize = match base_s.checked_add(num_status_channels) {
        Some(v) => v,
        None => {
            proof {
                assert(nlines < 3 + cfg_na(lines_s) + cfg_ns(lines_s));
            }
            return Err(ComtradeError::UnexpectedEndOfCfgFile);
        },
    };
    if li >= nlines {
        return Err(ComtradeError::UnexpectedEndOfCfgFile);
    }
    proof {
        assert(lines@[li as int]@ == lines_s[li as int]);
    }
    let mut lf_cursor = split_cfg_line(lines[li].as_slice());
    let line_frequency = lf_cursor.read_rational("Line Frequency")?;
    li += 1;

    // Sampling-rate table.
    if li >= nlines {
        return Err(ComtradeError::UnexpectedEndOfCfgFile);
    }
    proof {
        assert(lines@[li as int]@ == lines_s[li as int]);
    }
    let mut nr_cursor = split_cfg_line(lines[li].as_slice());
    let num_sampling_rates = nr_cursor.read_usize("Number of Sampling Rates")?;
    li += 1;
    proof {
        assert(cfg_nrates(lines_s) == num_sampling_rates);
    }
    let mut sampling_rates: Vec<SamplingRate> = Vec::new();
    let mut total_num_samples: u32 = 0;
    let mut ri: usize = 0;
    while ri < num_sampling_rates
        invariant
            0 <= ri <= num_sampling_rates,
            lines@.map_values(|t: Vec<u8>| t@) == lines_s,
            lines_s == spec_split(cfg@, NEWLINE),
            nlines == lines@.len(),
            id_line_ok(lines_s),
            counts_ok(lines_s),
            format_revision == cfg_revision(lines_s),
            cfg_na(lines_s) == num_analog_channels,
            cfg_ns(lines_s) == num_status_channels,
            cfg_nrates(lines_s) == num_sampling_rates,
            nlines >= 4 + num_analog_channels + num_status_channels,
            li == 4 + num_analog_channels + num_status_channels + ri,
            li <= nlines,
            analog_configs@.len() == num_analog_channels,
            status_configs@.len() == num_status_channels,
            valid_decimal_token(
                spec_tokens(lines_s[2 + num_analog_channels + num_status_channels])[0],
            ) && decimal_fits(
                spec_tokens(lines_s[2 + num_analog_channels + num_status_channels])[0],
            ),
            valid_uint_token(
                spec_tokens(lines_s[3 + num_analog_channels + num_status_channels])[0],
            ) && uint_token_val(
                spec_tokens(lines_s[3 + num_analog_channels + num_status_channels])[0],
            ) <= usize::MAX,
            rational_token_matches(
                line_frequency,
                spec_tokens(lines_s[2 + num_analog_channels + num_status_channels])[0],
            ),
            forall|k: int| 0 <= k < num_analog_channels ==> #[trigger] analog_line_ok(lines_s, k),
            forall|k: int|
                0 <= k < num_analog_channels ==> analog_config_matches(
                    #[trigger] analog_configs@[k],
                    spec_tokens(lines_s[2 + k]),
                    0,
                ),
            forall|k: int|
                0 <= k < num_analog_channels ==> {
                    let c = #[trigger] analog_configs@[k];
                    c.multiplier.wf() && c.offset_adder.wf() && c.skew.wf() && c.min_value.wf()
                        && c.max_value.wf() && c.primary_factor.wf() && c.secondary_factor.wf()
                },
            forall|k: int| 0 <= k < num_status_channels ==> #[trigger] status_line_ok(lines_s, k),
            forall|k: int|
                0 <= k < num_status_channels ==> status_row_matches(
                    #[trigger] status_configs@[k],
                    spec_tokens(lines_s[2 + num_analog_channels + k]),
                ),
            forall|k: int| 0 <= k < ri ==> #[trigger] rate_line_ok(lines_s, k),
            forall|k: int|
                0 <= k < ri ==> rate_row_matches(lines_s, k, #[trigger] sampling_rates@[k]),
            sampling_rates@.len() == ri,
            total_num_samples == max_end_sample(sampling_rates@),
            forall|k: int| 0 <= k < ri ==> (#[trigger] sampling_rates@[k]).rate_hz.wf(),
        decreases num_sampling_rates - ri,
    {
        if li >= nlines {
            return Err(ComtradeError::UnexpectedEndOfCfgFile);
        }
        proof {
            assert(lines@[li as int]@ == lines_s[li as int]);
        }
        let rate = match SamplingRate::from_config_line(split_cfg_line(lines[li].as_slice())) {
            Ok(v) => v,
            Err(e) => {
                proof {
                    assert(!rate_line_ok(lines_s, ri as int));
                }
                return Err(e);
            },
        };
        let ghost old_rates = sampling_rates@;
        if rate.end_sample_number > total_num_samples {
            total_num_samples = rate.end_sample_number;
        }
        sampling_rates.push(rate);
        proof {
            assert(sampling_rates@.drop_last() =~= old_rates);
        }
        li += 1;
        ri += 1;
    }
    let ghost nr_total: int = 4 + num_analog_channels + num_status_channels
        + num_sampling_rates as int;
    proof {
        assert(li == nr_total);
        assert(nlines >= nr_total);
    }

    // With no fixed rate, one further line carries the file's declared
    // total sample count; it is consumed and otherwise unused, and every
    // sample row must carry its own timestamp.
    let is_timestamp_critical = num_sampling_rates == 0;
    if is_timestamp_critical {
        if li >= nlines {
            return Err(ComtradeError::UnexpectedEndOfCfgFile);
        }
        li += 1;
    }
    proof {
        assert(li == cfg_stamp_start(lines_s));
    }

    // Start and trigger stamps; the record's base time unit is the finer
    // of the two precisions.
    if li >= nlines {
        return Err(ComtradeError::UnexpectedEndOfCfgFile);
    }
    proof {
        assert(lines@[li as int]@ == lines_s[li as int]);
    }
    let start_time = ComtradeDateTime::from_config_line(
        split_cfg_line(lines[li].as_slice()),
        &format_revision,
    )?;
    li += 1;
    if li >= nlines {
        return Err(ComtradeError::UnexpectedEndOfCfgFile);
    }
    proof {
        assert(lines@[li as int]@ == lines_s[li as int]);
    }
    let trigger_time = ComtradeDateTime::from_config_line(
        split_cfg_line(lines[li].as_slice()),
        &format_revision,
    )?;
    li += 1;
    let ts_base_unit = start_time.precision.finer(trigger_time.precision);

    // Data encoding.
    if li >= nlines {
        return Err(ComtradeError::UnexpectedEndOfCfgFile);
    }
    proof {
        assert(lines@[li as int]@ == lines_s[li as int]);
    }
    let mut df_cursor = split_cfg_line(lines[li].as_slice());
    let df_tok = df_cursor.read_next("Data Format")?;
    let data_format = match DataFormat::from_token(df_tok.as_slice()) {
        Ok(v) => v,
        Err(_) => {
            return Err(
                ComtradeError::InvalidValue {
                    value: bytes_to_string(df_tok.as_slice()),
                    type_: "data format",
                    field: "Data Format",
                },
            );
        },
    };
    li += 1;

    let mut out = CfgData {
        station_name,
        recording_device_id,
        revision: format_revision,
        num_analog_channels,
        num_status_channels,
        analog_configs,
        status_configs,
        line_frequency,
        sampling_rates,
        total_num_samples,
        is_timestamp_critical,
        start_time,
        trigger_time,
        ts_base_unit,
        data_format,
        timestamp_multiplication_factor: Rational { neg: false, num: 1, den: 1 },
        time_offset: None,
        local_offset: None,
        time_quality: None,
        leap_second_status: None,
    };

    // The oldest revision ends here.
    if matches!(format_revision, FormatRevision::Revision1991) {
        proof {
            assert(cfg_accepted(cfg@));
        }
        return Ok(out);
    }

    // Time stamp multiplication factor.
    if li >= nlines {
        return Err(ComtradeError::UnexpectedEndOfCfgFile);
    }
    proof {
        assert(lines@[li as int]@ == lines_s[li as int]);
    }
    let mut tm_cursor = split_cfg_line(lines[li].as_slice());
    let time_mult = tm_cursor.read_rational("Time Multiplication Factor")?;
    out.timestamp_multiplication_factor = time_mult;
    li += 1;

    // The middle revision ends here.
    if matches!(format_revision, FormatRevision::Revision1999) {
        proof {
            assert(cfg_accepted(cfg@));
        }
        return Ok(out);
    }

    // UTC and local time offsets.
    if li >= nlines {
        return Err(ComtradeError::UnexpectedEndOfCfgFile);
    }
    proof {
        assert(lines@[li as int]@ == lines_s[li as int]);
    }
    let mut off_cursor = split_cfg_line(lines[li].as_slice());
    let off_tok1 = off_cursor.read_next("Time Offset")?;
    let off_tok2 = off_cursor.read_next("Local Offset")?;
    out.time_offset = match parse_time_offset(off_tok1.as_slice()) {
        Ok(v) => v,
        Err(e) => {
            return Err(ComtradeError::ParserError(e));
        },
    };
    out.local_offset = match parse_time_offset(off_tok2.as_slice()) {
        Ok(v) => v,
        Err(e) => {
            return Err(ComtradeError::ParserError(e));
        },
    };
    li += 1;

    // Clock quality and leap-second indicator.
    if li >= nlines {
        return Err(ComtradeError::UnexpectedEndOfCfgFile);
    }
    proof {
        assert(lines@[li as int]@ == lines_s[li as int]);
    }
    let mut q_cursor = split_cfg_line(lines[li].as_slice());
    let q_tok = q_cursor.read_next("Time Quality")?;
    let l_tok = q_cursor.read_next("Leap Second")?;
    out.time_quality = match TimeQuality::from_token(q_tok.as_slice()) {
        Ok(v) => Some(v),
        Err(e) => {
            return Err(ComtradeError::ParserError(e));
        },
    };
    out.leap_second_status = match LeapSecondStatus::from_token(l_tok.as_slice()) {
        Ok(v) => Some(v),
        Err(e) => {
            return Err(ComtradeError::ParserError(e));
        },
    };
    proof {
        assert(cfg_accepted(cfg@));
    }
    Ok(out)
}

} // verus!
