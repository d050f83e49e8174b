//! Analog channel configuration rows and decoded analog channels.
use vstd::prelude::*;

use crate::error::ComtradeError;
use crate::parser::cfg::ConfigLine;
use crate::rational::{dec_den, dec_num, decimal_fits, valid_decimal_token, Rational};
use crate::text::{chars_of_lossy, lower_seq, uint_token_val, valid_uint_token};

verus! {

/// Whether a channel's conversion factors apply to the primary or the
/// secondary side.
#[derive(Debug, Clone, Copy, PartialEq, Eq, Structural)]
pub enum AnalogScalingMode {
    Primary,
    Secondary,
}

/// The scaling mode a token names after ASCII case folding: `p` or `s`.
pub open spec fn scaling_mode_of(t: Seq<u8>) -> Option<AnalogScalingMode> {
    let u = lower_seq(t);
    if u == seq![112u8] {
        Some(AnalogScalingMode::Primary)
    } else if u == seq![115u8] {
        Some(AnalogScalingMode::Secondary)
    } else {
        None
    }
}

impl AnalogScalingMode {
    /// Decodes a scaling-mode token.
    pub fn from_token(t: &[u8]) -> (r: Result<AnalogScalingMode, ComtradeError>)
        ensures
            r is Ok <==> scaling_mode_of(t@) is Some,
            r is Ok ==> scaling_mode_of(t@) == Some(r->Ok_0),
            r is Err ==> (r->Err_0 matches ComtradeError::InvalidValue { value, type_, field }
                && value@ == crate::text::chars_of_lossy(t@)),
    {
        let u = crate::text::to_lower(t);
        if u.len() == 1 {
            let b = u[0];
            proof {
                assert(u@ =~= seq![b]);
                assert(forall|c: u8| seq![c].len() == 1 && seq![c][0] == c);
            }
            if b == 112 {
                return Ok(AnalogScalingMode::Primary);
            } else if b == 115 {
                return Ok(AnalogScalingMode::Secondary);
            }
        }
        proof {
            assert(forall|c: u8| seq![c].len() == 1 && seq![c][0] == c);
        }
        Err(
            ComtradeError::InvalidValue {
                value: crate::text::bytes_to_string(t),
                type_: "scaling mode",
                field: "Analog Channel: Scaling Mode",
            },
        )
    }

    /// Mirrors the standard conversion from a string token.
    pub fn from_str(value: &str) -> (r: Result<AnalogScalingMode, ComtradeError>)
        ensures
            r is Ok <==> scaling_mode_of(value.spec_bytes()) is Some,
            r is Ok ==> scaling_mode_of(value.spec_bytes()) == Some(r->Ok_0),
    {
        AnalogScalingMode::from_token(value.as_bytes())
    }
}

use vstd::string::StringSliceAdditionalSpecFns;

/// The declaration of one analog channel: identity and labels, declared
/// bounds, the scaling transform, and the conversion factors.
#[derive(Debug, Clone, PartialEq)]
pub struct AnalogConfig {
    /// 1-based counter naming this channel in the record.
    pub index: u32,
    pub name: String,
    pub phase: String,
    pub circuit_component_being_monitored: String,
    pub units: String,
    pub min_value: Rational,
    pub max_value: Rational,
    /// Multiplies each raw sample before the offset is added.
    pub multiplier: Rational,
    /// Added to each multiplied raw sample.
    pub offset_adder: Rational,
    /// Channel skew in microseconds; carried for downstream use, never
    /// applied here.
    pub skew: Rational,
    /// Converts between primary and secondary quantities.
    pub primary_factor: Rational,
    pub secondary_factor: Rational,
    pub scaling_mode: AnalogScalingMode,
}

/// An analog channel together with its scaled samples.
#[derive(Debug, Clone, PartialEq)]
pub struct AnalogChannel {
    pub config: AnalogConfig,
    pub data: Vec<Rational>,
}

impl AnalogChannel {
    /// Appends one scaled sample.
    pub fn push_datum(&mut self, value: Rational)
        ensures
            final(self).config == old(self).config,
            final(self).data@ == old(self).data@.push(value),
    {
        self.data.push(value);
    }
}

/// `c` holds exactly what the thirteen fields starting at `p` declare.
pub open spec fn analog_config_matches(c: AnalogConfig, toks: Seq<Seq<u8>>, p: int) -> bool {
    &&& c.index == uint_token_val(toks[p])
    &&& c.name@ == chars_of_lossy(toks[p + 1])
    &&& c.phase@ == chars_of_lossy(toks[p + 2])
    &&& c.circuit_component_being_monitored@ == chars_of_lossy(toks[p + 3])
    &&& c.units@ == chars_of_lossy(toks[p + 4])
    &&& rational_matches(c.multiplier, toks[p + 5])
    &&& rational_matches(c.offset_adder, toks[p + 6])
    &&& rational_matches(c.skew, toks[p + 7])
    &&& rational_matches(c.min_value, toks[p + 8])
    &&& rational_matches(c.max_value, toks[p + 9])
    &&& rational_matches(c.primary_factor, toks[p + 10])
    &&& rational_matches(c.secondary_factor, toks[p + 11])
    &&& Some(c.scaling_mode) == scaling_mode_of(toks[p + 12])
}

/// `v` is exactly the number the decimal token writes, in the parser's
/// canonical representation.
pub open spec fn rational_matches(v: Rational, t: Seq<u8>) -> bool {
    &&& v.wf()
    &&& v == crate::rational::rat_of_token(t)
    &&& v.val_num() * dec_den(t) == dec_num(t) * v.val_den()
}


/// The raw text the error carries is one of the row's own tokens: the
/// index, one of the seven numeric fields, or the scaling-mode letter.
pub open spec fn offending_row_token(v: Seq<char>, toks: Seq<Seq<u8>>, p: int) -> bool {
    ||| v == chars_of_lossy(toks[p])
    ||| v == chars_of_lossy(toks[p + 5])
    ||| v == chars_of_lossy(toks[p + 6])
    ||| v == chars_of_lossy(toks[p + 7])
    ||| v == chars_of_lossy(toks[p + 8])
    ||| v == chars_of_lossy(toks[p + 9])
    ||| v == chars_of_lossy(toks[p + 10])
    ||| v == chars_of_lossy(toks[p + 11])
    ||| v == chars_of_lossy(toks[p + 12])
}

/// The thirteen fields starting at `p` are readable as an analog row,
/// and nothing follows them: the stanza has exactly thirteen fields.
pub open spec fn analog_row_valid(toks: Seq<Seq<u8>>, p: int) -> bool {
    &&& toks.len() - p == 13
    &&& valid_uint_token(toks[p]) && 1 <= uint_token_val(toks[p]) <= u32::MAX
    &&& decimal_token_ok(toks[p + 5])
    &&& decimal_token_ok(toks[p + 6])
    &&& decimal_token_ok(toks[p + 7])
    &&& decimal_token_ok(toks[p + 8])
    &&& decimal_token_ok(toks[p + 9])
    &&& decimal_token_ok(toks[p + 10])
    &&& decimal_token_ok(toks[p + 11])
    &&& scaling_mode_of(toks[p + 12]) is Some
}

pub open spec fn decimal_token_ok(t: Seq<u8>) -> bool {
    valid_decimal_token(t) && decimal_fits(t)
}

impl AnalogConfig {
    /// Reads the thirteen comma-separated fields of one analog channel row:
    /// index, name, phase, monitored component, units, multiplier, offset
    /// adder, skew, minimum, maximum, primary and secondary factors, and the
    /// scaling-mode letter.
    pub fn from_cfg_row(config_line: ConfigLine) -> (r: Result<Self, ComtradeError>)
        ensures
            ({
                let toks = config_line.toks();
                let p = config_line.pos as int;
                &&& r is Ok <==> analog_row_valid(toks, p)
                &&& r is Ok ==> analog_config_matches(r->Ok_0, toks, p)
                &&& r is Err ==> (r->Err_0 matches ComtradeError::InvalidValue { value, .. }
                    ==> offending_row_token(value@, toks, p))
            }),
    {
        let mut config_line = config_line;
        let want = match config_line.pos.checked_add(13) {
            Some(w) => w,
            None => {
                return Err(ComtradeError::MissingLineElements("Analog Channel Row"));
            },
        };
        if config_line.tokens.len() != want {
            return Err(ComtradeError::MissingLineElements("Analog Channel Row"));
        }
        let index = config_line.read_u32("Analog Channel: Index")?;
        if index == 0 {
            // Channel indices are 1-based.
            return Err(
                ComtradeError::InvalidValue {
                    value: crate::text::bytes_to_string(config_line.tokens[config_line.pos - 1].as_slice()),
                    type_: "non-zero index",
                    field: "Analog Channel: Index",
                },
            );
        }
        let name = config_line.read_string("Analog Channel: Name")?;
        let phase = config_line.read_string("Analog Channel: Phase")?;
        let circuit_component_being_monitored = config_line.read_string(
            "Analog Channel: Component",
        )?;
        let units = config_line.read_string("Analog Channel: Units")?;
        let multiplier = config_line.read_rational("Analog Channel: Multiplier")?;
        let offset_adder = config_line.read_rational("Analog Channel: Offset Adder")?;
        let skew = config_line.read_rational("Analog Channel: Skew")?;
        let min_value = config_line.read_rational("Analog Channel: Minimum")?;
        let max_value = config_line.read_rational("Analog Channel: Maximum")?;
        let primary_factor = config_line.read_rational("Analog Channel: Primary Factor")?;
        let secondary_factor = config_line.read_rational("Analog Channel: Secondary Factor")?;
        let mode_tok = config_line.read_next("Analog Channel: Scaling Mode")?;
        let scaling_mode = AnalogScalingMode::from_token(mode_tok.as_slice())?;
        Ok(
            AnalogConfig {
                index,
                name,
                phase,
                circuit_component_being_monitored,
                units,
                min_value,
                max_value,
                multiplier,
                offset_adder,
                skew,
                primary_factor,
                secondary_factor,
                scaling_mode,
            },
        )
    }
}

} // verus!
