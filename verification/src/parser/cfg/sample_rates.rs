//! Sampling-rate segments: a rate in hertz and the last sample number it
//! governs.
use vstd::prelude::*;

use crate::error::ComtradeError;
use crate::parser::cfg::ConfigLine;
use crate::rational::{dec_den, dec_num, decimal_fits, valid_decimal_token, Rational};
use crate::text::{uint_token_val, valid_uint_token};

verus! {

/// One segment of the sampling-rate table.
#[derive(Debug, Clone, Copy, PartialEq, Eq, Structural)]
pub struct SamplingRate {
    /// The sampling rate in hertz.
    pub rate_hz: Rational,
    /// The sample number of the last sample recorded at this rate.
    pub end_sample_number: u32,
}

impl SamplingRate {
    /// Reads `rate,end_sample` from a rate row.
    pub fn from_config_line(line: ConfigLine) -> (r: Result<SamplingRate, ComtradeError>)
        ensures
            ({
                let toks = line.toks();
                let p = line.pos as int;
                &&& r is Ok <==> (toks.len() - p >= 2 && valid_decimal_token(toks[p])
                    && decimal_fits(toks[p]) && valid_uint_token(toks[p + 1]) && uint_token_val(
                    toks[p + 1],
                ) <= u32::MAX)
                &&& r is Ok ==> ({
                    let v = r->Ok_0;
                    &&& v.rate_hz.wf()
                    &&& v.rate_hz == crate::rational::rat_of_token(toks[p])
                    &&& v.rate_hz.val_num() * dec_den(toks[p]) == dec_num(toks[p])
                        * v.rate_hz.val_den()
                    &&& v.end_sample_number == uint_token_val(toks[p + 1])
                })
            }),
    {
        let mut line = line;
        let rate_hz = line.read_rational("Sampling Rate: Rate")?;
        let end_sample_number = line.read_u32("Sampling Rate: End Sample")?;
        Ok(SamplingRate { rate_hz, end_sample_number })
    }
}

} // verus!
