//! Status (digital) channel configuration rows and decoded status channels.
use vstd::prelude::*;

use crate::error::ComtradeError;
use crate::parser::cfg::ConfigLine;
use crate::text::{chars_of_lossy, uint_token_val, valid_uint_token};

verus! {

/// The declaration of one status channel.
#[derive(Debug, Clone, PartialEq)]
pub struct StatusConfig {
    /// 1-based counter naming this channel in the record.
    pub index: u32,
    pub name: String,
    pub phase: String,
    pub circuit_component_being_monitored: String,
    /// The channel's normal state, literally 0 or 1.
    pub normal_status_value: u8,
}

/// A status channel together with its decoded 0/1 samples.
#[derive(Debug, Clone, PartialEq)]
pub struct StatusChannel {
    pub config: StatusConfig,
    pub data: Vec<u8>,
}

impl StatusChannel {
    /// Appends one decoded sample.
    pub fn push_datum(&mut self, value: u8)
        ensures
            final(self).config == old(self).config,
            final(self).data@ == old(self).data@.push(value),
    {
        self.data.push(value);
    }
}

impl StatusConfig {
    /// Reads `index,name,phase,component,normal` from a status row. A
    /// normal-state value other than 0 or 1 is rejected with the channel's
    /// index.
    pub fn from_config_row(config_line: ConfigLine) -> (r: Result<Self, ComtradeError>)
        ensures
            ({
                let toks = config_line.toks();
                let p = config_line.pos as int;
                &&& r is Ok <==> (toks.len() - p == 5 && valid_uint_token(toks[p])
                    && 1 <= uint_token_val(toks[p]) <= u32::MAX && valid_uint_token(toks[p + 4])
                    && uint_token_val(toks[p + 4]) <= 1)
                &&& r is Ok ==> ({
                    let v = r->Ok_0;
                    &&& v.index == uint_token_val(toks[p])
                    &&& v.name@ == chars_of_lossy(toks[p + 1])
                    &&& v.phase@ == chars_of_lossy(toks[p + 2])
                    &&& v.circuit_component_being_monitored@ == chars_of_lossy(toks[p + 3])
                    &&& v.normal_status_value == uint_token_val(toks[p + 4])
                })
                &&& (toks.len() - p == 5 && valid_uint_token(toks[p]) && 1 <= uint_token_val(
                    toks[p],
                ) <= u32::MAX && valid_uint_token(toks[p + 4]) && uint_token_val(toks[p + 4])
                    <= u8::MAX && uint_token_val(toks[p + 4]) > 1 ==> r
                    == Err::<Self, ComtradeError>(
                    ComtradeError::InvalidNormalStatus(uint_token_val(toks[p]) as u32),
                ))
            }),
    {
        let mut config_line = config_line;
        let want = match config_line.pos.checked_add(5) {
            Some(w) => w,
            None => {
                return Err(ComtradeError::MissingLineElements("Status Channel Row"));
            },
        };
        if config_line.tokens.len() != want {
            return Err(ComtradeError::MissingLineElements("Status Channel Row"));
        }
        let status_index = config_line.read_u32("Status Channel: Index")?;
        if status_index == 0 {
            // Channel indices are 1-based.
            return Err(
                ComtradeError::InvalidValue {
                    value: crate::text::bytes_to_string(config_line.tokens[config_line.pos - 1].as_slice()),
                    type_: "non-zero index",
                    field: "Status Channel: Index",
                },
            );
        }
        let name = config_line.read_string("Status Channel: Name")?;
        let phase = config_line.read_string("Status Channel: Phase")?;
        let circuit_component_being_monitored = config_line.read_string(
            "Status Channel: Component",
        )?;
        let normal_status_value = config_line.read_u8("Status Channel: Normal Value")?;
        if normal_status_value != 0 && normal_status_value != 1 {
            return Err(ComtradeError::InvalidNormalStatus(status_index));
        }
        Ok(
            StatusConfig {
                index: status_index,
                name,
                phase,
                circuit_component_being_monitored,
                normal_status_value,
            },
        )
    }
}

} // verus!
