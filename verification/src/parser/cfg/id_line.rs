//! The identity line: station name, recording device id, and an optional
//! revision year that defaults to the oldest format when absent.
use vstd::prelude::*;

use crate::error::ComtradeError;
use crate::parser::cfg::revisions::{revision_of, FormatRevision};
use crate::parser::cfg::ConfigLine;
use crate::text::chars_of_lossy;

verus! {

#[derive(Debug, Clone, PartialEq)]
pub struct IdRow {
    pub station_name: String,
    pub recording_device_id: String,
    pub format_revision: FormatRevision,
}

impl IdRow {
    /// Reads `station,device[,revision]`; a missing third field means the
    /// oldest revision, an unrecognised one is fatal.
    pub fn from_config_line(config_line: ConfigLine) -> (r: Result<Self, ComtradeError>)
        ensures
            ({
                let toks = config_line.toks();
                let p = config_line.pos as int;
                &&& r is Ok <==> (toks.len() - p >= 2 && (toks.len() - p == 2 || revision_of(
                    toks[p + 2],
                ) is Some))
                &&& r is Ok ==> ({
                    let v = r->Ok_0;
                    &&& v.station_name@ == chars_of_lossy(toks[p])
                    &&& v.recording_device_id@ == chars_of_lossy(toks[p + 1])
                    &&& (toks.len() - p >= 3 ==> Some(v.format_revision) == revision_of(
                        toks[p + 2],
                    ))
                    &&& (toks.len() - p == 2 ==> v.format_revision is Revision1991)
                })
            }),
    {
        let mut config_line = config_line;
        let station_name = config_line.read_string("Id Line: Station Name")?;
        let recording_device_id = config_line.read_string("Id Line: Device Id")?;
        let format_revision: FormatRevision;
        if config_line.pos < config_line.tokens.len() {
            let tok = config_line.read_next("Id Line: Revision")?;
            format_revision = FormatRevision::from_token(tok.as_slice())?;
        } else {
            format_revision = FormatRevision::default();
        }
        Ok(IdRow { station_name, recording_device_id, format_revision })
    }
}

} // verus!
