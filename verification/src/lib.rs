//! Decoder for power-system transient-recording files: a combined container
//! or separate configuration and data streams are parsed into one immutable,
//! fully scaled, time-stamped, channel-indexed record.
use vstd::prelude::*;

mod error;
mod parser;
mod rational;
mod text;

pub use error::ComtradeError;
pub use parser::cfg::analog_channels::{AnalogChannel, AnalogConfig, AnalogScalingMode};
pub use parser::cfg::date_time::{ComtradeDateTime, Date, DateTime, Time, TimePrecision};
pub use parser::cfg::date_time::ts_base_unit;
pub use parser::cfg::id_line::IdRow;
pub use parser::cfg::revisions::FormatRevision;
pub use parser::cfg::sample_rates::SamplingRate;
pub use parser::cfg::status_channel::{StatusChannel, StatusConfig};
pub use parser::cfg::{parse_cfg, split_cfg_line, CfgData, ChannelSizes, ConfigLine};
pub use parser::dat::formats::DataFormat;
pub use parser::time::{parse_time_offset, real_time, sampling_rate_for_sample};
pub use parser::{ComtradeParser, ComtradeParserBuilder, ParseError, ParseResult};
pub use rational::Rational;

verus! {

use crate::text::{lower_seq, spec_trim};
use vstd::string::StringSliceAdditionalSpecFns;

/// Which of the four companion files a container section holds.
#[derive(Debug, Clone, Copy, PartialEq, Eq, Structural)]
pub enum FileType {
    Cfg,
    Dat,
    Hdr,
    Inf,
}

/// The file type a header token names, after trimming and ASCII case
/// folding: `cfg`, `dat`, `hdr` or `inf`.
pub open spec fn file_type_of(t: Seq<u8>) -> Option<FileType> {
    let u = spec_trim(lower_seq(t));
    if u == seq![99u8, 102u8, 103u8] {
        Some(FileType::Cfg)
    } else if u == seq![100u8, 97u8, 116u8] {
        Some(FileType::Dat)
    } else if u == seq![104u8, 100u8, 114u8] {
        Some(FileType::Hdr)
    } else if u == seq![105u8, 110u8, 102u8] {
        Some(FileType::Inf)
    } else {
        None
    }
}

impl FileType {
    /// Decodes a section-header file-type token.
    pub fn from_token(t: &[u8]) -> (r: Result<FileType, ParseError>)
        ensures
            r is Ok <==> file_type_of(t@) is Some,
            r is Ok ==> file_type_of(t@) == Some(r->Ok_0),
    {
        let u = crate::text::trim_bytes(crate::text::to_lower(t).as_slice());
        if u.len() == 3 {
            let b0 = u[0];
            let b1 = u[1];
            let b2 = u[2];
            proof {
                assert(u@ =~= seq![b0, b1, b2]);
                lemma_three_byte_discrimination(u@);
            }
            if b0 == 99 && b1 == 102 && b2 == 103 {
                return Ok(FileType::Cfg);
            } else if b0 == 100 && b1 == 97 && b2 == 116 {
                return Ok(FileType::Dat);
            } else if b0 == 104 && b1 == 100 && b2 == 114 {
                return Ok(FileType::Hdr);
            } else if b0 == 105 && b1 == 110 && b2 == 102 {
                return Ok(FileType::Inf);
            }
            return Err(crate::parser::token_error("invalid file type: '", t));
        }
        proof {
            lemma_three_byte_discrimination(u@);
        }
        Err(crate::parser::token_error("invalid file type: '", t))
    }
}

/// Equality with a three-byte sequence fixes the length and the bytes.
proof fn lemma_three_byte_discrimination(u: Seq<u8>)
    ensures
        forall|b0: u8, b1: u8, b2: u8|
            u == seq![b0, b1, b2] ==> u.len() == 3 && u[0] == b0 && u[1] == b1 && u[2] == b2,
{
    assert forall|b0: u8, b1: u8, b2: u8| u == seq![b0, b1, b2] implies u.len() == 3 && u[0] == b0
        && u[1] == b1 && u[2] == b2 by {
        assert(seq![b0, b1, b2].len() == 3);
        assert(seq![b0, b1, b2][0] == b0);
        assert(seq![b0, b1, b2][1] == b1);
        assert(seq![b0, b1, b2][2] == b2);
    }
}

/// Equality with a one-byte sequence fixes the length and the byte.
proof fn lemma_one_byte_discrimination(u: Seq<u8>)
    ensures
        forall|b: u8| u == seq![b] ==> u.len() == 1 && u[0] == b,
{
    assert forall|b: u8| u == seq![b] implies u.len() == 1 && u[0] == b by {
        assert(seq![b].len() == 1);
        assert(seq![b][0] == b);
    }
}

/// How reliable the recording device's clock was.
#[derive(Debug, Clone, Copy, PartialEq, Eq, Structural)]
pub enum TimeQuality {
    /// Clock is locked and in normal operation.
    ClockLocked,
    /// Clock is unlocked but reliable to the given power of ten of seconds.
    ClockUnlocked(i32),
    /// The clock is faulty and its time is not reliable.
    ClockFailure,
}

/// The quality a coded token names, after ASCII case folding and trimming:
/// `f` failure, `b` and `a` unlocked at exponents one and zero, a non-zero
/// digit `d` unlocked at exponent `d - 10`, and `0` locked.
pub open spec fn time_quality_of(t: Seq<u8>) -> Option<TimeQuality> {
    let u = spec_trim(lower_seq(t));
    if u == seq![102u8] {
        Some(TimeQuality::ClockFailure)
    } else if u == seq![98u8] {
        Some(TimeQuality::ClockUnlocked(1))
    } else if u == seq![97u8] {
        Some(TimeQuality::ClockUnlocked(0))
    } else if u == seq![48u8] {
        Some(TimeQuality::ClockLocked)
    } else if u.len() == 1 && 49 <= u[0] && u[0] <= 57 {
        Some(TimeQuality::ClockUnlocked((u[0] - 58) as i32))
    } else {
        None
    }
}

impl TimeQuality {
    /// Decodes a clock-quality code.
    pub fn from_token(t: &[u8]) -> (r: Result<TimeQuality, ParseError>)
        ensures
            r is Ok <==> time_quality_of(t@) is Some,
            r is Ok ==> time_quality_of(t@) == Some(r->Ok_0),
    {
        let u = crate::text::trim_bytes(crate::text::to_lower(t).as_slice());
        proof {
            lemma_one_byte_discrimination(u@);
        }
        if u.len() == 1 {
            let b = u[0];
            proof {
                assert(u@ =~= seq![b]);
            }
            if b == 102 {
                return Ok(TimeQuality::ClockFailure);
            } else if b == 98 {
                return Ok(TimeQuality::ClockUnlocked(1));
            } else if b == 97 {
                return Ok(TimeQuality::ClockUnlocked(0));
            } else if b == 48 {
                return Ok(TimeQuality::ClockLocked);
            } else if 49 <= b && b <= 57 {
                return Ok(TimeQuality::ClockUnlocked(b as i32 - 58));
            }
        }
        Err(crate::parser::token_error("invalid time quality code '", t))
    }

    /// Mirrors the standard conversion from a string code.
    pub fn from_str(value: &str) -> (r: Result<TimeQuality, ParseError>)
        ensures
            r is Ok <==> time_quality_of(value.spec_bytes()) is Some,
            r is Ok ==> time_quality_of(value.spec_bytes()) == Some(r->Ok_0),
    {
        TimeQuality::from_token(value.as_bytes())
    }
}

/// Whether a leap second is reflected in the record.
#[derive(Debug, Clone, Copy, PartialEq, Eq, Structural)]
pub enum LeapSecondStatus {
    /// The time source cannot address the presence of leap seconds.
    NoCapability,
    /// A leap second has been subtracted from the record.
    Subtracted,
    /// A leap second has been added to the record.
    Added,
    /// No leap second is present in the record.
    NotPresent,
}

/// The status a coded token names after trimming: `3` no capability, `2`
/// subtracted, `1` added, `0` not present.
pub open spec fn leap_second_status_of(t: Seq<u8>) -> Option<LeapSecondStatus> {
    let u = spec_trim(t);
    if u == seq![51u8] {
        Some(LeapSecondStatus::NoCapability)
    } else if u == seq![50u8] {
        Some(LeapSecondStatus::Subtracted)
    } else if u == seq![49u8] {
        Some(LeapSecondStatus::Added)
    } else if u == seq![48u8] {
        Some(LeapSecondStatus::NotPresent)
    } else {
        None
    }
}

impl LeapSecondStatus {
    /// Decodes a leap-second indicator code.
    pub fn from_token(t: &[u8]) -> (r: Result<LeapSecondStatus, ParseError>)
        ensures
            r is Ok <==> leap_second_status_of(t@) is Some,
            r is Ok ==> leap_second_status_of(t@) == Some(r->Ok_0),
    {
        let u = crate::text::trim_bytes(t);
        proof {
            lemma_one_byte_discrimination(u@);
        }
        if u.len() == 1 {
            let b = u[0];
            proof {
                assert(u@ =~= seq![b]);
            }
            if b == 51 {
                return Ok(LeapSecondStatus::NoCapability);
            } else if b == 50 {
                return Ok(LeapSecondStatus::Subtracted);
            } else if b == 49 {
                return Ok(LeapSecondStatus::Added);
            } else if b == 48 {
                return Ok(LeapSecondStatus::NotPresent);
            }
        }
        Err(crate::parser::token_error("invalid leap second indicator '", t))
    }

    /// Mirrors the standard conversion from a string code.
    pub fn from_str(value: &str) -> (r: Result<LeapSecondStatus, ParseError>)
        ensures
            r is Ok <==> leap_second_status_of(value.spec_bytes()) is Some,
            r is Ok ==> leap_second_status_of(value.spec_bytes()) == Some(r->Ok_0),
    {
        LeapSecondStatus::from_token(value.as_bytes())
    }
}

/// The decoded record: station identity, per-sample numbers and elapsed
/// times, the scaled analog and binary status channels, and the
/// configuration metadata they were decoded with. Values that the format
/// writes as real numbers are exact rationals.
#[derive(Debug, Clone, PartialEq)]
pub struct Comtrade {
    pub station_name: String,
    pub recording_device_id: String,
    pub revision: crate::parser::cfg::revisions::FormatRevision,
    pub sample_numbers: Vec<u32>,
    pub timestamps: Vec<Rational>,
    pub analog_channels: Vec<crate::parser::cfg::analog_channels::AnalogChannel>,
    pub status_channels: Vec<crate::parser::cfg::status_channel::StatusChannel>,
    pub line_frequency: Rational,
    pub sampling_rates: Vec<crate::parser::cfg::sample_rates::SamplingRate>,
    pub start_time: crate::parser::cfg::date_time::DateTime,
    pub trigger_time: crate::parser::cfg::date_time::DateTime,
    pub data_format: crate::parser::dat::formats::DataFormat,
    /// Defaults to one on records older than the middle revision.
    pub timestamp_multiplication_factor: Rational,
    /// Seconds east of UTC; the newest revision only.
    pub time_offset: Option<i32>,
    pub local_offset: Option<i32>,
    pub time_quality: Option<TimeQuality>,
    pub leap_second_status: Option<LeapSecondStatus>,
}

impl Default for Comtrade {
    /// An empty record: no samples, no channels, the epoch for both
    /// stamps, text encoding, and a multiplication factor of one.
    fn default() -> (r: Self)
        ensures
            r.station_name@.len() == 0,
            r.recording_device_id@.len() == 0,
            r.revision is Revision1991,
            r.sample_numbers@.len() == 0,
            r.timestamps@.len() == 0,
            r.analog_channels@.len() == 0,
            r.status_channels@.len() == 0,
            r.sampling_rates@.len() == 0,
            r.data_format is Ascii,
            r.timestamp_multiplication_factor == (Rational { neg: false, num: 1, den: 1 }),
            r.time_offset is None && r.local_offset is None,
            r.time_quality is None && r.leap_second_status is None,
    {
        Comtrade {
            station_name: String::new(),
            recording_device_id: String::new(),
            revision: crate::parser::cfg::revisions::FormatRevision::Revision1991,
            sample_numbers: Vec::new(),
            timestamps: Vec::new(),
            analog_channels: Vec::new(),
            status_channels: Vec::new(),
            line_frequency: Rational { neg: false, num: 0, den: 1 },
            sampling_rates: Vec::new(),
            start_time: crate::parser::cfg::date_time::DateTime {
                date: crate::parser::cfg::date_time::Date { year: 1970, month: 1, day: 1 },
                time: crate::parser::cfg::date_time::Time {
                    hour: 0,
                    minute: 0,
                    second: 0,
                    nanosecond: 0,
                },
            },
            trigger_time: crate::parser::cfg::date_time::DateTime {
                date: crate::parser::cfg::date_time::Date { year: 1970, month: 1, day: 1 },
                time: crate::parser::cfg::date_time::Time {
                    hour: 0,
                    minute: 0,
                    second: 0,
                    nanosecond: 0,
                },
            },
            data_format: crate::parser::dat::formats::DataFormat::Ascii,
            timestamp_multiplication_factor: Rational { neg: false, num: 1, den: 1 },
            time_offset: None,
            local_offset: None,
            time_quality: None,
            leap_second_status: None,
        }
    }
}

} // verus!
