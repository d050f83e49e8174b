//! The four data-file encodings the format defines.
use vstd::prelude::*;

use crate::parser::ParseError;
use crate::text::{lower_seq, spec_trim};
use vstd::string::StringSliceAdditionalSpecFns;

verus! {

/// How the sample data file is encoded.
#[derive(Debug, Clone, Copy, PartialEq, Eq, Structural)]
pub enum DataFormat {
    /// Comma-separated decimal text rows.
    Ascii,
    /// Fixed-width records with 16-bit signed analog samples.
    Binary16,
    /// Fixed-width records with 32-bit signed analog samples.
    Binary32,
    /// Fixed-width records with 32-bit floating analog samples.
    Float32,
}

impl Default for DataFormat {
    fn default() -> (r: Self)
        ensures
            r is Ascii,
    {
        DataFormat::Ascii
    }
}

/// The encoding a token names after trimming and ASCII case folding:
/// `ascii`, `binary` (16-bit), `binary32` or `float32`.
pub open spec fn data_format_of(t: Seq<u8>) -> Option<DataFormat> {
    let u = spec_trim(lower_seq(t));
    if u == seq![97u8, 115u8, 99u8, 105u8, 105u8] {
        Some(DataFormat::Ascii)
    } else if u == seq![98u8, 105u8, 110u8, 97u8, 114u8, 121u8] {
        Some(DataFormat::Binary16)
    } else if u == seq![98u8, 105u8, 110u8, 97u8, 114u8, 121u8, 51u8, 50u8] {
        Some(DataFormat::Binary32)
    } else if u == seq![102u8, 108u8, 111u8, 97u8, 116u8, 51u8, 50u8] {
        Some(DataFormat::Float32)
    } else {
        None
    }
}

impl DataFormat {
    /// Decodes a data-encoding token.
    pub fn from_token(t: &[u8]) -> (r: Result<DataFormat, ParseError>)
        ensures
            r is Ok <==> data_format_of(t@) is Some,
            r is Ok ==> data_format_of(t@) == Some(r->Ok_0),
    {
        let u = crate::text::trim_bytes(crate::text::to_lower(t).as_slice());
        let k_ascii: Vec<u8> = vec![97u8, 115u8, 99u8, 105u8, 105u8];
        let k_bin16: Vec<u8> = vec![98u8, 105u8, 110u8, 97u8, 114u8, 121u8];
        let k_bin32: Vec<u8> = vec![98u8, 105u8, 110u8, 97u8, 114u8, 121u8, 51u8, 50u8];
        let k_f32: Vec<u8> = vec![102u8, 108u8, 111u8, 97u8, 116u8, 51u8, 50u8];
        proof {
            assert(k_ascii@ =~= seq![97u8, 115u8, 99u8, 105u8, 105u8]);
            assert(k_bin16@ =~= seq![98u8, 105u8, 110u8, 97u8, 114u8, 121u8]);
            assert(k_bin32@ =~= seq![98u8, 105u8, 110u8, 97u8, 114u8, 121u8, 51u8, 50u8]);
            assert(k_f32@ =~= seq![102u8, 108u8, 111u8, 97u8, 116u8, 51u8, 50u8]);
        }
        if crate::text::bytes_eq(u.as_slice(), k_ascii.as_slice()) {
            Ok(DataFormat::Ascii)
        } else if crate::text::bytes_eq(u.as_slice(), k_bin16.as_slice()) {
            Ok(DataFormat::Binary16)
        } else if crate::text::bytes_eq(u.as_slice(), k_bin32.as_slice()) {
            Ok(DataFormat::Binary32)
        } else if crate::text::bytes_eq(u.as_slice(), k_f32.as_slice()) {
            Ok(DataFormat::Float32)
        } else {
            Err(crate::parser::token_error("unrecognised or invalid data format: '", t))
        }
    }

    /// Mirrors the standard conversion from a string token.
    pub fn from_str(value: &str) -> (r: Result<DataFormat, ParseError>)
        ensures
            r is Ok <==> data_format_of(value.spec_bytes()) is Some,
            r is Ok ==> data_format_of(value.spec_bytes()) == Some(r->Ok_0),
    {
        DataFormat::from_token(value.as_bytes())
    }
}

} // verus!
