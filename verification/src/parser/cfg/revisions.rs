//! The three generations of the recording format, and the date layout each
//! prescribes.
use vstd::prelude::*;

use crate::error::ComtradeError;
use crate::parser::cfg::date_time::{valid_ymd, ymd_supported, Date};
use crate::text::{
    bytes_to_string, int_token_val, parse_i32, parse_u32, spec_split, split_bytes, uint_token_val,
    valid_int_token, valid_uint_token,
};
use vstd::string::StringSliceAdditionalSpecFns;

verus! {

/// Slash, the date field separator.
pub const SLASH: u8 = 47;

/// The revision year of the format: it gates which configuration fields
/// exist and which date layout applies.
#[derive(Debug, Clone, Copy, PartialEq, Eq, Structural)]
pub enum FormatRevision {
    Revision1991,
    Revision1999,
    Revision2013,
}

/// The revision a token names, exactly: `1991`, `1999` or `2013`.
pub open spec fn revision_of(t: Seq<u8>) -> Option<FormatRevision> {
    if t == seq![49u8, 57u8, 57u8, 49u8] {
        Some(FormatRevision::Revision1991)
    } else if t == seq![49u8, 57u8, 57u8, 57u8] {
        Some(FormatRevision::Revision1999)
    } else if t == seq![50u8, 48u8, 49u8, 51u8] {
        Some(FormatRevision::Revision2013)
    } else {
        None
    }
}

impl Default for FormatRevision {
    /// An identity line without a revision token means the oldest format.
    fn default() -> (r: Self)
        ensures
            r is Revision1991,
    {
        FormatRevision::Revision1991
    }
}

impl FormatRevision {
    /// Decodes a revision-year token.
    pub fn from_token(t: &[u8]) -> (r: Result<FormatRevision, ComtradeError>)
        ensures
            r is Ok <==> revision_of(t@) is Some,
            r is Ok ==> revision_of(t@) == Some(r->Ok_0),
            r is Err ==> (r->Err_0 matches ComtradeError::BadRevisionFormat(v) && v@
                == crate::text::chars_of_lossy(t@)),
    {
        let k1991: Vec<u8> = vec![49u8, 57u8, 57u8, 49u8];
        let k1999: Vec<u8> = vec![49u8, 57u8, 57u8, 57u8];
        let k2013: Vec<u8> = vec![50u8, 48u8, 49u8, 51u8];
        proof {
            assert(k1991@ =~= seq![49u8, 57u8, 57u8, 49u8]);
            assert(k1999@ =~= seq![49u8, 57u8, 57u8, 57u8]);
            assert(k2013@ =~= seq![50u8, 48u8, 49u8, 51u8]);
        }
        if crate::text::bytes_eq(t, k1991.as_slice()) {
            Ok(FormatRevision::Revision1991)
        } else if crate::text::bytes_eq(t, k1999.as_slice()) {
            Ok(FormatRevision::Revision1999)
        } else if crate::text::bytes_eq(t, k2013.as_slice()) {
            Ok(FormatRevision::Revision2013)
        } else {
            Err(ComtradeError::BadRevisionFormat(bytes_to_string(t)))
        }
    }

    /// Mirrors the standard conversion from a revision-year string.
    pub fn from_str(value: &str) -> (r: Result<FormatRevision, ComtradeError>)
        ensures
            r is Ok <==> revision_of(value.spec_bytes()) is Some,
            r is Ok ==> revision_of(value.spec_bytes()) == Some(r->Ok_0),
    {
        FormatRevision::from_token(value.as_bytes())
    }

    /// The year, month and day tokens of a three-field date, in this
    /// revision's order: the oldest layout is month/day/year, the later two
    /// are day/month/year.
    pub open spec fn date_year_tok(self, d: Seq<u8>) -> Seq<u8> {
        spec_split(d, SLASH)[2]
    }

    pub open spec fn date_month_tok(self, d: Seq<u8>) -> Seq<u8> {
        if self is Revision1991 {
            spec_split(d, SLASH)[0]
        } else {
            spec_split(d, SLASH)[1]
        }
    }

    pub open spec fn date_day_tok(self, d: Seq<u8>) -> Seq<u8> {
        if self is Revision1991 {
            spec_split(d, SLASH)[1]
        } else {
            spec_split(d, SLASH)[0]
        }
    }

    /// A date token this revision accepts: three slash-separated numeric
    /// fields naming a calendar date that exists.
    pub open spec fn date_valid(self, d: Seq<u8>) -> bool {
        let yt = self.date_year_tok(d);
        let mt = self.date_month_tok(d);
        let dt = self.date_day_tok(d);
        &&& spec_split(d, SLASH).len() == 3
        &&& valid_int_token(yt) && i32::MIN <= int_token_val(yt) <= i32::MAX
        &&& valid_uint_token(mt) && uint_token_val(mt) <= u32::MAX
        &&& valid_uint_token(dt) && uint_token_val(dt) <= u32::MAX
        &&& valid_ymd(int_token_val(yt), uint_token_val(mt) as int, uint_token_val(dt) as int)
    }

    /// `out` holds exactly the date that token `d` writes in this revision's
    /// layout.
    pub open spec fn date_matches(self, d: Seq<u8>, out: Date) -> bool {
        &&& self.date_valid(d)
        &&& out.year == int_token_val(self.date_year_tok(d))
        &&& out.month == uint_token_val(self.date_month_tok(d))
        &&& out.day == uint_token_val(self.date_day_tok(d))
    }

    /// Reads a date token in this revision's layout, insisting that the
    /// named day exists in the calendar.
    pub fn read_date(&self, date: &[u8]) -> (r: Result<Date, ComtradeError>)
        ensures
            r is Ok <==> self.date_valid(date@),
            r is Ok ==> self.date_matches(date@, r->Ok_0),
            r is Err ==> (r->Err_0 matches ComtradeError::InvalidValue { value, type_, field }
                && value@ == crate::text::chars_of_lossy(date@) && type_@ == "date"@),
    {
        let parts = split_bytes(date, SLASH);
        proof {
            assert(parts@.map_values(|t: Vec<u8>| t@) == spec_split(date@, SLASH));
        }
        if parts.len() != 3 {
            return Err(Self::date_error(date));
        }
        let (mi, di): (usize, usize) = match self {
            FormatRevision::Revision1991 => (0, 1),
            _ => (1, 0),
        };
        let year = match parse_i32(parts[2].as_slice()) {
            Some(v) => v,
            None => {
                return Err(Self::date_error(date));
            },
        };
        let month = match parse_u32(parts[mi].as_slice()) {
            Some(v) => v,
            None => {
                return Err(Self::date_error(date));
            },
        };
        let day = match parse_u32(parts[di].as_slice()) {
            Some(v) => v,
            None => {
                return Err(Self::date_error(date));
            },
        };
        if !ymd_supported(year, month, day) {
            return Err(Self::date_error(date));
        }
        Ok(Date { year, month: month as u8, day: day as u8 })
    }

    /// The error for a date token this revision cannot read.
    fn date_error(date: &[u8]) -> (r: ComtradeError)
        ensures
            (r matches ComtradeError::InvalidValue { value, type_, field } && value@
                == crate::text::chars_of_lossy(date@) && type_@ == "date"@),
    {
        ComtradeError::InvalidValue {
            value: bytes_to_string(date),
            type_: "date",
            field: "date",
        }
    }
}

} // verus!
