//! The typed error reported when a configuration stanza breaks the grammar.
//! Every error is fatal to the parse in progress; context labels accumulate
//! uniformly on every variant as errors cross stanza boundaries.
use vstd::prelude::*;

use crate::parser::ParseError;

verus! {

#[derive(Debug, PartialEq)]
pub enum ComtradeError {
    /// A stanza had fewer fields than required; carries a context label.
    MissingLineElements(&'static str),
    /// A token failed to parse as its expected type.
    InvalidValue { value: String, type_: &'static str, field: &'static str },
    /// The configuration text ended before the grammar did.
    UnexpectedEndOfCfgFile,
    /// The identity line's revision token named no known revision.
    BadRevisionFormat(String),
    /// A status channel declared a normal state other than 0 or 1; carries
    /// the channel's index.
    InvalidNormalStatus(u32),
    /// A date-time stamp had no fractional-second digits, so no time
    /// precision could be derived.
    CantFindTimestampPrecision,
    /// A lower-level decode error, wrapped unchanged.
    ParserError(ParseError),
    /// Any other error, wrapped with the context label it picked up at a
    /// stanza boundary.
    WithContext(&'static str, Box<ComtradeError>),
}

impl ComtradeError {
    /// Attaches a field label as the error crosses a stanza boundary.
    /// Every variant takes the label: the two that carry one directly have
    /// it replaced, and any other is wrapped with it.
    pub fn add_context(self, msg: &'static str) -> (r: Self)
        ensures
            self is MissingLineElements ==> r == ComtradeError::MissingLineElements(msg),
            self matches ComtradeError::InvalidValue { value, type_, .. } ==> r == (
            ComtradeError::InvalidValue { value, type_, field: msg }),
            self matches ComtradeError::WithContext(_, inner) ==> r == ComtradeError::WithContext(
                msg,
                inner,
            ),
            !(self is MissingLineElements || self is InvalidValue || self is WithContext) ==> (
            r matches ComtradeError::WithContext(label, inner) && label == msg && *inner == self),
    {
        match self {
            ComtradeError::MissingLineElements(_) => ComtradeError::MissingLineElements(msg),
            ComtradeError::InvalidValue { value, type_, field: _ } => ComtradeError::InvalidValue {
                value,
                type_,
                field: msg,
            },
            ComtradeError::WithContext(_, inner) => ComtradeError::WithContext(msg, inner),
            other => ComtradeError::WithContext(msg, Box::new(other)),
        }
    }
}

} // verus!
