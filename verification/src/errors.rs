//! The error taxonomy of the parser.
//!
//! Every error is fatal: the first unrecognized tag, attribute key, attribute
//! value or type-shape token aborts the whole parse, and no partial registry
//! is returned.  Each variant carries enough context (the offending text and
//! the record kind or section being parsed) to diagnose a schema drift.

use vstd::prelude::*;

verus! {

/// A fatal parse error.
///
/// An unexpected end of the token stream is reported as `UnexpectedElement`
/// with an empty `tag`.
#[derive(Debug, Clone, PartialEq, Eq)]
pub enum ParseError {
    /// A tag appeared where the active state machine has no transition for it.
    UnexpectedElement { tag: String, context: String },
    /// An attribute key has no mapping rule for the record being built.
    UnexpectedAttribute { key: String, record_kind: String },
    /// A record was closed without a mandatory field being set (or with an
    /// empty name).
    MissingRequiredAttribute { name: String, record_kind: String },
    /// An attribute value (or an escaped text run) failed numeric or
    /// enumerated parsing.
    MalformedAttributeValue { key: String, raw_value: String },
    /// A type-shape token run did not match any known pattern.
    AmbiguousOrUnrecognizedShape { tokens: String },
    /// None of the priority-ordered enum disambiguation keys were present.
    AmbiguousEnumEntry { attrs: String },
}

/// The mathematical value of a [`ParseError`].
pub ghost enum ErrV {
    UnexpectedElement { tag: Seq<char>, context: Seq<char> },
    UnexpectedAttribute { key: Seq<char>, record_kind: Seq<char> },
    MissingRequiredAttribute { name: Seq<char>, record_kind: Seq<char> },
    MalformedAttributeValue { key: Seq<char>, raw_value: Seq<char> },
    AmbiguousOrUnrecognizedShape { tokens: Seq<char> },
    AmbiguousEnumEntry { attrs: Seq<char> },
}

impl View for ParseError {
    type V = ErrV;

    open spec fn view(&self) -> ErrV {
        match self {
            ParseError::UnexpectedElement { tag, context } => ErrV::UnexpectedElement {
                tag: tag@,
                context: context@,
            },
            ParseError::UnexpectedAttribute { key, record_kind } => ErrV::UnexpectedAttribute {
                key: key@,
                record_kind: record_kind@,
            },
            ParseError::MissingRequiredAttribute { name, record_kind } => ErrV::MissingRequiredAttribute {
                name: name@,
                record_kind: record_kind@,
            },
            ParseError::MalformedAttributeValue { key, raw_value } => ErrV::MalformedAttributeValue {
                key: key@,
                raw_value: raw_value@,
            },
            ParseError::AmbiguousOrUnrecognizedShape { tokens } => ErrV::AmbiguousOrUnrecognizedShape {
                tokens: tokens@,
            },
            ParseError::AmbiguousEnumEntry { attrs } => ErrV::AmbiguousEnumEntry { attrs: attrs@ },
        }
    }
}

/// The view of a `Result` whose error is a [`ParseError`].
pub open spec fn res_view<T: View>(r: Result<T, ParseError>) -> Result<T::V, ErrV> {
    match r {
        Ok(t) => Ok(t.view()),
        Err(e) => Err(e.view()),
    }
}

/// The view of an optional error, as produced by an attribute scan.
pub open spec fn opt_err_view(r: Option<ParseError>) -> Option<ErrV> {
    match r {
        Some(e) => Some(e@),
        None => None,
    }
}

/// The error for a token stream that ended while `context` was still open.
pub open spec fn end_err(context: Seq<char>) -> ErrV {
    ErrV::UnexpectedElement { tag: Seq::empty(), context }
}

/// The error for a tag that the state machine for `context` cannot accept.
pub open spec fn elem_err(tag: Seq<char>, context: Seq<char>) -> ErrV {
    ErrV::UnexpectedElement { tag, context }
}

/// The error for an attribute value that failed numeric or enumerated
/// parsing.
pub open spec fn malformed_err(key: Seq<char>, raw_value: Seq<char>) -> ErrV {
    ErrV::MalformedAttributeValue { key, raw_value }
}

/// The error for a type-shape token run that matches no known pattern.
pub open spec fn shape_err(tokens: Seq<char>) -> ErrV {
    ErrV::AmbiguousOrUnrecognizedShape { tokens }
}

/// The error for a record closed without its mandatory `name` field.
pub open spec fn missing_err(name: Seq<char>, record_kind: Seq<char>) -> ErrV {
    ErrV::MissingRequiredAttribute { name, record_kind }
}

} // verus!
