//! A one-pass filter for "recently used files" manifests in XBEL form.
//!
//! The filter consumes the lexical events of an XML document that holds a
//! flat list of `bookmark` elements, drops every bookmark whose decoded
//! `href` names a local path under one of the caller's prefixes, swallows
//! the single whitespace text node that followed each dropped bookmark, and
//! reproduces every retained event byte for byte.

pub mod classify;
pub mod decode;
pub mod events;
pub mod laws;
pub mod router;
pub mod source;

use vstd::prelude::*;

verus! {

/// The image of a [`FilterError`] in specifications.
pub enum ErrorV {
    MissingOrAmbiguousHref,
    UnrecognizedScheme(Seq<char>),
    MalformedXml,
    StructuralAssumptionViolated,
}

/// A fatal condition: each one aborts the whole run.
#[derive(Debug, Clone, PartialEq, Eq)]
pub enum FilterError {
    /// A `bookmark` tag carries zero, or more than one, `href` attribute.
    MissingOrAmbiguousHref,
    /// The decoded href lies outside the scheme allow-list; carries the
    /// decoded href for diagnostics.
    UnrecognizedScheme(Vec<char>),
    /// The lexer could not tokenize the input, or the document uses a
    /// construct this filter does not understand.
    MalformedXml,
    /// The text node after a removed bookmark was not pure whitespace, so
    /// the flat-list assumption about the document does not hold.
    StructuralAssumptionViolated,
}

impl View for FilterError {
    type V = ErrorV;

    open spec fn view(&self) -> ErrorV {
        match self {
            FilterError::MissingOrAmbiguousHref => ErrorV::MissingOrAmbiguousHref,
            FilterError::UnrecognizedScheme(h) => ErrorV::UnrecognizedScheme(h@),
            FilterError::MalformedXml => ErrorV::MalformedXml,
            FilterError::StructuralAssumptionViolated => ErrorV::StructuralAssumptionViolated,
        }
    }
}

} // verus!
