//! The error taxonomy of the segment codec and the tokenizer.
//!
//! Decoding never substitutes defaults for malformed input: every failure
//! is surfaced as one of these variants, carrying the raw text, field name
//! or tag needed to report it precisely.

use vstd::prelude::*;

verus! {

/// Why a segment could not be decoded or resolved.
#[derive(Debug, Clone, PartialEq)]
pub enum SegmentError {
    /// The bracket or brace syntax of the segment is broken; carries the
    /// raw text that failed to parse.
    MalformedSegment { raw: String },
    /// The decoded tag does not match the expected shape's tag.
    TagMismatch { expected: String, found: String },
    /// A field name in the payload is not declared by the shape.
    UnknownField { field: String },
    /// A field's textual or JSON value cannot be parsed into its declared
    /// type.
    FieldTypeError { field: String, value: String },
    /// The tag names no shape of the segment catalog; tokenization still
    /// succeeds, only resolution fails.
    UnknownShape { tag: String },
}

/// The mathematical shadow of `SegmentError`, over character sequences.
pub enum SegErr {
    MalformedSegment { raw: Seq<char> },
    TagMismatch { expected: Seq<char>, found: Seq<char> },
    UnknownField { field: Seq<char> },
    FieldTypeError { field: Seq<char>, value: Seq<char> },
    UnknownShape { tag: Seq<char> },
}

impl View for SegmentError {
    type V = SegErr;

    open spec fn view(&self) -> SegErr {
        match self {
            SegmentError::MalformedSegment { raw } => SegErr::MalformedSegment { raw: raw@ },
            SegmentError::TagMismatch { expected, found } => SegErr::TagMismatch {
                expected: expected@,
                found: found@,
            },
            SegmentError::UnknownField { field } => SegErr::UnknownField { field: field@ },
            SegmentError::FieldTypeError { field, value } => SegErr::FieldTypeError {
                field: field@,
                value: value@,
            },
            SegmentError::UnknownShape { tag } => SegErr::UnknownShape { tag: tag@ },
        }
    }
}

pub open spec fn describe_spec(e: SegErr) -> Seq<char> {
    match e {
        SegErr::MalformedSegment { raw } => "malformed segment: "@ + raw,
        SegErr::TagMismatch { expected, found } => "tag mismatch: expected "@ + expected
            + ", found "@ + found,
        SegErr::UnknownField { field } => "unknown field: "@ + field,
        SegErr::FieldTypeError { field, value } => "field "@ + field
            + " cannot be parsed from "@ + value,
        SegErr::UnknownShape { tag } => "unknown segment shape: "@ + tag,
    }
}

impl SegmentError {
    /// A human-readable account of the failure.
    pub fn describe(&self) -> (r: String)
        ensures
            r@ == describe_spec(self@),
    {
        match self {
            SegmentError::MalformedSegment { raw } => {
                let mut s = "malformed segment: ".to_owned();
                s.append(raw.as_str());
                s
            }
            SegmentError::TagMismatch { expected, found } => {
                let mut s = "tag mismatch: expected ".to_owned();
                s.append(expected.as_str());
                s.append(", found ");
                s.append(found.as_str());
                s
            }
            SegmentError::UnknownField { field } => {
                let mut s = "unknown field: ".to_owned();
                s.append(field.as_str());
                s
            }
            SegmentError::FieldTypeError { field, value } => {
                let mut s = "field ".to_owned();
                s.append(field.as_str());
                s.append(" cannot be parsed from ");
                s.append(value.as_str());
                s
            }
            SegmentError::UnknownShape { tag } => {
                let mut s = "unknown segment shape: ".to_owned();
                s.append(tag.as_str());
                s
            }
        }
    }
}

} // verus!
