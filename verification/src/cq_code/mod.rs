//! The earlier segment-codec interface, kept for its users: the inline
//! notation only.  The full interface, with the JSON notation, lives in
//! the message module.

use vstd::prelude::*;
use crate::error::SegmentError;
use crate::escape::{escape_seq, unescape_seq, escape_str, unescape_str};

verus! {

/// The inline-notation codec contract: encoding, decoding and the
/// escaping rules for the four reserved characters.
pub trait CQCode: Sized {
    /// Escapes the four reserved characters of the inline notation.
    fn escape(s: String) -> (r: String)
        ensures
            r@ == escape_seq(s@),
    {
        escape_str(s.as_str())
    }

    /// Replaces each escape code by its character; the exact inverse of
    /// `escape`.
    fn anti_escape(s: &str) -> (r: String)
        ensures
            r@ == unescape_seq(s@),
    {
        unescape_str(s)
    }

    /// The inline notation of this instance.
    fn to_string(&self) -> String;

    /// Decodes the inline notation.
    fn from_string(s: String) -> Result<Self, SegmentError>;
}

} // verus!
