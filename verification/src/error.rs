//! What can go wrong while a frame is read.

use crate::text::{signed_string, signed_text};
use vstd::prelude::*;
use vstd::string::*;

verus! {

/// Why a buffer did not yield a frame.
#[derive(Debug, Clone, Copy, PartialEq, Eq, Structural)]
pub enum RespError {
    /// The bytes of a fixed frame are not the ones that its tag calls for.
    InvalidFrame,
    /// The leading byte is not the tag of the frame that was asked for, or
    /// of any frame.
    InvalidFrameType,
    /// The length line holds this negative number where none is allowed.
    InvalidFrameLength(i64),
    /// The buffer ends before the frame does: more bytes are needed.
    NotComplete,
    /// An integer or a length is not a decimal numeral of 64 bits.
    ParseIntError,
    /// The text of a simple string or a simple error is not UTF-8.
    Utf8Error,
    /// The text of a double is not a number.
    ParseFloatError,
}

/// What is said of the failure `e`.
pub open spec fn resp_error_text(e: RespError) -> Seq<char> {
    match e {
        RespError::InvalidFrame => "Invalid frame"@,
        RespError::InvalidFrameType => "Invalid frame type"@,
        RespError::InvalidFrameLength(n) => "Invalid frame length: "@ + signed_text(n),
        RespError::NotComplete => "Frame is not complete"@,
        RespError::ParseIntError => "Parse int error"@,
        RespError::Utf8Error => "Utf8 error"@,
        RespError::ParseFloatError => "Parse float error"@,
    }
}

impl RespError {
    /// What is said of the failure.
    pub fn message(&self) -> (r: String)
        ensures
            r@ == resp_error_text(*self),
    {
        match self {
            RespError::InvalidFrame => String::from_str("Invalid frame"),
            RespError::InvalidFrameType => String::from_str("Invalid frame type"),
            RespError::InvalidFrameLength(n) => {
                let mut out = String::from_str("Invalid frame length: ");
                out.append(signed_string(*n).as_str());
                out
            },
            RespError::NotComplete => String::from_str("Frame is not complete"),
            RespError::ParseIntError => String::from_str("Parse int error"),
            RespError::Utf8Error => String::from_str("Utf8 error"),
            RespError::ParseFloatError => String::from_str("Parse float error"),
        }
    }
}

} // verus!
