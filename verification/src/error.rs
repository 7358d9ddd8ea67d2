//! What a codec reports when it cannot hand out a frame.

use crate::text::text_of;
use vstd::prelude::*;
use vstd::string::*;

verus! {

/// The two ways in which bytes fail to yield a frame.
pub enum Fault {
    /// The bytes are a proper prefix of what could still become a frame.
    NotComplete,
    /// The bytes break the grammar; the payload is the input of the codec
    /// that noticed.
    Invalid(Seq<u8>),
}

/// What a codec hands back in place of a frame or a length.
#[derive(Debug, Clone, PartialEq)]
pub enum RespError {
    /// More input is needed; nothing was consumed.
    NotComplete,
    /// The input can never become a frame. Carries the offending bytes as
    /// text.
    InvalidFrameType(String),
}

impl RespError {
    /// Whether this error is the report of `fault`.
    pub open spec fn reports(&self, fault: Fault) -> bool {
        match fault {
            Fault::NotComplete => *self == RespError::NotComplete,
            Fault::Invalid(bytes) => match self {
                RespError::InvalidFrameType(message) => message@ == text_of(bytes),
                RespError::NotComplete => false,
            },
        }
    }

    /// The error in words.
    pub fn message(&self) -> (text: String)
        ensures
            text@ == (match self {
                RespError::NotComplete => "Frame not enough data"@,
                RespError::InvalidFrameType(detail) => "Invalid frame type: "@ + detail@,
            }),
    {
        match self {
            RespError::NotComplete => "Frame not enough data".to_string(),
            RespError::InvalidFrameType(detail) => "Invalid frame type: ".to_string().concat(
                detail.as_str(),
            ),
        }
    }

    /// Whether more input can still make a frame.
    pub fn is_not_complete(&self) -> (yes: bool)
        ensures
            yes == (*self == RespError::NotComplete),
    {
        match self {
            RespError::NotComplete => true,
            RespError::InvalidFrameType(_) => false,
        }
    }
}

/// Whether an executable outcome carries exactly what the model says: the
/// same number on success, the report of the same fault on failure.
pub open spec fn length_agrees(got: Result<usize, RespError>, model: Result<nat, Fault>) -> bool {
    match model {
        Ok(n) => got == Ok::<usize, RespError>(n as usize) && n <= usize::MAX,
        Err(fault) => got is Err && got->Err_0.reports(fault),
    }
}

} // verus!
