//! The Genie runtime's status and sentence codes, and what they mean to
//! npurun. The runtime itself lives behind the NPU driver.

use vstd::prelude::*;

verus! {

/// Errors raised around the Genie runtime.
#[derive(Debug)]
pub enum GenieError {
    /// The Genie SDK was not present at build time.
    SdkMissing,
    /// Genie returned a non-success status code.
    Status {
        /// The numeric status code.
        code: i32,
        /// A human-readable name for the status code.
        name: &'static str,
    },
    /// An argument was rejected before reaching the C API.
    InvalidArgument(String),
    /// A string contained an interior NUL byte.
    InteriorNul,
    /// I/O error reading a config file.
    Io {
        /// Path on which the I/O operation failed.
        path: String,
        /// What the I/O error said.
        message: String,
    },
}

/// The name Genie's headers give a status code.
pub open spec fn status_name_spec(code: i32) -> Seq<char> {
    if code == 0 {
        "SUCCESS"@
    } else if code == 1 {
        "WARNING_ABORTED"@
    } else if code == 2 {
        "WARNING_BOUND_HANDLE"@
    } else if code == 3 {
        "WARNING_PAUSED"@
    } else if code == 4 {
        "WARNING_CONTEXT_EXCEEDED"@
    } else if code == -1 {
        "ERROR_GENERAL"@
    } else if code == -2 {
        "ERROR_INVALID_ARGUMENT"@
    } else if code == -3 {
        "ERROR_MEM_ALLOC"@
    } else if code == -4 {
        "ERROR_INVALID_CONFIG"@
    } else if code == -5 {
        "ERROR_INVALID_HANDLE"@
    } else if code == -6 {
        "ERROR_QUERY_FAILED"@
    } else if code == -7 {
        "ERROR_JSON_FORMAT"@
    } else if code == -8 {
        "ERROR_JSON_SCHEMA"@
    } else if code == -9 {
        "ERROR_JSON_VALUE"@
    } else if code == -10 {
        "ERROR_GENERATE_FAILED"@
    } else if code == -11 {
        "ERROR_GET_HANDLE_FAILED"@
    } else if code == -12 {
        "ERROR_APPLY_CONFIG_FAILED"@
    } else if code == -13 {
        "ERROR_SET_PARAMS_FAILED"@
    } else if code == -14 {
        "ERROR_BOUND_HANDLE"@
    } else {
        "UNKNOWN"@
    }
}

/// A human-readable name for a Genie status code.
pub fn status_name(code: i32) -> (r: &'static str)
    ensures
        r@ == status_name_spec(code),
{
    match code {
        0 => "SUCCESS",
        1 => "WARNING_ABORTED",
        2 => "WARNING_BOUND_HANDLE",
        3 => "WARNING_PAUSED",
        4 => "WARNING_CONTEXT_EXCEEDED",
        -1 => "ERROR_GENERAL",
        -2 => "ERROR_INVALID_ARGUMENT",
        -3 => "ERROR_MEM_ALLOC",
        -4 => "ERROR_INVALID_CONFIG",
        -5 => "ERROR_INVALID_HANDLE",
        -6 => "ERROR_QUERY_FAILED",
        -7 => "ERROR_JSON_FORMAT",
        -8 => "ERROR_JSON_SCHEMA",
        -9 => "ERROR_JSON_VALUE",
        -10 => "ERROR_GENERATE_FAILED",
        -11 => "ERROR_GET_HANDLE_FAILED",
        -12 => "ERROR_APPLY_CONFIG_FAILED",
        -13 => "ERROR_SET_PARAMS_FAILED",
        -14 => "ERROR_BOUND_HANDLE",
        _ => "UNKNOWN",
    }
}

/// Map a Genie status to a result: success and the positive warning codes
/// (the call completed and its partial result is valid) are `Ok`; the
/// negative error codes are `Err(Status)`.
pub fn check(code: i32) -> (r: Result<(), GenieError>)
    ensures
        code >= 0 ==> r is Ok,
        code < 0 ==> (r matches Err(GenieError::Status { code: c, name }) && c == code && name@
            == status_name_spec(code)),
{
    if code >= 0 {
        Ok(())
    } else {
        Err(GenieError::Status { code, name: status_name(code) })
    }
}

/// Genie API version reported by the loaded library.
#[derive(Clone, Copy, Debug, PartialEq, Eq, Structural)]
pub struct ApiVersion {
    /// Major version.
    pub major: u32,
    /// Minor version.
    pub minor: u32,
    /// Patch version.
    pub patch: u32,
}

/// Sentence code of a query or of a streamed chunk
/// (`GenieDialog_SentenceCode_t`).
#[derive(Clone, Copy, Debug, PartialEq, Eq, Structural)]
pub enum SentenceCode {
    /// The chunk is the entire response.
    Complete,
    /// The chunk begins the response.
    Begin,
    /// The chunk continues the response.
    Continue,
    /// The chunk ends the response.
    End,
    /// The query was aborted.
    Abort,
    /// Genie rewound the KV cache to a prior point.
    Rewind,
    /// A paused query has resumed.
    Resume,
    /// A code this wrapper does not name.
    Other(u32),
}

/// The code Genie uses on the wire for a sentence code.
pub open spec fn code_to_raw(code: SentenceCode) -> u32 {
    match code {
        SentenceCode::Complete => 0,
        SentenceCode::Begin => 1,
        SentenceCode::Continue => 2,
        SentenceCode::End => 3,
        SentenceCode::Abort => 4,
        SentenceCode::Rewind => 5,
        SentenceCode::Resume => 6,
        SentenceCode::Other(o) => o,
    }
}

/// The sentence code a wire value stands for.
pub open spec fn code_from_raw(raw: u32) -> SentenceCode {
    if raw == 0 {
        SentenceCode::Complete
    } else if raw == 1 {
        SentenceCode::Begin
    } else if raw == 2 {
        SentenceCode::Continue
    } else if raw == 3 {
        SentenceCode::End
    } else if raw == 4 {
        SentenceCode::Abort
    } else if raw == 5 {
        SentenceCode::Rewind
    } else if raw == 6 {
        SentenceCode::Resume
    } else {
        SentenceCode::Other(raw)
    }
}

impl SentenceCode {
    /// Decode a wire value.
    pub fn from_raw(code: u32) -> (r: Self)
        ensures
            r == code_from_raw(code),
    {
        match code {
            0 => SentenceCode::Complete,
            1 => SentenceCode::Begin,
            2 => SentenceCode::Continue,
            3 => SentenceCode::End,
            4 => SentenceCode::Abort,
            5 => SentenceCode::Rewind,
            6 => SentenceCode::Resume,
            other => SentenceCode::Other(other),
        }
    }
}

/// Encode a sentence code for the wire.
pub fn sentence_code_to_raw(code: SentenceCode) -> (r: u32)
    ensures
        r == code_to_raw(code),
{
    match code {
        SentenceCode::Complete => 0,
        SentenceCode::Begin => 1,
        SentenceCode::Continue => 2,
        SentenceCode::End => 3,
        SentenceCode::Abort => 4,
        SentenceCode::Rewind => 5,
        SentenceCode::Resume => 6,
        SentenceCode::Other(o) => o,
    }
}

/// Decoding what was encoded gives the code back, for every code but an
/// `Other` that carries one of the named values 0 to 6 (those decode to
/// the named code).
pub proof fn lemma_sentence_code_roundtrip(code: SentenceCode)
    requires
        !(code matches SentenceCode::Other(o) && o <= 6),
    ensures
        code_from_raw(code_to_raw(code)) == code,
{
}

/// Encoding what was decoded gives every wire value back.
pub proof fn lemma_raw_roundtrip(raw: u32)
    ensures
        code_to_raw(code_from_raw(raw)) == raw,
{
}

} // verus!
