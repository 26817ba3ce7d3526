//! From one run of the tool to an answer or an error.
//!
//! Starting the tool, writing to it and waiting for it happen outside this
//! library. What came of the run is handed in as a `Completion`; `conclude`
//! says what the request ends with.

use crate::answer::{parse, parse_output, Answer, AnswerView};
use vstd::prelude::*;
use vstd::string::*;
use vstd::utf8::*;

verus! {

/// Why a request has no answer. Each ends the request: nothing is retried.
#[derive(Debug, Clone, Copy, PartialEq, Eq, Structural)]
pub enum InvokeError {
    /// The tool could not be found or started.
    SpawnError,
    /// The tool was started but could not be waited on to its end.
    ProcessError,
    /// One of the tool's two output streams is not valid UTF-8.
    EncodingError,
}

/// What is said of an error where it is shown.
pub open spec fn message_of(error: InvokeError) -> Seq<char> {
    match error {
        InvokeError::SpawnError => "the answering tool could not be started"@,
        InvokeError::ProcessError => "the answering tool could not be waited on"@,
        InvokeError::EncodingError => "the answering tool printed what is not UTF-8 text"@,
    }
}

impl InvokeError {
    /// A sentence for the error, to show or to log.
    pub fn message(&self) -> (text: &'static str)
        ensures
            text@ == message_of(*self),
    {
        match self {
            InvokeError::SpawnError => "the answering tool could not be started",
            InvokeError::ProcessError => "the answering tool could not be waited on",
            InvokeError::EncodingError => "the answering tool printed what is not UTF-8 text",
        }
    }
}

/// What came of one run of the tool.
#[derive(Debug, PartialEq, Eq)]
pub enum Completion {
    /// The tool could not be found or started.
    SpawnFailed,
    /// The tool was started but could not be waited on to its end.
    WaitFailed,
    /// The tool ran to its end and left these bytes on its two output streams.
    Exited { stdout: Vec<u8>, stderr: Vec<u8> },
}

/// The tool's two output streams as text.
#[derive(Debug, PartialEq, Eq)]
pub struct RawOutput {
    pub stdout: String,
    pub stderr: String,
}

/// `core::str::Utf8Error`, the error of `core::str::from_utf8`, carried
/// through as it is: nothing is said of what it holds.
#[verifier::external_type_specification]
#[verifier::external_body]
pub struct ExUtf8Error(core::str::Utf8Error);

/// `core::str::from_utf8` succeeds on the byte sequences that are valid
/// UTF-8, and on no others; the string it gives has the bytes it was given.
pub assume_specification[ core::str::from_utf8 ](v: &[u8]) -> (text: Result<
    &str,
    core::str::Utf8Error,
>)
    ensures
        text is Ok <==> valid_utf8(v@),
        text matches Ok(s) ==> s.spec_bytes() == v@,
;

/// The text that the two streams hold, or the error where one of them holds
/// no text.
pub open spec fn decoded(stdout: Seq<u8>, stderr: Seq<u8>) -> Result<
    (Seq<char>, Seq<char>),
    InvokeError,
> {
    if valid_utf8(stdout) && valid_utf8(stderr) {
        Ok((decode_utf8(stdout), decode_utf8(stderr)))
    } else {
        Err(InvokeError::EncodingError)
    }
}

/// What a request ends with, given what came of the tool's run.
pub open spec fn conclusion(completion: Completion) -> Result<AnswerView, InvokeError> {
    match completion {
        Completion::SpawnFailed => Err(InvokeError::SpawnError),
        Completion::WaitFailed => Err(InvokeError::ProcessError),
        Completion::Exited { stdout, stderr } => match decoded(stdout@, stderr@) {
            Ok((out, err)) => Ok(parse(out, err)),
            Err(error) => Err(error),
        },
    }
}

/// Reads the two streams as UTF-8 text.
pub fn decode_streams(stdout: &[u8], stderr: &[u8]) -> (raw: Result<RawOutput, InvokeError>)
    ensures
        match (raw, decoded(stdout@, stderr@)) {
            (Ok(raw), Ok((out, err))) => raw.stdout@ == out && raw.stderr@ == err,
            (Err(error), Err(expected)) => error == expected,
            _ => false,
        },
{
    let out = match core::str::from_utf8(stdout) {
        Ok(text) => text,
        Err(_) => {
            return Err(InvokeError::EncodingError);
        },
    };
    let err = match core::str::from_utf8(stderr) {
        Ok(text) => text,
        Err(_) => {
            return Err(InvokeError::EncodingError);
        },
    };
    proof {
        encode_utf8_decode_utf8(out@);
        encode_utf8_decode_utf8(err@);
    }
    Ok(RawOutput { stdout: out.to_owned(), stderr: err.to_owned() })
}

/// Ends a request: the answer read from the tool's output where the tool ran
/// to its end and printed text, else the error.
pub fn conclude(completion: &Completion) -> (end: Result<Answer, InvokeError>)
    ensures
        match (end, conclusion(*completion)) {
            (Ok(answer), Ok(expected)) => answer@ == expected,
            (Err(error), Err(expected)) => error == expected,
            _ => false,
        },
{
    match completion {
        Completion::SpawnFailed => Err(InvokeError::SpawnError),
        Completion::WaitFailed => Err(InvokeError::ProcessError),
        Completion::Exited { stdout, stderr } => {
            match decode_streams(stdout.as_slice(), stderr.as_slice()) {
                Ok(raw) => Ok(parse_output(raw.stdout.as_str(), raw.stderr.as_str())),
                Err(error) => Err(error),
            }
        },
    }
}

} // verus!
