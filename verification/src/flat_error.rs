//! Errors of table dumping and of the row sink.

use flatbuffers::InvalidFlatbuffer;
use std::str::Utf8Error;
use vstd::prelude::*;

verus! {

#[verifier::external_type_specification]
#[verifier::external_body]
pub struct ExInvalidFlatbuffer(InvalidFlatbuffer);

#[verifier::external_type_specification]
#[verifier::external_body]
pub struct ExJsonError(serde_json::Error);

/// Everything that can go wrong while decoding tables or feeding a sink.
#[derive(Debug)]
pub enum FlatBufferError {
    UnknownTable(String),
    Panic(String),
    InvalidFlatbuffer(InvalidFlatbuffer),
    Utf8(Utf8Error),
    Json(serde_json::Error),
    SinkVersion(u32),
    SinkSize(u32),
    SinkHook(&'static str),
    SinkFailed(&'static str, i32),
    Unsupported(&'static str),
    Sink(String),
}

} // verus!
