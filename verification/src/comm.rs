//! Messages between the editor and its file-reading helper.

use std::path::PathBuf;
use vstd::prelude::*;

verus! {

/// Identifies a request, and the responses to it.
pub type Id = [u8; 8];

#[derive(Debug, PartialEq, Eq)]
pub struct ReadFileRequest {
    pub id: Id,
    pub path: PathBuf,
}

#[derive(Debug, PartialEq, Eq)]
pub enum ReadFileResponseBody {
    TotalSize(usize),
    Data(Vec<u8>),
}

#[derive(Debug, PartialEq, Eq)]
pub struct ReadFileResponse {
    pub id: Id,
    pub body: ReadFileResponseBody,
}

#[derive(Debug, PartialEq, Eq)]
pub enum Request {
    Ping,
    ReadFile(ReadFileRequest),
    Stop,
}

#[derive(Debug, PartialEq, Eq)]
pub enum Response {
    Pong,
    ReadFile(ReadFileResponse),
    Stop,
}

} // verus!
