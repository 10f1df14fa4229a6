//! The commands that clients submit through Raft and the responses that
//! applying them produces.

use vstd::prelude::*;

verus! {

/// A user-level mutation, replicated through the log.
#[derive(Clone, Debug)]
pub enum RocksRequest {
    Put { key: String, value: String },
    Delete { key: String },
}

/// The outcome of applying one log entry.
#[derive(Debug)]
pub enum RocksResponse {
    Put(Result<(), ClientError>),
    Delete(Result<(), ClientError>),
}

/// A command error, carried inside a response rather than as a failure.
#[derive(Clone, Debug)]
pub enum ClientError {
    KeyNotFound,
    InternalError(String),
}

pub enum RequestView {
    Put { key: Seq<char>, value: Seq<char> },
    Delete { key: Seq<char> },
}

pub enum ClientErrorView {
    KeyNotFound,
    InternalError(Seq<char>),
}

pub enum ResponseView {
    Put(Result<(), ClientErrorView>),
    Delete(Result<(), ClientErrorView>),
}

impl View for RocksRequest {
    type V = RequestView;

    open spec fn view(&self) -> RequestView {
        match self {
            RocksRequest::Put { key, value } => RequestView::Put { key: key@, value: value@ },
            RocksRequest::Delete { key } => RequestView::Delete { key: key@ },
        }
    }
}

impl View for ClientError {
    type V = ClientErrorView;

    open spec fn view(&self) -> ClientErrorView {
        match self {
            ClientError::KeyNotFound => ClientErrorView::KeyNotFound,
            ClientError::InternalError(m) => ClientErrorView::InternalError(m@),
        }
    }
}

pub open spec fn result_view(r: Result<(), ClientError>) -> Result<(), ClientErrorView> {
    match r {
        Ok(()) => Ok(()),
        Err(e) => Err(e@),
    }
}

impl View for RocksResponse {
    type V = ResponseView;

    open spec fn view(&self) -> ResponseView {
        match self {
            RocksResponse::Put(r) => ResponseView::Put(result_view(*r)),
            RocksResponse::Delete(r) => ResponseView::Delete(result_view(*r)),
        }
    }
}

/// A copy of a string with the same characters.
pub fn copy_string(s: &String) -> (r: String)
    ensures
        r@ == s@,
{
    s.clone()
}

impl RocksRequest {
    pub fn copy(&self) -> (r: RocksRequest)
        ensures
            r@ == self@,
    {
        match self {
            RocksRequest::Put { key, value } => RocksRequest::Put {
                key: copy_string(key),
                value: copy_string(value),
            },
            RocksRequest::Delete { key } => RocksRequest::Delete { key: copy_string(key) },
        }
    }
}

} // verus!
