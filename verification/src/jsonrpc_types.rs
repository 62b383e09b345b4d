//! The three envelopes of JSON-RPC 2.0: request, notification, response.
//!
//! The envelopes are plain data. What they carry as parameters, results and
//! error data is left to the caller, and never looked into here.

use vstd::prelude::*;
use vstd::string::StringExecFns;

verus! {

/// The protocol version that every envelope bears.
pub const JSONRPC_V2: &'static str = "2.0";

/// A call that expects one response, which will bear the same id.
#[derive(Debug, Clone, PartialEq, Eq, Hash)]
pub struct Request<P> {
    pub jsonrpc: String,
    pub method: String,
    pub params: P,
    pub id: Option<u64>,
}

impl<P> Request<P> {
    /// A request for `method`, under protocol version 2.0.
    pub fn new(method: &str, params: P, id: Option<u64>) -> (request: Self)
        ensures
            request.jsonrpc@ == JSONRPC_V2@,
            request.method@ == method@,
            request.params == params,
            request.id == id,
    {
        Request { jsonrpc: String::from_str(JSONRPC_V2), method: String::from_str(method), params, id }
    }
}

/// A call that expects no response. It has no id at all.
#[derive(Debug, Clone, PartialEq, Eq, Hash)]
pub struct Notification<P> {
    pub jsonrpc: String,
    pub method: String,
    pub params: P,
}

impl<P> Notification<P> {
    /// A notification of `method`, under protocol version 2.0.
    pub fn new(method: &str, params: P) -> (notification: Self)
        ensures
            notification.jsonrpc@ == JSONRPC_V2@,
            notification.method@ == method@,
            notification.params == params,
    {
        Notification { jsonrpc: String::from_str(JSONRPC_V2), method: String::from_str(method), params }
    }
}

/// The error that a peer returns in place of a result.
#[derive(Debug, Clone, PartialEq, Eq, Hash)]
pub struct JsonRPCError<D> {
    pub code: i64,
    pub message: String,
    pub data: Option<D>,
}

/// What a response holds: the result of the call, or the error that took
/// its place.
#[derive(Debug, Clone, PartialEq, Eq, Hash)]
pub enum JsonRPCResult<R, E> {
    Result(R),
    Error(JsonRPCError<E>),
}

/// The content of a response: another name for [`JsonRPCResult`].
pub type ResponseContent<R, E> = JsonRPCResult<R, E>;

/// The error in a response: another name for [`JsonRPCError`].
pub type ResponseError<D> = JsonRPCError<D>;

/// The answer to a request. It bears the request's id; the id is `None`
/// only where the peer could not tell which request failed.
#[derive(Debug, Clone, PartialEq, Eq, Hash)]
pub struct Response<R, E> {
    pub jsonrpc: String,
    pub result: JsonRPCResult<R, E>,
    pub id: Option<u64>,
}

impl<R, E> Response<R, E> {
    /// A response under protocol version 2.0.
    pub fn new(result: JsonRPCResult<R, E>, id: Option<u64>) -> (response: Self)
        ensures
            response.jsonrpc@ == JSONRPC_V2@,
            response.result == result,
            response.id == id,
    {
        Response { jsonrpc: String::from_str(JSONRPC_V2), result, id }
    }
}

} // verus!
