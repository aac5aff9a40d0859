//! Requests and responses of the key-value service.

use crate::proto::copy_bytes;
use vstd::prelude::*;
use vstd::slice::slice_to_vec;

verus! {

#[derive(Debug, PartialEq, Eq)]
pub struct RequestGet {
    pub key: String,
}

#[derive(Debug, PartialEq, Eq)]
pub struct RequestPut {
    pub key: String,
    pub value: Vec<u8>,
}

#[derive(Debug, PartialEq, Eq)]
pub enum Command {
    Get(RequestGet),
    Put(RequestPut),
}

#[derive(Debug, PartialEq, Eq)]
pub struct Request {
    pub command: Option<Command>,
}

#[derive(Debug, PartialEq, Eq)]
pub struct Response {
    pub code: u32,
    pub key: String,
    pub value: Vec<u8>,
}

/// Status code of a response that carries the value.
pub const OK: u32 = 0;

/// Status code of a response for a key that the store does not hold.
pub const NOT_FOUND: u32 = 404;

impl Request {
    /// A request for the value under `key`.
    pub fn new_get(key: &str) -> (request: Self)
        ensures
            request.command matches Some(Command::Get(get)) && get.key@ == key@,
    {
        Self { command: Some(Command::Get(RequestGet { key: key.to_owned() })) }
    }

    /// A request to store `value` under `key`.
    pub fn new_put(key: &str, value: &[u8]) -> (request: Self)
        ensures
            request.command matches Some(Command::Put(put)) && put.key@ == key@ && put.value@
                == value@,
    {
        Self {
            command: Some(
                Command::Put(RequestPut { key: key.to_owned(), value: slice_to_vec(value) }),
            ),
        }
    }
}

impl Response {
    /// The response that carries the value found or stored under `key`.
    pub fn new(key: String, value: Vec<u8>) -> (response: Self)
        ensures
            response.code == OK,
            response.key == key,
            response.value == value,
    {
        Self { code: 0, key, value }
    }

    /// The response for a key that the store does not hold: code 404 and no value.
    pub fn not_found(key: String) -> (response: Self)
        ensures
            response.code == NOT_FOUND,
            response.key == key,
            response.value@ == Seq::<u8>::empty(),
    {
        Self { code: 404, key, value: Vec::new() }
    }
}

/// What the store answers to a request, given what it holds under the request's key:
/// the value for a key that is held, not-found for one that is not, and the stored value
/// for a put. `None` for a request without a command.
pub fn respond(request: Request, held: Option<&Vec<u8>>) -> (response: Option<Response>)
    ensures
        match request.command {
            Some(Command::Get(get)) => response matches Some(r) && r.key == get.key && match held {
                Some(v) => r.code == OK && r.value@ == v@,
                None => r.code == NOT_FOUND && r.value@ == Seq::<u8>::empty(),
            },
            Some(Command::Put(put)) => response matches Some(r) && r.key == put.key && r.code
                == OK && r.value == put.value,
            None => response is None,
        },
{
    match request.command {
        Some(Command::Get(RequestGet { key })) => match held {
            Some(v) => Some(Response::new(key, copy_bytes(v))),
            None => Some(Response::not_found(key)),
        },
        Some(Command::Put(RequestPut { key, value })) => Some(Response::new(key, value)),
        None => None,
    }
}

} // verus!
