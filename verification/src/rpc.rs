//! The requests of the protocol, told apart by the type byte of their
//! frame.
use crate::kv::{spec_decode_get, spec_decode_put, RequestFields, TGetRequest, TPutRequest};
use prost::DecodeError;
use vstd::prelude::*;

verus! {

/// The type byte of a request to store a value.
pub const PUT_REQUEST: u8 = 1;

/// The type byte of the answer to a request to store a value.
pub const PUT_RESPONSE: u8 = 2;

/// The type byte of a request for a value.
pub const GET_REQUEST: u8 = 3;

/// The type byte of the answer to a request for a value.
pub const GET_RESPONSE: u8 = 4;

/// A request of a client.
#[derive(Debug)]
pub enum Request {
    Get(TGetRequest),
    Put(TPutRequest),
}

impl Request {
    /// The key that the request names.
    pub open spec fn spec_key(self) -> Seq<char> {
        match self {
            Request::Get(message) => message.key@,
            Request::Put(message) => message.key@,
        }
    }

    /// The key that the request names.
    pub fn key(&self) -> (key: &str)
        ensures
            key@ == self.spec_key(),
    {
        match self {
            Request::Get(message) => message.key.as_str(),
            Request::Put(message) => message.key.as_str(),
        }
    }
}

/// Why the payload of a frame is no request.
#[derive(Debug)]
pub enum ParseRequestError {
    /// The payload does not encode the message that the type byte
    /// announces.
    ProtoParseError(DecodeError),
    /// The type byte, which is this one, announces no request.
    RequestTypeError(u8),
}

/// What a frame asks for, or why it asks for nothing.
pub enum Parsed {
    /// The value of a key: the request has these fields.
    Get(RequestFields),
    /// To store a value under a key: the request has these fields.
    Put(RequestFields),
    /// The payload does not encode the message that the type byte
    /// announces.
    BadPayload,
    /// The type byte, which is this one, announces no request.
    BadType(u8),
}

/// What the frame with the type byte `request_type` and the payload `data`
/// asks for.
pub open spec fn spec_parse_request(request_type: u8, data: Seq<u8>) -> Parsed {
    if request_type == GET_REQUEST {
        match spec_decode_get(data) {
            Some(fields) => Parsed::Get(fields),
            None => Parsed::BadPayload,
        }
    } else if request_type == PUT_REQUEST {
        match spec_decode_put(data) {
            Some(fields) => Parsed::Put(fields),
            None => Parsed::BadPayload,
        }
    } else {
        Parsed::BadType(request_type)
    }
}

/// What a parsed request, or the refusal of one, says.
pub open spec fn parsed_of(parsed: Result<Request, ParseRequestError>) -> Parsed {
    match parsed {
        Ok(Request::Get(message)) => Parsed::Get(message.fields()),
        Ok(Request::Put(message)) => Parsed::Put(message.fields()),
        Err(ParseRequestError::ProtoParseError(_)) => Parsed::BadPayload,
        Err(ParseRequestError::RequestTypeError(refused)) => Parsed::BadType(refused),
    }
}

/// Reads the request of a frame from its type byte and its payload.
///
/// The type byte decides which message the payload must encode; a byte
/// that announces no request is refused, whatever the payload.
pub fn parse_request(request_type: u8, request_data: Vec<u8>) -> (parsed: Result<
    Request,
    ParseRequestError,
>)
    ensures
        parsed_of(parsed) == spec_parse_request(request_type, request_data@),
{
    if request_type == GET_REQUEST {
        match TGetRequest::decode(request_data.as_slice()) {
            Ok(message) => Ok(Request::Get(message)),
            Err(error) => Err(ParseRequestError::ProtoParseError(error)),
        }
    } else if request_type == PUT_REQUEST {
        match TPutRequest::decode(request_data.as_slice()) {
            Ok(message) => Ok(Request::Put(message)),
            Err(error) => Err(ParseRequestError::ProtoParseError(error)),
        }
    } else {
        Err(ParseRequestError::RequestTypeError(request_type))
    }
}

} // verus!
