//! One connection: the framing of its byte stream, the dispatch of its
//! requests, and the frames of its answers.
//!
//! A frame is a type byte, the length of the payload as a little-endian
//! number of four bytes, and the payload. The handler keeps the bytes that
//! were received and not yet used, so that frames are found alike however
//! the stream was cut into reads.
use crate::codec::{
    all_zero, decode_le, encode_key, encode_le, is_all_zero, le_bytes, le_value,
    lemma_le_value_bound, lemma_pow256_widths,
};
use crate::kv::{TGetResponse, TPutResponse};
use crate::persistent_hashtable::{
    begins_get, begins_set, GetStep, PersistentHashtable, SetStep,
};
use crate::rpc::{
    parse_request, parsed_of, spec_parse_request, ParseRequestError, Parsed, Request,
    GET_RESPONSE, PUT_RESPONSE,
};
use crate::storage_file::key_bytes;
use crate::wire::lemma_uint64_field_len;
use vstd::prelude::*;
use vstd::slice::slice_subrange;

verus! {

/// The width, in bytes, of the header of a frame.
pub const HEADER_LEN: usize = 5;

/// The length of the payload that the header at the front of `buf`
/// announces.
pub open spec fn payload_len(buf: Seq<u8>) -> nat {
    le_value(buf.subrange(1, HEADER_LEN as int))
}

/// The front of `buf` holds a whole frame.
pub open spec fn frame_ready(buf: Seq<u8>) -> bool {
    buf.len() >= HEADER_LEN && buf.len() >= HEADER_LEN + payload_len(buf)
}

/// The type byte of the frame at the front of `buf`.
pub open spec fn frame_kind(buf: Seq<u8>) -> u8 {
    buf[0]
}

/// The payload of the frame at the front of `buf`.
pub open spec fn frame_payload(buf: Seq<u8>) -> Seq<u8> {
    buf.subrange(HEADER_LEN as int, HEADER_LEN + payload_len(buf))
}

/// What follows the frame at the front of `buf`.
pub open spec fn after_frame(buf: Seq<u8>) -> Seq<u8> {
    buf.skip(HEADER_LEN + payload_len(buf))
}

/// The bytes of the frame with the type byte `kind` and the payload
/// `payload`.
pub open spec fn frame_bytes(kind: u8, payload: Seq<u8>) -> Seq<u8> {
    seq![kind] + le_bytes(payload.len(), 4) + payload
}

/// Why a connection ends in failure.
#[derive(Debug)]
pub enum StreamHandleError {
    /// The stream ended inside a frame.
    UnexpectedEof,
    /// A frame held no request.
    ParseError(ParseRequestError),
    /// A request named the key that is reserved for free slots: the one
    /// whose fixed-width form is all zero.
    ReservedKey,
}

/// What happened on the connection.
pub enum StreamEvent {
    /// Nothing: the handler is asked how to go on, at the start and after
    /// each answer.
    Resume,
    /// These bytes were read, at least one.
    Received(Vec<u8>),
    /// The peer has closed the stream.
    Closed,
    /// The server shuts down.
    Shutdown,
}

/// What is to be done on the connection.
pub enum StreamAction {
    /// Read from the stream, and watch for the shutdown meanwhile.
    Read,
    /// Carry out this request and answer it.
    Handle(Request),
    /// End the connection, well or in failure.
    Finish(Result<(), StreamHandleError>),
}

/// What is to be done on the connection, by what it says.
pub enum Outcome {
    /// Read from the stream.
    Read,
    /// A frame was taken from the stream: it asks for this, or for nothing.
    Frame(Parsed),
    /// A frame was taken from the stream: it names the reserved key.
    Reserved,
    /// End the connection well.
    Finish,
    /// End the connection in failure: the stream ended inside a frame.
    Broken,
}

/// What an action says.
pub open spec fn outcome_of(action: StreamAction) -> Outcome {
    match action {
        StreamAction::Read => Outcome::Read,
        StreamAction::Handle(request) => Outcome::Frame(
            parsed_of(Ok::<Request, ParseRequestError>(request)),
        ),
        StreamAction::Finish(Ok(())) => Outcome::Finish,
        StreamAction::Finish(Err(StreamHandleError::UnexpectedEof)) => Outcome::Broken,
        StreamAction::Finish(Err(StreamHandleError::ParseError(error))) => Outcome::Frame(
            parsed_of(Err::<Request, ParseRequestError>(error)),
        ),
        StreamAction::Finish(Err(StreamHandleError::ReservedKey)) => Outcome::Reserved,
    }
}

/// The request names the key that is reserved for free slots.
pub open spec fn names_reserved_key(parsed: Parsed) -> bool {
    match parsed {
        Parsed::Get(fields) => all_zero(key_bytes(fields.key)),
        Parsed::Put(fields) => all_zero(key_bytes(fields.key)),
        _ => false,
    }
}

/// What is to be done about a frame with the type byte `kind` and the
/// payload `payload`.
pub open spec fn frame_outcome(kind: u8, payload: Seq<u8>) -> Outcome {
    let parsed = spec_parse_request(kind, payload);
    if names_reserved_key(parsed) {
        Outcome::Reserved
    } else {
        Outcome::Frame(parsed)
    }
}

/// The bytes that `event` adds to those received.
pub open spec fn event_bytes(event: StreamEvent) -> Seq<u8> {
    match event {
        StreamEvent::Received(bytes) => bytes@,
        _ => Seq::empty(),
    }
}

/// What the handler that holds the unused bytes `pending` does on
/// `event`: the bytes it holds afterwards, and what is to be done.
///
/// A shutdown ends the connection well, whatever is held. The end of the
/// stream ends it well between two frames and in failure inside one.
/// Otherwise the bytes of the event are added to those held; if a whole
/// frame is then at the front it is taken and read as a request, which
/// must not name the reserved key, and if not, more bytes are to be read.
pub open spec fn spec_run(pending: Seq<u8>, event: StreamEvent) -> (Seq<u8>, Outcome) {
    match event {
        StreamEvent::Shutdown => (pending, Outcome::Finish),
        StreamEvent::Closed => if pending.len() == 0 {
            (pending, Outcome::Finish)
        } else {
            (pending, Outcome::Broken)
        },
        _ => {
            let held = pending + event_bytes(event);
            if frame_ready(held) {
                (after_frame(held), frame_outcome(frame_kind(held), frame_payload(held)))
            } else {
                (held, Outcome::Read)
            }
        },
    }
}

/// The handler of one connection.
pub struct StreamHandler {
    pending: Vec<u8>,
}

impl View for StreamHandler {
    type V = Seq<u8>;

    closed spec fn view(&self) -> Seq<u8> {
        self.pending@
    }
}

impl StreamHandler {
    /// The handler of a connection on which nothing was received.
    pub fn new() -> (handler: StreamHandler)
        ensures
            handler@ == Seq::<u8>::empty(),
    {
        StreamHandler { pending: Vec::new() }
    }

    /// Takes what happened on the connection and says what is to be done
    /// next. After a `Finish` the handler is done.
    pub fn run(&mut self, event: StreamEvent) -> (action: StreamAction)
        ensures
            (final(self)@, outcome_of(action)) == spec_run(old(self)@, event),
    {
        match event {
            StreamEvent::Shutdown => {
                return StreamAction::Finish(Ok(()));
            },
            StreamEvent::Closed => {
                if self.pending.len() == 0 {
                    return StreamAction::Finish(Ok(()));
                } else {
                    return StreamAction::Finish(Err(StreamHandleError::UnexpectedEof));
                }
            },
            StreamEvent::Received(bytes) => {
                let mut bytes = bytes;
                self.pending.append(&mut bytes);
            },
            StreamEvent::Resume => {
                assert(self.pending@ + Seq::<u8>::empty() =~= self.pending@);
            },
        }
        let ghost held = self.pending@;
        if self.pending.len() < HEADER_LEN {
            return StreamAction::Read;
        }
        let field: &[u8] = slice_subrange(self.pending.as_slice(), 1, HEADER_LEN);
        proof {
            lemma_le_value_bound(field@);
            lemma_pow256_widths();
        }
        let announced: u64 = decode_le(field);
        if ((self.pending.len() - HEADER_LEN) as u64) < announced {
            return StreamAction::Read;
        }
        let kind: u8 = self.pending[0];
        let end: usize = HEADER_LEN + announced as usize;
        let rest: Vec<u8> = self.pending.split_off(end);
        let payload: Vec<u8> = self.pending.split_off(HEADER_LEN);
        self.pending = rest;
        proof {
            assert(payload@ =~= frame_payload(held));
            assert(self.pending@ =~= after_frame(held));
        }
        match parse_request(kind, payload) {
            Ok(request) => if is_reserved_key(request.key()) {
                StreamAction::Finish(Err(StreamHandleError::ReservedKey))
            } else {
                StreamAction::Handle(request)
            },
            Err(error) => StreamAction::Finish(Err(StreamHandleError::ParseError(error))),
        }
    }
}

/// Tells whether `key` is the key that is reserved for free slots: the one
/// whose fixed-width form is all zero.
pub fn is_reserved_key(key: &str) -> (reserved: bool)
    ensures
        reserved == all_zero(key_bytes(key@)),
{
    let fixed: Vec<u8> = encode_key(key);
    is_all_zero(fixed.as_slice())
}

/// A storage operation begun for a request, with the number of the
/// request, by which the answer is told.
pub enum Operation {
    Get { request_id: u64, get: GetStep },
    Put { request_id: u64, set: SetStep },
}

/// Begins what `request` asks of the table.
pub fn handle_request(request: Request, hashtable: &PersistentHashtable) -> (operation: Operation)
    ensures
        match request {
            Request::Get(message) => operation matches Operation::Get { request_id, get }
                && request_id == message.request_id && begins_get(hashtable@, message.key@, get),
            Request::Put(message) => operation matches Operation::Put { request_id, set }
                && request_id == message.request_id && begins_set(
                hashtable@,
                message.key@,
                message.offset,
                set,
            ),
        },
{
    match request {
        Request::Get(message) => Operation::Get {
            request_id: message.request_id,
            get: hashtable.get(message.key),
        },
        Request::Put(message) => Operation::Put {
            request_id: message.request_id,
            set: hashtable.set(message.key, message.offset),
        },
    }
}

/// Lays out the frame with the type byte `kind` and the payload `payload`.
fn encode_frame(kind: u8, payload: Vec<u8>) -> (frame: Vec<u8>)
    requires
        payload@.len() <= u32::MAX,
    ensures
        frame@ == frame_bytes(kind, payload@),
{
    let mut frame: Vec<u8> = Vec::new();
    frame.push(kind);
    let mut length: Vec<u8> = encode_le(payload.len() as u64, 4);
    frame.append(&mut length);
    let mut payload = payload;
    frame.append(&mut payload);
    frame
}

/// The frame that answers the request for a value with the number
/// `request_id`: the value found, or zero where the key is not stored.
pub fn get_response(request_id: u64, value: u64) -> (frame: Vec<u8>)
    ensures
        frame@ == frame_bytes(
            GET_RESPONSE,
            (TGetResponse { request_id, offset: value }).encoded(),
        ),
{
    let response = TGetResponse { request_id, offset: value };
    proof {
        lemma_uint64_field_len(1, request_id);
        lemma_uint64_field_len(2, value);
    }
    encode_frame(GET_RESPONSE, response.encode_to_vec())
}

/// The frame that answers the request to store a value with the number
/// `request_id`, once the value is stored.
pub fn put_response(request_id: u64) -> (frame: Vec<u8>)
    ensures
        frame@ == frame_bytes(PUT_RESPONSE, (TPutResponse { request_id }).encoded()),
{
    let response = TPutResponse { request_id };
    proof {
        lemma_uint64_field_len(1, request_id);
    }
    encode_frame(PUT_RESPONSE, response.encode_to_vec())
}

} // verus!
