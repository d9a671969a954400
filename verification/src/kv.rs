//! The four messages of the protocol and their protocol-buffer encoding.
//!
//! A message is decoded field by field: the key of a field tells its
//! number, the fields that the message knows are read by their numbers, the
//! others are passed over, and of a field that comes twice the last one
//! counts. A message is encoded as its fields in the order of their
//! numbers, of which those that hold zero are left out.
use crate::wire::{
    decode_key, encode_uint64, field_skipped, key_decoded, lemma_decoded_leaves_less,
    lemma_uint64_field_len, lemma_uint64_field_round_trip, lemma_varint_cut_short,
    lemma_varint_round_trip, merge_string, merge_uint64, skip_field, string_merged,
    uint64_field, uint64_merged, varint_bytes,
};
use prost::DecodeError;
use vstd::prelude::*;
use vstd::slice::slice_subrange;

verus! {

/// The request for the value of a key.
#[derive(Debug)]
pub struct TGetRequest {
    pub request_id: u64,
    pub key: String,
}

/// The request to store a value under a key.
#[derive(Debug)]
pub struct TPutRequest {
    pub request_id: u64,
    pub key: String,
    pub offset: u64,
}

/// The answer to a [`TGetRequest`].
#[derive(Clone, Copy, Debug, PartialEq, Eq, Structural)]
pub struct TGetResponse {
    pub request_id: u64,
    pub offset: u64,
}

/// The answer to a [`TPutRequest`].
#[derive(Clone, Copy, Debug, PartialEq, Eq, Structural)]
pub struct TPutResponse {
    pub request_id: u64,
}

/// The last `left` bytes of `buf`.
pub open spec fn tail(buf: Seq<u8>, left: nat) -> Seq<u8> {
    buf.skip(buf.len() - left)
}

/// The fields of a request read so far.
pub struct RequestFields {
    pub request_id: u64,
    pub key: Seq<char>,
    pub offset: u64,
}

/// The fields of a request of which nothing was read.
pub open spec fn no_fields() -> RequestFields {
    RequestFields { request_id: 0, key: Seq::empty(), offset: 0 }
}

/// Reads the fields of a request from `buf` into `fields`, to the end of
/// `buf`. Field 1 is the number of the request, field 2 the key, and, where
/// the request has a value (`with_offset`), field 3 is that value. `None`
/// where some field is refused.
pub open spec fn merge_fields(buf: Seq<u8>, fields: RequestFields, with_offset: bool) -> Option<
    RequestFields,
>
    decreases buf.len(),
{
    if buf.len() == 0 {
        Some(fields)
    } else {
        match key_decoded(buf) {
            Some((tag, wire, left)) => if left < buf.len() {
                let body = tail(buf, left);
                if tag == 1 {
                    match uint64_merged(wire, body) {
                        Some((value, left)) => if left <= body.len() {
                            merge_fields(
                                tail(body, left),
                                RequestFields { request_id: value, ..fields },
                                with_offset,
                            )
                        } else {
                            None
                        },
                        None => None,
                    }
                } else if tag == 2 {
                    match string_merged(wire, body) {
                        Some((value, left)) => if left <= body.len() {
                            merge_fields(
                                tail(body, left),
                                RequestFields { key: value, ..fields },
                                with_offset,
                            )
                        } else {
                            None
                        },
                        None => None,
                    }
                } else if tag == 3 && with_offset {
                    match uint64_merged(wire, body) {
                        Some((value, left)) => if left <= body.len() {
                            merge_fields(
                                tail(body, left),
                                RequestFields { offset: value, ..fields },
                                with_offset,
                            )
                        } else {
                            None
                        },
                        None => None,
                    }
                } else {
                    match field_skipped(wire, tag, body) {
                        Some(left) => if left <= body.len() {
                            merge_fields(tail(body, left), fields, with_offset)
                        } else {
                            None
                        },
                        None => None,
                    }
                }
            } else {
                None
            },
            None => None,
        }
    }
}

/// The request for a value that `buf` encodes, if it encodes one.
pub open spec fn spec_decode_get(buf: Seq<u8>) -> Option<RequestFields> {
    merge_fields(buf, no_fields(), false)
}

/// The request to store a value that `buf` encodes, if it encodes one.
pub open spec fn spec_decode_put(buf: Seq<u8>) -> Option<RequestFields> {
    merge_fields(buf, no_fields(), true)
}

/// The bytes of field number `tag` with the unsigned integer `value`:
/// nothing for zero, which is what a field left out is read as.
pub open spec fn optional_uint64(tag: u32, value: u64) -> Seq<u8> {
    if value == 0 {
        Seq::empty()
    } else {
        uint64_field(tag, value)
    }
}

/// The last `left` bytes of `buf`.
fn tail_of(buf: &[u8], left: usize) -> (rest: &[u8])
    requires
        left <= buf@.len(),
    ensures
        rest@ == tail(buf@, left as nat),
{
    slice_subrange(buf, buf.len() - left, buf.len())
}

/// Appends field number `tag` with `value` to `buf`, unless it is zero.
fn encode_optional_uint64(tag: u32, value: u64, buf: &mut Vec<u8>)
    requires
        1 <= tag <= crate::wire::MAX_TAG,
    ensures
        final(buf)@ == old(buf)@ + optional_uint64(tag, value),
{
    if value != 0 {
        encode_uint64(tag, value, buf);
    } else {
        assert(buf@ + Seq::<u8>::empty() =~= buf@);
    }
}

impl TGetRequest {
    /// The fields of the message.
    pub open spec fn fields(self) -> RequestFields {
        RequestFields { request_id: self.request_id, key: self.key@, offset: 0 }
    }

    /// Decodes the message that `buf` encodes, all of `buf`.
    pub fn decode(buf: &[u8]) -> (message: Result<TGetRequest, DecodeError>)
        ensures
            match message {
                Ok(message) => spec_decode_get(buf@) == Some(message.fields()),
                Err(_) => spec_decode_get(buf@) is None,
            },
    {
        let mut message = TGetRequest { request_id: 0, key: String::new() };
        let mut rest: &[u8] = buf;
        while rest.len() > 0
            invariant
                merge_fields(rest@, message.fields(), false) == spec_decode_get(buf@),
            decreases rest@.len(),
        {
            let (tag, wire, left) = match decode_key(rest) {
                Ok(key) => key,
                Err(error) => {
                    return Err(error);
                },
            };
            proof {
                lemma_decoded_leaves_less(wire, rest@);
            }
            let body: &[u8] = tail_of(rest, left);
            proof {
                lemma_decoded_leaves_less(wire, body@);
            }
            if tag == 1 {
                match merge_uint64(wire, body) {
                    Ok((value, left)) => {
                        message.request_id = value;
                        rest = tail_of(body, left);
                    },
                    Err(error) => {
                        return Err(error);
                    },
                }
            } else if tag == 2 {
                match merge_string(wire, body) {
                    Ok((value, left)) => {
                        message.key = value;
                        rest = tail_of(body, left);
                    },
                    Err(error) => {
                        return Err(error);
                    },
                }
            } else {
                match skip_field(wire, tag, body) {
                    Ok(left) => {
                        rest = tail_of(body, left);
                    },
                    Err(error) => {
                        return Err(error);
                    },
                }
            }
        }
        Ok(message)
    }
}

impl TPutRequest {
    /// The fields of the message.
    pub open spec fn fields(self) -> RequestFields {
        RequestFields { request_id: self.request_id, key: self.key@, offset: self.offset }
    }

    /// Decodes the message that `buf` encodes, all of `buf`.
    pub fn decode(buf: &[u8]) -> (message: Result<TPutRequest, DecodeError>)
        ensures
            match message {
                Ok(message) => spec_decode_put(buf@) == Some(message.fields()),
                Err(_) => spec_decode_put(buf@) is None,
            },
    {
        let mut message = TPutRequest { request_id: 0, key: String::new(), offset: 0 };
        let mut rest: &[u8] = buf;
        while rest.len() > 0
            invariant
                merge_fields(rest@, message.fields(), true) == spec_decode_put(buf@),
            decreases rest@.len(),
        {
            let (tag, wire, left) = match decode_key(rest) {
                Ok(key) => key,
                Err(error) => {
                    return Err(error);
                },
            };
            proof {
                lemma_decoded_leaves_less(wire, rest@);
            }
            let body: &[u8] = tail_of(rest, left);
            proof {
                lemma_decoded_leaves_less(wire, body@);
            }
            if tag == 1 {
                match merge_uint64(wire, body) {
                    Ok((value, left)) => {
                        message.request_id = value;
                        rest = tail_of(body, left);
                    },
                    Err(error) => {
                        return Err(error);
                    },
                }
            } else if tag == 2 {
                match merge_string(wire, body) {
                    Ok((value, left)) => {
                        message.key = value;
                        rest = tail_of(body, left);
                    },
                    Err(error) => {
                        return Err(error);
                    },
                }
            } else if tag == 3 {
                match merge_uint64(wire, body) {
                    Ok((value, left)) => {
                        message.offset = value;
                        rest = tail_of(body, left);
                    },
                    Err(error) => {
                        return Err(error);
                    },
                }
            } else {
                match skip_field(wire, tag, body) {
                    Ok(left) => {
                        rest = tail_of(body, left);
                    },
                    Err(error) => {
                        return Err(error);
                    },
                }
            }
        }
        Ok(message)
    }
}

impl TGetResponse {
    /// The bytes that encode the message.
    pub open spec fn encoded(self) -> Seq<u8> {
        optional_uint64(1, self.request_id) + optional_uint64(2, self.offset)
    }

    /// Encodes the message.
    pub fn encode_to_vec(&self) -> (buf: Vec<u8>)
        ensures
            buf@ == self.encoded(),
    {
        let mut buf: Vec<u8> = Vec::new();
        encode_optional_uint64(1, self.request_id, &mut buf);
        encode_optional_uint64(2, self.offset, &mut buf);
        assert(buf@ =~= self.encoded());
        buf
    }
}

impl TPutResponse {
    /// The bytes that encode the message.
    pub open spec fn encoded(self) -> Seq<u8> {
        optional_uint64(1, self.request_id)
    }

    /// Encodes the message.
    pub fn encode_to_vec(&self) -> (buf: Vec<u8>)
        ensures
            buf@ == self.encoded(),
    {
        let mut buf: Vec<u8> = Vec::new();
        encode_optional_uint64(1, self.request_id, &mut buf);
        assert(buf@ =~= self.encoded());
        buf
    }
}

/// Reading a request whose bytes begin with field 1 and an unsigned integer
/// sets the number of the request to that integer and goes on behind the
/// field.
pub proof fn lemma_merge_request_id(
    value: u64,
    rest: Seq<u8>,
    fields: RequestFields,
    with_offset: bool,
)
    ensures
        merge_fields(uint64_field(1, value) + rest, fields, with_offset) == merge_fields(
            rest,
            RequestFields { request_id: value, ..fields },
            with_offset,
        ),
{
    let buf = uint64_field(1, value) + rest;
    let number = varint_bytes(value as nat);
    lemma_uint64_field_round_trip(1, value, rest);
    lemma_uint64_field_len(1, value);
    assert(tail(buf, number.len() + rest.len()) =~= number + rest);
    assert(tail(number + rest, rest.len()) =~= rest);
}

/// Reading a request with a value whose bytes begin with field 3 and an
/// unsigned integer sets the value to that integer and goes on behind the
/// field.
pub proof fn lemma_merge_offset(value: u64, rest: Seq<u8>, fields: RequestFields)
    ensures
        merge_fields(uint64_field(3, value) + rest, fields, true) == merge_fields(
            rest,
            RequestFields { offset: value, ..fields },
            true,
        ),
{
    let buf = uint64_field(3, value) + rest;
    let number = varint_bytes(value as nat);
    lemma_uint64_field_round_trip(3, value, rest);
    lemma_uint64_field_len(3, value);
    assert(tail(buf, number.len() + rest.len()) =~= number + rest);
    assert(tail(number + rest, rest.len()) =~= rest);
}

/// The unsigned integers of a request are decoded to what was encoded: a
/// request without a key, encoded as its fields in the order of their
/// numbers with those left out that hold zero, is decoded to its number
/// and, where it has one, its value.
pub proof fn lemma_request_numbers_round_trip(request_id: u64, offset: u64)
    ensures
        spec_decode_get(optional_uint64(1, request_id)) == Some(
            RequestFields { request_id, key: Seq::empty(), offset: 0 },
        ),
        spec_decode_put(optional_uint64(1, request_id) + optional_uint64(3, offset)) == Some(
            RequestFields { request_id, key: Seq::empty(), offset },
        ),
{
    let none = Seq::<u8>::empty();
    let first = optional_uint64(1, request_id);
    let third = optional_uint64(3, offset);
    let with_id = RequestFields { request_id, ..no_fields() };
    assert(merge_fields(none, with_id, false) == Some(with_id));
    assert(merge_fields(third, with_id, true) == Some(
        RequestFields { request_id, key: Seq::empty(), offset },
    )) by {
        if offset != 0 {
            lemma_merge_offset(offset, none, with_id);
            assert(uint64_field(3, offset) + none =~= third);
        }
    }
    if request_id != 0 {
        lemma_merge_request_id(request_id, none, no_fields(), false);
        assert(uint64_field(1, request_id) + none =~= first);
        lemma_merge_request_id(request_id, third, no_fields(), true);
    } else {
        assert(first + third =~= third);
    }
}

/// A request that is cut short inside its first field is refused: nothing
/// is decoded from a part of the field with the number of the request that
/// lacks its last byte, neither as a request for a value nor as one to
/// store a value.
pub proof fn lemma_request_cut_short(request_id: u64, len: int)
    requires
        1 <= len < uint64_field(1, request_id).len(),
    ensures
        spec_decode_get(uint64_field(1, request_id).take(len)) is None,
        spec_decode_put(uint64_field(1, request_id).take(len)) is None,
{
    let number = varint_bytes(request_id as nat);
    let whole = uint64_field(1, request_id);
    let part = whole.take(len);
    assert(varint_bytes(8) =~= seq![8u8]);
    assert(part =~= seq![8u8] + number.take(len - 1));
    lemma_varint_round_trip(8, number.take(len - 1));
    assert(tail(part, (len - 1) as nat) =~= number.take(len - 1));
    lemma_varint_cut_short(request_id as nat, len - 1);
}

} // verus!
