//! The protocol-buffer wire format, as the `prost` crate reads and writes
//! it: field keys, unsigned integers, strings, and fields passed over.
//!
//! The functions of this file that call `prost` are not proved: each hands
//! its arguments to one function of `prost`, and its contract states what
//! that function returns. Keys and unsigned integers are stated in full;
//! of strings and of fields passed over, only that the result depends on
//! the arguments alone.
use prost::encoding::{DecodeContext, WireType};
use prost::DecodeError;
use vstd::prelude::*;

verus! {

/// The error with which `prost` refuses bytes that are no message.
#[verifier::external_type_specification]
#[verifier::external_body]
pub struct ExDecodeError(DecodeError);

/// The greatest number that a field can have.
pub const MAX_TAG: u32 = 0x1fff_ffff;

/// The greatest number of bytes that a number in variable-length encoding
/// may take.
pub const VARINT_MAX_LEN: usize = 10;

/// The code of the wire type of a number in variable-length encoding.
pub const WIRE_VARINT: u8 = 0;

/// The greatest code of a wire type.
pub const WIRE_MAX: u8 = 5;

/// The number in variable-length encoding at the front of `buf`, read from
/// at most `room` bytes, and how many bytes it takes: seven bits to a byte,
/// the lowest first, up to the first byte without the high bit. `None`
/// where `buf` ends, or `room` is used up, before such a byte.
pub open spec fn varint_read(buf: Seq<u8>, room: nat) -> Option<(nat, nat)>
    decreases room,
{
    if room == 0 || buf.len() == 0 {
        None
    } else if buf[0] < 128 {
        Some((buf[0] as nat, 1))
    } else {
        match varint_read(buf.drop_first(), (room - 1) as nat) {
            Some((high, count)) => Some(((buf[0] % 128 + 128 * high) as nat, count + 1)),
            None => None,
        }
    }
}

/// What `prost::encoding::decode_varint` reads from the front of `buf`:
/// the number, and how many bytes follow it. `None` where it refuses the
/// bytes: where no number ends within the first ten of them, or the number
/// does not fit 64 bits, which is where the tenth byte is above one.
pub open spec fn varint_decoded(buf: Seq<u8>) -> Option<(u64, nat)> {
    match varint_read(buf, VARINT_MAX_LEN as nat) {
        Some((value, count)) => if value <= u64::MAX {
            Some((value as u64, (buf.len() - count) as nat))
        } else {
            None
        },
        None => None,
    }
}

/// What `prost::encoding::decode_key` reads from the front of `buf`: the
/// number of the field, the code of its wire type, and how many bytes
/// follow the key. The key is a number in variable-length encoding that
/// fits 32 bits: its low three bits are the wire type, the others the
/// number of the field. `None` where it refuses the bytes: where they hold
/// no such number, the wire type is none of the six, or the number of the
/// field is zero.
pub open spec fn key_decoded(buf: Seq<u8>) -> Option<(u32, u8, nat)> {
    match varint_decoded(buf) {
        Some((key, left)) => if key <= u32::MAX && key % 8 <= WIRE_MAX && key / 8 >= 1 {
            Some(((key / 8) as u32, (key % 8) as u8, left))
        } else {
            None
        },
        None => None,
    }
}

/// What `prost::encoding::uint64::merge` reads from the front of `buf` for
/// a field of wire type `wire`: the number, and how many bytes follow it.
/// `None` where it refuses the wire type, which must be that of a number
/// in variable-length encoding, or the bytes.
pub open spec fn uint64_merged(wire: u8, buf: Seq<u8>) -> Option<(u64, nat)> {
    if wire == WIRE_VARINT {
        varint_decoded(buf)
    } else {
        None
    }
}

/// What `prost::encoding::string::merge` reads from the front of `buf` for
/// a field of wire type `wire`: the text, and how many bytes follow it.
/// `None` where it refuses the wire type or the bytes.
pub uninterp spec fn string_merged(wire: u8, buf: Seq<u8>) -> Option<(Seq<char>, nat)>;

/// How many bytes follow, in `buf`, the field of number `tag` and wire type
/// `wire` that `prost::encoding::skip_field` passes over. `None` where it
/// refuses the wire type or the bytes.
pub uninterp spec fn field_skipped(wire: u8, tag: u32, buf: Seq<u8>) -> Option<nat>;

/// The variable-length encoding of a number: seven bits to a byte, the
/// lowest first, and the high bit set on every byte but the last.
pub open spec fn varint_bytes(value: nat) -> Seq<u8>
    decreases value,
{
    if value < 128 {
        seq![value as u8]
    } else {
        seq![(value % 128 + 128) as u8] + varint_bytes(value / 128)
    }
}

/// The bytes of a field of number `tag` that holds the unsigned integer
/// `value`: the key of the field, which is its number times eight for this
/// wire type, and the value, both in variable-length encoding.
pub open spec fn uint64_field(tag: u32, value: u64) -> Seq<u8> {
    varint_bytes(tag as nat * 8) + varint_bytes(value as nat)
}

/// `128` to the power `n`.
pub open spec fn pow128(n: nat) -> nat
    decreases n,
{
    if n == 0 {
        1
    } else {
        128 * pow128((n - 1) as nat)
    }
}

/// A number below `128^width` takes at most `width` bytes in
/// variable-length encoding, and any number takes at least one.
pub proof fn lemma_varint_len(value: nat, width: nat)
    requires
        width >= 1,
        value < pow128(width),
    ensures
        1 <= varint_bytes(value).len() <= width,
    decreases width,
{
    reveal_with_fuel(pow128, 2);
    if value >= 128 {
        lemma_varint_len(value / 128, (width - 1) as nat);
    }
}

/// A field with an unsigned integer takes at most fifteen bytes.
pub proof fn lemma_uint64_field_len(tag: u32, value: u64)
    ensures
        2 <= uint64_field(tag, value).len() <= 15,
{
    reveal_with_fuel(pow128, 11);
    lemma_varint_len(tag as nat * 8, 5);
    lemma_varint_len(value as nat, 10);
}

/// A number that is read takes at least one byte and no more than there
/// are, nor than there is room for.
pub proof fn lemma_varint_read_count(buf: Seq<u8>, room: nat)
    ensures
        varint_read(buf, room) matches Some((value, count)) ==> 1 <= count <= buf.len() && count
            <= room,
    decreases room,
{
    if room > 0 && buf.len() > 0 && buf[0] >= 128 {
        lemma_varint_read_count(buf.drop_first(), (room - 1) as nat);
    }
}

/// A key or a number that is read leaves fewer bytes than there were.
pub proof fn lemma_decoded_leaves_less(wire: u8, buf: Seq<u8>)
    ensures
        varint_decoded(buf) matches Some((value, left)) ==> left < buf.len(),
        key_decoded(buf) matches Some((tag, kind, left)) ==> left < buf.len() && tag >= 1 && kind
            <= WIRE_MAX,
        uint64_merged(wire, buf) matches Some((value, left)) ==> left < buf.len(),
{
    lemma_varint_read_count(buf, VARINT_MAX_LEN as nat);
}

/// A number that was encoded is read back, whatever follows it, where
/// there is room for its bytes.
pub proof fn lemma_varint_read_back(value: nat, rest: Seq<u8>, room: nat)
    requires
        varint_bytes(value).len() <= room,
    ensures
        varint_read(varint_bytes(value) + rest, room) == Some((value, varint_bytes(value).len())),
    decreases value,
{
    let buf = varint_bytes(value) + rest;
    if value < 128 {
        assert(buf[0] == value);
    } else {
        let tail = varint_bytes(value / 128);
        assert(buf[0] == value % 128 + 128);
        assert(buf.drop_first() =~= tail + rest);
        lemma_varint_read_back(value / 128, rest, (room - 1) as nat);
    }
}

/// An unsigned integer that was encoded is decoded to itself, and what
/// follows it is left.
pub proof fn lemma_varint_round_trip(value: u64, rest: Seq<u8>)
    ensures
        varint_decoded(varint_bytes(value as nat) + rest) == Some((value, rest.len())),
        uint64_merged(WIRE_VARINT, varint_bytes(value as nat) + rest) == Some((value, rest.len())),
{
    reveal_with_fuel(pow128, 11);
    lemma_varint_len(value as nat, 10);
    lemma_varint_read_back(value as nat, rest, VARINT_MAX_LEN as nat);
}

/// The key of a field with an unsigned integer is decoded to the number of
/// the field and the wire type of such a number, and the integer that
/// follows it to itself.
pub proof fn lemma_uint64_field_round_trip(tag: u32, value: u64, rest: Seq<u8>)
    requires
        1 <= tag <= MAX_TAG,
    ensures
        key_decoded(uint64_field(tag, value) + rest) == Some(
            (tag, WIRE_VARINT, varint_bytes(value as nat).len() + rest.len()),
        ),
        uint64_merged(WIRE_VARINT, varint_bytes(value as nat) + rest) == Some((value, rest.len())),
{
    let key: u64 = (tag * 8) as u64;
    let after = varint_bytes(value as nat) + rest;
    assert(uint64_field(tag, value) + rest =~= varint_bytes(key as nat) + after);
    lemma_varint_round_trip(key, after);
    lemma_varint_round_trip(value, rest);
}

/// A number whose bytes are cut short is refused: nothing is decoded from
/// a part of an encoded number that lacks its last byte.
pub proof fn lemma_varint_cut_short(value: nat, len: int)
    requires
        0 <= len < varint_bytes(value).len(),
    ensures
        varint_read(varint_bytes(value).take(len), VARINT_MAX_LEN as nat) is None,
        varint_decoded(varint_bytes(value).take(len)) is None,
{
    lemma_varint_cut(value, len, VARINT_MAX_LEN as nat);
}

/// Nothing is read, with whatever room, from a part of an encoded number
/// that lacks its last byte.
proof fn lemma_varint_cut(value: nat, len: int, room: nat)
    requires
        0 <= len < varint_bytes(value).len(),
    ensures
        varint_read(varint_bytes(value).take(len), room) is None,
    decreases value,
{
    let part = varint_bytes(value).take(len);
    if value >= 128 && len > 0 && room > 0 {
        let tail = varint_bytes(value / 128);
        assert(part[0] >= 128);
        assert(part.drop_first() =~= tail.take(len - 1));
        lemma_varint_cut(value / 128, len - 1, (room - 1) as nat);
    }
}

/// Calls `prost::encoding::decode_key` on `buf`. The claim: it reads the
/// key that [`key_decoded`] states, and refuses the bytes where that states
/// none.
#[verifier::external_body]
pub(crate) fn decode_key(buf: &[u8]) -> (key: Result<(u32, u8, usize), DecodeError>)
    ensures
        match key {
            Ok((tag, wire, left)) => key_decoded(buf@) == Some((tag, wire, left as nat)),
            Err(_) => key_decoded(buf@) is None,
        },
{
    let mut rest = buf;
    let (tag, wire_type) = prost::encoding::decode_key(&mut rest)?;
    Ok((tag, wire_type as u8, rest.len()))
}

/// Calls `prost::encoding::uint64::merge` on `buf`, for a field whose wire
/// type has the code `wire`. The claim: it reads the number that
/// [`uint64_merged`] states, and refuses the wire type or the bytes where
/// that states none.
#[verifier::external_body]
pub(crate) fn merge_uint64(wire: u8, buf: &[u8]) -> (number: Result<(u64, usize), DecodeError>)
    ensures
        match number {
            Ok((value, left)) => uint64_merged(wire, buf@) == Some((value, left as nat)),
            Err(_) => uint64_merged(wire, buf@) is None,
        },
{
    let mut rest = buf;
    let mut value: u64 = 0;
    let wire_type = WireType::try_from(u64::from(wire))?;
    prost::encoding::uint64::merge(wire_type, &mut value, &mut rest, DecodeContext::default())?;
    Ok((value, rest.len()))
}

/// Calls `prost::encoding::string::merge` on `buf`, for a field whose wire
/// type has the code `wire`. The claim: the result is a function of the
/// code and the bytes alone, and what follows the text is part of `buf`.
#[verifier::external_body]
pub(crate) fn merge_string(wire: u8, buf: &[u8]) -> (text: Result<(String, usize), DecodeError>)
    ensures
        match text {
            Ok((value, left)) => string_merged(wire, buf@) == Some((value@, left as nat)) && left
                <= buf@.len(),
            Err(_) => string_merged(wire, buf@) is None,
        },
{
    let mut rest = buf;
    let mut value = String::new();
    let wire_type = WireType::try_from(u64::from(wire))?;
    prost::encoding::string::merge(wire_type, &mut value, &mut rest, DecodeContext::default())?;
    Ok((value, rest.len()))
}

/// Calls `prost::encoding::skip_field` on `buf`, for a field of number
/// `tag` whose wire type has the code `wire`. The claim: the result is a
/// function of the code, the number and the bytes alone, and what follows
/// the field is part of `buf`.
#[verifier::external_body]
pub(crate) fn skip_field(wire: u8, tag: u32, buf: &[u8]) -> (left: Result<usize, DecodeError>)
    ensures
        match left {
            Ok(left) => field_skipped(wire, tag, buf@) == Some(left as nat) && left <= buf@.len(),
            Err(_) => field_skipped(wire, tag, buf@) is None,
        },
{
    let mut rest = buf;
    let wire_type = WireType::try_from(u64::from(wire))?;
    prost::encoding::skip_field(wire_type, tag, &mut rest, DecodeContext::default())?;
    Ok(rest.len())
}

/// Calls `prost::encoding::uint64::encode`, which appends to `buf` the
/// field of number `tag` with the unsigned integer `value`. The claim: the
/// bytes appended are the key and the value in variable-length encoding.
#[verifier::external_body]
pub(crate) fn encode_uint64(tag: u32, value: u64, buf: &mut Vec<u8>)
    requires
        1 <= tag <= MAX_TAG,
    ensures
        final(buf)@ == old(buf)@ + uint64_field(tag, value),
{
    prost::encoding::uint64::encode(tag, &value, buf);
}

} // verus!
