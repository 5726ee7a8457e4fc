use vstd::prelude::*;

use crate::error::BngError;
use crate::value::{canonical, check_wire_sized, wire_sized, MsgValue, MsgView};

verus! {

/// How deep a value may nest before the codec refuses it. Conservative: the
/// deserializer's own recursion budget is an order of magnitude larger.
pub const VALUE_DEPTH_LIMIT: u32 = 100;

/// The exact byte string the serializer produces for a value. Deterministic:
/// the encoding is self-describing and canonical given the value alone.
pub uninterp spec fn msgpack_bytes(v: MsgView) -> Seq<u8>;

/// The value the deserializer reads back from a byte string (from a prefix of
/// it; trailing bytes are ignored), or nothing where the bytes do not begin
/// with a well-formed value of the supported kinds.
pub uninterp spec fn msgpack_value(b: Seq<u8>) -> Option<MsgView>;

/// Converts a library value into the serializer's tree, one constructor per
/// variant. Trusted glue with no contract of its own; its callers' contracts
/// name the composite results.
#[verifier::external_body]
fn to_wire(v: &MsgValue) -> rmpv::Value {
    match v {
        MsgValue::Null => rmpv::Value::Nil,
        MsgValue::Bool(b) => rmpv::Value::Boolean(*b),
        MsgValue::UInt(u) => rmpv::Value::from(*u),
        MsgValue::Int(i) => rmpv::Value::from(*i),
        MsgValue::Float(bits) => float_wire(*bits),
        MsgValue::Text(s) => rmpv::Value::String(s.clone().into()),
        MsgValue::Bin(b) => rmpv::Value::Binary(b.clone()),
        MsgValue::Arr(items) => rmpv::Value::Array(items.iter().map(to_wire).collect()),
        MsgValue::Dict(pairs) => rmpv::Value::Map(pairs.iter().map(|p| (to_wire(&p.0), to_wire(&p.1))).collect()),
    }
}

/// Relies on rmpv::decode::read_value: builds the float value for a bit
/// pattern by reading its nine-byte wire form back, since this library's
/// sources carry floats as bits and name no float type.
#[verifier::external_body]
fn float_wire(bits: u64) -> rmpv::Value {
    let mut b: Vec<u8> = Vec::with_capacity(9);
    b.push(0xcb);
    b.extend_from_slice(&bits.to_be_bytes());
    let mut cursor = b.as_slice();
    rmpv::decode::read_value(&mut cursor).unwrap_or(rmpv::Value::Nil)
}

/// Converts the serializer's integer: the unsigned spelling where it fits,
/// else the (negative) signed one. Trusted glue for [`from_wire`].
#[verifier::external_body]
fn int_wire(n: &rmpv::Integer) -> Option<MsgValue> {
    n.as_u64().map(MsgValue::UInt).or(n.as_i64().map(MsgValue::Int))
}

/// Converts the serializer's text: native text where it is valid UTF-8, else
/// its raw bytes. Trusted glue for [`from_wire`].
#[verifier::external_body]
fn text_wire(s: &rmpv::Utf8String) -> MsgValue {
    s.as_str().map_or(MsgValue::Bin(s.as_bytes().to_vec()), |t| MsgValue::Text(t.to_owned()))
}

/// Converts a list of the serializer's values; trusted glue for
/// [`from_wire`].
#[verifier::external_body]
fn from_wire_list(items: &[rmpv::Value]) -> Option<Vec<MsgValue>> {
    items.iter().map(from_wire).collect()
}

/// Converts a list of the serializer's pairs; trusted glue for
/// [`from_wire`].
#[verifier::external_body]
fn from_wire_pairs(pairs: &[(rmpv::Value, rmpv::Value)]) -> Option<Vec<(MsgValue, MsgValue)>> {
    pairs.iter().map(|p| Some((from_wire(&p.0)?, from_wire(&p.1)?))).collect()
}

/// Converts the serializer's tree back into a library value, one arm per
/// variant: non-negative integers become the unsigned spelling, a 32-bit
/// float widens exactly to 64 bits of the same value, text that is not valid
/// UTF-8 keeps its bytes, and the extension type is not part of the message
/// model, so it refuses the value. Trusted glue with no contract of its own.
#[verifier::external_body]
fn from_wire(v: &rmpv::Value) -> Option<MsgValue> {
    match v {
        rmpv::Value::Nil => Some(MsgValue::Null),
        rmpv::Value::Boolean(b) => Some(MsgValue::Bool(*b)),
        rmpv::Value::Integer(n) => int_wire(n),
        rmpv::Value::F32(_) | rmpv::Value::F64(_) => Some(MsgValue::Float(v.as_f64()?.to_bits())),
        rmpv::Value::String(s) => Some(text_wire(s)),
        rmpv::Value::Binary(b) => Some(MsgValue::Bin(b.clone())),
        rmpv::Value::Array(items) => Some(MsgValue::Arr(from_wire_list(items)?)),
        rmpv::Value::Map(pairs) => Some(MsgValue::Dict(from_wire_pairs(pairs)?)),
        rmpv::Value::Ext(_, _) => None,
    }
}

/// Relies on rmpv::encode::write_value: a size-checked value serializes to
/// its canonical byte string, and writing into a byte vector cannot fail.
/// Reading those bytes back yields the value again, save that non-negative
/// integers come back in the unsigned spelling — whence the canonicality
/// condition on the round trip.
#[verifier::external_body]
fn rmpv_encode(v: &MsgValue) -> (r: Vec<u8>)
    requires
        wire_sized(v@, VALUE_DEPTH_LIMIT as int),
    ensures
        r@ == msgpack_bytes(v@),
        canonical(v@) ==> msgpack_value(r@) == Some(v@),
{
    let mut buf: Vec<u8> = Vec::new();
    let _ = rmpv::encode::write_value(&mut buf, &to_wire(v));
    buf
}

/// Relies on rmpv::decode::read_value: reads one value off the front of the
/// bytes, failing exactly on input it does not accept (malformed bytes, a
/// truncated value, nesting beyond its recursion budget, or the extension
/// type); a read value is always canonical.
#[verifier::external_body]
fn rmpv_decode(b: &Vec<u8>) -> (r: Result<MsgValue, String>)
    ensures
        r is Ok <==> msgpack_value(b@) is Some,
        r is Ok ==> r->Ok_0@ == msgpack_value(b@)->0,
        r is Ok ==> canonical(r->Ok_0@),
{
    let mut cursor = b.as_slice();
    match rmpv::decode::read_value(&mut cursor) {
        Ok(v) => from_wire(&v).ok_or_else(|| "unsupported wire value".to_owned()),
        Err(e) => Err(e.to_string()),
    }
}

/// Serialize a message value to its self-describing byte form.
///
/// Succeeds exactly on values whose parts fit the wire format's size fields
/// and whose nesting stays within [`VALUE_DEPTH_LIMIT`]; anything else is an
/// encode failure. Encoding is deterministic given the value, and what it
/// writes, [`decode_message`] reads back: the canonical value equal to the
/// input on every canonical input.
pub fn encode_message(v: &MsgValue) -> (r: Result<Vec<u8>, BngError>)
    ensures
        r is Ok <==> wire_sized(v@, VALUE_DEPTH_LIMIT as int),
        r is Ok ==> r->Ok_0@ == msgpack_bytes(v@),
        r is Ok && canonical(v@) ==> msgpack_value(r->Ok_0@) == Some(v@),
        r is Err ==> r->Err_0 is MsgpackEncode,
{
    if check_wire_sized(v, VALUE_DEPTH_LIMIT) {
        Ok(rmpv_encode(v))
    } else {
        Err(BngError::MsgpackEncode("value too large or too deeply nested".to_owned()))
    }
}

/// Deserialize a message value from bytes.
///
/// Accepts any conforming byte sequence — one that begins with a well-formed
/// value of the supported kinds — and fails with a decode-error condition
/// otherwise. The result is canonical: non-negative integers use the unsigned
/// spelling.
pub fn decode_message(b: &Vec<u8>) -> (r: Result<MsgValue, BngError>)
    ensures
        r is Ok <==> msgpack_value(b@) is Some,
        r is Ok ==> r->Ok_0@ == msgpack_value(b@)->0,
        r is Ok ==> canonical(r->Ok_0@),
        r is Err ==> r->Err_0 is MsgpackDecode,
{
    match rmpv_decode(b) {
        Ok(v) => Ok(v),
        Err(e) => Err(BngError::MsgpackDecode(e)),
    }
}

} // verus!
