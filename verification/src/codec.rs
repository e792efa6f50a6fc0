//! The binary encoding of stored values: fixed-width, little-endian, deterministic.

use vstd::prelude::*;

verus! {

/// `bincode::ErrorKind`, the reason why bincode refused to encode or decode.
/// It is handed through unopened: nothing is claimed of what it holds.
#[verifier::external_type_specification]
#[verifier::external_body]
pub struct ExBincodeErrorKind(bincode::ErrorKind);

/// `256` to the power `width`: the number of values that `width` bytes can hold.
pub open spec fn radix(width: nat) -> nat
    decreases width,
{
    if width == 0 {
        1
    } else {
        256 * radix((width - 1) as nat)
    }
}

/// The `width` low bytes of `v`, least significant first.
pub open spec fn le_bytes(v: nat, width: nat) -> Seq<u8>
    decreases width,
{
    if width == 0 {
        Seq::empty()
    } else {
        seq![(v % 256) as u8] + le_bytes(v / 256, (width - 1) as nat)
    }
}

/// The number whose little-endian digits are `bytes`.
pub open spec fn le_value(bytes: Seq<u8>) -> nat
    decreases bytes.len(),
{
    if bytes.len() == 0 {
        0
    } else {
        bytes[0] as nat + 256 * le_value(bytes.skip(1))
    }
}

/// The integer that the first `width` bytes of `bytes` encode, if there are that many.
pub open spec fn le_prefix_value(bytes: Seq<u8>, width: nat) -> Option<nat> {
    if bytes.len() >= width {
        Some(le_value(bytes.take(width as int)))
    } else {
        None
    }
}

/// The number of values that one, two, four and eight bytes can hold.
pub proof fn lemma_radix_values()
    ensures
        radix(1) == 0x100,
        radix(2) == 0x1_0000,
        radix(4) == 0x1_0000_0000,
        radix(8) == 0x1_0000_0000_0000_0000,
{
    reveal_with_fuel(radix, 9);
}

/// More bytes hold more values.
pub proof fn lemma_radix_grows(small: nat, large: nat)
    requires
        small <= large,
    ensures
        radix(small) <= radix(large),
    decreases large,
{
    if small < large {
        lemma_radix_grows(small, (large - 1) as nat);
    }
}

/// The bytes of a number are as many as asked for.
pub proof fn lemma_le_bytes_len(v: nat, width: nat)
    ensures
        le_bytes(v, width).len() == width,
    decreases width,
{
    if width > 0 {
        lemma_le_bytes_len(v / 256, (width - 1) as nat);
    }
}

/// A number that fits in `width` bytes is the value of its own bytes.
pub proof fn lemma_le_round_trip(v: nat, width: nat)
    requires
        v < radix(width),
    ensures
        le_value(le_bytes(v, width)) == v,
    decreases width,
{
    if width > 0 {
        let rest = le_bytes(v / 256, (width - 1) as nat);
        let all = le_bytes(v, width);
        lemma_le_bytes_len(v, width);
        assert(all.skip(1) =~= rest);
        assert(v / 256 < radix((width - 1) as nat)) by (nonlinear_arith)
            requires
                v < 256 * radix((width - 1) as nat),
        ;
        lemma_le_round_trip(v / 256, (width - 1) as nat);
        assert(v % 256 + 256 * (v / 256) == v) by (nonlinear_arith);
    }
}

/// The bytes of an encoded value, as contracts speak of them.
pub type Encoding = Seq<u8>;

/// A value that can be stored: it has a byte encoding that decodes back to it.
///
/// `encodable`, `encoding`, `decoding` and `lemma_round_trip` are the model
/// that contracts speak of; they are never run.
pub trait Codec: Sized {
    /// Whether the value has an encoding at all.
    spec fn encodable(&self) -> bool;

    /// The bytes the value is stored as.
    spec fn encoding(&self) -> Encoding;

    /// The value that `bytes` stand for, if they stand for one.
    spec fn decoding(bytes: Encoding) -> Option<Self>;

    /// Decoding an encoded value gives the value back.
    proof fn lemma_round_trip(v: Self)
        requires
            v.encodable(),
        ensures
            Self::decoding(v.encoding()) == Some(v),
    ;

    fn encode(&self) -> (r: Option<Vec<u8>>)
        ensures
            r is Some <==> self.encodable(),
            r matches Some(bytes) ==> bytes@ == self.encoding(),
    ;

    fn decode(bytes: &[u8]) -> (r: Option<Self>)
        ensures
            r == Self::decoding(bytes@),
    ;
}

/// Calls `bincode::serialize` on a `u64`. With the fixed-width, little-endian
/// configuration of that function and a vector as the sink this always
/// succeeds, and gives the eight bytes of the number, least significant first.
#[verifier::external_body]
fn serialize_u64(v: u64) -> (r: Result<Vec<u8>, bincode::Error>)
    ensures
        r is Ok,
        r matches Ok(bytes) ==> bytes@ == le_bytes(v as nat, 8),
{
    bincode::serialize(&v)
}

/// Calls `bincode::deserialize` for a `u64`. It reads the first eight bytes as
/// a little-endian number, ignores what follows them, and fails exactly when
/// there are fewer than eight.
#[verifier::external_body]
fn deserialize_u64(bytes: &[u8]) -> (r: Result<u64, bincode::Error>)
    ensures
        r is Ok <==> bytes@.len() >= 8,
        r matches Ok(v) ==> le_prefix_value(bytes@, 8) == Some(v as nat),
{
    bincode::deserialize(bytes)
}

impl Codec for u64 {
    open spec fn encodable(&self) -> bool {
        true
    }

    open spec fn encoding(&self) -> Seq<u8> {
        le_bytes(*self as nat, 8)
    }

    open spec fn decoding(bytes: Seq<u8>) -> Option<u64> {
        match le_prefix_value(bytes, 8) {
            Some(v) => Some(v as u64),
            None => None,
        }
    }

    proof fn lemma_round_trip(v: u64) {
        lemma_radix_values();
        lemma_le_bytes_len(v as nat, 8);
        lemma_le_round_trip(v as nat, 8);
        assert(le_bytes(v as nat, 8).take(8) =~= le_bytes(v as nat, 8));
    }

    fn encode(&self) -> (r: Option<Vec<u8>>) {
        match serialize_u64(*self) {
            Ok(bytes) => Some(bytes),
            Err(_) => None,
        }
    }

    fn decode(bytes: &[u8]) -> (r: Option<u64>) {
        match deserialize_u64(bytes) {
            Ok(v) => Some(v),
            Err(_) => None,
        }
    }
}

/// Calls `bincode::serialize` on a `u32`: always succeeds, and gives the
/// four bytes of the number, least significant first.
#[verifier::external_body]
fn serialize_u32(v: u32) -> (r: Result<Vec<u8>, bincode::Error>)
    ensures
        r is Ok,
        r matches Ok(bytes) ==> bytes@ == le_bytes(v as nat, 4),
{
    bincode::serialize(&v)
}

/// Calls `bincode::deserialize` for a `u32`: reads the first four bytes as a
/// little-endian number, ignores what follows, and fails exactly when there
/// are fewer.
#[verifier::external_body]
fn deserialize_u32(bytes: &[u8]) -> (r: Result<u32, bincode::Error>)
    ensures
        r is Ok <==> bytes@.len() >= 4,
        r matches Ok(v) ==> le_prefix_value(bytes@, 4) == Some(v as nat),
{
    bincode::deserialize(bytes)
}

impl Codec for u32 {
    open spec fn encodable(&self) -> bool {
        true
    }

    open spec fn encoding(&self) -> Seq<u8> {
        le_bytes(*self as nat, 4)
    }

    open spec fn decoding(bytes: Seq<u8>) -> Option<u32> {
        match le_prefix_value(bytes, 4) {
            Some(v) => Some(v as u32),
            None => None,
        }
    }

    proof fn lemma_round_trip(v: u32) {
        lemma_radix_values();
        lemma_le_bytes_len(v as nat, 4);
        lemma_le_round_trip(v as nat, 4);
        assert(le_bytes(v as nat, 4).take(4) =~= le_bytes(v as nat, 4));
    }

    fn encode(&self) -> (r: Option<Vec<u8>>) {
        match serialize_u32(*self) {
            Ok(bytes) => Some(bytes),
            Err(_) => None,
        }
    }

    fn decode(bytes: &[u8]) -> (r: Option<u32>) {
        match deserialize_u32(bytes) {
            Ok(v) => Some(v),
            Err(_) => None,
        }
    }
}

/// Calls `bincode::serialize` on a `u16`: always succeeds, and gives the
/// two bytes of the number, least significant first.
#[verifier::external_body]
fn serialize_u16(v: u16) -> (r: Result<Vec<u8>, bincode::Error>)
    ensures
        r is Ok,
        r matches Ok(bytes) ==> bytes@ == le_bytes(v as nat, 2),
{
    bincode::serialize(&v)
}

/// Calls `bincode::deserialize` for a `u16`: reads the first two bytes as a
/// little-endian number, ignores what follows, and fails exactly when there
/// are fewer.
#[verifier::external_body]
fn deserialize_u16(bytes: &[u8]) -> (r: Result<u16, bincode::Error>)
    ensures
        r is Ok <==> bytes@.len() >= 2,
        r matches Ok(v) ==> le_prefix_value(bytes@, 2) == Some(v as nat),
{
    bincode::deserialize(bytes)
}

impl Codec for u16 {
    open spec fn encodable(&self) -> bool {
        true
    }

    open spec fn encoding(&self) -> Seq<u8> {
        le_bytes(*self as nat, 2)
    }

    open spec fn decoding(bytes: Seq<u8>) -> Option<u16> {
        match le_prefix_value(bytes, 2) {
            Some(v) => Some(v as u16),
            None => None,
        }
    }

    proof fn lemma_round_trip(v: u16) {
        lemma_radix_values();
        lemma_le_bytes_len(v as nat, 2);
        lemma_le_round_trip(v as nat, 2);
        assert(le_bytes(v as nat, 2).take(2) =~= le_bytes(v as nat, 2));
    }

    fn encode(&self) -> (r: Option<Vec<u8>>) {
        match serialize_u16(*self) {
            Ok(bytes) => Some(bytes),
            Err(_) => None,
        }
    }

    fn decode(bytes: &[u8]) -> (r: Option<u16>) {
        match deserialize_u16(bytes) {
            Ok(v) => Some(v),
            Err(_) => None,
        }
    }
}

/// Calls `bincode::serialize` on a `u8`: always succeeds, and gives the
/// one byte of the number, least significant first.
#[verifier::external_body]
fn serialize_u8(v: u8) -> (r: Result<Vec<u8>, bincode::Error>)
    ensures
        r is Ok,
        r matches Ok(bytes) ==> bytes@ == le_bytes(v as nat, 1),
{
    bincode::serialize(&v)
}

/// Calls `bincode::deserialize` for a `u8`: reads the first one byte as a
/// little-endian number, ignores what follows, and fails exactly when there
/// are fewer.
#[verifier::external_body]
fn deserialize_u8(bytes: &[u8]) -> (r: Result<u8, bincode::Error>)
    ensures
        r is Ok <==> bytes@.len() >= 1,
        r matches Ok(v) ==> le_prefix_value(bytes@, 1) == Some(v as nat),
{
    bincode::deserialize(bytes)
}

impl Codec for u8 {
    open spec fn encodable(&self) -> bool {
        true
    }

    open spec fn encoding(&self) -> Seq<u8> {
        le_bytes(*self as nat, 1)
    }

    open spec fn decoding(bytes: Seq<u8>) -> Option<u8> {
        match le_prefix_value(bytes, 1) {
            Some(v) => Some(v as u8),
            None => None,
        }
    }

    proof fn lemma_round_trip(v: u8) {
        lemma_radix_values();
        lemma_le_bytes_len(v as nat, 1);
        lemma_le_round_trip(v as nat, 1);
        assert(le_bytes(v as nat, 1).take(1) =~= le_bytes(v as nat, 1));
    }

    fn encode(&self) -> (r: Option<Vec<u8>>) {
        match serialize_u8(*self) {
            Ok(bytes) => Some(bytes),
            Err(_) => None,
        }
    }

    fn decode(bytes: &[u8]) -> (r: Option<u8>) {
        match deserialize_u8(bytes) {
            Ok(v) => Some(v),
            Err(_) => None,
        }
    }
}

/// The byte a truth value is stored as.
pub open spec fn bool_byte(v: bool) -> u8 {
    if v {
        1
    } else {
        0
    }
}

/// The truth value that the first byte of `bytes` encodes, if it encodes one.
pub open spec fn bool_prefix(bytes: Seq<u8>) -> Option<bool> {
    if bytes.len() >= 1 && bytes[0] <= 1 {
        Some(bytes[0] == 1)
    } else {
        None
    }
}

/// Calls `bincode::serialize` on a `bool`: always succeeds, and gives one
/// byte, `1` for `true` and `0` for `false`.
#[verifier::external_body]
fn serialize_bool(v: bool) -> (r: Result<Vec<u8>, bincode::Error>)
    ensures
        r is Ok,
        r matches Ok(bytes) ==> bytes@ == seq![bool_byte(v)],
{
    bincode::serialize(&v)
}

/// Calls `bincode::deserialize` for a `bool`: reads the first byte, ignores
/// what follows, and fails when there is no byte or the byte is neither `0`
/// nor `1`.
#[verifier::external_body]
fn deserialize_bool(bytes: &[u8]) -> (r: Result<bool, bincode::Error>)
    ensures
        r is Ok <==> bool_prefix(bytes@) is Some,
        r matches Ok(v) ==> bool_prefix(bytes@) == Some(v),
{
    bincode::deserialize(bytes)
}

impl Codec for bool {
    open spec fn encodable(&self) -> bool {
        true
    }

    open spec fn encoding(&self) -> Seq<u8> {
        seq![bool_byte(*self)]
    }

    open spec fn decoding(bytes: Seq<u8>) -> Option<bool> {
        bool_prefix(bytes)
    }

    proof fn lemma_round_trip(v: bool) {
    }

    fn encode(&self) -> (r: Option<Vec<u8>>) {
        match serialize_bool(*self) {
            Ok(bytes) => Some(bytes),
            Err(_) => None,
        }
    }

    fn decode(bytes: &[u8]) -> (r: Option<bool>) {
        match deserialize_bool(bytes) {
            Ok(v) => Some(v),
            Err(_) => None,
        }
    }
}

} // verus!
