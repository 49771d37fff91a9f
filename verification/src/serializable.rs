//! Wire (de)serialization for the protocol's fixed-width unsigned integers
//! (little-endian) and for text carried as raw bytes.
use vstd::prelude::*;

verus! {

use vstd::bytes::{
    spec_u16_from_le_bytes, spec_u16_to_le_bytes, spec_u32_from_le_bytes, spec_u32_to_le_bytes,
    spec_u64_from_le_bytes, spec_u64_to_le_bytes, lemma_auto_spec_u16_to_from_le_bytes,
    lemma_auto_spec_u32_to_from_le_bytes, lemma_auto_spec_u64_to_from_le_bytes, u16_from_le_bytes,
    u16_to_le_bytes, u32_from_le_bytes, u32_to_le_bytes, u64_from_le_bytes, u64_to_le_bytes,
};
use vstd::slice::slice_subrange;
use vstd::string::StrSliceExecFns;

/// The characters obtained by widening each byte to one character, the
/// decoding rule for text read off the wire.
pub open spec fn widened_chars(bytes: Seq<u8>) -> Seq<char> {
    Seq::new(bytes.len(), |i: int| bytes[i] as char)
}

/// A value with a defined byte encoding on the wire transport.
///
/// `bytes` and `from_bytes` are mutual inverses on the supported width for
/// the fixed-width integer types; `from_bytes` reads only the leading
/// `min_len` bytes and the caller is responsible for supplying at least
/// that many.
pub trait Serializable: Sized {
    /// The byte sequence this value encodes to.
    spec fn wire_bytes(&self) -> Seq<u8>;

    /// The fewest bytes a decode needs (the fixed width for integers,
    /// zero for text, which consumes everything it is given).
    spec fn min_len() -> nat;

    /// Whether this value is the decoding of the given bytes.
    spec fn is_decoding_of(&self, bytes: Seq<u8>) -> bool;

    /// Encode the value.
    fn bytes(&self) -> (r: Vec<u8>)
        ensures
            r@ == self.wire_bytes(),
    ;

    /// Decode a value from the leading bytes of the given sequence.
    fn from_bytes(bytes: &Vec<u8>) -> (r: Self)
        requires
            bytes@.len() >= Self::min_len(),
        ensures
            r.is_decoding_of(bytes@),
    ;
}

impl Serializable for u8 {
    open spec fn wire_bytes(&self) -> Seq<u8> {
        seq![*self]
    }

    open spec fn min_len() -> nat {
        1
    }

    open spec fn is_decoding_of(&self, bytes: Seq<u8>) -> bool {
        *self == bytes[0]
    }

    fn bytes(&self) -> (r: Vec<u8>) {
        let mut v: Vec<u8> = Vec::new();
        v.push(*self);
        proof {
            assert(v@ =~= seq![*self]);
        }
        v
    }

    fn from_bytes(bytes: &Vec<u8>) -> (r: Self) {
        bytes[0]
    }
}

impl Serializable for u16 {
    open spec fn wire_bytes(&self) -> Seq<u8> {
        spec_u16_to_le_bytes(*self)
    }

    open spec fn min_len() -> nat {
        2
    }

    open spec fn is_decoding_of(&self, bytes: Seq<u8>) -> bool {
        *self == spec_u16_from_le_bytes(bytes.take(2))
    }

    fn bytes(&self) -> (r: Vec<u8>) {
        u16_to_le_bytes(*self)
    }

    fn from_bytes(bytes: &Vec<u8>) -> (r: Self) {
        let head = slice_subrange(bytes.as_slice(), 0, 2);
        u16_from_le_bytes(head)
    }
}

impl Serializable for u32 {
    open spec fn wire_bytes(&self) -> Seq<u8> {
        spec_u32_to_le_bytes(*self)
    }

    open spec fn min_len() -> nat {
        4
    }

    open spec fn is_decoding_of(&self, bytes: Seq<u8>) -> bool {
        *self == spec_u32_from_le_bytes(bytes.take(4))
    }

    fn bytes(&self) -> (r: Vec<u8>) {
        u32_to_le_bytes(*self)
    }

    fn from_bytes(bytes: &Vec<u8>) -> (r: Self) {
        let head = slice_subrange(bytes.as_slice(), 0, 4);
        u32_from_le_bytes(head)
    }
}

impl Serializable for u64 {
    open spec fn wire_bytes(&self) -> Seq<u8> {
        spec_u64_to_le_bytes(*self)
    }

    open spec fn min_len() -> nat {
        8
    }

    open spec fn is_decoding_of(&self, bytes: Seq<u8>) -> bool {
        *self == spec_u64_from_le_bytes(bytes.take(8))
    }

    fn bytes(&self) -> (r: Vec<u8>) {
        u64_to_le_bytes(*self)
    }

    fn from_bytes(bytes: &Vec<u8>) -> (r: Self) {
        let head = slice_subrange(bytes.as_slice(), 0, 8);
        u64_from_le_bytes(head)
    }
}

/// Relies on String::push, documented to append the given character to the
/// end of the string.
pub assume_specification[ String::push ](s: &mut String, ch: char)
    ensures
        final(s)@ == old(s)@.push(ch),
;

impl Serializable for String {
    /// Text goes out as its raw (UTF-8) bytes, with no length prefix.
    open spec fn wire_bytes(&self) -> Seq<u8> {
        vstd::utf8::encode_utf8(self@)
    }

    open spec fn min_len() -> nat {
        0
    }

    /// Decoding widens each byte to one character; this is lossy for
    /// non-ASCII text, an accepted limitation of the protocol core.
    open spec fn is_decoding_of(&self, bytes: Seq<u8>) -> bool {
        self@ == widened_chars(bytes)
    }

    fn bytes(&self) -> (r: Vec<u8>) {
        self.as_str().as_bytes_vec()
    }

    fn from_bytes(bytes: &Vec<u8>) -> (r: Self) {
        let mut s = String::new();
        let mut i: usize = 0;
        while i < bytes.len()
            invariant
                i <= bytes@.len(),
                s@ == widened_chars(bytes@.take(i as int)),
            decreases bytes@.len() - i,
        {
            s.push(bytes[i] as char);
            proof {
                assert(widened_chars(bytes@.take(i + 1)) =~= widened_chars(
                    bytes@.take(i as int),
                ).push(bytes@[i as int] as char));
            }
            i += 1;
        }
        proof {
            assert(bytes@.take(bytes@.len() as int) =~= bytes@);
        }
        s
    }
}

/// Law: decoding the one-byte encoding of a `u8` yields the value back.
pub proof fn lemma_u8_round_trip(v: u8, w: u8)
    requires
        w.is_decoding_of(v.wire_bytes()),
    ensures
        w == v,
{
}

/// Law: decoding the two-byte little-endian encoding of a `u16` yields the
/// value back.
pub proof fn lemma_u16_round_trip(v: u16, w: u16)
    requires
        w.is_decoding_of(v.wire_bytes()),
    ensures
        w == v,
{
    lemma_auto_spec_u16_to_from_le_bytes();
    assert(spec_u16_to_le_bytes(v).take(2) =~= spec_u16_to_le_bytes(v));
}

/// Law: decoding the four-byte little-endian encoding of a `u32` yields the
/// value back.
pub proof fn lemma_u32_round_trip(v: u32, w: u32)
    requires
        w.is_decoding_of(v.wire_bytes()),
    ensures
        w == v,
{
    lemma_auto_spec_u32_to_from_le_bytes();
    assert(spec_u32_to_le_bytes(v).take(4) =~= spec_u32_to_le_bytes(v));
}

/// Law: decoding the eight-byte little-endian encoding of a `u64` yields the
/// value back.
pub proof fn lemma_u64_round_trip(v: u64, w: u64)
    requires
        w.is_decoding_of(v.wire_bytes()),
    ensures
        w == v,
{
    lemma_auto_spec_u64_to_from_le_bytes();
    assert(spec_u64_to_le_bytes(v).take(8) =~= spec_u64_to_le_bytes(v));
}

} // verus!
