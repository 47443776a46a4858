//! The wire codec's vocabulary: the traits of values that have a fixed-width
//! wire form, and the little-endian layout of the fields in it.

use crate::error::ProtocolError;
use vstd::prelude::*;

verus! {

/// Marks a type as the wire form that some value serializes to.
pub trait SerializationTag {
    /// The bytes of the wire form.
    spec fn bytes(&self) -> Seq<u8>;
}

/// Marks a type as the value that some wire form deserializes to.
pub trait DeserializationTag {

}

/// A value with a fixed-width wire form.
pub trait BytesSer {
    /// The wire form.
    type SerTag: SerializationTag;

    /// The value is one that travels on the wire.
    spec fn on_wire(&self) -> bool;

    /// The bytes that the value travels as.
    spec fn wire_form(&self) -> Seq<u8>;

    /// The wire form of the value.
    fn serialize(&self) -> (tag: Self::SerTag)
        requires
            self.on_wire(),
        ensures
            tag.bytes() == self.wire_form(),
    ;
}

/// A value that can be read back from its wire form.
pub trait BytesDeser: BytesSer {
    /// The value read back.
    type DeserTag: DeserializationTag;

    /// The value that bytes stand for, or the reason why they stand for none.
    spec fn read_form(bytes: Seq<u8>) -> Result<Self::DeserTag, ProtocolError>;

    /// Reads a value from a wire form, or refuses the form.
    fn deserialize(tag: &Self::SerTag) -> (r: Result<Self::DeserTag, ProtocolError>)
        ensures
            r == Self::read_form(tag.bytes()),
    ;
}

/// A value whose wire form can be had as a vector of bytes.
pub trait AsBytes: BytesDeser {
    /// The wire form, byte for byte.
    fn as_bytes(&self) -> (bytes: Vec<u8>)
        requires
            self.on_wire(),
        ensures
            bytes@ == self.wire_form(),
    ;
}

/// Byte `i` of `val`, counting from the least significant.
pub open spec fn le_byte(val: u64, i: int) -> u8 {
    ((val >> ((8 * i) as u64)) & 0xff) as u8
}

/// The eight bytes of `val`, least significant first.
pub open spec fn le_bytes(val: u64) -> Seq<u8> {
    Seq::new(8, |i: int| le_byte(val, i))
}

/// The four bytes of `val`, least significant first.
pub open spec fn le_bytes4(val: u32) -> Seq<u8> {
    Seq::new(4, |i: int| le_byte(val as u64, i))
}

/// The value whose bytes, least significant first, are the first `n` of `s`.
pub open spec fn le_value(s: Seq<u8>, n: nat) -> u64
    decreases n,
{
    if n == 0 {
        0
    } else {
        le_value(s, (n - 1) as nat) ^ ((s[n - 1] as u64) << ((8 * (n - 1)) as u64))
    }
}

/// The 64-bit field that a wire form holds from offset `at` on.
pub open spec fn field(tag: Seq<u8>, at: int) -> u64 {
    le_value(tag.subrange(at, at + 8), 8)
}

/// The 32-bit field that a wire form holds from offset `at` on.
pub open spec fn field4(tag: Seq<u8>, at: int) -> u32 {
    le_value(tag.subrange(at, at + 4), 4) as u32
}

/// `n` bytes of zero.
pub open spec fn zeros(n: nat) -> Seq<u8> {
    Seq::new(n, |i: int| 0u8)
}

/// Exclusive or is associative.
pub proof fn lemma_xor_assoc(a: u64, b: u64, c: u64)
    ensures
        (a ^ b) ^ c == a ^ (b ^ c),
{
    assert((a ^ b) ^ c == a ^ (b ^ c)) by (bit_vector);
}

/// Exclusive or with zero changes nothing.
pub proof fn lemma_xor_zero(a: u64, b: u8)
    ensures
        0u64 ^ a == a,
        a ^ 0u64 == a,
        0u8 ^ b == b,
        b ^ 0u8 == b,
{
    assert(0u64 ^ a == a && a ^ 0u64 == a) by (bit_vector);
    assert(0u8 ^ b == b && b ^ 0u8 == b) by (bit_vector);
}

/// The eight bytes of a value give the value back.
pub proof fn lemma_le_value_of_bytes(val: u64)
    ensures
        le_value(le_bytes(val), 8) == val,
{
    reveal_with_fuel(le_value, 9);
    let b0 = le_byte(val, 0);
    let b1 = le_byte(val, 1);
    let b2 = le_byte(val, 2);
    let b3 = le_byte(val, 3);
    let b4 = le_byte(val, 4);
    let b5 = le_byte(val, 5);
    let b6 = le_byte(val, 6);
    let b7 = le_byte(val, 7);
    assert(((((((((0u64 ^ ((b0 as u64) << 0u64)) ^ ((b1 as u64) << 8u64)) ^ ((b2 as u64) << 16u64))
        ^ ((b3 as u64) << 24u64)) ^ ((b4 as u64) << 32u64)) ^ ((b5 as u64) << 40u64)) ^ ((b6 as u64)
        << 48u64)) ^ ((b7 as u64) << 56u64)) == val) by (bit_vector)
        requires
            b0 == ((val >> 0u64) & 0xff) as u8,
            b1 == ((val >> 8u64) & 0xff) as u8,
            b2 == ((val >> 16u64) & 0xff) as u8,
            b3 == ((val >> 24u64) & 0xff) as u8,
            b4 == ((val >> 32u64) & 0xff) as u8,
            b5 == ((val >> 40u64) & 0xff) as u8,
            b6 == ((val >> 48u64) & 0xff) as u8,
            b7 == ((val >> 56u64) & 0xff) as u8,
    ;
}

/// The bytes of a value are its digits to the base 256, least significant
/// first.
pub proof fn lemma_le_bytes_are_digits(val: u64)
    ensures
        val == le_byte(val, 0) + 0x100 * le_byte(val, 1) + 0x1_0000 * le_byte(val, 2) + 0x100_0000
            * le_byte(val, 3) + 0x1_0000_0000 * le_byte(val, 4) + 0x100_0000_0000 * le_byte(val, 5)
            + 0x1_0000_0000_0000 * le_byte(val, 6) + 0x100_0000_0000_0000 * le_byte(val, 7),
{
    let b0 = le_byte(val, 0);
    let b1 = le_byte(val, 1);
    let b2 = le_byte(val, 2);
    let b3 = le_byte(val, 3);
    let b4 = le_byte(val, 4);
    let b5 = le_byte(val, 5);
    let b6 = le_byte(val, 6);
    let b7 = le_byte(val, 7);
    assert(val == b0 + 0x100 * b1 + 0x1_0000 * b2 + 0x100_0000 * b3 + 0x1_0000_0000 * b4
        + 0x100_0000_0000 * b5 + 0x1_0000_0000_0000 * b6 + 0x100_0000_0000_0000 * b7)
        by (bit_vector)
        requires
            b0 == ((val >> 0u64) & 0xff) as u8,
            b1 == ((val >> 8u64) & 0xff) as u8,
            b2 == ((val >> 16u64) & 0xff) as u8,
            b3 == ((val >> 24u64) & 0xff) as u8,
            b4 == ((val >> 32u64) & 0xff) as u8,
            b5 == ((val >> 40u64) & 0xff) as u8,
            b6 == ((val >> 48u64) & 0xff) as u8,
            b7 == ((val >> 56u64) & 0xff) as u8,
    ;
}

/// The value of eight bytes is the number that they write to the base 256,
/// least significant first.
pub proof fn lemma_le_value_is_positional(s: Seq<u8>)
    ensures
        le_value(s, 8) == s[0] + 0x100 * s[1] + 0x1_0000 * s[2] + 0x100_0000 * s[3] + 0x1_0000_0000
            * s[4] + 0x100_0000_0000 * s[5] + 0x1_0000_0000_0000 * s[6] + 0x100_0000_0000_0000
            * s[7],
{
    reveal_with_fuel(le_value, 9);
    let b0 = s[0];
    let b1 = s[1];
    let b2 = s[2];
    let b3 = s[3];
    let b4 = s[4];
    let b5 = s[5];
    let b6 = s[6];
    let b7 = s[7];
    assert(((((((((0u64 ^ ((b0 as u64) << 0u64)) ^ ((b1 as u64) << 8u64)) ^ ((b2 as u64) << 16u64))
        ^ ((b3 as u64) << 24u64)) ^ ((b4 as u64) << 32u64)) ^ ((b5 as u64) << 40u64)) ^ ((b6 as u64)
        << 48u64)) ^ ((b7 as u64) << 56u64)) == b0 + 0x100 * b1 + 0x1_0000 * b2 + 0x100_0000 * b3
        + 0x1_0000_0000 * b4 + 0x100_0000_0000 * b5 + 0x1_0000_0000_0000 * b6
        + 0x100_0000_0000_0000 * b7) by (bit_vector);
}

/// The four bytes of a 32-bit value give the value back.
pub proof fn lemma_le_value_of_bytes4(val: u32)
    ensures
        le_value(le_bytes4(val), 4) == val,
{
    reveal_with_fuel(le_value, 5);
    let wide = val as u64;
    let b0 = le_byte(wide, 0);
    let b1 = le_byte(wide, 1);
    let b2 = le_byte(wide, 2);
    let b3 = le_byte(wide, 3);
    assert(((((0u64 ^ ((b0 as u64) << 0u64)) ^ ((b1 as u64) << 8u64)) ^ ((b2 as u64) << 16u64)) ^ ((
    b3 as u64) << 24u64)) == wide) by (bit_vector)
        requires
            wide <= 0xffff_ffff,
            b0 == ((wide >> 0u64) & 0xff) as u8,
            b1 == ((wide >> 8u64) & 0xff) as u8,
            b2 == ((wide >> 16u64) & 0xff) as u8,
            b3 == ((wide >> 24u64) & 0xff) as u8,
    ;
}

/// A field that lies in a wire form between a prefix and a suffix is read
/// back from its offset.
pub proof fn lemma_field_at(before: Seq<u8>, val: u64, after: Seq<u8>)
    ensures
        field(before + le_bytes(val) + after, before.len() as int) == val,
{
    let tag = before + le_bytes(val) + after;
    let at = before.len() as int;
    assert(tag.subrange(at, at + 8) =~= le_bytes(val));
    lemma_le_value_of_bytes(val);
}

/// A 32-bit field that lies in a wire form between a prefix and a suffix is
/// read back from its offset.
pub proof fn lemma_field4_at(before: Seq<u8>, val: u32, after: Seq<u8>)
    ensures
        field4(before + le_bytes4(val) + after, before.len() as int) == val,
{
    let tag = before + le_bytes4(val) + after;
    let at = before.len() as int;
    assert(tag.subrange(at, at + 4) =~= le_bytes4(val));
    lemma_le_value_of_bytes4(val);
}

/// Folds the eight bytes of `val`, least significant first, into the bytes of
/// `tag` from offset `idx` on, by exclusive or. On bytes of zero this writes
/// the field.
pub fn xor_u64_into<const N: usize>(tag: &mut [u8; N], idx: usize, val: u64)
    requires
        idx + 8 <= N,
    ensures
        forall|k: int|
            0 <= k < N ==> #[trigger] final(tag)@[k] == (if idx <= k < idx + 8 {
                old(tag)@[k] ^ le_byte(val, k - idx)
            } else {
                old(tag)@[k]
            }),
{
    let mut i: usize = 0;
    while i < 8
        invariant
            i <= 8,
            idx + 8 <= N,
            forall|k: int|
                0 <= k < N ==> #[trigger] tag@[k] == (if idx <= k < idx + i {
                    old(tag)@[k] ^ le_byte(val, k - idx)
                } else {
                    old(tag)@[k]
                }),
        decreases 8 - i,
    {
        let shifted: u64 = val >> ((8 * i) as u64);
        let low: u64 = shifted & 0xff;
        assert(low < 256) by (bit_vector)
            requires
                low == shifted & 0xff,
        ;
        let b: u8 = low as u8;
        tag[i + idx] = tag[i + idx] ^ b;
        i = i + 1;
    }
}

/// Folds the 64-bit field that `tag` holds from offset `idx` on into `val`,
/// by exclusive or. On a `val` of zero this reads the field.
pub fn xor_u64_from<const N: usize>(tag: &[u8; N], idx: usize, val: &mut u64)
    requires
        idx + 8 <= N,
    ensures
        *final(val) == *old(val) ^ field(tag@, idx as int),
{
    let ghost bytes = tag@.subrange(idx as int, idx + 8);
    let mut i: usize = 0;
    proof {
        lemma_xor_zero(*val, 0);
    }
    while i < 8
        invariant
            i <= 8,
            idx + 8 <= N,
            bytes == tag@.subrange(idx as int, idx + 8),
            *val == *old(val) ^ le_value(bytes, i as nat),
        decreases 8 - i,
    {
        let term: u64 = (tag[i + idx] as u64) << ((8 * i) as u64);
        proof {
            lemma_xor_assoc(*old(val), le_value(bytes, i as nat), term);
        }
        *val = *val ^ term;
        i = i + 1;
    }
}

/// A value of four bytes fits in 32 bits.
pub proof fn lemma_le_value4_fits(s: Seq<u8>)
    ensures
        le_value(s, 4) <= 0xffff_ffff,
{
    reveal_with_fuel(le_value, 5);
    let b0 = s[0];
    let b1 = s[1];
    let b2 = s[2];
    let b3 = s[3];
    assert(((((0u64 ^ ((b0 as u64) << 0u64)) ^ ((b1 as u64) << 8u64)) ^ ((b2 as u64) << 16u64)) ^ ((
    b3 as u64) << 24u64)) <= 0xffff_ffff) by (bit_vector);
}

/// Folds the four bytes of `val`, least significant first, into the bytes of
/// `tag` from offset `idx` on, by exclusive or.
pub fn xor_u32_into<const N: usize>(tag: &mut [u8; N], idx: usize, val: u32)
    requires
        idx + 4 <= N,
    ensures
        forall|k: int|
            0 <= k < N ==> #[trigger] final(tag)@[k] == (if idx <= k < idx + 4 {
                old(tag)@[k] ^ le_byte(val as u64, k - idx)
            } else {
                old(tag)@[k]
            }),
{
    let wide: u64 = val as u64;
    let mut i: usize = 0;
    while i < 4
        invariant
            i <= 4,
            idx + 4 <= N,
            wide == val,
            forall|k: int|
                0 <= k < N ==> #[trigger] tag@[k] == (if idx <= k < idx + i {
                    old(tag)@[k] ^ le_byte(wide, k - idx)
                } else {
                    old(tag)@[k]
                }),
        decreases 4 - i,
    {
        let shifted: u64 = wide >> ((8 * i) as u64);
        let low: u64 = shifted & 0xff;
        assert(low < 256) by (bit_vector)
            requires
                low == shifted & 0xff,
        ;
        let b: u8 = low as u8;
        tag[i + idx] = tag[i + idx] ^ b;
        i = i + 1;
    }
}

/// Folds the 32-bit field that `tag` holds from offset `idx` on into `val`,
/// by exclusive or.
pub fn xor_u32_from<const N: usize>(tag: &[u8; N], idx: usize, val: &mut u32)
    requires
        idx + 4 <= N,
    ensures
        *final(val) == *old(val) ^ field4(tag@, idx as int),
{
    let ghost bytes = tag@.subrange(idx as int, idx + 4);
    let mut acc: u64 = 0;
    let mut i: usize = 0;
    while i < 4
        invariant
            i <= 4,
            idx + 4 <= N,
            bytes == tag@.subrange(idx as int, idx + 4),
            acc == le_value(bytes, i as nat),
        decreases 4 - i,
    {
        let term: u64 = (tag[i + idx] as u64) << ((8 * i) as u64);
        acc = acc ^ term;
        i = i + 1;
    }
    proof {
        lemma_le_value4_fits(bytes);
    }
    *val = *val ^ (acc as u32);
}

} // verus!
