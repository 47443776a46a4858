//! Requests, as the client frames them for the server: one tag byte and up to
//! three 64-bit fields, 25 bytes in all.

use crate::codec::{
    field, le_bytes, lemma_field_at, lemma_xor_zero, xor_u64_from, xor_u64_into, zeros, AsBytes,
    BytesDeser, BytesSer, DeserializationTag, SerializationTag,
};
use crate::error::ProtocolError;
use vstd::prelude::*;

verus! {

/// The wire form of a [`Frame`]: the tag byte, then 24 bytes of fields.
pub type FrameSerTag = [u8; 25];

/// A request from a client.
#[derive(Debug, Clone, Copy, PartialEq, Eq, Structural)]
pub enum Frame {
    /// Solve the discrete logarithm of `h` to the base `g` modulo `p`.
    Log { g: u64, h: u64, p: u64 },
    /// Factor the modulus `n` of a public key with exponent `e`.
    RSA { n: u64, e: u64 },
    /// Test whether `p` is prime.
    Prime { p: u64 },
    /// Leave.
    Quit,
}

impl SerializationTag for FrameSerTag {
    open spec fn bytes(&self) -> Seq<u8> {
        self@
    }
}

impl DeserializationTag for Frame {

}

impl Frame {
    /// The 25 bytes of a frame: the tag, then the fields in their order, each
    /// least significant byte first, then zeros.
    pub open spec fn wire(self) -> Seq<u8> {
        match self {
            Frame::Log { g, h, p } => seq![1u8] + le_bytes(g) + le_bytes(h) + le_bytes(p),
            Frame::RSA { n, e } => seq![2u8] + le_bytes(n) + le_bytes(e) + zeros(8),
            Frame::Prime { p } => seq![3u8] + le_bytes(p) + zeros(16),
            Frame::Quit => seq![4u8] + zeros(24),
        }
    }

    /// The frame that 25 bytes stand for, or the tag byte that names none.
    pub open spec fn parse(tag: Seq<u8>) -> Result<Frame, ProtocolError> {
        if tag[0] == 1 {
            Ok(Frame::Log { g: field(tag, 1), h: field(tag, 9), p: field(tag, 17) })
        } else if tag[0] == 2 {
            Ok(Frame::RSA { n: field(tag, 1), e: field(tag, 9) })
        } else if tag[0] == 3 {
            Ok(Frame::Prime { p: field(tag, 1) })
        } else if tag[0] == 4 {
            Ok(Frame::Quit)
        } else {
            Err(ProtocolError::UnknownTag { tag: tag[0] })
        }
    }

    /// Every frame is read back from its wire form, which is 25 bytes long.
    pub proof fn lemma_round_trip(self)
        ensures
            self.wire().len() == 25,
            Frame::parse(self.wire()) == Ok::<Frame, ProtocolError>(self),
    {
        match self {
            Frame::Log { g, h, p } => {
                lemma_field_at(seq![1u8], g, le_bytes(h) + le_bytes(p));
                lemma_field_at(seq![1u8] + le_bytes(g), h, le_bytes(p));
                lemma_field_at(seq![1u8] + le_bytes(g) + le_bytes(h), p, Seq::empty());
                assert(seq![1u8] + le_bytes(g) + (le_bytes(h) + le_bytes(p)) =~= self.wire());
                assert(seq![1u8] + le_bytes(g) + le_bytes(h) + le_bytes(p) + Seq::empty()
                    =~= self.wire());
            },
            Frame::RSA { n, e } => {
                lemma_field_at(seq![2u8], n, le_bytes(e) + zeros(8));
                lemma_field_at(seq![2u8] + le_bytes(n), e, zeros(8));
                assert(seq![2u8] + le_bytes(n) + (le_bytes(e) + zeros(8)) =~= self.wire());
            },
            Frame::Prime { p } => {
                lemma_field_at(seq![3u8], p, zeros(16));
            },
            Frame::Quit => {},
        }
    }

    /// Folds the bytes of `val` into the eight bytes of `tag` from `idx` on,
    /// least significant first, by exclusive or.
    pub fn serialize_8_bytes(tag: &mut FrameSerTag, idx: usize, val: u64)
        requires
            idx + 8 <= 25,
        ensures
            forall|k: int|
                0 <= k < 25 ==> #[trigger] final(tag)@[k] == (if idx <= k < idx + 8 {
                    old(tag)@[k] ^ crate::codec::le_byte(val, k - idx)
                } else {
                    old(tag)@[k]
                }),
    {
        xor_u64_into(tag, idx, val);
    }

    /// Folds the field that `tag` holds from `idx` on into `val`, by
    /// exclusive or.
    pub fn deserialize_8_bytes(tag: &FrameSerTag, idx: usize, val: &mut u64)
        requires
            idx + 8 <= 25,
        ensures
            *final(val) == *old(val) ^ field(tag@, idx as int),
    {
        xor_u64_from(tag, idx, val);
    }

    /// The field that `tag` holds from `idx` on.
    fn field_at(tag: &FrameSerTag, idx: usize) -> (val: u64)
        requires
            idx + 8 <= 25,
        ensures
            val == field(tag@, idx as int),
    {
        let mut val: u64 = 0;
        Frame::deserialize_8_bytes(tag, idx, &mut val);
        proof {
            lemma_xor_zero(field(tag@, idx as int), 0);
        }
        val
    }
}

impl BytesSer for Frame {
    type SerTag = FrameSerTag;

    /// Every frame travels on the wire.
    open spec fn on_wire(&self) -> bool {
        true
    }

    open spec fn wire_form(&self) -> Seq<u8> {
        self.wire()
    }

    fn serialize(&self) -> (tag: FrameSerTag)
        ensures
            tag@ == self.wire(),
    {
        let mut tag: FrameSerTag = [0u8;25];
        proof {
            assert forall|b: u8| 0u8 ^ b == b by {
                lemma_xor_zero(0, b);
            }
        }
        match self {
            Frame::Log { g, h, p } => {
                tag[0] = 1;
                Frame::serialize_8_bytes(&mut tag, 1, *g);
                Frame::serialize_8_bytes(&mut tag, 9, *h);
                Frame::serialize_8_bytes(&mut tag, 17, *p);
            },
            Frame::RSA { n, e } => {
                tag[0] = 2;
                Frame::serialize_8_bytes(&mut tag, 1, *n);
                Frame::serialize_8_bytes(&mut tag, 9, *e);
            },
            Frame::Prime { p } => {
                tag[0] = 3;
                Frame::serialize_8_bytes(&mut tag, 1, *p);
            },
            Frame::Quit => {
                tag[0] = 4;
            },
        }
        assert(tag@ =~= self.wire());
        tag
    }
}

impl BytesDeser for Frame {
    type DeserTag = Frame;

    open spec fn read_form(bytes: Seq<u8>) -> Result<Frame, ProtocolError> {
        Frame::parse(bytes)
    }

    fn deserialize(tag: &FrameSerTag) -> (r: Result<Frame, ProtocolError>)
        ensures
            r == Frame::parse(tag@),
    {
        let type_byte: u8 = tag[0];
        if type_byte == 1 {
            let g = Frame::field_at(tag, 1);
            let h = Frame::field_at(tag, 9);
            let p = Frame::field_at(tag, 17);
            Ok(Frame::Log { g, h, p })
        } else if type_byte == 2 {
            let n = Frame::field_at(tag, 1);
            let e = Frame::field_at(tag, 9);
            Ok(Frame::RSA { n, e })
        } else if type_byte == 3 {
            let p = Frame::field_at(tag, 1);
            Ok(Frame::Prime { p })
        } else if type_byte == 4 {
            Ok(Frame::Quit)
        } else {
            Err(ProtocolError::UnknownTag { tag: type_byte })
        }
    }
}

impl AsBytes for Frame {
    fn as_bytes(&self) -> (bytes: Vec<u8>)
        ensures
            bytes@ == self.wire(),
            bytes@.len() == 25,
    {
        let tag = self.serialize();
        let mut bytes: Vec<u8> = Vec::new();
        let mut i: usize = 0;
        while i < 25
            invariant
                i <= 25,
                bytes@ == tag@.subrange(0, i as int),
            decreases 25 - i,
        {
            bytes.push(tag[i]);
            assert(bytes@ =~= tag@.subrange(0, i + 1));
            i = i + 1;
        }
        assert(bytes@ =~= tag@);
        bytes
    }
}

} // verus!
