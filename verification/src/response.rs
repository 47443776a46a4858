//! Responses, as the server frames them for the client: one tag byte and up
//! to seven 64-bit fields, 57 bytes in all. Two further variants never leave
//! the server: they carry a walk from the broker to the task that streams it.

use crate::algo::dlog::{PollardsLog, PollardsLogItem};
use crate::algo::factor::{PollardsRSAFact, PollardsRSAFactItem};
use crate::codec::{
    field, field4, le_bytes, le_bytes4, lemma_field4_at, lemma_field_at, lemma_xor_zero,
    xor_u32_from, xor_u32_into, xor_u64_from, xor_u64_into, zeros, BytesDeser, BytesSer,
    DeserializationTag, SerializationTag,
};
use crate::error::ProtocolError;
use vstd::prelude::*;

verus! {

/// The wire form of a [`Response`]: the tag byte, then 56 bytes of fields.
pub type ResponseSerTag = [u8; 57];

/// What the server has to say to a client.
///
/// A probability or a ratio is held as the bits of its IEEE-754 form, a
/// binary32 for the probability and a binary64 for the ratio, which is how it
/// travels.
#[allow(inconsistent_fields)]
#[derive(Debug, PartialEq)]
pub enum Response {
    /// The connection stands.
    ConnectionOk,
    /// `p` is composite.
    NotPrime { p: u64 },
    /// `p` is prime with the given probability.
    Prime { p: u64, prob_bits: u32 },
    /// A walk for the discrete logarithm, to be streamed step by step.
    Log { pollards: PollardsLog },
    /// One step of a walk for the discrete logarithm.
    LogItem { item: PollardsLogItem },
    /// The discrete logarithm of `h` to the base `g` modulo `p`, with the
    /// ratio of the steps taken to the square root of `p`.
    SuccessfulLog { log: u64, g: u64, h: u64, p: u64, ratio_bits: u64 },
    /// No discrete logarithm was found.
    UnsuccessfulLog { g: u64, h: u64, p: u64 },
    /// A walk for a divisor, to be streamed step by step.
    RSA { pollards: PollardsRSAFact },
    /// One step of a walk for a divisor.
    RSAItem { item: PollardsRSAFactItem },
    /// A factorization into `p` and `q`, with the ratio of the steps taken to
    /// the square root of the modulus.
    SuccessfulRSA { p: u64, q: u64, ratio_bits: u64 },
    /// No divisor of `n` was found.
    UnsuccessfulRSA { n: u64 },
}

impl SerializationTag for ResponseSerTag {
    open spec fn bytes(&self) -> Seq<u8> {
        self@
    }
}

impl DeserializationTag for Response {

}

impl Response {
    /// The 57 bytes of a response that travels: the tag, then the fields in
    /// their order, each least significant byte first, then zeros.
    pub open spec fn wire(self) -> Seq<u8> {
        match self {
            Response::ConnectionOk => seq![1u8] + zeros(56),
            Response::NotPrime { p } => seq![2u8] + le_bytes(p) + zeros(48),
            Response::Prime { p, prob_bits } => seq![3u8] + le_bytes(p) + le_bytes4(prob_bits)
                + zeros(44),
            Response::LogItem { item } => seq![4u8] + le_bytes(item.i) + le_bytes(item.xi)
                + le_bytes(item.ai) + le_bytes(item.bi) + le_bytes(item.yi) + le_bytes(item.gi)
                + le_bytes(item.di),
            Response::SuccessfulLog { log, g, h, p, ratio_bits } => seq![5u8] + le_bytes(log)
                + le_bytes(g) + le_bytes(h) + le_bytes(p) + le_bytes(ratio_bits) + zeros(16),
            Response::UnsuccessfulLog { g, h, p } => seq![6u8] + le_bytes(g) + le_bytes(h)
                + le_bytes(p) + zeros(32),
            Response::RSAItem { item } => seq![7u8] + le_bytes(item.i) + le_bytes(item.xi)
                + le_bytes(item.yi) + le_bytes(item.g) + le_bytes(item.n) + zeros(16),
            Response::SuccessfulRSA { p, q, ratio_bits } => seq![8u8] + le_bytes(p) + le_bytes(q)
                + le_bytes(ratio_bits) + zeros(32),
            Response::UnsuccessfulRSA { n } => seq![9u8] + le_bytes(n) + zeros(48),
            Response::Log { .. } => Seq::empty(),
            Response::RSA { .. } => Seq::empty(),
        }
    }

    /// The response that 57 bytes stand for, or the tag byte that names none.
    pub open spec fn parse(tag: Seq<u8>) -> Result<Response, ProtocolError> {
        if tag[0] == 1 {
            Ok(Response::ConnectionOk)
        } else if tag[0] == 2 {
            Ok(Response::NotPrime { p: field(tag, 1) })
        } else if tag[0] == 3 {
            Ok(Response::Prime { p: field(tag, 1), prob_bits: field4(tag, 9) })
        } else if tag[0] == 4 {
            Ok(
                Response::LogItem {
                    item: PollardsLogItem {
                        i: field(tag, 1),
                        xi: field(tag, 9),
                        ai: field(tag, 17),
                        bi: field(tag, 25),
                        yi: field(tag, 33),
                        gi: field(tag, 41),
                        di: field(tag, 49),
                    },
                },
            )
        } else if tag[0] == 5 {
            Ok(
                Response::SuccessfulLog {
                    log: field(tag, 1),
                    g: field(tag, 9),
                    h: field(tag, 17),
                    p: field(tag, 25),
                    ratio_bits: field(tag, 33),
                },
            )
        } else if tag[0] == 6 {
            Ok(Response::UnsuccessfulLog { g: field(tag, 1), h: field(tag, 9), p: field(tag, 17) })
        } else if tag[0] == 7 {
            Ok(
                Response::RSAItem {
                    item: PollardsRSAFactItem {
                        i: field(tag, 1),
                        xi: field(tag, 9),
                        yi: field(tag, 17),
                        g: field(tag, 25),
                        n: field(tag, 33),
                    },
                },
            )
        } else if tag[0] == 8 {
            Ok(
                Response::SuccessfulRSA {
                    p: field(tag, 1),
                    q: field(tag, 9),
                    ratio_bits: field(tag, 17),
                },
            )
        } else if tag[0] == 9 {
            Ok(Response::UnsuccessfulRSA { n: field(tag, 1) })
        } else {
            Err(ProtocolError::UnknownTag { tag: tag[0] })
        }
    }

    /// The response is one of the nine that travel; the two that carry a walk
    /// stay in the server.
    pub open spec fn travels(self) -> bool {
        !(self is Log) && !(self is RSA)
    }

    /// Every response that travels is read back from its wire form, which is
    /// 57 bytes long.
    pub proof fn lemma_round_trip(self)
        requires
            self.travels(),
        ensures
            self.wire().len() == 57,
            Response::parse(self.wire()) == Ok::<Response, ProtocolError>(self),
    {
        let w = self.wire();
        match self {
            Response::ConnectionOk => {},
            Response::NotPrime { p } => {
                lemma_field_at(seq![2u8], p, zeros(48));
            },
            Response::Prime { p, prob_bits } => {
                lemma_field_at(seq![3u8], p, le_bytes4(prob_bits) + zeros(44));
                assert(seq![3u8] + le_bytes(p) + (le_bytes4(prob_bits) + zeros(44)) =~= w);
                lemma_field4_at(seq![3u8] + le_bytes(p), prob_bits, zeros(44));
            },
            Response::LogItem { item } => {
                let f1 = le_bytes(item.i);
                let f2 = le_bytes(item.xi);
                let f3 = le_bytes(item.ai);
                let f4 = le_bytes(item.bi);
                let f5 = le_bytes(item.yi);
                let f6 = le_bytes(item.gi);
                let f7 = le_bytes(item.di);
                let t = seq![4u8];
                lemma_field_at(t, item.i, f2 + f3 + f4 + f5 + f6 + f7);
                assert(t + f1 + (f2 + f3 + f4 + f5 + f6 + f7) =~= w);
                lemma_field_at(t + f1, item.xi, f3 + f4 + f5 + f6 + f7);
                assert(t + f1 + f2 + (f3 + f4 + f5 + f6 + f7) =~= w);
                lemma_field_at(t + f1 + f2, item.ai, f4 + f5 + f6 + f7);
                assert(t + f1 + f2 + f3 + (f4 + f5 + f6 + f7) =~= w);
                lemma_field_at(t + f1 + f2 + f3, item.bi, f5 + f6 + f7);
                assert(t + f1 + f2 + f3 + f4 + (f5 + f6 + f7) =~= w);
                lemma_field_at(t + f1 + f2 + f3 + f4, item.yi, f6 + f7);
                assert(t + f1 + f2 + f3 + f4 + f5 + (f6 + f7) =~= w);
                lemma_field_at(t + f1 + f2 + f3 + f4 + f5, item.gi, f7);
                lemma_field_at(t + f1 + f2 + f3 + f4 + f5 + f6, item.di, Seq::empty());
                assert(t + f1 + f2 + f3 + f4 + f5 + f6 + f7 + Seq::empty() =~= w);
            },
            Response::SuccessfulLog { log, g, h, p, ratio_bits } => {
                let f1 = le_bytes(log);
                let f2 = le_bytes(g);
                let f3 = le_bytes(h);
                let f4 = le_bytes(p);
                let f5 = le_bytes(ratio_bits);
                let z = zeros(16);
                let t = seq![5u8];
                lemma_field_at(t, log, f2 + f3 + f4 + f5 + z);
                assert(t + f1 + (f2 + f3 + f4 + f5 + z) =~= w);
                lemma_field_at(t + f1, g, f3 + f4 + f5 + z);
                assert(t + f1 + f2 + (f3 + f4 + f5 + z) =~= w);
                lemma_field_at(t + f1 + f2, h, f4 + f5 + z);
                assert(t + f1 + f2 + f3 + (f4 + f5 + z) =~= w);
                lemma_field_at(t + f1 + f2 + f3, p, f5 + z);
                assert(t + f1 + f2 + f3 + f4 + (f5 + z) =~= w);
                lemma_field_at(t + f1 + f2 + f3 + f4, ratio_bits, z);
            },
            Response::UnsuccessfulLog { g, h, p } => {
                let f1 = le_bytes(g);
                let f2 = le_bytes(h);
                let f3 = le_bytes(p);
                let z = zeros(32);
                let t = seq![6u8];
                lemma_field_at(t, g, f2 + f3 + z);
                assert(t + f1 + (f2 + f3 + z) =~= w);
                lemma_field_at(t + f1, h, f3 + z);
                assert(t + f1 + f2 + (f3 + z) =~= w);
                lemma_field_at(t + f1 + f2, p, z);
            },
            Response::RSAItem { item } => {
                let f1 = le_bytes(item.i);
                let f2 = le_bytes(item.xi);
                let f3 = le_bytes(item.yi);
                let f4 = le_bytes(item.g);
                let f5 = le_bytes(item.n);
                let z = zeros(16);
                let t = seq![7u8];
                lemma_field_at(t, item.i, f2 + f3 + f4 + f5 + z);
                assert(t + f1 + (f2 + f3 + f4 + f5 + z) =~= w);
                lemma_field_at(t + f1, item.xi, f3 + f4 + f5 + z);
                assert(t + f1 + f2 + (f3 + f4 + f5 + z) =~= w);
                lemma_field_at(t + f1 + f2, item.yi, f4 + f5 + z);
                assert(t + f1 + f2 + f3 + (f4 + f5 + z) =~= w);
                lemma_field_at(t + f1 + f2 + f3, item.g, f5 + z);
                assert(t + f1 + f2 + f3 + f4 + (f5 + z) =~= w);
                lemma_field_at(t + f1 + f2 + f3 + f4, item.n, z);
            },
            Response::SuccessfulRSA { p, q, ratio_bits } => {
                let f1 = le_bytes(p);
                let f2 = le_bytes(q);
                let f3 = le_bytes(ratio_bits);
                let z = zeros(32);
                let t = seq![8u8];
                lemma_field_at(t, p, f2 + f3 + z);
                assert(t + f1 + (f2 + f3 + z) =~= w);
                lemma_field_at(t + f1, q, f3 + z);
                assert(t + f1 + f2 + (f3 + z) =~= w);
                lemma_field_at(t + f1 + f2, ratio_bits, z);
            },
            Response::UnsuccessfulRSA { n } => {
                lemma_field_at(seq![9u8], n, zeros(48));
            },
            Response::Log { .. } => {},
            Response::RSA { .. } => {},
        }
    }

    /// The field that `tag` holds from `idx` on.
    fn field_at(tag: &ResponseSerTag, idx: usize) -> (val: u64)
        requires
            idx + 8 <= 57,
        ensures
            val == field(tag@, idx as int),
    {
        let mut val: u64 = 0;
        xor_u64_from(tag, idx, &mut val);
        proof {
            lemma_xor_zero(field(tag@, idx as int), 0);
        }
        val
    }

    /// The 32-bit field that `tag` holds from `idx` on.
    fn field4_at(tag: &ResponseSerTag, idx: usize) -> (val: u32)
        requires
            idx + 4 <= 57,
        ensures
            val == field4(tag@, idx as int),
    {
        let mut val: u32 = 0;
        xor_u32_from(tag, idx, &mut val);
        proof {
            let f = field4(tag@, idx as int);
            assert(0u32 ^ f == f) by (bit_vector);
        }
        val
    }
}

impl BytesSer for Response {
    type SerTag = ResponseSerTag;

    open spec fn on_wire(&self) -> bool {
        self.travels()
    }

    open spec fn wire_form(&self) -> Seq<u8> {
        self.wire()
    }

    fn serialize(&self) -> (tag: ResponseSerTag)
        ensures
            tag@ == self.wire(),
    {
        let mut tag: ResponseSerTag = [0u8;57];
        proof {
            assert forall|b: u8| 0u8 ^ b == b by {
                lemma_xor_zero(0, b);
            }
        }
        match self {
            Response::ConnectionOk => {
                tag[0] = 1;
            },
            Response::NotPrime { p } => {
                tag[0] = 2;
                xor_u64_into(&mut tag, 1, *p);
            },
            Response::Prime { p, prob_bits } => {
                tag[0] = 3;
                xor_u64_into(&mut tag, 1, *p);
                xor_u32_into(&mut tag, 9, *prob_bits);
            },
            Response::LogItem { item } => {
                tag[0] = 4;
                xor_u64_into(&mut tag, 1, item.i);
                xor_u64_into(&mut tag, 9, item.xi);
                xor_u64_into(&mut tag, 17, item.ai);
                xor_u64_into(&mut tag, 25, item.bi);
                xor_u64_into(&mut tag, 33, item.yi);
                xor_u64_into(&mut tag, 41, item.gi);
                xor_u64_into(&mut tag, 49, item.di);
            },
            Response::SuccessfulLog { log, g, h, p, ratio_bits } => {
                tag[0] = 5;
                xor_u64_into(&mut tag, 1, *log);
                xor_u64_into(&mut tag, 9, *g);
                xor_u64_into(&mut tag, 17, *h);
                xor_u64_into(&mut tag, 25, *p);
                xor_u64_into(&mut tag, 33, *ratio_bits);
            },
            Response::UnsuccessfulLog { g, h, p } => {
                tag[0] = 6;
                xor_u64_into(&mut tag, 1, *g);
                xor_u64_into(&mut tag, 9, *h);
                xor_u64_into(&mut tag, 17, *p);
            },
            Response::RSAItem { item } => {
                tag[0] = 7;
                xor_u64_into(&mut tag, 1, item.i);
                xor_u64_into(&mut tag, 9, item.xi);
                xor_u64_into(&mut tag, 17, item.yi);
                xor_u64_into(&mut tag, 25, item.g);
                xor_u64_into(&mut tag, 33, item.n);
            },
            Response::SuccessfulRSA { p, q, ratio_bits } => {
                tag[0] = 8;
                xor_u64_into(&mut tag, 1, *p);
                xor_u64_into(&mut tag, 9, *q);
                xor_u64_into(&mut tag, 17, *ratio_bits);
            },
            Response::UnsuccessfulRSA { n } => {
                tag[0] = 9;
                xor_u64_into(&mut tag, 1, *n);
            },
            Response::Log { .. } => {},
            Response::RSA { .. } => {},
        }
        assert(tag@ =~= self.wire());
        tag
    }
}

impl BytesDeser for Response {
    type DeserTag = Response;

    open spec fn read_form(bytes: Seq<u8>) -> Result<Response, ProtocolError> {
        Response::parse(bytes)
    }

    fn deserialize(tag: &ResponseSerTag) -> (r: Result<Response, ProtocolError>)
        ensures
            r == Response::parse(tag@),
    {
        let type_byte: u8 = tag[0];
        if type_byte == 1 {
            Ok(Response::ConnectionOk)
        } else if type_byte == 2 {
            Ok(Response::NotPrime { p: Response::field_at(tag, 1) })
        } else if type_byte == 3 {
            Ok(
                Response::Prime {
                    p: Response::field_at(tag, 1),
                    prob_bits: Response::field4_at(tag, 9),
                },
            )
        } else if type_byte == 4 {
            Ok(
                Response::LogItem {
                    item: PollardsLogItem {
                        i: Response::field_at(tag, 1),
                        xi: Response::field_at(tag, 9),
                        ai: Response::field_at(tag, 17),
                        bi: Response::field_at(tag, 25),
                        yi: Response::field_at(tag, 33),
                        gi: Response::field_at(tag, 41),
                        di: Response::field_at(tag, 49),
                    },
                },
            )
        } else if type_byte == 5 {
            Ok(
                Response::SuccessfulLog {
                    log: Response::field_at(tag, 1),
                    g: Response::field_at(tag, 9),
                    h: Response::field_at(tag, 17),
                    p: Response::field_at(tag, 25),
                    ratio_bits: Response::field_at(tag, 33),
                },
            )
        } else if type_byte == 6 {
            Ok(
                Response::UnsuccessfulLog {
                    g: Response::field_at(tag, 1),
                    h: Response::field_at(tag, 9),
                    p: Response::field_at(tag, 17),
                },
            )
        } else if type_byte == 7 {
            Ok(
                Response::RSAItem {
                    item: PollardsRSAFactItem {
                        i: Response::field_at(tag, 1),
                        xi: Response::field_at(tag, 9),
                        yi: Response::field_at(tag, 17),
                        g: Response::field_at(tag, 25),
                        n: Response::field_at(tag, 33),
                    },
                },
            )
        } else if type_byte == 8 {
            Ok(
                Response::SuccessfulRSA {
                    p: Response::field_at(tag, 1),
                    q: Response::field_at(tag, 9),
                    ratio_bits: Response::field_at(tag, 17),
                },
            )
        } else if type_byte == 9 {
            Ok(Response::UnsuccessfulRSA { n: Response::field_at(tag, 1) })
        } else {
            Err(ProtocolError::UnknownTag { tag: type_byte })
        }
    }
}

} // verus!
