//! ASN.1 [`Length`] handling for definite and indefinite forms.

use crate::asn1::error::{Error, Result};
use crate::asn1::reader::{parsed, EncodingRule, Reader};
use crate::asn1::writer::{lemma_wrote_then, wrote, WriteBackend, Writer};
use vstd::prelude::*;

verus! {

broadcast use crate::asn1::reader::Reader::lemma_nonneg;

/// An ASN.1 length: either a definite byte count or indefinite.
#[derive(Clone, Copy, PartialEq, Eq, Debug, Hash, Structural)]
pub enum Length {
    /// A definite length: exactly this many value bytes.
    Definite(usize),
    /// An indefinite length (BER/CER), terminated by end-of-contents octets.
    Indefinite,
}

/// Big-endian value of `b`, accumulated in a machine word (`v << 8 | byte`
/// per byte, so only the last eight bytes survive).
pub open spec fn spec_be_word(b: Seq<u8>) -> usize
    decreases b.len(),
{
    if b.len() == 0 {
        0usize
    } else {
        (spec_be_word(b.drop_last()) << 8usize) | (b.last() as usize)
    }
}

/// The length encoded at offset `pos` of `s` under `rule`, and the offset
/// just after it.
pub open spec fn spec_decode_length(s: Seq<u8>, pos: int, rule: EncodingRule) -> Result<(Length, int)> {
    if pos < 0 || pos >= s.len() {
        Err(Error::Truncated)
    } else {
        let first = s[pos];
        if first < 0x80 {
            Ok((Length::Definite(first as usize), pos + 1))
        } else if first == 0x80 {
            if rule == EncodingRule::Der {
                Err(Error::IndefiniteLength)
            } else {
                Ok((Length::Indefinite, pos + 1))
            }
        } else if first == 0xff {
            Err(Error::InvalidLength)
        } else {
            let num = first - 0x80;
            if num > vstd::layout::size_of::<usize>() {
                Err(Error::ElementTooLarge)
            } else if pos + 1 + num > s.len() {
                Err(Error::Truncated)
            } else {
                let end = pos + 1 + num;
                let value = spec_be_word(s.subrange(pos + 1, end));
                if (value < 0x80 || s[pos + 1] == 0) && rule == EncodingRule::Der {
                    Err(Error::NonMinimalLength)
                } else if value > s.len() - end {
                    Err(Error::ElementTooLarge)
                } else {
                    Ok((Length::Definite(value), end))
                }
            }
        }
    }
}

/// Number of bytes needed to write `n` in big-endian form (0 for 0).
pub open spec fn spec_byte_count(n: nat) -> nat
    decreases n,
{
    if n == 0 {
        0
    } else {
        1 + spec_byte_count(n / 256)
    }
}

/// Minimal big-endian bytes of `n` (empty for 0).
pub open spec fn spec_be_bytes(n: nat) -> Seq<u8>
    decreases n,
{
    if n == 0 {
        Seq::empty()
    } else {
        spec_be_bytes(n / 256) + seq![(n % 256) as u8]
    }
}

/// The length octets that `Length::encode` writes for `l`.
pub open spec fn spec_encode_length(l: Length) -> Seq<u8> {
    match l {
        Length::Indefinite => seq![0x80u8],
        Length::Definite(n) => if n < 0x80 {
            seq![n as u8]
        } else {
            seq![(0x80 + spec_byte_count(n as nat)) as u8] + spec_be_bytes(n as nat)
        },
    }
}

impl Length {
    /// Construct a definite length.
    pub fn definite(n: usize) -> (l: Self)
        ensures
            l == Length::Definite(n),
    {
        Length::Definite(n)
    }

    /// Returns `true` if this is a definite length.
    pub fn is_definite(self) -> (r: bool)
        ensures
            r == (self is Definite),
    {
        match self {
            Length::Definite(_) => true,
            Length::Indefinite => false,
        }
    }

    /// Returns the definite byte count, or `None` for indefinite.
    pub fn value(self) -> (r: Option<usize>)
        ensures
            r == (match self {
                Length::Definite(n) => Some(n),
                Length::Indefinite => None::<usize>,
            }),
    {
        match self {
            Length::Definite(n) => Some(n),
            Length::Indefinite => None,
        }
    }

    /// Decode a length from `r` according to the reader's encoding rule.
    #[verifier::loop_isolation(false)]
    pub fn decode(r: &mut Reader<'_>) -> (res: Result<Self>)
        ensures
            parsed(*old(r), *final(r), res, spec_decode_length(old(r).spec_input(), old(r).spec_pos(), old(r).spec_config().rule)),
    {
        let ghost s = r.spec_input();
        let ghost pos0 = r.spec_pos();
        let first = r.read_u8()?;
        if first < 0x80 {
            return Ok(Length::Definite(first as usize));
        }
        if first == 0x80 {
            if r.config().rule == EncodingRule::Der {
                return Err(Error::IndefiniteLength);
            }
            return Ok(Length::Indefinite);
        }
        if first == 0xff {
            return Err(Error::InvalidLength);
        }
        let num_bytes = (first & 0x7f) as usize;
        assert(first & 0x7f == first - 0x80) by (bit_vector)
            requires first >= 0x80;
        if num_bytes > core::mem::size_of::<usize>() {
            return Err(Error::ElementTooLarge);
        }
        let mut value: usize = 0;
        let mut lead_zero = false;
        let mut i: usize = 0;
        while i < num_bytes
            invariant
                r.same_source(*old(r)),
                s == old(r).spec_input(),
                i <= num_bytes,
                r.spec_pos() == pos0 + 1 + i,
                pos0 + 1 + i <= s.len(),
                value == spec_be_word(s.subrange(pos0 + 1, pos0 + 1 + i)),
                i >= 1 ==> lead_zero == (s[pos0 + 1] == 0),
            decreases num_bytes - i,
        {
            let b = match r.read_u8() {
                Ok(b) => b,
                Err(e) => {
                    return Err(e);
                },
            };
            if i == 0 {
                lead_zero = b == 0;
            }
            assert(s.subrange(pos0 + 1, pos0 + 1 + i + 1).drop_last() =~= s.subrange(pos0 + 1, pos0 + 1 + i));
            value = (value << 8) | b as usize;
            i = i + 1;
        }
        if (value < 0x80 || lead_zero) && r.config().rule == EncodingRule::Der {
            return Err(Error::NonMinimalLength);
        }
        if value > r.remaining() {
            return Err(Error::ElementTooLarge);
        }
        Ok(Length::Definite(value))
    }
}

/// 256 to the power `k`.
pub open spec fn spec_pow256(k: int) -> int
    decreases k,
{
    if k <= 0 {
        1
    } else {
        256 * spec_pow256(k - 1)
    }
}

proof fn lemma_pow256_ge1(k: int)
    ensures
        spec_pow256(k) >= 1,
    decreases k,
{
    if k > 0 {
        lemma_pow256_ge1(k - 1);
    }
}

proof fn lemma_div256_below(v: nat, k: nat)
    requires
        v < spec_pow256(k + 1int),
    ensures
        v / 256 < spec_pow256(k as int),
{
    let p = spec_pow256(k as int);
    assert(spec_pow256(k + 1int) == 256 * p);
    lemma_pow256_ge1(k as int);
    assert(v / 256 < p) by (nonlinear_arith)
        requires v < 256 * p, p >= 1;
}

impl Length {
    /// Encode the length in minimal definite form (or `0x80` for
    /// indefinite). Definite lengths must be below 2^40, the largest that
    /// five length bytes hold.
    pub fn encode<B: WriteBackend>(&self, w: &mut Writer<B>) -> (res: Result<()>)
        requires
            *self matches Length::Definite(n) ==> n < 0x100_0000_0000,
        ensures
            res is Ok,
            wrote(*old(w), *final(w), spec_encode_length(*self)),
    {
        match self {
            Length::Indefinite => w.write_u8(0x80),
            Length::Definite(n) => {
                if *n < 0x80 {
                    w.write_u8(*n as u8)
                } else {
                    let mut buf = [0u8; 5];
                    let mut i: usize = 5;
                    let mut v = *n;
                    let ghost n0 = *n as nat;
                    assert(spec_pow256(5) == 0x100_0000_0000) by {
                        reveal_with_fuel(spec_pow256, 6);
                    }
                    assert(buf@.subrange(5, 5) =~= Seq::<u8>::empty());
                    while v > 0
                        invariant
                            i <= 5,
                            (v as int) < spec_pow256(i as int),
                            spec_be_bytes(n0) == spec_be_bytes(v as nat) + buf@.subrange(i as int, 5),
                            spec_byte_count(n0) == spec_byte_count(v as nat) + (5 - i),
                        decreases v,
                    {
                        proof {
                            if i == 0 {
                                assert(false);
                            }
                            lemma_div256_below(v as nat, (i - 1) as nat);
                        }
                        assert(v & 0xff == v % 256) by (bit_vector);
                        assert(v >> 8usize == v / 256) by (bit_vector);
                        let ghost prev = buf@;
                        i -= 1;
                        buf[i] = (v & 0xff) as u8;
                        assert(buf@.subrange(i as int, 5) =~= seq![(v % 256) as u8] + prev.subrange(i + 1, 5));
                        assert(spec_be_bytes(v as nat) =~= spec_be_bytes((v / 256) as nat) + seq![(v % 256) as u8]);
                        v >>= 8;
                    }
                    assert(spec_be_bytes(0) =~= Seq::<u8>::empty());
                    let len = (5 - i) as u8;
                    assert(0x80 | len == 0x80 + len) by (bit_vector)
                        requires len <= 5;
                    let ghost w0 = *w;
                    w.write_u8(0x80 | len)?;
                    let ghost w1 = *w;
                    let r = w.write_bytes(&buf[i..5]);
                    proof {
                        lemma_wrote_then(w0, w1, *w, seq![(0x80 + len) as u8], buf@.subrange(i as int, 5));
                        assert(seq![(0x80 + len) as u8] + buf@.subrange(i as int, 5) =~= spec_encode_length(*self));
                    }
                    r
                }
            },
        }
    }
}

} // verus!
