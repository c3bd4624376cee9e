//! DER/BER/CER encoding primitives.
//!
//! The [`Writer`] writes into a backend: a caller-supplied buffer
//! ([`SliceBackend`]) or a growable vector ([`VecBackend`]). Constructed values
//! are emitted via [`Writer::nested`], which buffers the inner content to
//! compute a minimal definite length.

use crate::asn1::error::{Error, Result};
use crate::asn1::length::{spec_encode_length, Length};
use crate::asn1::tag::{spec_encode_tag, Tag};
use crate::asn1::decode::Encode;
use vstd::prelude::*;

verus! {

/// A write backend abstracts over the destination of encoded bytes so that the
/// same encoding logic works for a stack buffer or a growable vector.
pub trait WriteBackend {
    /// The bytes written so far.
    spec fn written(&self) -> Seq<u8>;

    /// Whether every write is appended in full (a growable destination).
    spec fn appends_all() -> bool;

    /// How many more bytes a bounded destination takes (zero for a growable
    /// one, which `appends_all` covers instead).
    spec fn room(&self) -> int;

    /// Append a single byte.
    fn put(&mut self, b: u8)
        ensures
            Self::appends_all() ==> final(self).written() == old(self).written().push(b),
            1 <= old(self).room() ==> final(self).written() == old(self).written().push(b)
                && final(self).room() == old(self).room() - 1,
    ;

    /// Append a slice of bytes.
    fn put_slice(&mut self, s: &[u8])
        ensures
            Self::appends_all() ==> final(self).written() == old(self).written() + s@,
            s@.len() <= old(self).room() ==> final(self).written() == old(self).written() + s@
                && final(self).room() == old(self).room() - s@.len(),
    ;
}

/// A [`WriteBackend`] backed by a growable vector.
pub struct VecBackend(pub Vec<u8>);

impl WriteBackend for VecBackend {
    open spec fn written(&self) -> Seq<u8> {
        self.0@
    }

    open spec fn appends_all() -> bool {
        true
    }

    open spec fn room(&self) -> int {
        0
    }

    fn put(&mut self, b: u8) {
        self.0.push(b);
    }

    fn put_slice(&mut self, s: &[u8]) {
        let mut i: usize = 0;
        while i < s.len()
            invariant
                i <= s@.len(),
                self.0@ == old(self).0@ + s@.subrange(0, i as int),
            decreases s@.len() - i,
        {
            assert(s@.subrange(0, i + 1) =~= s@.subrange(0, i as int).push(s@[i as int]));
            self.0.push(s[i]);
            i += 1;
        }
        assert(s@.subrange(0, s@.len() as int) =~= s@);
    }
}

/// A [`WriteBackend`] backed by a fixed slice. Writing past the end is a
/// silent no-op (the caller sees how far it got via `position`).
pub struct SliceBackend<'a> {
    buf: &'a mut [u8],
    pos: usize,
}

impl<'a> SliceBackend<'a> {
    #[verifier::type_invariant]
    closed spec fn inv(self) -> bool {
        self.pos <= self.buf@.len()
    }

    /// The capacity of the destination buffer.
    pub closed spec fn capacity(&self) -> int {
        self.buf@.len() as int
    }

    /// The write offset.
    pub closed spec fn spec_pos(&self) -> int {
        self.pos as int
    }
}

impl<'a> WriteBackend for SliceBackend<'a> {
    closed spec fn written(&self) -> Seq<u8> {
        self.buf@.subrange(0, self.pos as int)
    }

    open spec fn appends_all() -> bool {
        false
    }

    closed spec fn room(&self) -> int {
        self.buf@.len() - self.pos
    }

    fn put(&mut self, b: u8)
        ensures
            old(self).spec_pos() < old(self).capacity() ==> final(self).written() == old(self).written().push(b),
            old(self).spec_pos() >= old(self).capacity() ==> final(self).written() == old(self).written(),
    {
        proof { use_type_invariant(&*self); }
        if self.pos < self.buf.len() {
            self.buf[self.pos] = b;
            self.pos += 1;
            assert(self.buf@.subrange(0, self.pos as int) =~= old(self).buf@.subrange(0, old(self).pos as int).push(b));
        }
    }

    fn put_slice(&mut self, s: &[u8])
        ensures
            old(self).spec_pos() + s@.len() <= old(self).capacity() ==> final(self).written() == old(self).written() + s@,
            old(self).spec_pos() + s@.len() > old(self).capacity() ==> final(self).written() == old(self).written(),
    {
        proof { use_type_invariant(&*self); }
        if s.len() <= self.buf.len() && self.pos <= self.buf.len() - s.len() {
            let start = self.pos;
            let cap = self.buf.len();
            let mut i: usize = 0;
            while i < s.len()
                invariant
                    i <= s@.len(),
                    start + s@.len() <= self.buf@.len(),
                    self.buf@.len() == old(self).buf@.len(),
                    cap == self.buf@.len(),
                    self.pos == start,
                    start == old(self).pos,
                    self.buf@.subrange(0, start as int) == old(self).buf@.subrange(0, start as int),
                    self.buf@.subrange(start as int, start + i) == s@.subrange(0, i as int),
                decreases s@.len() - i,
            {
                assert(start + i < self.buf@.len());
                self.buf[start + i] = s[i];
                assert(self.buf@.subrange(start as int, start + i + 1) =~= s@.subrange(0, i + 1));
                assert(self.buf@.subrange(0, start as int) =~= old(self).buf@.subrange(0, start as int));
                i += 1;
            }
            assert(s@.subrange(0, s@.len() as int) =~= s@);
            assert(self.buf@.subrange(0, start + s@.len()) =~= self.buf@.subrange(0, start as int) + self.buf@.subrange(start as int, start + s@.len()));
            self.pos = start + s.len();
        }
    }
}

/// An ASN.1 DER/BER/CER writer.
pub struct Writer<B: WriteBackend> {
    backend: B,
}

impl<B: WriteBackend> Writer<B> {
    /// The bytes written so far.
    pub closed spec fn spec_written(&self) -> Seq<u8> {
        self.backend.written()
    }

    /// How many more bytes the destination takes, for a bounded one.
    pub closed spec fn spec_room(&self) -> int {
        self.backend.room()
    }
}

/// `after` holds what `before` held followed by `bytes` wherever the writer
/// appends everything or has room for them; the room shrinks by as much.
pub open spec fn wrote<B: WriteBackend>(before: Writer<B>, after: Writer<B>, bytes: Seq<u8>) -> bool {
    &&& B::appends_all() ==> after.spec_written() == before.spec_written() + bytes
    &&& bytes.len() <= before.spec_room() ==> {
        &&& after.spec_written() == before.spec_written() + bytes
        &&& after.spec_room() == before.spec_room() - bytes.len()
    }
}

/// Two writes in a row write their bytes in a row.
pub proof fn lemma_wrote_then<B: WriteBackend>(
    a: Writer<B>,
    b: Writer<B>,
    c: Writer<B>,
    x: Seq<u8>,
    y: Seq<u8>,
)
    requires
        wrote(a, b, x),
        wrote(b, c, y),
    ensures
        wrote(a, c, x + y),
{
    assert(a.spec_written() + x + y =~= a.spec_written() + (x + y));
}

impl<'a> Writer<SliceBackend<'a>> {
    /// Create a writer over a caller-provided buffer.
    pub fn new(buf: &'a mut [u8]) -> (w: Self)
        ensures
            w.spec_written() == Seq::<u8>::empty(),
            w.spec_capacity() == old(buf)@.len(),
            w.spec_room() == old(buf)@.len(),
    {
        let w = Writer { backend: SliceBackend { buf, pos: 0 } };
        assert(w.backend.buf@.subrange(0, 0) =~= Seq::<u8>::empty());
        w
    }

    /// The capacity of the destination buffer.
    pub closed spec fn spec_capacity(&self) -> int {
        self.backend.buf@.len() as int
    }

    /// The number of bytes written so far.
    pub fn position(&self) -> (p: usize)
        ensures
            p == self.spec_written().len(),
            self.spec_room() == self.spec_capacity() - p,
    {
        proof { use_type_invariant(&self.backend); }
        self.backend.pos
    }

    /// The encoded bytes written so far.
    pub fn as_written(&self) -> (s: &[u8])
        ensures
            s@ == self.spec_written(),
    {
        proof { use_type_invariant(&self.backend); }
        &self.backend.buf[0..self.backend.pos]
    }
}

impl Writer<VecBackend> {
    /// Create a writer backed by a fresh vector.
    pub fn new_vec() -> (w: Self)
        ensures
            w.spec_written() == Seq::<u8>::empty(),
    {
        Writer { backend: VecBackend(Vec::new()) }
    }

    /// Consume the writer and return the encoded bytes.
    pub fn into_vec(self) -> (v: Vec<u8>)
        ensures
            v@ == self.spec_written(),
    {
        self.backend.0
    }
}

/// The encoding of a primitive value: identifier, definite length, content.
pub open spec fn spec_encode_primitive(tag: Tag, content: Seq<u8>) -> Seq<u8> {
    spec_encode_tag(tag) + spec_encode_length(Length::Definite(content.len() as usize)) + content
}

impl<B: WriteBackend> Writer<B> {
    /// Write a single byte.
    pub fn write_u8(&mut self, b: u8) -> (res: Result<()>)
        ensures
            res is Ok,
            B::appends_all() ==> final(self).spec_written() == old(self).spec_written().push(b),
            wrote(*old(self), *final(self), seq![b]),
    {
        self.backend.put(b);
        assert(old(self).spec_written().push(b) =~= old(self).spec_written() + seq![b]);
        Ok(())
    }

    /// Write a slice of bytes.
    pub fn write_bytes(&mut self, b: &[u8]) -> (res: Result<()>)
        ensures
            res is Ok,
            wrote(*old(self), *final(self), b@),
    {
        self.backend.put_slice(b);
        Ok(())
    }

    /// Encode a tag.
    pub fn write_tag(&mut self, t: Tag) -> (res: Result<()>)
        ensures
            res is Ok,
            wrote(*old(self), *final(self), spec_encode_tag(t)),
    {
        t.encode(self)
    }

    /// Encode a length (lengths of 2^40 bytes or more have no encoding here).
    pub fn write_length(&mut self, l: Length) -> (res: Result<()>)
        requires
            l matches Length::Definite(n) ==> n < 0x100_0000_0000,
        ensures
            res is Ok,
            wrote(*old(self), *final(self), spec_encode_length(l)),
    {
        l.encode(self)
    }

    /// Encode a primitive value: `tag` then `length` then `content`. Content
    /// of 2^40 bytes or more is refused with `ElementTooLarge`.
    pub fn write_primitive(&mut self, tag: Tag, content: &[u8]) -> (res: Result<()>)
        ensures
            res is Ok <==> content@.len() < 0x100_0000_0000,
            res is Err ==> res == Err::<(), Error>(Error::ElementTooLarge) && *final(self) == *old(self),
            res is Ok ==> wrote(*old(self), *final(self), spec_encode_primitive(tag, content@)),
    {
        if content.len() as u64 >= 0x100_0000_0000u64 {
            return Err(Error::ElementTooLarge);
        }
        let ghost w0 = *self;
        self.write_tag(tag)?;
        let ghost w1 = *self;
        self.write_length(Length::Definite(content.len()))?;
        let ghost w2 = *self;
        self.write_bytes(content)?;
        proof {
            let t = spec_encode_tag(tag);
            let l = spec_encode_length(Length::Definite(content.len()));
            lemma_wrote_then(w0, w1, w2, t, l);
            lemma_wrote_then(w0, w2, *self, t + l, content@);
            assert(t + l + content@ =~= spec_encode_primitive(tag, content@));
        }
        Ok(())
    }

    /// Encode a constructed value whose content the closure `f` writes into
    /// a buffer first, so that a minimal definite length can precede it.
    pub fn nested<F>(&mut self, tag: Tag, f: F) -> (res: Result<()>)
        where
            F: FnOnce(&mut Writer<VecBackend>) -> Result<()>,
        requires
            forall|w: &mut Writer<VecBackend>| call_requires(f, (w,)),
        ensures
            exists|x: &mut Writer<VecBackend>, out: Result<()>| {
                &&& x.spec_written() == Seq::<u8>::empty()
                &&& #[trigger] call_ensures(f, (x,), out)
                &&& match out {
                    Err(e) => res == Err::<(), Error>(e) && *final(self) == *old(self),
                    Ok(_) => if final(x).spec_written().len() < 0x100_0000_0000 {
                        &&& res is Ok
                        &&& wrote(*old(self), *final(self), spec_encode_primitive(tag, final(x).spec_written()))
                    } else {
                        res == Err::<(), Error>(Error::ElementTooLarge) && *final(self) == *old(self)
                    },
                }
            },
    {
        let mut inner = Writer::new_vec();
        f(&mut inner)?;
        let bytes = inner.into_vec();
        self.write_primitive(tag, bytes.as_slice())
    }
}

/// Encode `value` into a fresh vector.
pub fn encode_to_vec<T: Encode>(value: &T) -> (res: Result<Vec<u8>>)
    ensures
        T::obeys_encoding_spec() ==> match value.spec_encoding() {
            Ok(b) => res is Ok && res->Ok_0@ == b,
            Err(e) => res == Err::<Vec<u8>, Error>(e),
        },
{
    let mut w = Writer::new_vec();
    value.encode(&mut w)?;
    Ok(w.into_vec())
}

} // verus!
