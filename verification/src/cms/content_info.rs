//! `ContentInfo` — the outer wrapper of every CMS/PKCS#7 message.
//!
//! ```asn1
//! ContentInfo ::= SEQUENCE {
//!     contentType  CONTENT-TYPE.&id,
//!     content      [0] EXPLICIT CONTENT-TYPE.&Type OPTIONAL }
//! ```

use crate::asn1::any::{spec_any_at, Any};
use crate::asn1::decode::{decoded, enter, finish, lemma_expect_tlv_progress, spec_nested_at, spec_prim_at, Decode};
use crate::asn1::error::{Error as CoreError, Result as CoreResult};
use crate::asn1::length::Length;
use crate::asn1::reader::{spec_default_config, Config, EncodingRule, Reader};
use crate::asn1::tag::{spec_universal, spec_universal_constructed, Tag};
use crate::asn1::types::{spec_oid_content, ObjectIdentifier};
use crate::cms::error::{Error, Result};
use vstd::prelude::*;

verus! {

broadcast use crate::asn1::reader::Reader::lemma_nonneg;

/// The outer CMS `ContentInfo`.
#[derive(Clone, Copy, PartialEq, Eq, Debug)]
pub struct ContentInfo<'a> {
    /// The contentType OID (e.g. `id-signedData`).
    pub content_type: ObjectIdentifier<'a>,
    /// The `[0] EXPLICIT` content value (raw inner bytes of the explicit tag).
    pub content: Any<'a>,
}

impl<'a> View for ContentInfo<'a> {
    /// The content type OID bytes and the `[0]` element.
    type V = (Seq<u8>, (Tag, Length, Seq<u8>, Seq<u8>));

    open spec fn view(&self) -> (Seq<u8>, (Tag, Length, Seq<u8>, Seq<u8>)) {
        (self.content_type.0@, self.content@)
    }
}

/// The content of a `ContentInfo` SEQUENCE: the content type OID, one
/// element as the content, and nothing after them.
pub open spec fn spec_content_info_body(c: Seq<u8>, config: Config) -> CoreResult<(Seq<u8>, (Tag, Length, Seq<u8>, Seq<u8>))> {
    match spec_prim_at(c, 0, config, spec_universal(6), |b: Seq<u8>| spec_oid_content(b)) {
        Err(e) => Err(e),
        Ok((oid, p)) => match spec_any_at(c, p, config) {
            Err(e) => Err(e),
            Ok((a, q)) => if q < c.len() {
                Err(CoreError::TrailingData)
            } else {
                Ok((oid, a))
            },
        },
    }
}

/// The `ContentInfo` at `pos` of `s`, met at nesting `depth`.
#[verifier::opaque]
pub open spec fn spec_content_info_at(s: Seq<u8>, pos: int, config: Config, depth: int) -> CoreResult<
    ((Seq<u8>, (Tag, Length, Seq<u8>, Seq<u8>)), int),
> {
    spec_nested_at(s, pos, config, depth, spec_universal_constructed(16), |c: Seq<u8>, d: int| spec_content_info_body(c, config))
}

/// The `ContentInfo` that starts `bytes` (read under DER), and the offset
/// after it.
pub open spec fn spec_message_at_start(bytes: Seq<u8>) -> CoreResult<((Seq<u8>, (Tag, Length, Seq<u8>, Seq<u8>)), int)> {
    spec_content_info_at(bytes, 0, spec_default_config(EncodingRule::Der), 0)
}

impl<'a> ContentInfo<'a> {
    /// Borrow the raw bytes of the explicit `[0]` content (the actual inner
    /// structure, e.g. the `SignedData` SEQUENCE).
    pub fn content_bytes(&self) -> (b: &'a [u8])
        ensures
            b@ == self.content.value@,
    {
        self.content.value
    }

    /// Decode the explicit `[0]` content as `T` (e.g. `SignedData`), under
    /// DER; the value must fill the content.
    pub fn decode_content<T: Decode<'a>>(&self) -> (res: Result<T>)
        ensures
            self.content.value@.len() == 0 ==> res is Err,
            match T::spec_decode(self.content.value@, 0, spec_default_config(EncodingRule::Der), 0) {
                Ok((v, n)) => if n < self.content.value@.len() {
                    res == Err::<T, Error>(Error::UnexpectedStructure)
                } else {
                    res is Ok && res->Ok_0@ == v
                },
                Err(e) => res == Err::<T, Error>(Error::Asn1(e)),
            },
    {
        let mut r = Reader::new(self.content.value, Config::der());
        let v = match T::decode(&mut r) {
            Ok(v) => v,
            Err(e) => {
                return Err(Error::Asn1(e));
            },
        };
        if !r.is_empty() {
            return Err(Error::UnexpectedStructure);
        }
        Ok(v)
    }
}

impl<'a> Decode<'a> for ContentInfo<'a> {
    open spec fn spec_decode(s: Seq<u8>, pos: int, config: crate::asn1::reader::Config, depth: int) -> crate::asn1::error::Result<(<Self as View>::V, int)> {
        spec_content_info_at(s, pos, config, depth)
    }

    fn decode(r: &mut Reader<'a>) -> (res: CoreResult<Self>)
        ensures
            decoded(*old(r), *final(r), res, spec_content_info_at(old(r).spec_input(), old(r).spec_pos(), old(r).spec_config(), old(r).spec_depth())),
    {
        proof {
            reveal(spec_content_info_at);
            lemma_expect_tlv_progress(r.spec_input(), r.spec_pos(), r.spec_config(), spec_universal_constructed(16));
        }
        let mut inner = enter(r, Tag::universal_constructed(Tag::SEQUENCE))?;
        let content_type = ObjectIdentifier::decode(&mut inner)?;
        let content = Any::decode(&mut inner)?;
        finish(&inner)?;
        Ok(ContentInfo { content_type, content })
    }
}

/// Decode a complete CMS message (strict DER) from `bytes`, returning its
/// [`ContentInfo`]. Trailing bytes are rejected.
pub fn decode(bytes: &[u8]) -> (res: Result<ContentInfo<'_>>)
    ensures
        bytes@.len() == 0 ==> res is Err,
        match spec_message_at_start(bytes@) {
            Ok((v, n)) => if n < bytes@.len() {
                res == Err::<ContentInfo<'_>, Error>(Error::Asn1(CoreError::TrailingData))
            } else {
                res is Ok && res->Ok_0@ == v
            },
            Err(e) => res == Err::<ContentInfo<'_>, Error>(Error::Asn1(e)),
        },
{
    proof { reveal(spec_content_info_at); }
    match crate::asn1::decode::<ContentInfo<'_>>(bytes) {
        Ok(v) => Ok(v),
        Err(e) => Err(Error::Asn1(e)),
    }
}

/// Decode a complete CMS message allowing trailing data (useful when the input
/// carries extra framing).
pub fn decode_partial(bytes: &[u8]) -> (res: Result<ContentInfo<'_>>)
    ensures
        bytes@.len() == 0 ==> res is Err,
        match spec_message_at_start(bytes@) {
            Ok((v, _)) => res is Ok && res->Ok_0@ == v,
            Err(e) => res == Err::<ContentInfo<'_>, Error>(Error::Asn1(e)),
        },
{
    proof { reveal(spec_content_info_at); }
    match crate::asn1::decode_partial::<ContentInfo<'_>>(bytes) {
        Ok(v) => Ok(v),
        Err(e) => Err(Error::Asn1(e)),
    }
}

} // verus!
