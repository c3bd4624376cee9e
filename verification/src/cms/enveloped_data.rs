//! `EnvelopedData` (RFC 5652 §6), plus `DigestedData` and `EncryptedData`.
//!
//! ```asn1
//! EnvelopedData ::= SEQUENCE {
//!     version              CMSVersion,
//!     originatorInfo  [0] IMPLICIT OriginatorInfo OPTIONAL,
//!     recipientInfos       RecipientInfos,
//!     encryptedContentInfo EncryptedContentInfo,
//!     unprotectedAttrs [1] IMPLICIT SET OF Attribute OPTIONAL }
//!
//! EncryptedContentInfo ::= SEQUENCE {
//!     contentType                ContentType,
//!     contentEncryptionAlgorithm ContentEncryptionAlgorithmIdentifier,
//!     encryptedContent      [0] IMPLICIT EncryptedContent OPTIONAL }
//! ```

use crate::asn1::decode::{
    decoded, enter, finish, lemma_expect_tlv_progress, lemma_items_step, spec_items_from, spec_nested_at, spec_prepend, spec_prim_at,
    Decode,
};
use crate::asn1::error::{Error as CoreError, Result as CoreResult};
use crate::asn1::length::Length;
use crate::asn1::reader::{spec_default_config, spec_read_tlv, Config, EncodingRule, Reader};
use crate::asn1::tag::{spec_context, spec_universal, spec_universal_constructed, Class, Tag};
use crate::asn1::types::{spec_as_u64, spec_integer_content, spec_oid_content, Integer, ObjectIdentifier, OctetString};
use crate::cms::algorithm::AlgorithmIdentifier;
use crate::cms::attributes::{decode_attribute_set, spec_attribute_set, Attribute};
use crate::cms::content_info::{spec_content_info_at, ContentInfo};
use crate::cms::error::{spec_to_core, Error, Result};
use crate::cms::recipient_info::{spec_recipient_info_at, EnvelopeBackend, RecipientInfo, RecipientInfoView};
use crate::cms::signer_info::spec_attrs_view;
use crate::x509::algorithm::{spec_alg_id_at, AlgorithmView};
use vstd::prelude::*;

verus! {

broadcast use crate::asn1::reader::Reader::lemma_nonneg;

/// The encrypted-content container inside `EnvelopedData`.
#[derive(Clone, Debug)]
pub struct EncryptedContentInfo<'a> {
    /// The content type OID.
    pub content_type: ObjectIdentifier<'a>,
    /// The content-encryption algorithm.
    pub content_encryption_algorithm: AlgorithmIdentifier<'a>,
    /// The encrypted content (absent for streaming/detached cases).
    pub encrypted_content: Option<OctetString<'a>>,
}

impl<'a> View for EncryptedContentInfo<'a> {
    /// Content type, algorithm, and the encrypted content if present.
    type V = (Seq<u8>, AlgorithmView, Option<Seq<u8>>);

    open spec fn view(&self) -> (Seq<u8>, AlgorithmView, Option<Seq<u8>>) {
        (self.content_type.0@, self.content_encryption_algorithm@, match self.encrypted_content {
            Some(o) => Some(o.0@),
            None => None,
        })
    }
}

/// The content of an `EncryptedContentInfo` SEQUENCE read at nesting
/// `depth`: content type, algorithm, then optionally the `[0]` (primitive)
/// encrypted content; nothing may follow.
pub open spec fn spec_eci_body(c: Seq<u8>, config: Config, depth: int) -> CoreResult<(Seq<u8>, AlgorithmView, Option<Seq<u8>>)> {
    match spec_prim_at(c, 0, config, spec_universal(6), |b: Seq<u8>| spec_oid_content(b)) {
        Err(e) => Err(e),
        Ok((ct, p1)) => match spec_alg_id_at(c, p1, config, depth) {
            Err(e) => Err(e),
            Ok((alg, p2)) => if p2 >= c.len() {
                Ok((ct, alg, None))
            } else {
                match spec_read_tlv(c, p2, config) {
                    Err(e) => Err(e),
                    Ok((t, _, a, b, p3)) => if t != spec_context(false, 0) {
                        Err(spec_to_core(Error::UnexpectedStructure))
                    } else if p3 < c.len() {
                        Err(CoreError::TrailingData)
                    } else {
                        Ok((ct, alg, Some(c.subrange(a, b))))
                    },
                }
            },
        },
    }
}

/// The `EncryptedContentInfo` at `pos` of `s`, met at nesting `depth`.
#[verifier::opaque]
pub open spec fn spec_eci_at(s: Seq<u8>, pos: int, config: Config, depth: int) -> CoreResult<
    ((Seq<u8>, AlgorithmView, Option<Seq<u8>>), int),
> {
    spec_nested_at(s, pos, config, depth, spec_universal_constructed(16), |c: Seq<u8>, d: int| spec_eci_body(c, config, d))
}

impl<'a> EncryptedContentInfo<'a> {
    /// The raw content-encryption algorithm OID bytes.
    pub fn content_enc_alg_bytes(&self) -> (b: &'a [u8])
        ensures
            b@ == self.content_encryption_algorithm.algorithm.0@,
    {
        self.content_encryption_algorithm.algorithm_bytes()
    }
}

/// A decoded `EnvelopedData` message.
#[derive(Clone, Debug)]
pub struct EnvelopedData<'a> {
    /// CMS version (0 for `IssuerAndSerialNumber`, 3 for `KeyAgreeRecipientInfo`).
    pub version: u64,
    /// The recipient infos.
    pub recipient_infos: Vec<RecipientInfo<'a>>,
    /// The encrypted content info.
    pub encrypted_content_info: EncryptedContentInfo<'a>,
}

impl<'a> View for EnvelopedData<'a> {
    /// Version, recipient infos, encrypted content info.
    type V = (u64, Seq<RecipientInfoView>, (Seq<u8>, AlgorithmView, Option<Seq<u8>>));

    open spec fn view(&self) -> (u64, Seq<RecipientInfoView>, (Seq<u8>, AlgorithmView, Option<Seq<u8>>)) {
        (self.version, self.recipient_infos@.map_values(|ri: RecipientInfo<'a>| ri@), self.encrypted_content_info@)
    }
}

/// The value of the recipient-info SET at `p` of `c`, after an optional
/// `[0]` originatorInfo (without one, the element is re-read alone under
/// DER); the value and the offset after the SET.
#[verifier::opaque]
pub open spec fn spec_ri_content_at(c: Seq<u8>, p: int, config: Config) -> CoreResult<(Seq<u8>, int)> {
    match spec_read_tlv(c, p, config) {
        Err(e) => Err(e),
        Ok((t, _, _, _, p2)) => if t == spec_context(true, 0) {
            match spec_read_tlv(c, p2, config) {
                Err(e) => Err(e),
                Ok((t2, _, a2, b2, p3)) => if !(t2.class == Class::Universal && t2.number == 17) {
                    Err(spec_to_core(Error::UnexpectedStructure))
                } else {
                    Ok((c.subrange(a2, b2), p3))
                },
            }
        } else {
            let full = c.subrange(p, p2);
            match spec_read_tlv(full, 0, spec_default_config(EncodingRule::Der)) {
                Err(e) => Err(e),
                Ok((t3, _, a3, b3, _)) => if !(t3.class == Class::Universal && t3.number == 17) {
                    Err(spec_to_core(Error::UnexpectedStructure))
                } else {
                    Ok((full.subrange(a3, b3), p2))
                },
            }
        },
    }
}

/// Reading one `RecipientInfo` of a DER list.
pub open spec fn spec_ri_item() -> spec_fn(Seq<u8>, int) -> CoreResult<(RecipientInfoView, int)> {
    |s: Seq<u8>, p: int| spec_recipient_info_at(s, p, spec_default_config(EncodingRule::Der))
}

/// The end of an `EnvelopedData` or `EncryptedData` content from `q`: if
/// anything is left, a `[1]` attribute set that decodes, and nothing after
/// it; the attributes, if present.
#[verifier::opaque]
pub open spec fn spec_unprotected_at(c: Seq<u8>, q: int, config: Config) -> CoreResult<Option<Seq<(Seq<u8>, Seq<u8>)>>> {
    if q >= c.len() {
        Ok(None)
    } else {
        match spec_read_tlv(c, q, config) {
            Err(e) => Err(e),
            Ok((t, _, a, b, n)) => if t != spec_context(true, 1) {
                Err(spec_to_core(Error::UnexpectedStructure))
            } else {
                match spec_attribute_set(c.subrange(a, b)) {
                    Err(e) => Err(spec_to_core(e)),
                    Ok(v) => if n < c.len() {
                        Err(CoreError::TrailingData)
                    } else {
                        Ok(Some(v))
                    },
                }
            },
        }
    }
}

/// The content of an `EnvelopedData` SEQUENCE read at nesting `depth`:
/// version (at most eight bytes), the recipient infos, the encrypted content
/// info, and the optional unprotected attributes (checked, not kept).
pub open spec fn spec_enveloped_body(c: Seq<u8>, config: Config, depth: int) -> CoreResult<
    (u64, Seq<RecipientInfoView>, (Seq<u8>, AlgorithmView, Option<Seq<u8>>)),
> {
    match spec_prim_at(c, 0, config, spec_universal(2), |b: Seq<u8>| spec_integer_content(b, config.rule)) {
        Err(e) => Err(e),
        Ok((ver, p1)) => match spec_as_u64(ver) {
            None => Err(spec_to_core(Error::UnsupportedVersion)),
            Some(version) => match spec_ri_content_at(c, p1, config) {
                Err(e) => Err(e),
                Ok((ri, p2)) => match spec_items_from(ri, 0, spec_ri_item()) {
                    Err(e) => Err(e),
                    Ok(ris) => match spec_eci_at(c, p2, config, depth) {
                        Err(e) => Err(e),
                        Ok((eci, p3)) => match spec_unprotected_at(c, p3, config) {
                            Err(e) => Err(e),
                            Ok(_) => Ok((version, ris, eci)),
                        },
                    },
                },
            },
        },
    }
}

/// The `EnvelopedData` at `pos` of `s`, met at nesting `depth`.
pub open spec fn spec_enveloped_at(s: Seq<u8>, pos: int, config: Config, depth: int) -> CoreResult<
    ((u64, Seq<RecipientInfoView>, (Seq<u8>, AlgorithmView, Option<Seq<u8>>)), int),
> {
    spec_nested_at(s, pos, config, depth, spec_universal_constructed(16), |c: Seq<u8>, d: int| spec_enveloped_body(c, config, d))
}

/// The content of the `SET` of recipient infos at the reader, after an
/// optional `[0]` originatorInfo.
fn recipient_infos_content<'a>(inner: &mut Reader<'a>) -> (res: CoreResult<&'a [u8]>)
    ensures
        final(inner).same_source(*old(inner)),
        match spec_ri_content_at(old(inner).spec_input(), old(inner).spec_pos(), old(inner).spec_config()) {
            Ok((v, n)) => res is Ok && res->Ok_0@ == v && final(inner).spec_pos() == n,
            Err(e) => res == Err::<&'a [u8], CoreError>(e),
        },
{
    proof { reveal(spec_ri_content_at); }
    let start = inner.position();
    let (tag, _, _value) = inner.read_tlv()?;
    if tag == Tag::context(true, 0) {
        // skip originatorInfo, then read recipientInfos (SET).
        let (t2, _, v2) = inner.read_tlv()?;
        if !t2.is_universal(Tag::SET) {
            return Err(CoreError::from(Error::UnexpectedStructure));
        }
        Ok(v2)
    } else {
        // This TLV is recipientInfos (SET).
        let end = inner.position();
        let full = inner.slice(start, end);
        let mut rr = Reader::new(full, Config::der());
        let (t, _, v) = rr.read_tlv()?;
        if !t.is_universal(Tag::SET) {
            return Err(CoreError::from(Error::UnexpectedStructure));
        }
        Ok(v)
    }
}

impl<'a> Decode<'a> for EnvelopedData<'a> {
    open spec fn spec_decode(s: Seq<u8>, pos: int, config: crate::asn1::reader::Config, depth: int) -> crate::asn1::error::Result<(<Self as View>::V, int)> {
        spec_enveloped_at(s, pos, config, depth)
    }

    fn decode(r: &mut Reader<'a>) -> (res: CoreResult<Self>)
        ensures
            decoded(*old(r), *final(r), res, spec_enveloped_at(old(r).spec_input(), old(r).spec_pos(), old(r).spec_config(), old(r).spec_depth())),
    {
        proof { lemma_expect_tlv_progress(r.spec_input(), r.spec_pos(), r.spec_config(), spec_universal_constructed(16)); }
        let mut inner = enter(r, Tag::universal_constructed(Tag::SEQUENCE))?;
        let version = match Integer::decode(&mut inner)?.as_u64() {
            Some(v) => v,
            None => {
                return Err(CoreError::from(Error::UnsupportedVersion));
            },
        };
        let ri_content = recipient_infos_content(&mut inner)?;
        let recipient_infos = decode_recipient_infos(ri_content)?;

        let encrypted_content_info = decode_encrypted_content_info(&mut inner)?;

        // Optional unprotectedAttrs [1] IMPLICIT SET OF Attribute.
        decode_unprotected(&mut inner)?;
        Ok(EnvelopedData { version, recipient_infos, encrypted_content_info })
    }
}

/// Read the recipient infos of the SET value `content` (DER).
fn decode_recipient_infos<'a>(content: &'a [u8]) -> (res: CoreResult<Vec<RecipientInfo<'a>>>)
    ensures
        crate::asn1::decode::list_result(res, spec_items_from(content@, 0, spec_ri_item())),
{
    let mut ri_r = Reader::new(content, Config::der());
    let ghost s = content@;
    let mut recipient_infos: Vec<RecipientInfo<'a>> = Vec::new();
    assert(spec_prepend(recipient_infos@.map_values(|x: RecipientInfo<'a>| x@), spec_items_from(s, 0, spec_ri_item()))
        =~= spec_items_from(s, 0, spec_ri_item()));
    while !ri_r.is_empty()
        invariant
            ri_r.spec_input() == s,
            s == content@,
            ri_r.spec_config() == spec_default_config(EncodingRule::Der),
            spec_prepend(recipient_infos@.map_values(|x: RecipientInfo<'a>| x@), spec_items_from(s, ri_r.spec_pos(), spec_ri_item()))
                == spec_items_from(s, 0, spec_ri_item()),
        decreases ri_r.spec_input().len() - ri_r.spec_pos(),
    {
        let ghost p = ri_r.spec_pos();
        let ghost before = recipient_infos@.map_values(|x: RecipientInfo<'a>| x@);
        let ri = RecipientInfo::decode(&mut ri_r)?;
        proof {
            crate::asn1::reader::lemma_read_tlv_bounds(s, p, spec_default_config(EncodingRule::Der));
            lemma_items_step::<RecipientInfoView, CoreError>(s, p, spec_ri_item(), before, ri@, ri_r.spec_pos());
        }
        recipient_infos.push(ri);
        assert(recipient_infos@.map_values(|x: RecipientInfo<'a>| x@) =~= before.push(ri@));
    }
    let ghost fin = recipient_infos@.map_values(|x: RecipientInfo<'a>| x@);
    assert(fin + Seq::<RecipientInfoView>::empty() =~= fin);
    Ok(recipient_infos)
}

/// Read the optional `[1]` unprotected attributes that end `inner`, which
/// must then be exhausted.
fn decode_unprotected<'a>(inner: &mut Reader<'a>) -> (res: CoreResult<Option<Vec<Attribute<'a>>>>)
    ensures
        final(inner).same_source(*old(inner)),
        match spec_unprotected_at(old(inner).spec_input(), old(inner).spec_pos(), old(inner).spec_config()) {
            Ok(v) => res is Ok && v == (match res->Ok_0 {
                Some(a) => Some(spec_attrs_view(a@)),
                None => None,
            }),
            Err(e) => res == Err::<Option<Vec<Attribute<'a>>>, CoreError>(e),
        },
{
    proof { reveal(spec_unprotected_at); }
    let attrs = if inner.is_empty() {
        None
    } else {
        let (tag, _, value) = inner.read_tlv()?;
        if tag != Tag::context(true, 1) {
            return Err(CoreError::from(Error::UnexpectedStructure));
        }
        match decode_attribute_set(value) {
            Ok(v) => Some(v),
            Err(e) => {
                return Err(CoreError::from(e));
            },
        }
    };
    finish(inner)?;
    Ok(attrs)
}

fn decode_encrypted_content_info<'a>(r: &mut Reader<'a>) -> (res: CoreResult<EncryptedContentInfo<'a>>)
    ensures
        decoded(*old(r), *final(r), res, spec_eci_at(old(r).spec_input(), old(r).spec_pos(), old(r).spec_config(), old(r).spec_depth())),
{
    proof {
        reveal(spec_eci_at);
        lemma_expect_tlv_progress(r.spec_input(), r.spec_pos(), r.spec_config(), spec_universal_constructed(16));
    }
    let mut inner = enter(r, Tag::universal_constructed(Tag::SEQUENCE))?;
    let content_type = ObjectIdentifier::decode(&mut inner)?;
    let content_encryption_algorithm = AlgorithmIdentifier::decode(&mut inner)?;
    let encrypted_content = if inner.is_empty() {
        None
    } else {
        let (tag, _, value) = inner.read_tlv()?;
        if tag != Tag::context(false, 0) {
            return Err(CoreError::from(Error::UnexpectedStructure));
        }
        Some(OctetString(value))
    };
    finish(&inner)?;
    Ok(EncryptedContentInfo { content_type, content_encryption_algorithm, encrypted_content })
}

/// Decrypt `EnvelopedData` using the key-transport (`KeyTransRecipientInfo`)
/// recipient at `recipient_index` and the recipient's RSA `private_key_der`.
///
/// The actual RSA and symmetric decryption are delegated to the pluggable
/// [`EnvelopeBackend`]. Returns the plaintext content.
pub fn decrypt<B: EnvelopeBackend>(
    ed: &EnvelopedData<'_>,
    recipient_index: usize,
    private_key_der: &[u8],
    backend: &B,
) -> (res: Result<Vec<u8>>)
    ensures
        recipient_index >= ed.recipient_infos@.len() ==> res == Err::<Vec<u8>, Error>(Error::UnexpectedStructure),
        recipient_index < ed.recipient_infos@.len() && !(ed.recipient_infos@[recipient_index as int] is KeyTrans) ==> res
            == Err::<Vec<u8>, Error>(Error::UnsupportedAlgorithm),
        B::obeys_backend_spec() && recipient_index < ed.recipient_infos@.len() ==> match ed.recipient_infos@[recipient_index as int] {
            RecipientInfo::KeyTrans(ktri) => match backend.spec_rsa_unwrap(ktri.encrypted_key@, private_key_der@) {
                Err(e) => res == Err::<Vec<u8>, Error>(e),
                Ok(cek) => match ed.encrypted_content_info.encrypted_content {
                    None => res == Err::<Vec<u8>, Error>(Error::MissingContent),
                    Some(c) => match backend.spec_decrypt_content(
                        ed.encrypted_content_info.content_encryption_algorithm.algorithm.0@,
                        cek,
                        c.0@,
                    ) {
                        Ok(p) => (res matches Ok(v) && v@ == p),
                        Err(e) => res == Err::<Vec<u8>, Error>(e),
                    },
                },
            },
            _ => true,
        },
{
    if recipient_index >= ed.recipient_infos.len() {
        return Err(Error::UnexpectedStructure);
    }
    let recipient = &ed.recipient_infos[recipient_index];
    let ktri = match recipient.as_key_trans() {
        Some(k) => k,
        None => {
            return Err(Error::UnsupportedAlgorithm);
        },
    };
    let cek = backend.rsa_unwrap(ktri.encrypted_key, private_key_der)?;
    let encrypted_content = match ed.encrypted_content_info.encrypted_content {
        Some(c) => c,
        None => {
            return Err(Error::MissingContent);
        },
    };
    backend.decrypt_content(ed.encrypted_content_info.content_enc_alg_bytes(), cek.as_slice(), encrypted_content.0)
}

/// `DigestedData` (RFC 5652 §7) — a content type + its message digest.
#[derive(Clone, Debug)]
pub struct DigestedData<'a> {
    /// CMS version (must be 0).
    pub version: u64,
    /// The digest algorithm.
    pub digest_algorithm: AlgorithmIdentifier<'a>,
    /// The encapsulated content (opaque here).
    pub content: ContentInfo<'a>,
    /// The message digest.
    pub digest: &'a [u8],
}

impl<'a> View for DigestedData<'a> {
    /// Version, digest algorithm, content, digest.
    type V = (u64, AlgorithmView, (Seq<u8>, (Tag, Length, Seq<u8>, Seq<u8>)), Seq<u8>);

    open spec fn view(&self) -> (u64, AlgorithmView, (Seq<u8>, (Tag, Length, Seq<u8>, Seq<u8>)), Seq<u8>) {
        (self.version, self.digest_algorithm@, self.content@, self.digest@)
    }
}

/// The content of a `DigestedData` SEQUENCE read at nesting `depth`:
/// version, digest algorithm, content info, digest, and nothing after them.
pub open spec fn spec_digested_body(c: Seq<u8>, config: Config, depth: int) -> CoreResult<
    (u64, AlgorithmView, (Seq<u8>, (Tag, Length, Seq<u8>, Seq<u8>)), Seq<u8>),
> {
    match spec_prim_at(c, 0, config, spec_universal(2), |b: Seq<u8>| spec_integer_content(b, config.rule)) {
        Err(e) => Err(e),
        Ok((ver, p1)) => match spec_as_u64(ver) {
            None => Err(spec_to_core(Error::UnsupportedVersion)),
            Some(version) => match spec_alg_id_at(c, p1, config, depth) {
                Err(e) => Err(e),
                Ok((alg, p2)) => match spec_content_info_at(c, p2, config, depth) {
                    Err(e) => Err(e),
                    Ok((ci, p3)) => match spec_prim_at(c, p3, config, spec_universal(4), |b: Seq<u8>| Ok::<Seq<u8>, CoreError>(b)) {
                        Err(e) => Err(e),
                        Ok((digest, p4)) => if p4 < c.len() {
                            Err(CoreError::TrailingData)
                        } else {
                            Ok((version, alg, ci, digest))
                        },
                    },
                },
            },
        },
    }
}

impl<'a> Decode<'a> for DigestedData<'a> {
    open spec fn spec_decode(s: Seq<u8>, pos: int, config: crate::asn1::reader::Config, depth: int) -> crate::asn1::error::Result<(<Self as View>::V, int)> {
        spec_nested_at(
            s,
            pos,
            config,
            depth,
            spec_universal_constructed(16),
            |c: Seq<u8>, d: int| spec_digested_body(c, config, d),
        )
    }

    fn decode(r: &mut Reader<'a>) -> (res: CoreResult<Self>)
    {
        proof { lemma_expect_tlv_progress(r.spec_input(), r.spec_pos(), r.spec_config(), spec_universal_constructed(16)); }
        let mut inner = enter(r, Tag::universal_constructed(Tag::SEQUENCE))?;
        let version = match Integer::decode(&mut inner)?.as_u64() {
            Some(v) => v,
            None => {
                return Err(CoreError::from(Error::UnsupportedVersion));
            },
        };
        let digest_algorithm = AlgorithmIdentifier::decode(&mut inner)?;
        let content = ContentInfo::decode(&mut inner)?;
        let digest = OctetString::decode(&mut inner)?.0;
        finish(&inner)?;
        Ok(DigestedData { version, digest_algorithm, content, digest })
    }
}

/// `EncryptedData` (RFC 5652 §8) — content encrypted without key management.
#[derive(Clone, Debug)]
pub struct EncryptedData<'a> {
    /// CMS version (0 or 2).
    pub version: u64,
    /// The encrypted content info.
    pub encrypted_content_info: EncryptedContentInfo<'a>,
    /// Optional unprotected attributes.
    pub unprotected_attrs: Option<Vec<Attribute<'a>>>,
}

impl<'a> View for EncryptedData<'a> {
    /// Version, encrypted content info, unprotected attributes.
    type V = (u64, (Seq<u8>, AlgorithmView, Option<Seq<u8>>), Option<Seq<(Seq<u8>, Seq<u8>)>>);

    open spec fn view(&self) -> (u64, (Seq<u8>, AlgorithmView, Option<Seq<u8>>), Option<Seq<(Seq<u8>, Seq<u8>)>>) {
        (self.version, self.encrypted_content_info@, match self.unprotected_attrs {
            Some(a) => Some(spec_attrs_view(a@)),
            None => None,
        })
    }
}

/// The content of an `EncryptedData` SEQUENCE read at nesting `depth`:
/// version, encrypted content info, and the optional `[1]` unprotected
/// attributes.
pub open spec fn spec_encrypted_body(c: Seq<u8>, config: Config, depth: int) -> CoreResult<
    (u64, (Seq<u8>, AlgorithmView, Option<Seq<u8>>), Option<Seq<(Seq<u8>, Seq<u8>)>>),
> {
    match spec_prim_at(c, 0, config, spec_universal(2), |b: Seq<u8>| spec_integer_content(b, config.rule)) {
        Err(e) => Err(e),
        Ok((ver, p1)) => match spec_as_u64(ver) {
            None => Err(spec_to_core(Error::UnsupportedVersion)),
            Some(version) => match spec_eci_at(c, p1, config, depth) {
                Err(e) => Err(e),
                Ok((eci, p2)) => match spec_unprotected_at(c, p2, config) {
                    Err(e) => Err(e),
                    Ok(attrs) => Ok((version, eci, attrs)),
                },
            },
        },
    }
}

impl<'a> Decode<'a> for EncryptedData<'a> {
    open spec fn spec_decode(s: Seq<u8>, pos: int, config: crate::asn1::reader::Config, depth: int) -> crate::asn1::error::Result<(<Self as View>::V, int)> {
        spec_nested_at(
            s,
            pos,
            config,
            depth,
            spec_universal_constructed(16),
            |c: Seq<u8>, d: int| spec_encrypted_body(c, config, d),
        )
    }

    fn decode(r: &mut Reader<'a>) -> (res: CoreResult<Self>)
    {
        proof { lemma_expect_tlv_progress(r.spec_input(), r.spec_pos(), r.spec_config(), spec_universal_constructed(16)); }
        let mut inner = enter(r, Tag::universal_constructed(Tag::SEQUENCE))?;
        let version = match Integer::decode(&mut inner)?.as_u64() {
            Some(v) => v,
            None => {
                return Err(CoreError::from(Error::UnsupportedVersion));
            },
        };
        let encrypted_content_info = decode_encrypted_content_info(&mut inner)?;
        let unprotected_attrs = decode_unprotected(&mut inner)?;
        Ok(EncryptedData { version, encrypted_content_info, unprotected_attrs })
    }
}

} // verus!
