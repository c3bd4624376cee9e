//! `RecipientInfo` choices for `EnvelopedData` (RFC 5652 §6.2), plus the
//! pluggable key-unwrap/decrypt backend used to actually recover the
//! content-encryption key and decrypt the content.
//!
//! ```asn1
//! RecipientInfo ::= CHOICE {
//!     ktri  KeyTransRecipientInfo,
//!     kari  [0] KeyAgreeRecipientInfo,
//!     kekri [1] KEKRecipientInfo,
//!     pwri  [2] PasswordRecipientInfo,
//!     ori   [3] OtherRecipientInfo }
//! ```

use crate::asn1::any::{spec_any_at, Any};
use crate::asn1::decode::{decoded, lemma_items_step, spec_items_from, spec_prepend, spec_prim_at, Decode};
use crate::asn1::error::{Error as CoreError, Result as CoreResult};
use crate::asn1::length::Length;
use crate::asn1::reader::{spec_default_config, spec_read_tlv, Config, EncodingRule, Reader};
use crate::asn1::tag::{spec_context, spec_universal, Class, Tag};
use crate::asn1::types::{spec_as_u64, spec_integer_content, Integer, OctetString};
use crate::cms::algorithm::AlgorithmIdentifier;
use crate::cms::error::{spec_to_core, Error, Result};
use crate::cms::signer_info::spec_sid_at;
use crate::x509::algorithm::{spec_alg_id_at, AlgorithmView};
use vstd::prelude::*;

verus! {

broadcast use crate::asn1::reader::Reader::lemma_nonneg;

/// `RecipientIdentifier` — how a `KeyTransRecipientInfo` names its recipient.
#[derive(Clone, Copy, PartialEq, Eq, Debug)]
pub enum RecipientIdentifier<'a> {
    /// `IssuerAndSerialNumber`.
    IssuerAndSerialNumber {
        /// Issuer `Name` TLV.
        issuer: &'a [u8],
        /// `serialNumber` INTEGER bytes.
        serial: &'a [u8],
    },
    /// `SubjectKeyIdentifier` (raw key-identifier bytes).
    SubjectKeyIdentifier(&'a [u8]),
}

/// `KeyTransRecipientInfo` — RSA (or similar) public-key key transport.
#[derive(Clone, Copy, PartialEq, Eq, Debug)]
pub struct KeyTransRecipientInfo<'a> {
    /// CMS version (must be 0 or 2).
    pub version: u64,
    /// The recipient identifier.
    pub rid: RecipientIdentifier<'a>,
    /// The key-encryption algorithm (e.g. `rsaEncryption`).
    pub key_encryption_algorithm: AlgorithmIdentifier<'a>,
    /// The encrypted content-encryption key.
    pub encrypted_key: &'a [u8],
}

/// `RecipientEncryptedKey` — one recipient's encrypted key within a `KeyAgreeRecipientInfo`.
#[derive(Clone, Debug)]
pub struct RecipientEncryptedKey<'a> {
    /// The recipient identifier (could be `subjectKeyIdentifier`).
    pub rid: Any<'a>,
    /// The encrypted key.
    pub encrypted_key: &'a [u8],
}

/// `KeyAgreeRecipientInfo` — ECDH (or similar) key agreement.
#[derive(Clone, Debug)]
pub struct KeyAgreeRecipientInfo<'a> {
    /// CMS version (must be 3).
    pub version: u64,
    /// The originator's key (opaque here).
    pub originator: Any<'a>,
    /// The key-encryption algorithm (e.g. `dhSinglePass-stdHmac`).
    pub key_encryption_algorithm: AlgorithmIdentifier<'a>,
    /// The per-recipient encrypted keys.
    pub recipient_encrypted_keys: Vec<RecipientEncryptedKey<'a>>,
}

/// A `RecipientInfo`, decoding the common choices and retaining the rest opaque.
#[derive(Clone, Debug)]
pub enum RecipientInfo<'a> {
    /// RSA-style key transport.
    KeyTrans(KeyTransRecipientInfo<'a>),
    /// ECDH-style key agreement.
    KeyAgree(KeyAgreeRecipientInfo<'a>),
    /// KEK key transport (opaque).
    Kek(Any<'a>),
    /// Password-based (opaque).
    Password(Any<'a>),
    /// Other/unknown recipient info (opaque).
    Other(Any<'a>),
}

impl<'a> View for RecipientIdentifier<'a> {
    /// Whether the recipient is named by key identifier, then the key
    /// identifier (or the issuer TLV) and the serial bytes (empty for a key
    /// identifier).
    type V = (bool, Seq<u8>, Seq<u8>);

    open spec fn view(&self) -> (bool, Seq<u8>, Seq<u8>) {
        match *self {
            RecipientIdentifier::SubjectKeyIdentifier(id) => (true, id@, Seq::empty()),
            RecipientIdentifier::IssuerAndSerialNumber { issuer, serial } => (false, issuer@, serial@),
        }
    }
}

impl<'a> View for KeyTransRecipientInfo<'a> {
    /// Version, recipient, key-encryption algorithm, encrypted key.
    type V = (u64, (bool, Seq<u8>, Seq<u8>), AlgorithmView, Seq<u8>);

    open spec fn view(&self) -> (u64, (bool, Seq<u8>, Seq<u8>), AlgorithmView, Seq<u8>) {
        (self.version, self.rid@, self.key_encryption_algorithm@, self.encrypted_key@)
    }
}

impl<'a> View for RecipientEncryptedKey<'a> {
    /// The recipient element and the encrypted key.
    type V = ((Tag, Length, Seq<u8>, Seq<u8>), Seq<u8>);

    open spec fn view(&self) -> ((Tag, Length, Seq<u8>, Seq<u8>), Seq<u8>) {
        (self.rid@, self.encrypted_key@)
    }
}

/// A `KeyAgreeRecipientInfo` as values: version, originator element,
/// key-encryption algorithm, and the per-recipient keys.
pub type KeyAgreeView = (u64, (Tag, Length, Seq<u8>, Seq<u8>), AlgorithmView, Seq<((Tag, Length, Seq<u8>, Seq<u8>), Seq<u8>)>);

impl<'a> View for KeyAgreeRecipientInfo<'a> {
    type V = KeyAgreeView;

    open spec fn view(&self) -> KeyAgreeView {
        (
            self.version,
            self.originator@,
            self.key_encryption_algorithm@,
            self.recipient_encrypted_keys@.map_values(|k: RecipientEncryptedKey<'a>| k@),
        )
    }
}

/// A `RecipientInfo` as values.
pub ghost enum RecipientInfoView {
    /// Key transport.
    KeyTrans((u64, (bool, Seq<u8>, Seq<u8>), AlgorithmView, Seq<u8>)),
    /// Key agreement.
    KeyAgree(KeyAgreeView),
    /// KEK (the element).
    Kek((Tag, Length, Seq<u8>, Seq<u8>)),
    /// Password (the element).
    Password((Tag, Length, Seq<u8>, Seq<u8>)),
    /// Any other choice (the element).
    Other((Tag, Length, Seq<u8>, Seq<u8>)),
}

impl<'a> View for RecipientInfo<'a> {
    type V = RecipientInfoView;

    open spec fn view(&self) -> RecipientInfoView {
        match self {
            RecipientInfo::KeyTrans(k) => RecipientInfoView::KeyTrans(k@),
            RecipientInfo::KeyAgree(k) => RecipientInfoView::KeyAgree(k@),
            RecipientInfo::Kek(a) => RecipientInfoView::Kek(a@),
            RecipientInfo::Password(a) => RecipientInfoView::Password(a@),
            RecipientInfo::Other(a) => RecipientInfoView::Other(a@),
        }
    }
}

/// The value of a `KeyTransRecipientInfo` SEQUENCE `v`, read under DER from
/// the top level: version (at most eight bytes), recipient, key-encryption
/// algorithm and the encrypted key; what follows is not read.
#[verifier::opaque]
pub open spec fn spec_key_trans(v: Seq<u8>) -> CoreResult<(u64, (bool, Seq<u8>, Seq<u8>), AlgorithmView, Seq<u8>)> {
    let der = spec_default_config(EncodingRule::Der);
    match spec_prim_at(v, 0, der, spec_universal(2), |b: Seq<u8>| spec_integer_content(b, EncodingRule::Der)) {
        Err(e) => Err(e),
        Ok((ver, p1)) => match spec_as_u64(ver) {
            None => Err(spec_to_core(Error::UnsupportedVersion)),
            Some(version) => match spec_sid_at(v, p1, der) {
                Err(e) => Err(e),
                Ok((rid, p2)) => match spec_alg_id_at(v, p2, der, 0) {
                    Err(e) => Err(e),
                    Ok((kea, p3)) => match spec_prim_at(v, p3, der, spec_universal(4), |b: Seq<u8>| Ok::<Seq<u8>, CoreError>(b)) {
                        Err(e) => Err(e),
                        Ok((ek, _)) => Ok((version, rid, kea, ek)),
                    },
                },
            },
        },
    }
}

/// Reading one `RecipientEncryptedKey` of a DER list: an element whose value
/// starts with the recipient element and the encrypted-key OCTET STRING.
pub open spec fn spec_rek_item() -> spec_fn(Seq<u8>, int) -> CoreResult<(((Tag, Length, Seq<u8>, Seq<u8>), Seq<u8>), int)> {
    |s: Seq<u8>, p: int|
        match spec_read_tlv(s, p, spec_default_config(EncodingRule::Der)) {
            Err(e) => Err(e),
            Ok((_, _, a, b, n)) => {
                let k = s.subrange(a, b);
                match spec_any_at(k, 0, spec_default_config(EncodingRule::Der)) {
                    Err(e) => Err(e),
                    Ok((rid, k1)) => match spec_prim_at(
                        k,
                        k1,
                        spec_default_config(EncodingRule::Der),
                        spec_universal(4),
                        |x: Seq<u8>| Ok::<Seq<u8>, CoreError>(x),
                    ) {
                        Err(e) => Err(e),
                        Ok((ek, _)) => Ok(((rid, ek), n)),
                    },
                }
            },
        }
}

/// The value of a `[0]` `KeyAgreeRecipientInfo` `v`, read under DER:
/// version, the `[0]` originator (its first element), an optional `[1]`
/// element, the key-encryption algorithm, and the SEQUENCE of encrypted
/// keys; what follows is not read.
#[verifier::opaque]
pub open spec fn spec_key_agree(v: Seq<u8>) -> Result<KeyAgreeView> {
    let der = spec_default_config(EncodingRule::Der);
    match spec_prim_at(v, 0, der, spec_universal(2), |b: Seq<u8>| spec_integer_content(b, EncodingRule::Der)) {
        Err(e) => Err(Error::Asn1(e)),
        Ok((ver, p1)) => match spec_as_u64(ver) {
            None => Err(Error::UnsupportedVersion),
            Some(version) => match spec_read_tlv(v, p1, der) {
                Err(e) => Err(Error::Asn1(e)),
                Ok((ot, _, oa, ob, p2)) => if ot != spec_context(true, 0) {
                    Err(Error::UnexpectedStructure)
                } else {
                    match spec_any_at(v.subrange(oa, ob), 0, der) {
                        Err(e) => Err(Error::Asn1(e)),
                        Ok((orig, _)) => {
                            let u: Result<int> = if p2 < v.len() {
                                match spec_read_tlv(v, p2, der) {
                                    Err(e) => Err(Error::Asn1(e)),
                                    Ok((ut, _, _, _, p3)) => if ut != spec_context(true, 1) {
                                        Err(Error::UnexpectedStructure)
                                    } else {
                                        Ok(p3)
                                    },
                                }
                            } else {
                                Ok(p2)
                            };
                            match u {
                                Err(e) => Err(e),
                                Ok(q) => match spec_alg_id_at(v, q, der, 0) {
                                    Err(e) => Err(Error::Asn1(e)),
                                    Ok((kea, q2)) => match spec_read_tlv(v, q2, der) {
                                        Err(e) => Err(Error::Asn1(e)),
                                        Ok((rt, _, ra, rb, _)) => if !(rt.class == Class::Universal && rt.number == 16) {
                                            Err(Error::UnexpectedStructure)
                                        } else {
                                            match spec_items_from(v.subrange(ra, rb), 0, spec_rek_item()) {
                                                Err(e) => Err(Error::Asn1(e)),
                                                Ok(keys) => Ok((version, orig, kea, keys)),
                                            }
                                        },
                                    },
                                },
                            }
                        },
                    }
                },
            },
        },
    }
}

/// The `RecipientInfo` at `pos` of `s`: its choice by the element's tag (a
/// universal SEQUENCE is key transport, `[0]` key agreement, `[1]` KEK, `[2]`
/// password, anything else other), and the offset after it.
#[verifier::opaque]
pub open spec fn spec_recipient_info_at(s: Seq<u8>, pos: int, config: Config) -> CoreResult<(RecipientInfoView, int)> {
    match spec_any_at(s, pos, config) {
        Err(e) => Err(e),
        Ok((a, n)) => if a.0.class == Class::Universal && a.0.number == 16 {
            match spec_key_trans(a.2) {
                Err(e) => Err(e),
                Ok(k) => Ok((RecipientInfoView::KeyTrans(k), n)),
            }
        } else if a.0 == spec_context(true, 0) {
            match spec_key_agree(a.2) {
                Err(e) => Err(spec_to_core(e)),
                Ok(k) => Ok((RecipientInfoView::KeyAgree(k), n)),
            }
        } else if a.0 == spec_context(true, 1) {
            Ok((RecipientInfoView::Kek(a), n))
        } else if a.0 == spec_context(true, 2) {
            Ok((RecipientInfoView::Password(a), n))
        } else {
            Ok((RecipientInfoView::Other(a), n))
        },
    }
}

impl<'a> RecipientInfo<'a> {
    /// The key-transport recipient, if this is a `KeyTransRecipientInfo`.
    pub fn as_key_trans(&self) -> (r: Option<&KeyTransRecipientInfo<'a>>)
        ensures
            match self {
                RecipientInfo::KeyTrans(k) => r == Some(k),
                _ => r is None,
            },
    {
        match self {
            RecipientInfo::KeyTrans(k) => Some(k),
            _ => None,
        }
    }
}

/// The recipient-info choice an element with tag `t` is read as.
pub open spec fn spec_recipient_kind(t: Tag, ri: RecipientInfo) -> bool {
    &&& (t.class == Class::Universal && t.number == 16) ==> ri is KeyTrans
    &&& !(t.class == Class::Universal && t.number == 16) && t == spec_context(true, 0) ==> ri is KeyAgree
    &&& !(t.class == Class::Universal && t.number == 16) && t == spec_context(true, 1) ==> ri is Kek
    &&& !(t.class == Class::Universal && t.number == 16) && t == spec_context(true, 2) ==> ri is Password
    &&& !(t.class == Class::Universal && t.number == 16) && !(t == spec_context(true, 0) || t == spec_context(true, 1)
        || t == spec_context(true, 2)) ==> ri is Other
}

impl<'a> Decode<'a> for RecipientInfo<'a> {
    open spec fn spec_decode(s: Seq<u8>, pos: int, config: crate::asn1::reader::Config, depth: int) -> crate::asn1::error::Result<(<Self as View>::V, int)> {
        spec_recipient_info_at(s, pos, config)
    }

    fn decode(r: &mut Reader<'a>) -> (res: CoreResult<Self>)
        ensures
            match spec_any_at(old(r).spec_input(), old(r).spec_pos(), old(r).spec_config()) {
                Ok((a, n)) => final(r).spec_pos() == n && (res matches Ok(ri) ==> spec_recipient_kind(a.0, ri)),
                Err(e) => res == Err::<Self, crate::asn1::error::Error>(e),
            },
            decoded(*old(r), *final(r), res, spec_recipient_info_at(old(r).spec_input(), old(r).spec_pos(), old(r).spec_config())),
    {
        proof {
            reveal(spec_recipient_info_at);
            crate::asn1::reader::lemma_read_tlv_bounds(r.spec_input(), r.spec_pos(), r.spec_config());
        }
        let any = Any::decode(r)?;
        if any.tag.is_universal(Tag::SEQUENCE) {
            let k = decode_key_trans(any.value)?;
            Ok(RecipientInfo::KeyTrans(k))
        } else if any.tag == Tag::context(true, 0) {
            let ka = match decode_key_agree(any.value) {
                Ok(v) => v,
                Err(e) => {
                    return Err(CoreError::from(e));
                },
            };
            Ok(RecipientInfo::KeyAgree(ka))
        } else if any.tag == Tag::context(true, 1) {
            Ok(RecipientInfo::Kek(any))
        } else if any.tag == Tag::context(true, 2) {
            Ok(RecipientInfo::Password(any))
        } else {
            Ok(RecipientInfo::Other(any))
        }
    }
}

/// Decode the value of a `KeyTransRecipientInfo` SEQUENCE.
fn decode_key_trans<'a>(value: &'a [u8]) -> (res: CoreResult<KeyTransRecipientInfo<'a>>)
    ensures
        match spec_key_trans(value@) {
            Ok(v) => res is Ok && res->Ok_0@ == v,
            Err(e) => res == Err::<KeyTransRecipientInfo<'a>, CoreError>(e),
        },
{
    proof { reveal(spec_key_trans); }
    let mut ir = Reader::new(value, Config::der());
    let version = match Integer::decode(&mut ir)?.as_u64() {
        Some(v) => v,
        None => {
            return Err(CoreError::from(Error::UnsupportedVersion));
        },
    };
    let (tag, _, value) = ir.read_tlv()?;
    let rid = if tag == Tag::context(false, 0) {
        RecipientIdentifier::SubjectKeyIdentifier(value)
    } else if tag.is_universal(Tag::SEQUENCE) {
        let mut ias = Reader::new(value, Config::der());
        let issuer = full_tlv(&mut ias)?;
        let (_, _, serial) = ias.read_tlv()?;
        RecipientIdentifier::IssuerAndSerialNumber { issuer, serial }
    } else {
        return Err(CoreError::from(Error::UnexpectedStructure));
    };
    let key_encryption_algorithm = AlgorithmIdentifier::decode(&mut ir)?;
    let encrypted_key = OctetString::decode(&mut ir)?.0;
    Ok(KeyTransRecipientInfo { version, rid, key_encryption_algorithm, encrypted_key })
}

/// Read the `RecipientEncryptedKey`s of the SEQUENCE value `content` (DER).
fn decode_encrypted_keys<'a>(content: &'a [u8]) -> (res: CoreResult<Vec<RecipientEncryptedKey<'a>>>)
    ensures
        crate::asn1::decode::list_result(res, spec_items_from(content@, 0, spec_rek_item())),
{
    let mut rr = Reader::new(content, Config::der());
    let ghost s = content@;
    let mut out: Vec<RecipientEncryptedKey<'a>> = Vec::new();
    assert(spec_prepend(out@.map_values(|k: RecipientEncryptedKey<'a>| k@), spec_items_from(s, 0, spec_rek_item()))
        =~= spec_items_from(s, 0, spec_rek_item()));
    while !rr.is_empty()
        invariant
            rr.spec_input() == s,
            s == content@,
            rr.spec_config() == spec_default_config(EncodingRule::Der),
            spec_prepend(out@.map_values(|k: RecipientEncryptedKey<'a>| k@), spec_items_from(s, rr.spec_pos(), spec_rek_item()))
                == spec_items_from(s, 0, spec_rek_item()),
        decreases rr.spec_input().len() - rr.spec_pos(),
    {
        let ghost p = rr.spec_pos();
        let ghost before = out@.map_values(|k: RecipientEncryptedKey<'a>| k@);
        let (_, _, rek) = rr.read_tlv()?;
        let mut kr = Reader::new(rek, Config::der());
        let rid = Any::decode(&mut kr)?;
        let encrypted_key = OctetString::decode(&mut kr)?.0;
        let k = RecipientEncryptedKey { rid, encrypted_key };
        proof {
            lemma_items_step::<((Tag, Length, Seq<u8>, Seq<u8>), Seq<u8>), CoreError>(s, p, spec_rek_item(), before, k@, rr.spec_pos());
        }
        out.push(k);
        assert(out@.map_values(|k: RecipientEncryptedKey<'a>| k@) =~= before.push(k@));
    }
    let ghost fin = out@.map_values(|k: RecipientEncryptedKey<'a>| k@);
    assert(fin + Seq::<((Tag, Length, Seq<u8>, Seq<u8>), Seq<u8>)>::empty() =~= fin);
    Ok(out)
}

/// Decode the content of a `[0]` `KeyAgreeRecipientInfo`.
fn decode_key_agree<'a>(value: &'a [u8]) -> (res: Result<KeyAgreeRecipientInfo<'a>>)
    ensures
        value@.len() == 0 ==> res is Err,
        match spec_key_agree(value@) {
            Ok(v) => res is Ok && res->Ok_0@ == v,
            Err(e) => res == Err::<KeyAgreeRecipientInfo<'a>, Error>(e),
        },
{
    let mut r = Reader::new(value, Config::der());
    proof {
        reveal(spec_key_agree);
        crate::asn1::reader::lemma_read_tlv_bounds(r.spec_input(), 0, r.spec_config());
    }
    let version = match Integer::decode(&mut r) {
        Ok(i) => match i.as_u64() {
            Some(v) => v,
            None => {
                return Err(Error::UnsupportedVersion);
            },
        },
        Err(e) => {
            return Err(Error::Asn1(e));
        },
    };
    // originator [0] EXPLICIT
    let (otag, _, ovalue) = match r.read_tlv() {
        Ok(t) => t,
        Err(e) => {
            return Err(Error::Asn1(e));
        },
    };
    if otag != Tag::context(true, 0) {
        return Err(Error::UnexpectedStructure);
    }
    let mut or = Reader::new(ovalue, Config::der());
    let originator = match Any::decode(&mut or) {
        Ok(a) => a,
        Err(e) => {
            return Err(Error::Asn1(e));
        },
    };
    // ukm [1] IMPLICIT BIT STRING OPTIONAL
    if !r.is_empty() {
        let (utag, _, _) = match r.read_tlv() {
            Ok(t) => t,
            Err(e) => {
                return Err(Error::Asn1(e));
            },
        };
        if utag != Tag::context(true, 1) {
            return Err(Error::UnexpectedStructure);
        }
    }
    let key_encryption_algorithm = match AlgorithmIdentifier::decode(&mut r) {
        Ok(a) => a,
        Err(e) => {
            return Err(Error::Asn1(e));
        },
    };
    // recipientEncryptedKeys ::= SEQUENCE OF RecipientEncryptedKey
    let (rtag, _, rvalue) = match r.read_tlv() {
        Ok(t) => t,
        Err(e) => {
            return Err(Error::Asn1(e));
        },
    };
    if !rtag.is_universal(Tag::SEQUENCE) {
        return Err(Error::UnexpectedStructure);
    }
    let recipient_encrypted_keys = match decode_encrypted_keys(rvalue) {
        Ok(v) => v,
        Err(e) => {
            return Err(Error::Asn1(e));
        },
    };
    Ok(KeyAgreeRecipientInfo { version, originator, key_encryption_algorithm, recipient_encrypted_keys })
}

/// A pluggable backend for `EnvelopedData` key recovery and content decryption.
///
/// Implementations delegate the actual RSA/ECDH/symmetric math to a chosen
/// crypto provider. A backend that declares
/// [`EnvelopeBackend::obeys_backend_spec`] answers as its spec functions say,
/// a function of the arguments alone; of any other nothing is assumed.
pub trait EnvelopeBackend {
    /// Whether this backend answers as its spec functions say.
    open spec fn obeys_backend_spec() -> bool {
        false
    }

    /// The key this backend recovers from `encrypted_key` with `private_key_der`.
    open spec fn spec_rsa_unwrap(&self, encrypted_key: Seq<u8>, private_key_der: Seq<u8>) -> Result<Seq<u8>> {
        arbitrary()
    }

    /// The plaintext this backend gives for `encrypted_content`.
    open spec fn spec_decrypt_content(&self, content_enc_alg: Seq<u8>, cek: Seq<u8>, encrypted_content: Seq<u8>) -> Result<Seq<u8>> {
        arbitrary()
    }

    /// RSA key transport: recover the content-encryption key by decrypting
    /// `encrypted_key` with the RSA `private_key_der` (PKCS#8 / RSAPrivateKey).
    fn rsa_unwrap(&self, encrypted_key: &[u8], private_key_der: &[u8]) -> (r: Result<Vec<u8>>)
        ensures
            Self::obeys_backend_spec() ==> match self.spec_rsa_unwrap(encrypted_key@, private_key_der@) {
                Ok(k) => r is Ok && r->Ok_0@ == k,
                Err(e) => r == Err::<Vec<u8>, Error>(e),
            },
    ;

    /// Decrypt `encrypted_content` with the recovered content-encryption key
    /// `cek` under the algorithm `content_enc_alg` (e.g. `aes256-CBC`).
    fn decrypt_content(&self, content_enc_alg: &[u8], cek: &[u8], encrypted_content: &[u8]) -> (r: Result<Vec<u8>>)
        ensures
            Self::obeys_backend_spec() ==> match self.spec_decrypt_content(content_enc_alg@, cek@, encrypted_content@) {
                Ok(p) => r is Ok && r->Ok_0@ == p,
                Err(e) => r == Err::<Vec<u8>, Error>(e),
            },
    ;
}

/// Read the next whole TLV and return it (tag + length + value).
fn full_tlv<'a>(r: &mut Reader<'a>) -> (res: CoreResult<&'a [u8]>)
    ensures
        final(r).same_source(*old(r)),
        match spec_read_tlv(old(r).spec_input(), old(r).spec_pos(), old(r).spec_config()) {
            Ok((_, _, _, _, n)) => res is Ok && res->Ok_0@ == old(r).spec_input().subrange(old(r).spec_pos(), n)
                && final(r).spec_pos() == n,
            Err(e) => res == Err::<&'a [u8], CoreError>(e),
        },
{
    let start = r.position();
    r.read_tlv()?;
    let end = r.position();
    Ok(r.slice(start, end))
}

} // verus!
