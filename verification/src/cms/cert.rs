//! Helpers for extracting the fields needed to verify a `SignerInfo` from an
//! embedded X.509 certificate, without the full X.509 decoder.
//!
//! These walk the DER of a `Certificate` directly (fail-closed) to recover:
//! * the `serialNumber` and issuer `Name` (to match an `IssuerAndSerialNumber`),
//! * the `SubjectPublicKeyInfo` algorithm OID and raw public-key bits, and
//! * the `SubjectKeyIdentifier` extension (to match a `SubjectKeyIdentifier` sid).

use crate::asn1::decode::{spec_prim_at, Decode};
use crate::asn1::error::Error as CoreError;
use crate::asn1::reader::{spec_default_config, spec_read_tlv, Config, EncodingRule, Reader};
use crate::asn1::tag::{spec_context, spec_universal, Class, Tag};
use crate::asn1::types::{spec_bitstring_content, spec_oid_content, BitString, ObjectIdentifier};
use crate::asn1::util::bytes_eq;
use crate::cms::error::{Error, Result};
use vstd::prelude::*;

verus! {

broadcast use crate::asn1::reader::Reader::lemma_nonneg;

/// `id-ce-subjectKeyIdentifier` — `2.5.29.14`.
pub const OID_SUBJECT_KEY_IDENTIFIER: [u8; 3] = [0x55, 0x1d, 0x0e];

/// Fields extracted from a certificate that CMS signature verification needs.
#[derive(Clone, Copy, PartialEq, Eq, Debug)]
pub struct CertFields<'a> {
    /// Raw `serialNumber` INTEGER bytes (minimal encoding).
    pub serial: &'a [u8],
    /// Raw issuer `Name` TLV (tag + length + value) for byte-exact matching.
    pub issuer: &'a [u8],
    /// Raw `SubjectPublicKeyInfo` algorithm OID bytes.
    pub spki_algorithm: &'a [u8],
    /// Raw `subjectPublicKey` BIT STRING data (key bits only).
    pub spki_key: &'a [u8],
    /// The `SubjectKeyIdentifier` extension value, if present.
    pub subject_key_id: Option<&'a [u8]>,
}

/// The tag `t` is the universal tag `n` (either form).
pub open spec fn spec_is_universal(t: Tag, n: u32) -> bool {
    t.class == Class::Universal && t.number == n
}

/// The DER element at the start of `s` when it must be a universal `n`: its
/// value, or the error (a codec error, or `UnexpectedStructure` for another
/// tag).
pub open spec fn spec_first_value(s: Seq<u8>, n: u32) -> Result<Seq<u8>> {
    match spec_read_tlv(s, 0, spec_default_config(EncodingRule::Der)) {
        Err(e) => Err(Error::Asn1(e)),
        Ok((t, _, a, b, _)) => if spec_is_universal(t, n) {
            Ok(s.subrange(a, b))
        } else {
            Err(Error::UnexpectedStructure)
        },
    }
}

impl<'a> View for CertFields<'a> {
    /// Serial, issuer TLV, key algorithm OID, key bits, key identifier.
    type V = (Seq<u8>, Seq<u8>, Seq<u8>, Seq<u8>, Option<Seq<u8>>);

    open spec fn view(&self) -> (Seq<u8>, Seq<u8>, Seq<u8>, Seq<u8>, Option<Seq<u8>>) {
        (self.serial@, self.issuer@, self.spki_algorithm@, self.spki_key@, match self.subject_key_id {
            Some(k) => Some(k@),
            None => None,
        })
    }
}

/// The algorithm OID and key bits of a `SubjectPublicKeyInfo` TLV `spki`:
/// its first element must be a SEQUENCE whose value starts with the
/// algorithm SEQUENCE (whose value starts with the OID) and the key BIT
/// STRING; all read under DER.
#[verifier::opaque]
pub open spec fn spec_spki_fields(spki: Seq<u8>) -> Result<(Seq<u8>, Seq<u8>)> {
    let der = spec_default_config(EncodingRule::Der);
    match spec_first_value(spki, 16) {
        Err(e) => Err(e),
        Ok(x) => match spec_read_tlv(x, 0, der) {
            Err(e) => Err(Error::Asn1(e)),
            Ok((at, _, aa, ab, n1)) => if !spec_is_universal(at, 16) {
                Err(Error::UnexpectedStructure)
            } else {
                match spec_prim_at(x.subrange(aa, ab), 0, der, spec_universal(6), |b: Seq<u8>| spec_oid_content(b)) {
                    Err(e) => Err(Error::Asn1(e)),
                    Ok((alg, _)) => match spec_prim_at(x, n1, der, spec_universal(3), |b: Seq<u8>| spec_bitstring_content(b)) {
                        Err(e) => Err(Error::Asn1(e)),
                        Ok((key, _)) => Ok((alg, key.1)),
                    },
                }
            }
        },
    }
}

/// What one extension's value `x` (the content of its SEQUENCE) says of the
/// key identifier: the OID, an optional BOOLEAN, then the OCTET STRING
/// value; `Some` with the identifier when the OID is the
/// `subjectKeyIdentifier` one, `None` otherwise.
#[verifier::opaque]
pub open spec fn spec_ext_entry(x: Seq<u8>) -> Result<Option<Seq<u8>>> {
    let der = spec_default_config(EncodingRule::Der);
    match spec_prim_at(x, 0, der, spec_universal(6), |b: Seq<u8>| spec_oid_content(b)) {
        Err(e) => Err(Error::Asn1(e)),
        Ok((oid, q1)) => {
            // The element holding the value: the one after the OID, or the
            // one after the BOOLEAN.
            let value: Result<Seq<u8>> = if q1 < x.len() {
                match spec_read_tlv(x, q1, der) {
                    Err(e) => Err(Error::Asn1(e)),
                    Ok((ct, _, ca, cb, q2)) => if !spec_is_universal(ct, 1) {
                        if !spec_is_universal(ct, 4) {
                            Err(Error::UnexpectedStructure)
                        } else {
                            Ok(x.subrange(ca, cb))
                        }
                    } else {
                        match spec_read_tlv(x, q2, der) {
                            Err(e) => Err(Error::Asn1(e)),
                            Ok((vt, _, va, vb, _)) => if !spec_is_universal(vt, 4) {
                                Err(Error::UnexpectedStructure)
                            } else {
                                Ok(x.subrange(va, vb))
                            },
                        }
                    },
                }
            } else {
                match spec_read_tlv(x, q1, der) {
                    Err(e) => Err(Error::Asn1(e)),
                    Ok((vt, _, va, vb, _)) => if !spec_is_universal(vt, 4) {
                        Err(Error::UnexpectedStructure)
                    } else {
                        Ok(x.subrange(va, vb))
                    },
                }
            };
            match value {
                Err(e) => Err(e),
                Ok(v) => if oid == OID_SUBJECT_KEY_IDENTIFIER@ {
                    match spec_first_value(v, 4) {
                        Err(e) => Err(e),
                        Ok(k) => Ok(Some(k)),
                    }
                } else {
                    Ok(None)
                },
            }
        },
    }
}

/// The key identifier found among the extensions of `inner` (the value of
/// the extensions SEQUENCE) from `p`: each must be a SEQUENCE; the first
/// whose entry names the key identifier gives the answer.
pub open spec fn spec_find_ski_from(inner: Seq<u8>, p: int) -> Result<Option<Seq<u8>>>
    decreases inner.len() - p,
{
    if p < 0 || p >= inner.len() {
        Ok(None)
    } else {
        match spec_read_tlv(inner, p, spec_default_config(EncodingRule::Der)) {
            Err(e) => Err(Error::Asn1(e)),
            Ok((xt, _, xa, xb, n)) => if !spec_is_universal(xt, 16) {
                Err(Error::UnexpectedStructure)
            } else {
                match spec_ext_entry(inner.subrange(xa, xb)) {
                    Err(e) => Err(e),
                    Ok(Some(k)) => Ok(Some(k)),
                    Ok(None) => if p < n <= inner.len() {
                        spec_find_ski_from(inner, n)
                    } else {
                        Ok(None)
                    },
                }
            },
        }
    }
}

/// The key identifier in the `[3]` extensions value `exts` (its first
/// element must be a SEQUENCE), if any.
#[verifier::opaque]
pub open spec fn spec_find_ski(exts: Seq<u8>) -> Result<Option<Seq<u8>>> {
    match spec_first_value(exts, 16) {
        Err(e) => Err(e),
        Ok(inner) => spec_find_ski_from(inner, 0),
    }
}

/// The key identifier after the fields of `tb` from `p`: each remaining
/// element is read, and a `[3]` one's value is searched (the last such one
/// counts), starting from `ski`.
pub open spec fn spec_tbs_tail_ski(tb: Seq<u8>, p: int, ski: Option<Seq<u8>>) -> Result<Option<Seq<u8>>>
    decreases tb.len() - p,
{
    if p < 0 || p >= tb.len() {
        Ok(ski)
    } else {
        match spec_read_tlv(tb, p, spec_default_config(EncodingRule::Der)) {
            Err(e) => Err(Error::Asn1(e)),
            Ok((t, _, a, b, n)) => if p < n <= tb.len() {
                if t == spec_context(true, 3) {
                    match spec_find_ski(tb.subrange(a, b)) {
                        Err(e) => Err(e),
                        Ok(k) => spec_tbs_tail_ski(tb, n, k),
                    }
                } else {
                    spec_tbs_tail_ski(tb, n, ski)
                }
            } else {
                Ok(ski)
            },
        }
    }
}

/// The offset after the element at `p` of `s` (DER), or its error.
#[verifier::opaque]
pub open spec fn spec_skip_at(s: Seq<u8>, p: int) -> Result<int> {
    match spec_read_tlv(s, p, spec_default_config(EncodingRule::Der)) {
        Err(e) => Err(Error::Asn1(e)),
        Ok((_, _, _, _, n)) => Ok(n),
    }
}

/// The fields of a `TBSCertificate` value `tb` after the serial (which
/// ends at `p`): the signature algorithm is skipped, the issuer kept whole,
/// validity and subject skipped, the key info read, then the extensions
/// searched for the key identifier.
pub open spec fn spec_tbs_fields(tb: Seq<u8>, p: int, serial: Seq<u8>) -> Result<(Seq<u8>, Seq<u8>, Seq<u8>, Seq<u8>, Option<Seq<u8>>)> {
    match spec_skip_at(tb, p) {
        Err(e) => Err(e),
        Ok(p1) => match spec_skip_at(tb, p1) {
            Err(e) => Err(e),
            Ok(p2) => match spec_skip_at(tb, p2) {
                Err(e) => Err(e),
                Ok(p3) => match spec_skip_at(tb, p3) {
                    Err(e) => Err(e),
                    Ok(p4) => match spec_skip_at(tb, p4) {
                        Err(e) => Err(e),
                        Ok(p5) => match spec_spki_fields(tb.subrange(p4, p5)) {
                            Err(e) => Err(e),
                            Ok((alg, key)) => match spec_tbs_tail_ski(tb, p5, None) {
                                Err(e) => Err(e),
                                Ok(ski) => Ok((serial, tb.subrange(p1, p2), alg, key, ski)),
                            },
                        },
                    },
                },
            },
        },
    }
}

/// The verification fields of a DER `Certificate` `cert`: its first element
/// must be a SEQUENCE whose value starts with the `tbsCertificate`
/// SEQUENCE; in that, an optional `[0]` version precedes the serial INTEGER.
pub open spec fn spec_cert_fields(cert: Seq<u8>) -> Result<(Seq<u8>, Seq<u8>, Seq<u8>, Seq<u8>, Option<Seq<u8>>)> {
    let der = spec_default_config(EncodingRule::Der);
    match spec_first_value(cert, 16) {
        Err(e) => Err(e),
        Ok(v) => match spec_first_value(v, 16) {
            Err(e) => Err(e),
            Ok(tb) => {
                let serial_at: Result<(Seq<u8>, int)> = if tb.len() > 0 {
                    match spec_read_tlv(tb, 0, der) {
                        Err(e) => Err(Error::Asn1(e)),
                        Ok((vt, _, va, vb, n1)) => if vt == spec_context(true, 0) {
                            match spec_read_tlv(tb, n1, der) {
                                Err(e) => Err(Error::Asn1(e)),
                                Ok((st, _, sa, sb, n2)) => if !spec_is_universal(st, 2) {
                                    Err(Error::UnexpectedStructure)
                                } else {
                                    Ok((tb.subrange(sa, sb), n2))
                                },
                            }
                        } else if spec_is_universal(vt, 2) {
                            Ok((tb.subrange(va, vb), n1))
                        } else {
                            Err(Error::UnexpectedStructure)
                        },
                    }
                } else {
                    match spec_read_tlv(tb, 0, der) {
                        Err(e) => Err(Error::Asn1(e)),
                        Ok((st, _, sa, sb, n2)) => if !spec_is_universal(st, 2) {
                            Err(Error::UnexpectedStructure)
                        } else {
                            Ok((tb.subrange(sa, sb), n2))
                        },
                    }
                };
                match serial_at {
                    Err(e) => Err(e),
                    Ok((serial, p)) => spec_tbs_fields(tb, p, serial),
                }
            },
        },
    }
}

/// Extract the verification-relevant fields from a DER-encoded `Certificate`.
pub fn extract_cert_fields(cert_der: &[u8]) -> (res: Result<CertFields<'_>>)
    ensures
        spec_first_value(cert_der@, 16) is Err ==> res is Err,
        match spec_cert_fields(cert_der@) {
            Ok(v) => res is Ok && res->Ok_0@ == v,
            Err(e) => res == Err::<CertFields<'_>, Error>(e),
        },
{
    let mut outer = Reader::new(cert_der, Config::der());
    // Certificate ::= SEQUENCE { tbsCertificate, signatureAlgorithm, signatureValue }
    let (tag, _, value) = match outer.read_tlv() {
        Ok(t) => t,
        Err(e) => {
            return Err(Error::Asn1(e));
        },
    };
    if !tag.is_universal(Tag::SEQUENCE) {
        return Err(Error::UnexpectedStructure);
    }
    // `value` is the Certificate content; parse tbsCertificate from it.
    let mut inner = Reader::new(value, Config::der());
    let (tbs_tag, _, tbs_value) = match inner.read_tlv() {
        Ok(t) => t,
        Err(e) => {
            return Err(Error::Asn1(e));
        },
    };
    if !tbs_tag.is_universal(Tag::SEQUENCE) {
        return Err(Error::UnexpectedStructure);
    }
    let mut tbs = Reader::new(tbs_value, Config::der());

    // Optional [0] EXPLICIT version — consume it if present; otherwise the
    // first TLV is the serialNumber.
    if !tbs.is_empty() {
        let (vtag, _, vval) = match tbs.read_tlv() {
            Ok(t) => t,
            Err(e) => {
                return Err(Error::Asn1(e));
            },
        };
        if vtag == Tag::context(true, 0) {
            // version tag consumed; serialNumber follows below.
        } else if vtag.is_universal(Tag::INTEGER) {
            return finish_tbs(tbs, vval);
        } else {
            return Err(Error::UnexpectedStructure);
        }
    }

    // serialNumber INTEGER (value holds the minimal integer bytes).
    let (stag, _, serial) = match tbs.read_tlv() {
        Ok(t) => t,
        Err(e) => {
            return Err(Error::Asn1(e));
        },
    };
    if !stag.is_universal(Tag::INTEGER) {
        return Err(Error::UnexpectedStructure);
    }
    finish_tbs(tbs, serial)
}

/// Walk the remainder of `TBSCertificate` (positioned just after `serialNumber`)
/// to recover the issuer, SPKI and SKI.
fn finish_tbs<'a>(tbs: Reader<'a>, serial: &'a [u8]) -> (res: Result<CertFields<'a>>)
    requires
        tbs.spec_config() == spec_default_config(EncodingRule::Der),
    ensures
        res matches Ok(f) ==> f.serial@ == serial@,
        match spec_tbs_fields(tbs.spec_input(), tbs.spec_pos(), serial@) {
            Ok(v) => res is Ok && res->Ok_0@ == v,
            Err(e) => res == Err::<CertFields<'a>, Error>(e),
        },
{
    let mut tbs = tbs;
    // signature AlgorithmIdentifier — skip.
    skip_tlv(&mut tbs)?;
    // issuer Name (SEQUENCE) — capture full TLV for byte-exact matching.
    let issuer = read_full_tlv(&mut tbs)?;
    // validity — skip, then subject — skip.
    skip_tlv(&mut tbs)?;
    skip_tlv(&mut tbs)?;

    // subjectPublicKeyInfo SEQUENCE { algorithm, subjectPublicKey BIT STRING }
    let spki = read_full_tlv(&mut tbs)?;
    let (spki_algorithm, spki_key) = parse_spki(spki)?;

    // Remaining: optional [1]/[2] unique IDs and [3] EXPLICIT extensions.
    let subject_key_id = tail_ski(&mut tbs)?;
    Ok(CertFields { serial, issuer, spki_algorithm, spki_key, subject_key_id })
}

/// The key identifier among the elements left in `tbs` (the last `[3]`
/// counts).
fn tail_ski<'a>(tbs: &mut Reader<'a>) -> (res: Result<Option<&'a [u8]>>)
    requires
        old(tbs).spec_config() == spec_default_config(EncodingRule::Der),
    ensures
        match spec_tbs_tail_ski(old(tbs).spec_input(), old(tbs).spec_pos(), None) {
            Ok(v) => res is Ok && v == (match res->Ok_0 {
                Some(k) => Some(k@),
                None => None::<Seq<u8>>,
            }),
            Err(e) => res == Err::<Option<&'a [u8]>, Error>(e),
        },
{
    let ghost tb = tbs.spec_input();
    let ghost p5 = tbs.spec_pos();
    let mut subject_key_id: Option<&'a [u8]> = None;
    while !tbs.is_empty()
        invariant
            tb == old(tbs).spec_input(),
            p5 == old(tbs).spec_pos(),
            tbs.spec_input() == tb,
            tbs.spec_config() == spec_default_config(EncodingRule::Der),
            spec_tbs_tail_ski(tb, tbs.spec_pos(), match subject_key_id {
                Some(k) => Some(k@),
                None => None::<Seq<u8>>,
            }) == spec_tbs_tail_ski(tb, p5, None),
        decreases tbs.spec_input().len() - tbs.spec_pos(),
    {
        proof { crate::asn1::reader::lemma_read_tlv_bounds(tb, tbs.spec_pos(), spec_default_config(EncodingRule::Der)); }
        let (etag, _, evalue) = match tbs.read_tlv() {
            Ok(t) => t,
            Err(e) => {
                return Err(Error::Asn1(e));
            },
        };
        if etag == Tag::context(true, 3) {
            subject_key_id = find_ski(evalue)?;
        }
    }
    Ok(subject_key_id)
}

/// The algorithm OID bytes and key bits of a `SubjectPublicKeyInfo` TLV.
fn parse_spki(spki: &[u8]) -> (res: Result<(&[u8], &[u8])>)
    ensures
        spec_first_value(spki@, 16) is Err ==> res is Err,
        match spec_spki_fields(spki@) {
            Ok(v) => res is Ok && res->Ok_0.0@ == v.0 && res->Ok_0.1@ == v.1,
            Err(e) => res == Err::<(&[u8], &[u8]), Error>(e),
        },
{
    proof { reveal(spec_spki_fields); }
    let mut r = Reader::new(spki, Config::der());
    // SubjectPublicKeyInfo ::= SEQUENCE { algorithm AlgorithmIdentifier, ... }
    let (tag, _, spki_inner) = match r.read_tlv() {
        Ok(t) => t,
        Err(e) => {
            return Err(Error::Asn1(e));
        },
    };
    if !tag.is_universal(Tag::SEQUENCE) {
        return Err(Error::UnexpectedStructure);
    }
    let mut r2 = Reader::new(spki_inner, Config::der());
    // AlgorithmIdentifier ::= SEQUENCE { algorithm OID, parameters ANY OPTIONAL }
    let (atag, _, alg_inner) = match r2.read_tlv() {
        Ok(t) => t,
        Err(e) => {
            return Err(Error::Asn1(e));
        },
    };
    if !atag.is_universal(Tag::SEQUENCE) {
        return Err(Error::UnexpectedStructure);
    }
    let alg = match ObjectIdentifier::decode(&mut Reader::new(alg_inner, Config::der())) {
        Ok(o) => o,
        Err(e) => {
            return Err(Error::Asn1(e));
        },
    };
    let key = match BitString::decode(&mut r2) {
        Ok(k) => k,
        Err(e) => {
            return Err(Error::Asn1(e));
        },
    };
    Ok((alg.0, key.data))
}

/// The subject key identifier among the extensions TLV `exts`, if any.
fn find_ski(exts: &[u8]) -> (res: Result<Option<&[u8]>>)
    ensures
        spec_first_value(exts@, 16) is Err ==> res is Err,
        match spec_find_ski(exts@) {
            Ok(v) => res is Ok && v == (match res->Ok_0 {
                Some(k) => Some(k@),
                None => None::<Seq<u8>>,
            }),
            Err(e) => res == Err::<Option<&[u8]>, Error>(e),
        },
{
    proof { reveal(spec_find_ski); }
    let mut r = Reader::new(exts, Config::der());
    let (tag, _, inner) = match r.read_tlv() {
        Ok(t) => t,
        Err(e) => {
            return Err(Error::Asn1(e));
        },
    };
    if !tag.is_universal(Tag::SEQUENCE) {
        return Err(Error::UnexpectedStructure);
    }
    let ghost s = inner@;
    let mut er = Reader::new(inner, Config::der());
    while !er.is_empty()
        invariant
            er.spec_input() == s,
            s == inner@,
            er.spec_config() == spec_default_config(EncodingRule::Der),
            spec_find_ski_from(s, er.spec_pos()) == spec_find_ski(exts@),
            spec_first_value(exts@, 16) is Ok,
        decreases er.spec_input().len() - er.spec_pos(),
    {
        proof { crate::asn1::reader::lemma_read_tlv_bounds(s, er.spec_pos(), spec_default_config(EncodingRule::Der)); }
        let (ext_tag, _, ext_inner) = match er.read_tlv() {
            Ok(t) => t,
            Err(e) => {
                return Err(Error::Asn1(e));
            },
        };
        if !ext_tag.is_universal(Tag::SEQUENCE) {
            return Err(Error::UnexpectedStructure);
        }
        match extension_entry(ext_inner)? {
            Some(k) => {
                return Ok(Some(k));
            },
            None => {},
        }
    }
    Ok(None)
}

/// What one extension's value (the content of its SEQUENCE) says of the key
/// identifier (see [`spec_ext_entry`]).
fn extension_entry(ext_inner: &[u8]) -> (res: Result<Option<&[u8]>>)
    ensures
        match spec_ext_entry(ext_inner@) {
            Ok(v) => res is Ok && v == (match res->Ok_0 {
                Some(k) => Some(k@),
                None => None::<Seq<u8>>,
            }),
            Err(e) => res == Err::<Option<&[u8]>, Error>(e),
        },
{
    proof { reveal(spec_ext_entry); }
    let mut xr = Reader::new(ext_inner, Config::der());
    let oid = match ObjectIdentifier::decode(&mut xr) {
        Ok(o) => o,
        Err(e) => {
            return Err(Error::Asn1(e));
        },
    };
    // critical BOOLEAN DEFAULT FALSE — consume it if present.
    let mut done_with_value = false;
    if !xr.is_empty() {
        let (ctag, _, cval) = match xr.read_tlv() {
            Ok(t) => t,
            Err(e) => {
                return Err(Error::Asn1(e));
            },
        };
        if !ctag.is_universal(Tag::BOOLEAN) {
            // This TLV is actually extnValue; process it now.
            if !ctag.is_universal(Tag::OCTET_STRING) {
                return Err(Error::UnexpectedStructure);
            }
            if bytes_eq(oid.0, OID_SUBJECT_KEY_IDENTIFIER.as_slice()) {
                return Ok(Some(unwrap_octet(cval)?));
            }
            done_with_value = true;
        }
    }
    if !done_with_value {
        // extnValue OCTET STRING (contains the DER of the extension value).
        let (vtag, _, vval) = match xr.read_tlv() {
            Ok(t) => t,
            Err(e) => {
                return Err(Error::Asn1(e));
            },
        };
        if !vtag.is_universal(Tag::OCTET_STRING) {
            return Err(Error::UnexpectedStructure);
        }
        if bytes_eq(oid.0, OID_SUBJECT_KEY_IDENTIFIER.as_slice()) {
            // extnValue wraps a SubjectKeyIdentifier ::= OCTET STRING.
            return Ok(Some(unwrap_octet(vval)?));
        }
    }
    Ok(None)
}

/// The value of the OCTET STRING at the start of `inner`.
fn unwrap_octet(inner: &[u8]) -> (res: Result<&[u8]>)
    ensures
        match spec_first_value(inner@, 4) {
            Ok(v) => res is Ok && res->Ok_0@ == v,
            Err(e) => res == Err::<&[u8], Error>(e),
        },
{
    let mut vr = Reader::new(inner, Config::der());
    let (sktag, _, skval) = match vr.read_tlv() {
        Ok(t) => t,
        Err(e) => {
            return Err(Error::Asn1(e));
        },
    };
    if !sktag.is_universal(Tag::OCTET_STRING) {
        return Err(Error::UnexpectedStructure);
    }
    Ok(skval)
}

// --- low-level TLV helpers ------------------------------------------------

/// Read the next whole TLV and return it (tag + length + value).
fn read_full_tlv<'a>(r: &mut Reader<'a>) -> (res: Result<&'a [u8]>)
    requires
        old(r).spec_config() == spec_default_config(EncodingRule::Der),
    ensures
        final(r).same_source(*old(r)),
        match spec_skip_at(old(r).spec_input(), old(r).spec_pos()) {
            Ok(n) => res is Ok && res->Ok_0@ == old(r).spec_input().subrange(old(r).spec_pos(), n) && final(r).spec_pos() == n,
            Err(e) => res == Err::<&'a [u8], Error>(e),
        },
{
    proof { reveal(spec_skip_at); }
    let start = r.position();
    match r.read_tlv() {
        Ok(_) => {},
        Err(e) => {
            return Err(Error::Asn1(e));
        },
    }
    let end = r.position();
    Ok(r.slice(start, end))
}

/// Skip the next TLV.
fn skip_tlv(r: &mut Reader<'_>) -> (res: Result<()>)
    requires
        old(r).spec_config() == spec_default_config(EncodingRule::Der),
    ensures
        final(r).same_source(*old(r)),
        match spec_skip_at(old(r).spec_input(), old(r).spec_pos()) {
            Ok(n) => res is Ok && final(r).spec_pos() == n,
            Err(e) => res == Err::<(), Error>(e),
        },
{
    proof { reveal(spec_skip_at); }
    match r.read_tlv() {
        Ok(_) => Ok(()),
        Err(e) => Err(Error::Asn1(e)),
    }
}

} // verus!
