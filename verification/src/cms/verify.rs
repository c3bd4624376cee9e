//! Signature verification over `SignedData` (RFC 5652 §5.4 / RFC 2315 §7).
//!
//! This reuses the pluggable
//! [`SignatureVerifier`](crate::x509::verify::SignatureVerifier) backend: no
//! cryptographic primitives live here. For each `SignerInfo`:
//!
//! 1. locate the signing certificate among the embedded/`extra` set by matching
//!    its `SignerIdentifier` (constant-time),
//! 2. compute the message digest over the encapsulated (or externally supplied)
//!    content and check it against the `message-digest` signed attribute,
//! 3. build the to-be-signed byte string (the canonical `SET OF` of signed
//!    attributes, or the raw content when `signedAttrs` are absent), and
//! 4. delegate the actual signature math to the backend.

use crate::asn1::any::spec_any_at;
use crate::asn1::decode::{spec_prim_at, Decode};
use crate::asn1::error::Error as CoreError;
use crate::asn1::length::{spec_encode_length, Length};
use crate::asn1::reader::{spec_default_config, Config, EncodingRule, Reader};
use crate::asn1::tag::{spec_encode_tag, spec_universal, spec_universal_constructed, Tag};
use crate::asn1::reader::spec_read_tlv;
use crate::asn1::writer::spec_encode_primitive;
use crate::asn1::types::OctetString;
use crate::asn1::util::constant_time_eq;
use crate::cms::cert::{extract_cert_fields, spec_cert_fields, CertFields};
use crate::cms::error::{Error, Result};
use crate::cms::oid;
use crate::cms::signed_data::{spec_cert_der, SignedData};
use crate::cms::attributes::Attribute;
use crate::cms::signer_info::{spec_first_attr, SignedAttributes, SignerInfo};
use crate::x509::verify::{SignatureVerifier, VerifyError};
use vstd::prelude::*;

verus! {

/// Per-signer verification outcome.
#[derive(Clone, Copy, PartialEq, Eq, Debug, Structural)]
pub enum VerificationResult {
    /// The signature verified successfully.
    Success,
    /// No embedded/extra certificate matched this signer's identifier.
    NoMatchingCertificate,
    /// The `message-digest` attribute did not match the computed digest.
    DigestMismatch,
    /// The cryptographic backend reported an invalid signature.
    SignatureInvalid,
}

/// The candidate certificates for `sd`: the embedded ones (unwrapped from a
/// `[0]`), then `extra`.
pub open spec fn spec_candidates(sd: SignedData, extra: Seq<&[u8]>) -> Seq<Seq<u8>> {
    sd.certificates@.map_values(|a: crate::asn1::any::Any| spec_cert_der(a)) + spec_cert_bytes(extra)
}

/// The outcome `r` for `signer` agrees with the certificate search over
/// `certs`: "no matching certificate" exactly when there is none for a
/// signer without signed attributes, and only when there is none otherwise;
/// success only when there is one.
pub open spec fn spec_outcome_consistent(signer: SignerInfo, certs: Seq<Seq<u8>>, r: VerificationResult) -> bool {
    &&& r == VerificationResult::NoMatchingCertificate ==> spec_first_signer_cert(signer.sid@, certs, 0) is None
    &&& r == VerificationResult::Success ==> spec_first_signer_cert(signer.sid@, certs, 0) is Some
    &&& signer.signed_attrs is None ==> (spec_first_signer_cert(signer.sid@, certs, 0) is None <==> r
        == VerificationResult::NoMatchingCertificate)
}

/// Verify every `SignerInfo` in `sd`.
///
/// * `backend` — the pluggable crypto backend (digest + signature verify).
/// * `external_content` — required for *detached* signatures; for attached
///   messages pass `None` to use the encapsulated `eContent`.
/// * `extra_certs` — additional DER certificates (e.g. from a trust store) to
///   consider alongside those embedded in the message.
///
/// Returns one [`VerificationResult`] per `SignerInfo`, in order; without
/// any content to check a signer against, the error is `MissingContent`.
pub fn verify<B: SignatureVerifier>(
    sd: &SignedData<'_>,
    backend: &B,
    external_content: Option<&[u8]>,
    extra_certs: &[&[u8]],
) -> (res: Result<Vec<VerificationResult>>)
    ensures
        res matches Ok(v) ==> v@.len() == sd.signer_infos@.len(),
        sd.e_content is None && external_content is None && sd.signer_infos@.len() > 0 ==> res
            == Err::<Vec<VerificationResult>, Error>(Error::MissingContent),
        res matches Ok(v) ==> forall|i: int|
            0 <= i < v@.len() ==> spec_outcome_consistent(sd.signer_infos@[i], spec_candidates(*sd, extra_certs@), #[trigger] v@[i]),
        sd.signer_infos@.len() == 0 ==> (res matches Ok(v) && v@.len() == 0),
        res == Err::<Vec<VerificationResult>, Error>(Error::MissingContent) ==> spec_signed_content(*sd, spec_opt_bytes(external_content)) is None,
        B::obeys_backend_spec() ==> match spec_verify_from(*sd, *backend, spec_opt_bytes(external_content), spec_candidates(*sd, extra_certs@), 0) {
            Ok(vs) => (res matches Ok(v) && v@ == vs),
            Err(e) => res == Err::<Vec<VerificationResult>, Error>(e),
        },
{
    // Collect candidate certificate DER (X.509 `Certificate` SEQUENCEs).
    let mut certs: Vec<&[u8]> = Vec::new();
    let ghost embedded = sd.certificates@.map_values(|a: crate::asn1::any::Any| spec_cert_der(a));
    let mut k: usize = 0;
    while k < sd.certificates.len()
        invariant
            k <= sd.certificates@.len(),
            embedded == sd.certificates@.map_values(|a: crate::asn1::any::Any| spec_cert_der(a)),
            spec_cert_bytes(certs@) == embedded.subrange(0, k as int),
        decreases sd.certificates@.len() - k,
    {
        let c = &sd.certificates[k];
        let ghost before = spec_cert_bytes(certs@);
        certs.push(if c.tag == Tag::context(true, 0) { c.value } else { c.full });
        assert(spec_cert_bytes(certs@) =~= before.push(embedded[k as int]));
        assert(embedded.subrange(0, k + 1) =~= embedded.subrange(0, k as int).push(embedded[k as int]));
        k += 1;
    }
    assert(embedded.subrange(0, embedded.len() as int) =~= embedded);
    let mut e: usize = 0;
    while e < extra_certs.len()
        invariant
            e <= extra_certs@.len(),
            spec_cert_bytes(certs@) == embedded + spec_cert_bytes(extra_certs@.subrange(0, e as int)),
        decreases extra_certs@.len() - e,
    {
        let ghost before = spec_cert_bytes(certs@);
        certs.push(extra_certs[e]);
        assert(spec_cert_bytes(certs@) =~= before.push(extra_certs@[e as int]@));
        assert(spec_cert_bytes(extra_certs@.subrange(0, e + 1)) =~= spec_cert_bytes(extra_certs@.subrange(0, e as int)).push(
            extra_certs@[e as int]@,
        ));
        e += 1;
    }
    assert(extra_certs@.subrange(0, extra_certs@.len() as int) =~= extra_certs@);
    assert(spec_cert_bytes(certs@) == spec_candidates(*sd, extra_certs@));

    let mut out: Vec<VerificationResult> = Vec::new();
    let mut i: usize = 0;
    while i < sd.signer_infos.len()
        invariant
            i <= sd.signer_infos@.len(),
            out@.len() == i,
            sd.e_content is None && external_content is None ==> i == 0,
            spec_cert_bytes(certs@) == spec_candidates(*sd, extra_certs@),
            forall|k: int| 0 <= k < i ==> spec_outcome_consistent(sd.signer_infos@[k], spec_candidates(*sd, extra_certs@), #[trigger] out@[k]),
            B::obeys_backend_spec() ==> spec_verify_from(*sd, *backend, spec_opt_bytes(external_content), spec_candidates(*sd, extra_certs@), 0)
                == spec_prepend_results(out@, spec_verify_from(*sd, *backend, spec_opt_bytes(external_content), spec_candidates(*sd, extra_certs@), i as int)),
        decreases sd.signer_infos@.len() - i,
    {
        let ghost before = out@;
        let r = verify_signer(sd, &sd.signer_infos[i], backend, external_content, certs.as_slice())?;
        out.push(r);
        proof {
            let rest = spec_verify_from(*sd, *backend, spec_opt_bytes(external_content), spec_candidates(*sd, extra_certs@), i + 1);
            match rest {
                Ok(rs) => {
                    assert(before + (seq![r] + rs) =~= out@ + rs);
                },
                Err(_) => {},
            }
        }
        i += 1;
    }
    proof {
        assert(out@ + Seq::<VerificationResult>::empty() =~= out@);
    }
    Ok(out)
}

/// The certificate fields `f` (as values) belong to the signer named by
/// `sid` (as values): by key identifier, or by issuer TLV and serial.
pub open spec fn spec_sid_matches(sid: (bool, Seq<u8>, Seq<u8>), f: (Seq<u8>, Seq<u8>, Seq<u8>, Seq<u8>, Option<Seq<u8>>)) -> bool {
    if sid.0 {
        f.4 matches Some(k) && k == sid.1
    } else {
        f.1 == sid.1 && f.0 == sid.2
    }
}

/// The fields of the first of `certs` (from `j`) whose fields can be read
/// and belong to the signer named by `sid`.
pub open spec fn spec_first_signer_cert(sid: (bool, Seq<u8>, Seq<u8>), certs: Seq<Seq<u8>>, j: int) -> Option<
    (Seq<u8>, Seq<u8>, Seq<u8>, Seq<u8>, Option<Seq<u8>>),
>
    decreases certs.len() - j,
{
    if j < 0 || j >= certs.len() {
        None
    } else {
        match spec_cert_fields(certs[j]) {
            Ok(f) => if spec_sid_matches(sid, f) {
                Some(f)
            } else {
                spec_first_signer_cert(sid, certs, j + 1)
            },
            Err(_) => spec_first_signer_cert(sid, certs, j + 1),
        }
    }
}

/// The candidate certificates as byte strings.
pub open spec fn spec_cert_bytes(certs: Seq<&[u8]>) -> Seq<Seq<u8>> {
    certs.map_values(|c: &[u8]| c@)
}

/// Find the signing certificate of `signer` among `certs`: the first whose
/// fields can be extracted and match its identifier.
pub fn find_signer_cert<'a>(signer: &SignerInfo<'_>, certs: &[&'a [u8]]) -> (r: Option<CertFields<'a>>)
    ensures
        match spec_first_signer_cert(signer.sid@, spec_cert_bytes(certs@), 0) {
            Some(f) => r is Some && r->Some_0@ == f,
            None => r is None,
        },
{
    let mut j: usize = 0;
    while j < certs.len()
        invariant
            j <= certs@.len(),
            spec_first_signer_cert(signer.sid@, spec_cert_bytes(certs@), j as int) == spec_first_signer_cert(
                signer.sid@,
                spec_cert_bytes(certs@),
                0,
            ),
        decreases certs@.len() - j,
    {
        assert(spec_cert_bytes(certs@)[j as int] == certs@[j as int]@);
        match extract_cert_fields(certs[j]) {
            Ok(fields) => {
                if signer.matches_cert(&fields) {
                    assert(spec_sid_matches(signer.sid@, fields@));
                    return Some(fields);
                }
                assert(!spec_sid_matches(signer.sid@, fields@));
            },
            Err(_) => {},
        }
        j += 1;
    }
    None
}

/// What the `message-digest` signed attribute says of the computed
/// `digest`: `Some` with the outcome when the check ends the signer's
/// verification (no such attribute, or a mismatch), `None` when it passes;
/// its value must be an OCTET STRING, and the attributes must be small
/// enough to re-encode.
pub open spec fn spec_digest_outcome(raw: Seq<u8>, attrs: Seq<Attribute>, digest: Seq<u8>) -> Result<Option<VerificationResult>> {
    let md: Option<Seq<u8>> = match spec_first_attr(attrs, oid::ATTR_MESSAGE_DIGEST@) {
        Some(i) => match spec_any_at(attrs[i].values@, 0, spec_default_config(EncodingRule::Ber)) {
            Ok((v, _)) => Some(v.2),
            Err(_) => None,
        },
        None => None,
    };
    match md {
        None => Ok(Some(VerificationResult::DigestMismatch)),
        Some(mv) => match spec_prim_at(mv, 0, spec_default_config(EncodingRule::Der), spec_universal(4), |b: Seq<u8>| Ok::<Seq<u8>, CoreError>(b)) {
            Err(e) => Err(Error::Asn1(e)),
            Ok((md_bytes, _)) => if md_bytes != digest {
                Ok(Some(VerificationResult::DigestMismatch))
            } else if raw.len() >= 0x100_0000_0000 {
                Err(Error::UnexpectedStructure)
            } else {
                Ok(None)
            },
        },
    }
}

/// Check the computed `digest` against the `message-digest` attribute of
/// `attrs` (see [`spec_digest_outcome`]).
pub fn digest_outcome(attrs: &SignedAttributes<'_>, digest: &[u8]) -> (r: Result<Option<VerificationResult>>)
    ensures
        r == spec_digest_outcome(attrs.raw@, attrs.attributes@, digest@),
{
    let md = match attrs.find(oid::ATTR_MESSAGE_DIGEST.as_slice()) {
        Some(a) => a.first_value(),
        None => None,
    };
    match md {
        Some(md) => {
            let md_bytes = match OctetString::decode(&mut Reader::new(md.value, Config::der())) {
                Ok(o) => o.0,
                Err(e) => {
                    return Err(Error::Asn1(e));
                },
            };
            if !constant_time_eq(md_bytes, digest) {
                return Ok(Some(VerificationResult::DigestMismatch));
            }
        },
        None => {
            return Ok(Some(VerificationResult::DigestMismatch));
        },
    }
    if attrs.raw.len() as u64 >= 0x100_0000_0000u64 {
        return Err(Error::UnexpectedStructure);
    }
    Ok(None)
}

/// Law (the digest check compares the digest): when the first value of the
/// first message-digest attribute is the OCTET STRING `c`, the signer fails
/// the digest check with `DigestMismatch` whenever `c` differs from the
/// computed `digest`, and passes it when they are equal (for attributes small
/// enough to re-encode).
pub proof fn lemma_digest_check_compares(raw: Seq<u8>, attrs: Seq<Attribute>, digest: Seq<u8>, c: Seq<u8>)
    requires
        spec_first_attr(attrs, oid::ATTR_MESSAGE_DIGEST@) matches Some(i) && spec_any_at(
            attrs[i].values@,
            0,
            spec_default_config(EncodingRule::Ber),
        ) matches Ok((v, _)) && v.2 == spec_encode_primitive(spec_universal(4), c),
        c.len() <= 0x400_0000,
    ensures
        c != digest ==> spec_digest_outcome(raw, attrs, digest) == Ok::<Option<VerificationResult>, Error>(
            Some(VerificationResult::DigestMismatch),
        ),
        c == digest && raw.len() < 0x100_0000_0000 ==> spec_digest_outcome(raw, attrs, digest) == Ok::<
            Option<VerificationResult>,
            Error,
        >(None),
{
    let t = spec_universal(4);
    let e = spec_encode_primitive(t, c);
    crate::asn1::laws::lemma_primitive_roundtrip(t, c, Seq::empty(), spec_default_config(EncodingRule::Der));
    assert(e + Seq::<u8>::empty() =~= e);
}

/// The outcome a backend answer to the signature check gives.
pub open spec fn spec_signature_outcome(r: core::result::Result<bool, VerifyError>) -> Result<VerificationResult> {
    match r {
        Ok(true) => Ok(VerificationResult::Success),
        Ok(false) => Ok(VerificationResult::SignatureInvalid),
        Err(e) => Err(spec_map_verify_err(e)),
    }
}

/// The outcome of a backend answer to the signature check.
pub fn signature_outcome(r: core::result::Result<bool, VerifyError>) -> (o: Result<VerificationResult>)
    ensures
        o == spec_signature_outcome(r),
{
    match r {
        Ok(true) => Ok(VerificationResult::Success),
        Ok(false) => Ok(VerificationResult::SignatureInvalid),
        Err(e) => Err(map_verify_err(e)),
    }
}

/// The content a signer of `sd` is checked against: the encapsulated
/// content, or else the detached `external` content.
pub open spec fn spec_signed_content(sd: SignedData, external: Option<Seq<u8>>) -> Option<Seq<u8>> {
    match sd.e_content {
        Some(o) => Some(o.0@),
        None => external,
    }
}

/// The DER of a signed-attributes SET whose content is `raw`: what the
/// signature covers.
pub open spec fn spec_signed_attrs_der(raw: Seq<u8>) -> Seq<u8> {
    seq![0x31u8] + spec_encode_length(Length::Definite(raw.len() as usize)) + raw
}

/// Law: the signed-attributes DER that a signature covers reads back as a
/// SET whose definite length and value are exactly the attributes' bytes.
pub proof fn lemma_signed_attrs_der_reads_back(raw: Seq<u8>, config: Config)
    requires
        raw.len() < 0x100_0000_0000,
        raw.len() <= config.max_element_size,
    ensures
        ({
            let der = spec_signed_attrs_der(raw);
            let h = (1 + spec_encode_length(Length::Definite(raw.len() as usize)).len()) as int;
            let m = raw.len() as int;
            &&& spec_read_tlv(der, 0, config) == Ok::<(Tag, Length, int, int, int), CoreError>(
                (spec_universal_constructed(17), Length::Definite(raw.len() as usize), h, h + m, h + m),
            )
            &&& der.subrange(h, h + m) == raw
        }),
{
    let t = spec_universal_constructed(17);
    assert(spec_encode_tag(t) =~= seq![0x31u8]);
    assert(spec_signed_attrs_der(raw) =~= spec_encode_primitive(t, raw) + Seq::<u8>::empty());
    crate::asn1::laws::lemma_primitive_roundtrip(t, raw, Seq::empty(), config);
}

/// The outcome for `signer` once `message` is the signed message: with the
/// first matching certificate among `certs`, what the backend `b` answers
/// when asked with the signer's signature algorithm, the certificate's key
/// algorithm and key bits, `message` and the signature; without one,
/// `NoMatchingCertificate`.
pub open spec fn spec_signer_signature<B: SignatureVerifier>(b: B, signer: SignerInfo, certs: Seq<Seq<u8>>, message: Seq<u8>) -> Result<VerificationResult> {
    match spec_first_signer_cert(signer.sid@, certs, 0) {
        Some(f) => spec_signature_outcome(
            b.spec_verify_signature(signer.signature_algorithm.algorithm.0@, f.2, f.3, message, signer.signature@),
        ),
        None => Ok(VerificationResult::NoMatchingCertificate),
    }
}

/// The outcome of verifying `signer` of `sd` with a backend `b` that
/// answers as its spec says: without content, `MissingContent`; with signed
/// attributes, the content's digest under the signer's digest algorithm must
/// match the `message-digest` attribute, and the signature covers the
/// attributes' DER; otherwise it covers the content.
pub open spec fn spec_verify_signer<B: SignatureVerifier>(
    sd: SignedData,
    signer: SignerInfo,
    b: B,
    external: Option<Seq<u8>>,
    certs: Seq<Seq<u8>>,
) -> Result<VerificationResult> {
    match spec_signed_content(sd, external) {
        None => Err(Error::MissingContent),
        Some(c) => match signer.signed_attrs {
            None => spec_signer_signature(b, signer, certs, c),
            Some(attrs) => match b.spec_digest(signer.digest_algorithm.algorithm.0@, c) {
                Err(e) => Err(spec_map_verify_err(e)),
                Ok(d) => match spec_digest_outcome(attrs.raw@, attrs.attributes@, d) {
                    Err(e) => Err(e),
                    Ok(Some(r)) => Ok(r),
                    Ok(None) => spec_signer_signature(b, signer, certs, spec_signed_attrs_der(attrs.raw@)),
                },
            },
        },
    }
}

/// Law (a digest mismatch is never a success): a signer with signed
/// attributes whose message-digest attribute holds the OCTET STRING `c`,
/// when the backend's digest of the signed content is some `d` other than
/// `c`, is reported as `DigestMismatch`, whatever the signature.
pub proof fn lemma_signer_digest_mismatch<B: SignatureVerifier>(
    sd: SignedData,
    signer: SignerInfo,
    b: B,
    external: Option<Seq<u8>>,
    certs: Seq<Seq<u8>>,
    content: Seq<u8>,
    d: Seq<u8>,
    i: int,
    c: Seq<u8>,
)
    requires
        spec_signed_content(sd, external) == Some(content),
        signer.signed_attrs is Some,
        b.spec_digest(signer.digest_algorithm.algorithm.0@, content) == Ok::<Seq<u8>, VerifyError>(d),
        d != c,
        spec_first_attr(signer.signed_attrs->Some_0.attributes@, oid::ATTR_MESSAGE_DIGEST@) == Some(i),
        spec_any_at(signer.signed_attrs->Some_0.attributes@[i].values@, 0, spec_default_config(EncodingRule::Ber))
            matches Ok((v, _)) && v.2 == spec_encode_primitive(spec_universal(4), c),
        c.len() <= 0x400_0000,
    ensures
        spec_verify_signer(sd, signer, b, external, certs) == Ok::<VerificationResult, Error>(
            VerificationResult::DigestMismatch,
        ),
{
    let attrs = signer.signed_attrs->Some_0;
    lemma_digest_check_compares(attrs.raw@, attrs.attributes@, d, c);
}

/// The outcomes of verifying the signers of `sd` from the `i`-th on, in
/// order, or the first error.
pub open spec fn spec_verify_from<B: SignatureVerifier>(
    sd: SignedData,
    b: B,
    external: Option<Seq<u8>>,
    certs: Seq<Seq<u8>>,
    i: int,
) -> Result<Seq<VerificationResult>>
    decreases sd.signer_infos@.len() - i,
{
    if i < 0 || i >= sd.signer_infos@.len() {
        Ok(Seq::empty())
    } else {
        match spec_verify_signer(sd, sd.signer_infos@[i], b, external, certs) {
            Err(e) => Err(e),
            Ok(r) => match spec_verify_from(sd, b, external, certs, i + 1) {
                Err(e) => Err(e),
                Ok(rs) => Ok(seq![r] + rs),
            },
        }
    }
}

/// `done` followed by the outcomes `rest` holds, or `rest`'s error.
pub open spec fn spec_prepend_results(done: Seq<VerificationResult>, rest: Result<Seq<VerificationResult>>) -> Result<Seq<VerificationResult>> {
    match rest {
        Ok(r) => Ok(done + r),
        Err(e) => Err(e),
    }
}

/// `o` as a value: the bytes of the slice it holds.
pub open spec fn spec_opt_bytes(o: Option<&[u8]>) -> Option<Seq<u8>> {
    match o {
        Some(b) => Some(b@),
        None => None,
    }
}

/// Verify one signer of `sd` against the candidate certificates `certs`.
fn verify_signer<B: SignatureVerifier>(
    sd: &SignedData<'_>,
    signer: &SignerInfo<'_>,
    backend: &B,
    external_content: Option<&[u8]>,
    certs: &[&[u8]],
) -> (res: Result<VerificationResult>)
    ensures
        sd.e_content is None && external_content is None ==> res == Err::<VerificationResult, Error>(Error::MissingContent),
        (sd.e_content is Some || external_content is Some) && (signer.signed_attrs matches Some(a) && spec_first_attr(
            a.attributes@,
            oid::ATTR_MESSAGE_DIGEST@,
        ) is None) ==> (res is Err || res == Ok::<VerificationResult, Error>(VerificationResult::DigestMismatch)),
        (sd.e_content is Some || external_content is Some) && signer.signed_attrs is None ==> match spec_first_signer_cert(
            signer.sid@,
            spec_cert_bytes(certs@),
            0,
        ) {
            None => res == Ok::<VerificationResult, Error>(VerificationResult::NoMatchingCertificate),
            Some(_) => res is Err || res == Ok::<VerificationResult, Error>(VerificationResult::Success) || res == Ok::<
                VerificationResult,
                Error,
            >(VerificationResult::SignatureInvalid),
        },
        res == Ok::<VerificationResult, Error>(VerificationResult::NoMatchingCertificate) ==> spec_first_signer_cert(
            signer.sid@,
            spec_cert_bytes(certs@),
            0,
        ) is None,
        res == Ok::<VerificationResult, Error>(VerificationResult::Success) ==> spec_first_signer_cert(
            signer.sid@,
            spec_cert_bytes(certs@),
            0,
        ) is Some,
        res == Err::<VerificationResult, Error>(Error::MissingContent) ==> spec_signed_content(*sd, spec_opt_bytes(external_content)) is None,
        B::obeys_backend_spec() ==> res == spec_verify_signer(*sd, *signer, *backend, spec_opt_bytes(external_content), spec_cert_bytes(certs@)),
{
    // 1. Determine the content to digest / sign over.
    let content = match sd.content_bytes() {
        Some(c) => Some(c),
        None => external_content,
    };
    let tbs: Vec<u8> = match &signer.signed_attrs {
        Some(attrs) => {
            let content = match content {
                Some(c) => c,
                None => {
                    return Err(Error::MissingContent);
                },
            };
            // Compute the digest and check the message-digest attribute.
            let digest = match backend.digest(signer.digest_algorithm_bytes(), content) {
                Ok(d) => d,
                Err(e) => {
                    return Err(map_verify_err(e));
                },
            };
            match digest_outcome(attrs, digest.as_slice())? {
                Some(r) => {
                    return Ok(r);
                },
                None => {},
            }
            // The signature is over the canonical SET OF signed attributes.
            attrs.der()
        },
        None => {
            let content = match content {
                Some(c) => c,
                None => {
                    return Err(Error::MissingContent);
                },
            };
            vstd::slice::slice_to_vec(content)
        },
    };

    // 2. Locate the signing certificate; 3. delegate the signature math.
    match find_signer_cert(signer, certs) {
        Some(fields) => signature_outcome(
            backend.verify_signature(signer.signature_algorithm_bytes(), fields.spki_algorithm, fields.spki_key, tbs.as_slice(), signer.signature),
        ),
        None => Ok(VerificationResult::NoMatchingCertificate),
    }
}

/// The CMS error a backend error becomes.
pub open spec fn spec_map_verify_err(e: VerifyError) -> Error {
    match e {
        VerifyError::UnsupportedAlgorithm => Error::UnsupportedAlgorithm,
        VerifyError::InvalidKey => Error::UnexpectedStructure,
        VerifyError::InvalidSignature => Error::VerificationFailed,
        VerifyError::Internal => Error::UnexpectedStructure,
    }
}

fn map_verify_err(e: VerifyError) -> (r: Error)
    ensures
        r == spec_map_verify_err(e),
{
    match e {
        VerifyError::UnsupportedAlgorithm => Error::UnsupportedAlgorithm,
        VerifyError::InvalidKey => Error::UnexpectedStructure,
        VerifyError::InvalidSignature => Error::VerificationFailed,
        VerifyError::Internal => Error::UnexpectedStructure,
    }
}

} // verus!
