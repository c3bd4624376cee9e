//! Certificate chain building and RFC 5280 §6.1 path validation.
//!
//! The implementation is fail-closed and delegates the actual signature math to
//! a [`SignatureVerifier`] backend. The validator enforces, in order:
//!
//! 1. path construction (issuer name / authority-key-id linking),
//! 2. per-certificate validity windows,
//! 3. `BasicConstraints` CA flag + `pathLenConstraint`,
//! 4. `KeyUsage` `keyCertSign` (when `KeyUsage` is present),
//! 5. signature verification over `tbsCertificate`,
//! 6. `NameConstraints` (subject DN + SAN DNS/IP),
//! 7. policy acceptance (default `anyPolicy`; explicit sets intersect).
//!
//! Policy mapping / `policyConstraints` / `inhibitAnyPolicy` are *parsed* by the
//! extension layer but only lightly enforced here (documented limitation).

use crate::asn1::util::{bytes_eq, constant_time_eq};
use crate::x509::certificate::Certificate;
use crate::x509::extensions::{
    key_usage_bit, spec_aki_value, spec_bc_der, spec_bit_set, spec_ext_value, spec_first_ext, spec_general_names_value,
    spec_ku_der, spec_nc_value, spec_policies_value, spec_ski_value, CertificatePolicies, GeneralName, GeneralNameView,
    GeneralSubtree, SubtreeView,
};
use crate::x509::name::Name;
use crate::x509::oid::ext;
use crate::x509::spki::SubjectPublicKeyInfo;
use crate::x509::time::{spec_window_contains, UnixTime};
use crate::x509::verify::{SignatureVerifier, VerifyError};
use vstd::prelude::*;

verus! {

/// A trusted root: a subject `Name`, its public key, and an optional key id.
#[derive(Clone, Debug)]
pub struct TrustAnchor<'a> {
    /// The trusted CA subject name.
    pub name: Name<'a>,
    /// The trusted CA public key.
    pub public_key: SubjectPublicKeyInfo<'a>,
    /// The trusted CA subject key identifier (if known).
    pub key_id: Option<&'a [u8]>,
}

impl<'a> TrustAnchor<'a> {
    /// Build a trust anchor from a (self-signed) CA certificate: its subject,
    /// its key, and its subject key identifier when that decodes.
    pub fn from_cert(cert: &'a Certificate<'a>) -> (a: Self)
        ensures
            a.name@ == cert.spec_tbs().subject@,
            a.name.spec_der() == cert.spec_tbs().subject.spec_der(),
            a.public_key == cert.spec_tbs().subject_public_key_info,
            (match a.key_id {
                Some(k) => Some(k@),
                None => None,
            }) == spec_ski_of(*cert),
    {
        let key_id = match cert.tbs().extensions.subject_key_identifier() {
            Ok(Some(s)) => Some(s.as_bytes()),
            _ => None,
        };
        TrustAnchor { name: cert.tbs().subject.duplicate(), public_key: cert.tbs().subject_public_key_info, key_id }
    }
}

/// Configuration for path validation.
pub struct PathConfig<'a, V: SignatureVerifier> {
    /// The validation time (caller-supplied; there is no clock here).
    pub time: UnixTime,
    /// The signature-verification backend.
    pub verifier: &'a V,
    /// Maximum number of intermediate certificates allowed in a path.
    pub max_path_length: Option<usize>,
}

/// A successfully validated certification path: `certs[0]` is the end-entity,
/// `certs[last]` is the cert issued directly by `anchor`.
#[derive(Clone, Debug)]
pub struct ValidatedPath<'a> {
    /// The certificates from end-entity to the cert just below the anchor.
    pub certs: Vec<&'a Certificate<'a>>,
    /// The trust anchor the path terminates at.
    pub anchor: &'a TrustAnchor<'a>,
}

/// Errors arising during chain building or path validation.
#[derive(Clone, Copy, PartialEq, Eq, Debug, Structural)]
pub enum PathError {
    /// No issuer (or trust anchor) could be found for a certificate.
    UnableToBuildPath,
    /// The constructed path exceeds the configured maximum length.
    PathTooLong,
    /// A certificate is outside its validity window at the validation time.
    InvalidValidity,
    /// A `BasicConstraints` requirement was violated (missing CA flag or
    /// `pathLenConstraint` exceeded).
    BasicConstraintsViolation,
    /// A CA certificate is missing the `keyCertSign` `KeyUsage` bit.
    KeyUsageViolation,
    /// A `NameConstraints` check failed.
    NameConstraintViolation,
    /// No acceptable certificate policy was found.
    PolicyViolation,
    /// Signature verification failed (or the algorithm/key was unsupported).
    SignatureVerification(VerifyError),
}

/// The human-readable description of a path error.
pub open spec fn path_error_text(e: PathError) -> Seq<char> {
    match e {
        PathError::UnableToBuildPath => "unable to build certification path"@,
        PathError::PathTooLong => "certification path too long"@,
        PathError::InvalidValidity => "certificate not valid at the given time"@,
        PathError::BasicConstraintsViolation => "basic constraints violation (CA flag or path length)"@,
        PathError::KeyUsageViolation => "issuer missing keyCertSign key usage"@,
        PathError::NameConstraintViolation => "name constraints violation"@,
        PathError::PolicyViolation => "no acceptable certificate policy"@,
        PathError::SignatureVerification(v) => "signature verification failed: "@ + crate::x509::verify::verify_error_text(v),
    }
}

impl PathError {
    /// The human-readable description of this error.
    pub fn to_string(&self) -> (s: String)
        ensures
            s@ == path_error_text(*self),
    {
        match self {
            PathError::UnableToBuildPath => String::from_str("unable to build certification path"),
            PathError::PathTooLong => String::from_str("certification path too long"),
            PathError::InvalidValidity => String::from_str("certificate not valid at the given time"),
            PathError::BasicConstraintsViolation => String::from_str("basic constraints violation (CA flag or path length)"),
            PathError::KeyUsageViolation => String::from_str("issuer missing keyCertSign key usage"),
            PathError::NameConstraintViolation => String::from_str("name constraints violation"),
            PathError::PolicyViolation => String::from_str("no acceptable certificate policy"),
            PathError::SignatureVerification(e) => {
                let mut s = String::from_str("signature verification failed: ");
                crate::asn1::util::push_str(&mut s, e.to_string());
                s
            },
        }
    }
}

/// The `BasicConstraints` check of the CA certificate at position `i` of a
/// path of `n` certificates: present, decodable, asserting cA, and allowing
/// the CA certificates that follow it.
pub open spec fn spec_bc_accepts(exts: Seq<crate::x509::extensions::Extension>, n: int, i: int) -> bool {
    match spec_first_ext(exts, ext::BASIC_CONSTRAINTS@) {
        None => false,
        Some(j) => match spec_bc_der(exts[j].extn_value@) {
            Err(_) => false,
            Ok(bc) => bc.ca && match bc.path_len_constraint {
                None => true,
                Some(limit) => (if n - 1 > i { n - 1 - i } else { 0 }) <= limit,
            },
        },
    }
}

/// The `KeyUsage` check of a CA certificate: when the extension is present
/// and decodes, it sets keyCertSign.
pub open spec fn spec_ku_accepts(exts: Seq<crate::x509::extensions::Extension>) -> bool {
    match spec_first_ext(exts, ext::KEY_USAGE@) {
        None => true,
        Some(j) => match spec_ku_der(exts[j].extn_value@) {
            Err(_) => true,
            Ok(bits) => spec_bit_set(bits.1, key_usage_bit::KEY_CERT_SIGN),
        },
    }
}

/// What a validated path guarantees of its certificate at position `i` (of
/// `n`) at time `now`: it is within its validity window, each CA
/// certificate (every one after the end-entity) passes the BasicConstraints
/// and KeyUsage checks, and the policy check holds.
#[verifier::opaque]
pub open spec fn spec_cert_accepted(c: Certificate, n: int, i: int, now: i64) -> bool {
    &&& spec_window_contains(c.spec_tbs().validity.not_before@, c.spec_tbs().validity.not_after@, now)
    &&& i >= 1 ==> spec_bc_accepts(c.spec_tbs().extensions.spec_list(), n, i)
    &&& i >= 1 ==> spec_ku_accepts(c.spec_tbs().extensions.spec_list())
    &&& spec_policy_ok(c)
}

/// Every certificate of `certs` is accepted (see [`spec_cert_accepted`]) and
/// satisfies the name constraints gathered from it and the certificates
/// before it.
pub open spec fn spec_path_accepted(certs: Seq<&Certificate>, now: i64) -> bool {
    forall|i: int| 0 <= i < certs.len() ==> {
        &&& spec_cert_accepted(*#[trigger] certs[i], certs.len() as int, i, now)
        &&& spec_nc_satisfied(*certs[i], spec_permitted_upto(certs, i + 1), spec_excluded_upto(certs, i + 1))
    }
}

/// What a failed validation of `certs` at `now` with error `e` says of the
/// path: some certificate fails the check that `e` names (a signature
/// failure is the backend's answer and says nothing more).
#[verifier::opaque]
pub open spec fn spec_failure_cause(certs: Seq<&Certificate>, now: i64, e: PathError) -> bool {
    ||| e is SignatureVerification
    ||| exists|i: int| 0 <= i < certs.len() && spec_cert_failure(
        *#[trigger] certs[i],
        certs.len() as int,
        i,
        now,
        spec_permitted_upto(certs, i + 1),
        spec_excluded_upto(certs, i + 1),
        e,
    )
}

/// The certificate `c` at position `i` (of `n`) fails, at `now` and under
/// the gathered subtrees `permitted` / `excluded`, the check that `e` names.
#[verifier::opaque]
pub open spec fn spec_cert_failure(
    c: Certificate,
    n: int,
    i: int,
    now: i64,
    permitted: Seq<SubtreeView>,
    excluded: Seq<SubtreeView>,
    e: PathError,
) -> bool {
    match e {
        PathError::InvalidValidity => !spec_window_contains(c.spec_tbs().validity.not_before@, c.spec_tbs().validity.not_after@, now),
        PathError::BasicConstraintsViolation => i >= 1 && !spec_bc_accepts(c.spec_tbs().extensions.spec_list(), n, i),
        PathError::KeyUsageViolation => i >= 1 && !spec_ku_accepts(c.spec_tbs().extensions.spec_list()),
        PathError::NameConstraintViolation => !spec_nc_satisfied(c, permitted, excluded),
        PathError::PolicyViolation => !spec_policy_ok(c),
        _ => false,
    }
}

/// Build a path from `target` to a trust anchor and validate it.
pub fn build_and_validate<'a, V: SignatureVerifier>(
    target: &'a Certificate<'a>,
    intermediates: &'a [Certificate<'a>],
    anchors: &'a [TrustAnchor<'a>],
    config: PathConfig<'a, V>,
) -> (res: Result<ValidatedPath<'a>, PathError>)
    ensures
        res matches Ok(p) ==> {
            &&& p.certs@.len() >= 1
            &&& *p.certs@[0] == *target
            &&& spec_path_accepted(p.certs@, config.time.0)
            &&& spec_chained(p.certs@, *p.anchor)
            &&& config.max_path_length matches Some(m) ==> p.certs@.len() <= m + 1
        },
        anchors@.len() == 0 ==> res is Err,
        res matches Ok(p) ==> spec_from_pool(p.certs@, intermediates@) && exists|a: int|
            0 <= a < anchors@.len() && anchors@[a] == *p.anchor,
        V::obeys_backend_spec() ==> (res matches Ok(p) ==> spec_validate_from(
            p.certs@,
            *p.anchor,
            config.time.0,
            *config.verifier,
            0,
        ) is Ok),
        match spec_build(target, intermediates@, anchors@, config.max_path_length) {
            Err(e) => res == Err::<ValidatedPath<'a>, PathError>(e),
            Ok((cs, a)) => {
                &&& 0 <= a < anchors@.len()
                &&& res matches Ok(p) ==> p.certs@ == cs && *p.anchor == anchors@[a]
                &&& res matches Err(e) ==> spec_failure_cause(cs, config.time.0, e) && spec_first_check_failure(
                    cs,
                    config.time.0,
                    Err(e),
                )
                &&& V::obeys_backend_spec() ==> match spec_validate_from(cs, anchors@[a], config.time.0, *config.verifier, 0) {
                    Ok(_) => res is Ok,
                    Err(e) => res == Err::<ValidatedPath<'a>, PathError>(e),
                }
            },
        },
{
    let path = build_path(target, intermediates, anchors, config.max_path_length)?;
    match validate_path(&path, config) {
        Ok(()) => Ok(path),
        Err(e) => {
            assert(spec_chained(path.certs@, *path.anchor));
            Err(e)
        },
    }
}


/// The authority key identifier of `cert` as chain building uses it: the
/// key identifier of its decodable authority-key-identifier extension (empty
/// when that has none), or `None`.
pub open spec fn spec_aki_key_id(cert: Certificate) -> Option<Seq<u8>> {
    let exts = cert.spec_tbs().extensions.spec_list();
    match spec_first_ext(exts, ext::AUTHORITY_KEY_IDENTIFIER@) {
        None => None,
        Some(_) => match spec_aki_value(spec_ext_value(exts, ext::AUTHORITY_KEY_IDENTIFIER@)) {
            Ok((Some(k), _)) => Some(k),
            Ok((None, _)) => Some(Seq::empty()),
            Err(_) => None,
        },
    }
}

/// The subject key identifier of `cert`, when its extension decodes.
pub open spec fn spec_ski_of(cert: Certificate) -> Option<Seq<u8>> {
    let exts = cert.spec_tbs().extensions.spec_list();
    match spec_first_ext(exts, ext::SUBJECT_KEY_IDENTIFIER@) {
        None => None,
        Some(_) => match spec_ski_value(spec_ext_value(exts, ext::SUBJECT_KEY_IDENTIFIER@)) {
            Ok(k) => Some(k),
            Err(_) => None,
        },
    }
}

/// An issuer with subject DER `subject` and key identifier `key_id` issued
/// a certificate with issuer DER `issuer` and authority key id `aki`: the
/// names are equal, or both key identifiers are known and equal.
pub open spec fn spec_links(subject: Seq<u8>, issuer: Seq<u8>, aki: Option<Seq<u8>>, key_id: Option<Seq<u8>>) -> bool {
    subject == issuer || (aki matches Some(a) && key_id matches Some(k) && a == k)
}

/// `cert` names `by` as its issuer (see [`spec_links`]).
pub open spec fn spec_issued_by(cert: Certificate, by: Certificate) -> bool {
    spec_links(by.spec_tbs().subject.spec_der(), cert.spec_tbs().issuer.spec_der(), spec_aki_key_id(cert), spec_ski_of(by))
}

/// `cert` names the trust anchor `a` as its issuer (see [`spec_links`]).
pub open spec fn spec_anchored_by(cert: Certificate, a: TrustAnchor) -> bool {
    spec_links(a.name.spec_der(), cert.spec_tbs().issuer.spec_der(), spec_aki_key_id(cert), match a.key_id {
        Some(k) => Some(k@),
        None => None,
    })
}

/// The certificates of a path form a chain: each names the next as its
/// issuer, and the last names the anchor.
pub open spec fn spec_chained(certs: Seq<&Certificate>, anchor: TrustAnchor) -> bool {
    &&& certs.len() >= 1
    &&& forall|i: int| 0 <= i < certs.len() - 1 ==> spec_issued_by(*#[trigger] certs[i], *certs[i + 1])
    &&& spec_anchored_by(*certs[certs.len() - 1], anchor)
}

/// The key identifier of an authority-key-identifier extension, or the
/// empty identifier.
fn aki_key_id<'a>(cert: &Certificate<'a>) -> (r: Option<&'a [u8]>)
    ensures
        spec_aki_key_id(*cert) == (match r {
            Some(k) => Some(k@),
            None => None::<Seq<u8>>,
        }),
{
    match cert.tbs().extensions.authority_key_identifier() {
        Ok(Some(a)) => match a.key_identifier {
            Some(k) => Some(k),
            None => {
                let e: &[u8] = &[];
                assert(e@ =~= Seq::<u8>::empty());
                Some(e)
            },
        },
        _ => None,
    }
}

/// The subject key identifier of `cert`, when it has one that decodes.
fn ski_of<'a>(cert: &Certificate<'a>) -> (r: Option<&'a [u8]>)
    ensures
        spec_ski_of(*cert) == (match r {
            Some(k) => Some(k@),
            None => None::<Seq<u8>>,
        }),
{
    match cert.tbs().extensions.subject_key_identifier() {
        Ok(Some(s)) => Some(s.as_bytes()),
        _ => None,
    }
}

/// Whether an issuer with subject DER `subject` and key id `key_id` issued a
/// certificate with issuer DER `issuer` and authority key id `aki`.
fn links(subject: &Name<'_>, issuer: &Name<'_>, aki: Option<&[u8]>, key_id: Option<&[u8]>) -> (r: bool)
    ensures
        r == spec_links(subject.spec_der(), issuer.spec_der(), match aki {
            Some(a) => Some(a@),
            None => None::<Seq<u8>>,
        }, match key_id {
            Some(k) => Some(k@),
            None => None::<Seq<u8>>,
        }),
{
    if subject.der_eq(issuer) {
        return true;
    }
    match (aki, key_id) {
        (Some(a), Some(s)) => constant_time_eq(a, s),
        _ => false,
    }
}

/// `a` and `b` are the same certificate: the same to-be-signed bytes and
/// the same signature bits.
pub open spec fn spec_same_cert(a: Certificate, b: Certificate) -> bool {
    a.spec_tbs_der() == b.spec_tbs_der() && a.spec_signature_value().data@ == b.spec_signature_value().data@
}

/// `cand` issued `c` and is not `c` itself.
pub open spec fn spec_is_issuer(c: Certificate, cand: Certificate) -> bool {
    !spec_same_cert(cand, c) && spec_issued_by(c, cand)
}

/// The position in `pool` (from `j`) of the first issuer of `c`.
pub open spec fn spec_first_issuer(c: Certificate, pool: Seq<Certificate>, j: int) -> Option<int>
    decreases pool.len() - j,
{
    if j < 0 || j >= pool.len() {
        None
    } else if spec_is_issuer(c, pool[j]) {
        Some(j)
    } else {
        spec_first_issuer(c, pool, j + 1)
    }
}

/// The position in `anchors` (from `j`) of the first anchor that issued `c`.
pub open spec fn spec_first_anchor(c: Certificate, anchors: Seq<TrustAnchor>, j: int) -> Option<int>
    decreases anchors.len() - j,
{
    if j < 0 || j >= anchors.len() {
        None
    } else if spec_anchored_by(c, anchors[j]) {
        Some(j)
    } else {
        spec_first_anchor(c, anchors, j + 1)
    }
}

/// The first issuer found from `j` is an issuer in the pool.
pub proof fn lemma_first_issuer(c: Certificate, pool: Seq<Certificate>, j: int)
    ensures
        spec_first_issuer(c, pool, j) matches Some(k) ==> j <= k < pool.len() && 0 <= k && spec_is_issuer(c, pool[k]),
    decreases pool.len() - j,
{
    if 0 <= j < pool.len() && !spec_is_issuer(c, pool[j]) {
        lemma_first_issuer(c, pool, j + 1);
    }
}

/// The first anchor found from `j` is an anchor that issued `c`.
pub proof fn lemma_first_anchor(c: Certificate, anchors: Seq<TrustAnchor>, j: int)
    ensures
        spec_first_anchor(c, anchors, j) matches Some(k) ==> j <= k < anchors.len() && 0 <= k && spec_anchored_by(c, anchors[k]),
    decreases anchors.len() - j,
{
    if 0 <= j < anchors.len() && !spec_anchored_by(c, anchors[j]) {
        lemma_first_anchor(c, anchors, j + 1);
    }
}

/// Whether `a` and `b` are the same certificate.
fn same_certificate(a: &Certificate<'_>, b: &Certificate<'_>) -> (r: bool)
    ensures
        r == spec_same_cert(*a, *b),
{
    bytes_eq(a.tbs_certificate_der(), b.tbs_certificate_der()) && bytes_eq(a.signature_value().data, b.signature_value().data)
}

/// The position in `pool` of the first issuer of `cert` (never `cert`
/// itself).
fn find_issuer<'a>(cert: &'a Certificate<'a>, pool: &'a [Certificate<'a>]) -> (r: Option<usize>)
    ensures
        match r {
            Some(i) => spec_first_issuer(*cert, pool@, 0) == Some(i as int) && i < pool@.len(),
            None => spec_first_issuer(*cert, pool@, 0) is None,
        },
{
    let aki = aki_key_id(cert);
    let mut i: usize = 0;
    while i < pool.len()
        invariant
            i <= pool@.len(),
            spec_first_issuer(*cert, pool@, i as int) == spec_first_issuer(*cert, pool@, 0),
            spec_aki_key_id(*cert) == (match aki {
                Some(k) => Some(k@),
                None => None::<Seq<u8>>,
            }),
        decreases pool@.len() - i,
    {
        let c = &pool[i];
        // Never match a certificate to itself (a self-signed cert would otherwise
        // resolve its own name and create a cycle).
        if !same_certificate(c, cert) && links(&c.tbs().subject, &cert.tbs().issuer, aki, ski_of(c)) {
            return Some(i);
        }
        i += 1;
    }
    None
}

/// The position in `anchors` of the first trust anchor that issued `cert`.
fn find_anchor<'a>(cert: &'a Certificate<'a>, anchors: &'a [TrustAnchor<'a>]) -> (r: Option<usize>)
    ensures
        match r {
            Some(i) => spec_first_anchor(*cert, anchors@, 0) == Some(i as int) && i < anchors@.len(),
            None => spec_first_anchor(*cert, anchors@, 0) is None,
        },
{
    let aki = aki_key_id(cert);
    let mut i: usize = 0;
    while i < anchors.len()
        invariant
            i <= anchors@.len(),
            spec_first_anchor(*cert, anchors@, i as int) == spec_first_anchor(*cert, anchors@, 0),
            spec_aki_key_id(*cert) == (match aki {
                Some(k) => Some(k@),
                None => None::<Seq<u8>>,
            }),
        decreases anchors@.len() - i,
    {
        let a = &anchors[i];
        if links(&a.name, &cert.tbs().issuer, aki, a.key_id) {
            return Some(i);
        }
        i += 1;
    }
    None
}

/// Every certificate of `certs` after the first is one of `pool`.
pub open spec fn spec_from_pool(certs: Seq<&Certificate>, pool: Seq<Certificate>) -> bool {
    forall|k: int| 1 <= k < certs.len() ==> exists|j: int| 0 <= j < pool.len() && pool[j] == *#[trigger] certs[k]
}

/// The longest chain the walk may follow: the length limit plus one, or,
/// without a limit, one more than the pool holds.
pub open spec fn spec_walk_bound(pool_len: int, max_len: Option<usize>) -> int {
    match max_len {
        Some(m) => m + 1,
        None => pool_len + 1,
    }
}

/// Building a path on from the chain `done` at the certificate `current`:
/// past the length limit `PathTooLong`, without one past the pool's size
/// `UnableToBuildPath`; otherwise `current` joins the chain, which goes on
/// at its first issuer in `pool`, else ends at its first issuing anchor
/// (the chain and the anchor's position), else `UnableToBuildPath`.
pub open spec fn spec_build_from<'a>(
    pool: Seq<Certificate<'a>>,
    anchors: Seq<TrustAnchor<'a>>,
    max_len: Option<usize>,
    done: Seq<&'a Certificate<'a>>,
    current: &'a Certificate<'a>,
) -> Result<(Seq<&'a Certificate<'a>>, int), PathError>
    decreases spec_walk_bound(pool.len() as int, max_len) - done.len(),
{
    if max_len matches Some(m) && done.len() > m {
        Err(PathError::PathTooLong)
    } else if max_len is None && done.len() > pool.len() {
        Err(PathError::UnableToBuildPath)
    } else {
        let d = done.push(current);
        match spec_first_issuer(*current, pool, 0) {
            Some(j) => if 0 <= j < pool.len() {
                spec_build_from(pool, anchors, max_len, d, &pool[j])
            } else {
                Err(PathError::UnableToBuildPath)
            },
            None => match spec_first_anchor(*current, anchors, 0) {
                Some(a) => Ok((d, a)),
                None => Err(PathError::UnableToBuildPath),
            },
        }
    }
}

/// The path built from `target` through `pool` to one of `anchors`, with the
/// length limit `max_len`: the chain from `target` and the position of its
/// anchor, or the error.
pub open spec fn spec_build<'a>(
    target: &'a Certificate<'a>,
    pool: Seq<Certificate<'a>>,
    anchors: Seq<TrustAnchor<'a>>,
    max_len: Option<usize>,
) -> Result<(Seq<&'a Certificate<'a>>, int), PathError> {
    spec_build_from(pool, anchors, max_len, Seq::empty(), target)
}

/// Follow issuers from `target` through `intermediates` to a trust anchor.
/// A chain that comes back to a certificate already on it can never reach
/// an anchor; it is reported as unbuildable once it is longer than the pool.
fn build_path<'a>(
    target: &'a Certificate<'a>,
    intermediates: &'a [Certificate<'a>],
    anchors: &'a [TrustAnchor<'a>],
    max_len: Option<usize>,
) -> (res: Result<ValidatedPath<'a>, PathError>)
    ensures
        match spec_build(target, intermediates@, anchors@, max_len) {
            Ok((cs, a)) => res matches Ok(p) && p.certs@ == cs && 0 <= a < anchors@.len() && *p.anchor == anchors@[a],
            Err(e) => res == Err::<ValidatedPath<'a>, PathError>(e),
        },
        res matches Ok(p) ==> p.certs@.len() >= 1 && *p.certs@[0] == *target,
        res matches Ok(p) ==> (max_len matches Some(m) ==> p.certs@.len() <= m + 1),
        res matches Ok(p) ==> spec_chained(p.certs@, *p.anchor),
        anchors@.len() == 0 ==> res is Err,
        res matches Ok(p) ==> spec_from_pool(p.certs@, intermediates@),
{
    let mut certs: Vec<&'a Certificate<'a>> = Vec::new();
    let mut current = target;
    let ghost bound: int = spec_walk_bound(intermediates@.len() as int, max_len);
    loop
        invariant
            certs@.len() == 0 ==> current == target,
            certs@.len() >= 1 ==> *certs@[0] == *target,
            certs@.len() <= bound,
            bound == spec_walk_bound(intermediates@.len() as int, max_len),
            forall|i: int| 0 <= i < certs@.len() - 1 ==> spec_issued_by(*#[trigger] certs@[i], *certs@[i + 1]),
            certs@.len() >= 1 ==> spec_issued_by(*certs@[certs@.len() - 1], *current),
            spec_from_pool(certs@, intermediates@),
            certs@.len() >= 1 ==> exists|j: int| 0 <= j < intermediates@.len() && intermediates@[j] == *current,
            spec_build(target, intermediates@, anchors@, max_len) == spec_build_from(
                intermediates@,
                anchors@,
                max_len,
                certs@,
                current,
            ),
        decreases bound - certs@.len(),
    {
        let ghost before = certs@;
        match max_len {
            Some(max) => {
                if certs.len() > max {
                    return Err(PathError::PathTooLong);
                }
            },
            None => {
                if certs.len() > intermediates.len() {
                    return Err(PathError::UnableToBuildPath);
                }
            },
        }
        certs.push(current);
        proof {
            assert(certs@ == before.push(current));
            assert forall|k: int| 1 <= k < certs@.len() implies exists|j: int|
                0 <= j < intermediates@.len() && intermediates@[j] == *#[trigger] certs@[k] by {
                if k < before.len() {
                    assert(certs@[k] == before[k]);
                }
            }
        }
        let prev = current;
        proof {
            lemma_first_issuer(*prev, intermediates@, 0);
            lemma_first_anchor(*prev, anchors@, 0);
        }
        match find_issuer(current, intermediates) {
            Some(i) => {
                current = &intermediates[i];
                assert(intermediates@[i as int] == *current);
            },
            None => {
                return match find_anchor(current, anchors) {
                    Some(a) => {
                        let anchor = &anchors[a];
                        assert(anchors@[a as int] == *anchor);
                        Ok(ValidatedPath { certs, anchor })
                    },
                    None => Err(PathError::UnableToBuildPath),
                };
            },
        }
    }
}

/// Validate a built path at `config.time` (see the module documentation for
/// the checks and their order).
#[verifier::spinoff_prover]
fn validate_path<'a, V: SignatureVerifier>(path: &ValidatedPath<'a>, config: PathConfig<'a, V>) -> (res: Result<(), PathError>)
    ensures
        res is Ok ==> spec_path_accepted(path.certs@, config.time.0),
        res matches Err(e) ==> spec_failure_cause(path.certs@, config.time.0, e),
        spec_first_check_failure(path.certs@, config.time.0, res),
        V::obeys_backend_spec() ==> res == spec_validate_from(path.certs@, *path.anchor, config.time.0, *config.verifier, 0),
{
    let n = path.certs.len();

    // Accumulate name constraints from the CA certs in the path.
    let mut permitted: Vec<GeneralSubtree<'a>> = Vec::new();
    let mut excluded: Vec<GeneralSubtree<'a>> = Vec::new();

    let mut i: usize = 0;
    while i < n
        invariant
            n == path.certs@.len(),
            i <= n,
            permitted@.map_values(|x: GeneralSubtree<'a>| x@) == spec_permitted_upto(path.certs@, i as int),
            excluded@.map_values(|x: GeneralSubtree<'a>| x@) == spec_excluded_upto(path.certs@, i as int),
            forall|k: int| 0 <= k < i ==> #[trigger] spec_check_at(path.certs@, config.time.0, k) is Ok,
            V::obeys_backend_spec() ==> spec_validate_from(path.certs@, *path.anchor, config.time.0, *config.verifier, 0)
                == spec_validate_from(path.certs@, *path.anchor, config.time.0, *config.verifier, i as int),
        decreases n - i,
    {
        match check_link(path, &config, i, &mut permitted, &mut excluded) {
            Ok(()) => {},
            Err(e) => {
                proof {
                    if e is SignatureVerification {
                        lemma_signature_failure(path.certs@, config.time.0, e->SignatureVerification_0);
                    } else {
                        lemma_check_failure_at(path.certs@, config.time.0, i as int, e);
                    }
                }
                return Err(e);
            },
        }
        i += 1;
    }
    proof {
        lemma_all_checks_pass(path.certs@, config.time.0);
        lemma_validate_end(path.certs@, *path.anchor, config.time.0, *config.verifier);
        assert forall|k: int| 0 <= k < n implies {
            &&& spec_cert_accepted(*#[trigger] path.certs@[k], n as int, k, config.time.0)
            &&& spec_nc_satisfied(*path.certs@[k], spec_permitted_upto(path.certs@, k + 1), spec_excluded_upto(path.certs@, k + 1))
        } by {
            assert(spec_check_at(path.certs@, config.time.0, k) is Ok);
            lemma_check_ok_accepted(path.certs@, config.time.0, k);
        }
    }
    Ok(())
}

/// The checks of the certificate at position `i` of `path`, then its
/// signature against the next certificate's key (or the anchor's).
#[verifier::spinoff_prover]
fn check_link<'a, V: SignatureVerifier>(
    path: &ValidatedPath<'a>,
    config: &PathConfig<'a, V>,
    i: usize,
    permitted: &mut Vec<GeneralSubtree<'a>>,
    excluded: &mut Vec<GeneralSubtree<'a>>,
) -> (res: Result<(), PathError>)
    requires
        i < path.certs@.len(),
        old(permitted)@.map_values(|x: GeneralSubtree<'a>| x@) == spec_permitted_upto(path.certs@, i as int),
        old(excluded)@.map_values(|x: GeneralSubtree<'a>| x@) == spec_excluded_upto(path.certs@, i as int),
    ensures
        res is Ok ==> {
            &&& spec_check_at(path.certs@, config.time.0, i as int) is Ok
            &&& final(permitted)@.map_values(|x: GeneralSubtree<'a>| x@) == spec_permitted_upto(path.certs@, i + 1)
            &&& final(excluded)@.map_values(|x: GeneralSubtree<'a>| x@) == spec_excluded_upto(path.certs@, i + 1)
        },
        res matches Err(e) ==> if e is SignatureVerification {
            spec_check_at(path.certs@, config.time.0, i as int) is Ok
        } else {
            &&& spec_check_at(path.certs@, config.time.0, i as int) == Err::<(), PathError>(e)
            &&& spec_cert_failure(
                *path.certs@[i as int],
                path.certs@.len() as int,
                i as int,
                config.time.0,
                spec_permitted_upto(path.certs@, i + 1),
                spec_excluded_upto(path.certs@, i + 1),
                e,
            )
        },
        V::obeys_backend_spec() ==> spec_validate_from(path.certs@, *path.anchor, config.time.0, *config.verifier, i as int)
            == match res {
            Ok(_) => spec_validate_from(path.certs@, *path.anchor, config.time.0, *config.verifier, i + 1),
            Err(e) => Err(e),
        },
{
    let n = path.certs.len();
    let cert = path.certs[i];
    proof {
        lemma_check_at_unfold(path.certs@, config.time.0, i as int);
    }
    assert(*cert == *path.certs@[i as int]);
    assert(permitted@.map_values(|x: GeneralSubtree<'a>| x@) == spec_permitted_upto(path.certs@, i as int));
    let checked = check_cert(cert, n, i, config.time, permitted, excluded);
    assert(checked == spec_check_at(path.certs@, config.time.0, i as int));
    match checked {
        Ok(()) => {
            assert(spec_check_at(path.certs@, config.time.0, i as int) is Ok);
        },
        Err(e) => {
            proof {
                lemma_validate_check_fails(path.certs@, *path.anchor, config.time.0, *config.verifier, i as int, e);
            }
            return Err(e);
        },
    }
    // 5. Signature verification against the next issuer (or the anchor).
    let issuer_key = if i + 1 < n {
        &path.certs[i + 1].tbs().subject_public_key_info
    } else {
        &path.anchor.public_key
    };
    let outcome = verify_cert_signature(cert, issuer_key, config.verifier);
    proof {
        if V::obeys_backend_spec() {
            assert(*issuer_key == spec_issuer_key(path.certs@, *path.anchor, i as int));
            lemma_validate_signature(path.certs@, *path.anchor, config.time.0, *config.verifier, i as int, outcome);
        }
    }
    match outcome {
        Ok(()) => Ok(()),
        Err(e) => Err(PathError::SignatureVerification(e)),
    }
}


/// Validation from the end of the path succeeds.
pub proof fn lemma_validate_end<V: SignatureVerifier>(certs: Seq<&Certificate>, anchor: TrustAnchor, now: i64, v: V)
    ensures
        spec_validate_from(certs, anchor, now, v, certs.len() as int) == Ok::<(), PathError>(()),
{
    reveal(spec_validate_from);
}

/// Validation from `i` stops with the certificate's own failure `e`.
pub proof fn lemma_validate_check_fails<V: SignatureVerifier>(certs: Seq<&Certificate>, anchor: TrustAnchor, now: i64, v: V, i: int, e: PathError)
    requires
        0 <= i < certs.len(),
        spec_check_at(certs, now, i) == Err::<(), PathError>(e),
    ensures
        spec_validate_from(certs, anchor, now, v, i) == Err::<(), PathError>(e),
{
    reveal(spec_validate_from);
}

/// Validation from `i`, past the certificate's own checks, stops with its
/// signature outcome `o` when that is a failure and goes on otherwise.
pub proof fn lemma_validate_signature<V: SignatureVerifier>(
    certs: Seq<&Certificate>,
    anchor: TrustAnchor,
    now: i64,
    v: V,
    i: int,
    o: Result<(), VerifyError>,
)
    requires
        0 <= i < certs.len(),
        spec_check_at(certs, now, i) is Ok,
        o == spec_cert_signature_outcome(spec_link_answer(v, *certs[i], spec_issuer_key(certs, anchor, i))),
    ensures
        spec_validate_from(certs, anchor, now, v, i) == match o {
            Err(e) => Err(PathError::SignatureVerification(e)),
            Ok(_) => spec_validate_from(certs, anchor, now, v, i + 1),
        },
{
    reveal(spec_validate_from);
}

/// The checks at position `i` are those of its certificate under the
/// subtrees gathered before it plus its own.
pub proof fn lemma_check_at_unfold(certs: Seq<&Certificate>, now: i64, i: int)
    requires
        0 <= i < certs.len(),
    ensures
        spec_permitted_upto(certs, i + 1) == spec_permitted_upto(certs, i) + spec_nc_of(*certs[i]).0,
        spec_excluded_upto(certs, i + 1) == spec_excluded_upto(certs, i) + spec_nc_of(*certs[i]).1,
        spec_check_at(certs, now, i) == spec_check_cert(
            *certs[i],
            certs.len() as int,
            i,
            now,
            spec_permitted_upto(certs, i) + spec_nc_of(*certs[i]).0,
            spec_excluded_upto(certs, i) + spec_nc_of(*certs[i]).1,
        ),
{
}

/// Law: a path that validates with a backend answering as its spec says
/// passed every certificate's own checks, and the backend accepted every
/// link's signature (from `i` on).
pub proof fn lemma_validated_links<V: SignatureVerifier>(certs: Seq<&Certificate>, anchor: TrustAnchor, now: i64, v: V, i: int)
    requires
        0 <= i,
        spec_validate_from(certs, anchor, now, v, i) is Ok,
    ensures
        forall|k: int| i <= k < certs.len() ==> #[trigger] spec_check_at(certs, now, k) is Ok && spec_link_answer(
            v,
            *certs[k],
            spec_issuer_key(certs, anchor, k),
        ) == Ok::<bool, VerifyError>(true),
    decreases certs.len() - i,
{
    reveal(spec_validate_from);
    if i < certs.len() {
        lemma_validated_links(certs, anchor, now, v, i + 1);
    }
}

/// A certificate that passes its checks is accepted and satisfies the
/// name constraints gathered up to it.
pub proof fn lemma_check_ok_accepted(certs: Seq<&Certificate>, now: i64, k: int)
    requires
        0 <= k < certs.len(),
        spec_check_at(certs, now, k) is Ok,
    ensures
        spec_cert_accepted(*certs[k], certs.len() as int, k, now),
        spec_nc_satisfied(*certs[k], spec_permitted_upto(certs, k + 1), spec_excluded_upto(certs, k + 1)),
{
    reveal(spec_check_cert);
    reveal(spec_cert_accepted);
}

/// A validation that stops at the first certificate whose checks fail, with
/// that failure, agrees with the checks.
pub proof fn lemma_check_failure_at(certs: Seq<&Certificate>, now: i64, i: int, e: PathError)
    requires
        0 <= i < certs.len(),
        forall|k: int| 0 <= k < i ==> #[trigger] spec_check_at(certs, now, k) is Ok,
        spec_check_at(certs, now, i) == Err::<(), PathError>(e),
        spec_cert_failure(
            *certs[i],
            certs.len() as int,
            i,
            now,
            spec_permitted_upto(certs, i + 1),
            spec_excluded_upto(certs, i + 1),
            e,
        ),
    ensures
        spec_first_check_failure(certs, now, Err(e)),
        spec_failure_cause(certs, now, e),
{
    reveal(spec_first_check_failure);
    reveal(spec_failure_cause);
    assert(spec_check_at(certs, now, i) is Err);
}

/// A signature failure agrees with the checks and is its own cause.
pub proof fn lemma_signature_failure(certs: Seq<&Certificate>, now: i64, e: VerifyError)
    ensures
        spec_first_check_failure(certs, now, Err(PathError::SignatureVerification(e))),
        spec_failure_cause(certs, now, PathError::SignatureVerification(e)),
{
    reveal(spec_first_check_failure);
    reveal(spec_failure_cause);
}

/// Success agrees with the checks when every certificate passes them.
pub proof fn lemma_all_checks_pass(certs: Seq<&Certificate>, now: i64)
    requires
        forall|k: int| 0 <= k < certs.len() ==> #[trigger] spec_check_at(certs, now, k) is Ok,
    ensures
        spec_first_check_failure(certs, now, Ok(())),
{
    reveal(spec_first_check_failure);
}

/// `res`, the result of validating `certs` at `now`, agrees with the
/// certificates' own checks: an error other than a signature failure is
/// that of the first certificate whose checks fail, and when some
/// certificate's checks fail the result is an error.
#[verifier::opaque]
pub open spec fn spec_first_check_failure(certs: Seq<&Certificate>, now: i64, res: Result<(), PathError>) -> bool {
    &&& match res {
        Err(e) => !(e is SignatureVerification) ==> exists|i: int|
            0 <= i < certs.len() && (forall|k: int| 0 <= k < i ==> #[trigger] spec_check_at(certs, now, k) is Ok)
                && #[trigger] spec_check_at(certs, now, i) == Err::<(), PathError>(e),
        Ok(_) => true,
    }
    &&& (exists|i: int| 0 <= i < certs.len() && #[trigger] spec_check_at(certs, now, i) is Err) ==> res is Err
}

/// The outcome of the CA checks of a certificate with extensions `exts` at
/// position `i` of `n`: BasicConstraints first, then KeyUsage.
pub open spec fn spec_ca_checks(exts: Seq<crate::x509::extensions::Extension>, n: int, i: int) -> Result<(), PathError> {
    if !spec_bc_accepts(exts, n, i) {
        Err(PathError::BasicConstraintsViolation)
    } else if !spec_ku_accepts(exts) {
        Err(PathError::KeyUsageViolation)
    } else {
        Ok(())
    }
}

/// The outcome of the checks of certificate `c` at position `i` (of `n`)
/// other than its signature, at `now`, under the gathered subtrees
/// `permitted` / `excluded` (its own included), in the order they run.
#[verifier::opaque]
pub open spec fn spec_check_cert(
    c: Certificate,
    n: int,
    i: int,
    now: i64,
    permitted: Seq<SubtreeView>,
    excluded: Seq<SubtreeView>,
) -> Result<(), PathError> {
    if !spec_window_contains(c.spec_tbs().validity.not_before@, c.spec_tbs().validity.not_after@, now) {
        Err(PathError::InvalidValidity)
    } else if i >= 1 && spec_ca_checks(c.spec_tbs().extensions.spec_list(), n, i) is Err {
        spec_ca_checks(c.spec_tbs().extensions.spec_list(), n, i)
    } else if !spec_nc_satisfied(c, permitted, excluded) {
        Err(PathError::NameConstraintViolation)
    } else if !spec_policy_ok(c) {
        Err(PathError::PolicyViolation)
    } else {
        Ok(())
    }
}

/// The checks of the certificate at position `i` of `certs` at `now`, under
/// the subtrees gathered up to and including it.
pub open spec fn spec_check_at(certs: Seq<&Certificate>, now: i64, i: int) -> Result<(), PathError> {
    spec_check_cert(*certs[i], certs.len() as int, i, now, spec_permitted_upto(certs, i + 1), spec_excluded_upto(certs, i + 1))
}

/// The key that signed the certificate at position `i` of `certs`: the next
/// certificate's, or the anchor's for the last.
pub open spec fn spec_issuer_key<'a>(certs: Seq<&'a Certificate<'a>>, anchor: TrustAnchor<'a>, i: int) -> SubjectPublicKeyInfo<'a> {
    if i + 1 < certs.len() {
        certs[i + 1].spec_tbs().subject_public_key_info
    } else {
        anchor.public_key
    }
}

/// The backend's answer on the signature of `cert` under `key`: asked with
/// the certificate's signature algorithm OID, the key's algorithm OID and
/// key bits, the to-be-signed DER, and the signature bits.
pub open spec fn spec_link_answer<V: SignatureVerifier>(v: V, cert: Certificate, key: SubjectPublicKeyInfo) -> core::result::Result<bool, VerifyError> {
    v.spec_verify_signature(
        cert.spec_signature_algorithm().algorithm.0@,
        key.algorithm.algorithm.0@,
        key.subject_public_key.data@,
        cert.spec_tbs_der(),
        cert.spec_signature_value().data@,
    )
}

/// The outcome of a backend answer to a certificate signature check.
pub open spec fn spec_cert_signature_outcome(answer: core::result::Result<bool, VerifyError>) -> Result<(), VerifyError> {
    match answer {
        Ok(true) => Ok(()),
        Ok(false) => Err(VerifyError::InvalidSignature),
        Err(e) => Err(e),
    }
}

/// Validating `certs` (issued in turn, the last by `anchor`) from position
/// `i` at `now` with a backend `v` that answers as its spec says: each
/// certificate's own checks, then its signature, in order.
#[verifier::opaque]
pub open spec fn spec_validate_from<V: SignatureVerifier>(certs: Seq<&Certificate>, anchor: TrustAnchor, now: i64, v: V, i: int) -> Result<(), PathError>
    decreases certs.len() - i,
{
    if i < 0 || i >= certs.len() {
        Ok(())
    } else {
        match spec_check_at(certs, now, i) {
            Err(e) => Err(e),
            Ok(_) => match spec_cert_signature_outcome(spec_link_answer(v, *certs[i], spec_issuer_key(certs, anchor, i))) {
                Err(e) => Err(PathError::SignatureVerification(e)),
                Ok(_) => spec_validate_from(certs, anchor, now, v, i + 1),
            },
        }
    }
}

/// The checks of the certificate at position `i` (of `n`) other than its
/// signature, in order: validity at `time`, the CA checks (after the
/// end-entity), then, once its own name constraints are gathered into
/// `permitted` / `excluded`, the name constraints, then the policy check.
fn check_cert<'a>(
    cert: &Certificate<'a>,
    n: usize,
    i: usize,
    time: UnixTime,
    permitted: &mut Vec<GeneralSubtree<'a>>,
    excluded: &mut Vec<GeneralSubtree<'a>>,
) -> (res: Result<(), PathError>)
    requires
        i < n,
    ensures
        res matches Err(e) ==> !(e is SignatureVerification),
        res == spec_check_cert(
            *cert,
            n as int,
            i as int,
            time.0,
            old(permitted)@.map_values(|x: GeneralSubtree<'a>| x@) + spec_nc_of(*cert).0,
            old(excluded)@.map_values(|x: GeneralSubtree<'a>| x@) + spec_nc_of(*cert).1,
        ),
        res is Ok ==> {
            &&& final(permitted)@.map_values(|x: GeneralSubtree<'a>| x@) == old(permitted)@.map_values(
                |x: GeneralSubtree<'a>| x@,
            ) + spec_nc_of(*cert).0
            &&& final(excluded)@.map_values(|x: GeneralSubtree<'a>| x@) == old(excluded)@.map_values(
                |x: GeneralSubtree<'a>| x@,
            ) + spec_nc_of(*cert).1
            &&& spec_cert_accepted(*cert, n as int, i as int, time.0)
            &&& spec_nc_satisfied(
                *cert,
                old(permitted)@.map_values(|x: GeneralSubtree<'a>| x@) + spec_nc_of(*cert).0,
                old(excluded)@.map_values(|x: GeneralSubtree<'a>| x@) + spec_nc_of(*cert).1,
            )
        },
        res matches Err(e) ==> spec_cert_failure(
            *cert,
            n as int,
            i as int,
            time.0,
            old(permitted)@.map_values(|x: GeneralSubtree<'a>| x@) + spec_nc_of(*cert).0,
            old(excluded)@.map_values(|x: GeneralSubtree<'a>| x@) + spec_nc_of(*cert).1,
            e,
        ),
{
    proof {
        reveal(spec_cert_accepted);
        reveal(spec_cert_failure);
        reveal(spec_check_cert);
    }
    // 2. Validity.
    if !cert.is_valid_at(time) {
        return Err(PathError::InvalidValidity);
    }
    let is_ee = i == 0;
    if !is_ee {
        // 3. BasicConstraints; 4. KeyUsage keyCertSign.
        ca_checks(cert, n, i)?;
    }
    // 6. Name constraints (only CA certs carry them).
    gather_constraints(cert, permitted, excluded);
    if !name_constraints_satisfied(cert, permitted.as_slice(), excluded.as_slice()) {
        return Err(PathError::NameConstraintViolation);
    }
    // 7. Policy acceptance.
    if !policy_acceptable(cert, is_ee) {
        return Err(PathError::PolicyViolation);
    }
    Ok(())
}

/// The BasicConstraints and KeyUsage checks of the CA certificate at
/// position `i` of a path of `n` certificates.
fn ca_checks(cert: &Certificate<'_>, n: usize, i: usize) -> (res: Result<(), PathError>)
    requires
        1 <= i < n,
    ensures
        res is Ok ==> spec_bc_accepts(cert.spec_tbs().extensions.spec_list(), n as int, i as int) && spec_ku_accepts(
            cert.spec_tbs().extensions.spec_list(),
        ),
        res == spec_ca_checks(cert.spec_tbs().extensions.spec_list(), n as int, i as int),
        res matches Err(e) ==> (e is BasicConstraintsViolation && !spec_bc_accepts(
            cert.spec_tbs().extensions.spec_list(),
            n as int,
            i as int,
        )) || (e is KeyUsageViolation && !spec_ku_accepts(cert.spec_tbs().extensions.spec_list())),
{
    let max_path = n - 1;
    match cert.tbs().extensions.basic_constraints() {
        Ok(Some(bc)) => {
            if !bc.ca {
                return Err(PathError::BasicConstraintsViolation);
            }
            if let Some(limit) = bc.path_len_constraint {
                // Remaining CA certs after this one (excluding the anchor).
                let remaining = if max_path > i { max_path - i } else { 0 };
                if (remaining as u64) > limit {
                    return Err(PathError::BasicConstraintsViolation);
                }
            }
        },
        _ => {
            return Err(PathError::BasicConstraintsViolation);
        },
    }
    if let Ok(Some(ku)) = cert.tbs().extensions.key_usage() {
        if !ku.is_set(key_usage_bit::KEY_CERT_SIGN) {
            return Err(PathError::KeyUsageViolation);
        }
    }
    Ok(())
}

/// Append the subtrees of `cert`'s NameConstraints extension (when present
/// and decodable) to `permitted` and `excluded`.
fn gather_constraints<'a>(cert: &Certificate<'a>, permitted: &mut Vec<GeneralSubtree<'a>>, excluded: &mut Vec<GeneralSubtree<'a>>)
    ensures
        final(permitted)@.map_values(|x: GeneralSubtree<'a>| x@) == old(permitted)@.map_values(|x: GeneralSubtree<'a>| x@)
            + spec_nc_of(*cert).0,
        final(excluded)@.map_values(|x: GeneralSubtree<'a>| x@) == old(excluded)@.map_values(|x: GeneralSubtree<'a>| x@)
            + spec_nc_of(*cert).1,
{
    let ghost p_before = permitted@;
    let ghost e_before = excluded@;
    if let Ok(Some(nc)) = cert.tbs().extensions.name_constraints() {
        let mut nc = nc;
        let ghost added = nc@;
        permitted.append(&mut nc.permitted);
        excluded.append(&mut nc.excluded);
        proof {
            assert(spec_nc_of(*cert) == added);
            assert(permitted@.map_values(|x: GeneralSubtree<'a>| x@) =~= p_before.map_values(|x: GeneralSubtree<'a>| x@) + added.0);
            assert(excluded@.map_values(|x: GeneralSubtree<'a>| x@) =~= e_before.map_values(|x: GeneralSubtree<'a>| x@) + added.1);
        }
    } else {
        proof {
            assert(p_before.map_values(|x: GeneralSubtree<'a>| x@) + spec_nc_of(*cert).0 =~= p_before.map_values(|x: GeneralSubtree<'a>| x@));
            assert(e_before.map_values(|x: GeneralSubtree<'a>| x@) + spec_nc_of(*cert).1 =~= e_before.map_values(|x: GeneralSubtree<'a>| x@));
        }
    }
}

/// Verify `cert`'s signature with the issuer key `issuer_key`; a backend
/// answer of "does not verify" is `InvalidSignature`.
fn verify_cert_signature<'a, V: SignatureVerifier>(
    cert: &'a Certificate<'a>,
    issuer_key: &SubjectPublicKeyInfo<'_>,
    verifier: &V,
) -> (res: Result<(), VerifyError>)
    ensures
        V::obeys_backend_spec() ==> res == spec_cert_signature_outcome(spec_link_answer(*verifier, *cert, *issuer_key)),
{
    let sig_alg_oid = cert.signature_algorithm().algorithm.as_bytes();
    let key_alg_oid = issuer_key.algorithm.algorithm.as_bytes();
    let public_key = issuer_key.subject_public_key.data;
    let message = cert.tbs_certificate_der();
    let signature = cert.signature_value().data;
    cert_signature_outcome(verifier.verify_signature(sig_alg_oid, key_alg_oid, public_key, message, signature))
}

/// The outcome of a backend answer to a certificate signature check: a
/// signature that does not verify is `InvalidSignature`, and a backend error
/// is passed on.
pub fn cert_signature_outcome(answer: core::result::Result<bool, VerifyError>) -> (res: Result<(), VerifyError>)
    ensures
        res == spec_cert_signature_outcome(answer),
{
    match answer {
        Ok(true) => Ok(()),
        Ok(false) => Err(VerifyError::InvalidSignature),
        Err(e) => Err(e),
    }
}

/// Simplified policy acceptance: `anyPolicy` is accepted by default; an explicit
/// policy set (no `anyPolicy`) requires the cert to assert a policy in the set.
fn policy_acceptable(cert: &Certificate<'_>, _is_ee: bool) -> (r: bool)
    ensures
        r == spec_policy_ok(*cert),
{
    let policies: Option<CertificatePolicies<'_>> = match cert.tbs().extensions.certificate_policies() {
        Ok(p) => p,
        Err(_) => None,
    };
    match policies {
        None => true,
        Some(p) => p.has_any_policy() || p.policies.len() != 0,
    }
}

/// Basic `NameConstraints` enforcement: the subject DN must be within a
/// permitted `directoryName` subtree (when present) and not within any excluded
/// subtree; SAN `dNSName` / `iPAddress` entries are likewise checked.
fn name_constraints_satisfied<'a>(cert: &Certificate<'a>, permitted: &[GeneralSubtree<'a>], excluded: &[GeneralSubtree<'a>]) -> (r: bool)
    ensures
        r == spec_nc_satisfied(*cert, permitted@.map_values(|x: GeneralSubtree<'a>| x@), excluded@.map_values(|x: GeneralSubtree<'a>| x@)),
{
    proof { reveal(spec_nc_satisfied); }
    let ghost pm = permitted@.map_values(|x: GeneralSubtree<'a>| x@);
    let ghost ex = excluded@.map_values(|x: GeneralSubtree<'a>| x@);
    // Excluded: reject immediately on match.
    let mut k: usize = 0;
    while k < excluded.len()
        invariant
            k <= excluded@.len(),
            ex == excluded@.map_values(|x: GeneralSubtree<'a>| x@),
            forall|kk: int| 0 <= kk < k ==> !spec_subtree_matches((#[trigger] ex[kk]).0, *cert),
        decreases excluded@.len() - k,
    {
        if subtree_matches(&excluded[k], cert) {
            assert(ex[k as int].0 == excluded@[k as int].base@);
            proof { reveal(spec_nc_satisfied); }
            return false;
        }
        k += 1;
    }
    // Permitted: when a subtree of a relevant type exists, the cert must match
    // at least one subtree.
    let mut has_dir = false;
    let mut has_dns = false;
    let mut has_ip = false;
    let mut any_match = false;
    let mut j: usize = 0;
    while j < permitted.len()
        invariant
            j <= permitted@.len(),
            pm == permitted@.map_values(|x: GeneralSubtree<'a>| x@),
            (has_dir || has_dns || has_ip) == exists|jj: int| 0 <= jj < j && spec_checked_kind((#[trigger] pm[jj]).0),
            any_match == exists|jj: int| 0 <= jj < j && spec_subtree_matches((#[trigger] pm[jj]).0, *cert),
        decreases permitted@.len() - j,
    {
        let ghost before = has_dir || has_dns || has_ip;
        match &permitted[j].base {
            GeneralName::DirectoryName(_) => {
                has_dir = true;
            },
            GeneralName::DnsName(_) => {
                has_dns = true;
            },
            GeneralName::IpAddress(_) => {
                has_ip = true;
            },
            _ => {},
        }
        assert(pm[j as int].0 == permitted@[j as int].base@);
        if subtree_matches(&permitted[j], cert) {
            any_match = true;
        }
        proof {
            assert forall|jj: int| 0 <= jj < j + 1 && spec_checked_kind((#[trigger] pm[jj]).0) implies (has_dir || has_dns || has_ip) by {
                if jj < j {
                    assert(before);
                }
            }
            if has_dir || has_dns || has_ip {
                if !before {
                    assert(spec_checked_kind(pm[j as int].0));
                }
            }
            if spec_subtree_matches(pm[j as int].0, *cert) {
                assert(any_match);
            }
        }
        j += 1;
    }
    if has_dir && !any_match {
        return false;
    }
    if (has_dns || has_ip) && !any_match {
        return false;
    }
    true
}

/// Whether `cert` falls inside the subtree `st`: its subject DN equals a
/// directoryName base; a SAN DNS name lies within a dNSName base; a SAN IP
/// address starts with an iPAddress base. Other bases never match.
fn subtree_matches<'a>(st: &GeneralSubtree<'a>, cert: &Certificate<'a>) -> (r: bool)
    ensures
        r == spec_subtree_matches(st.base@, *cert),
{
    match &st.base {
        GeneralName::DirectoryName(name) => {
            proof {
                cert.spec_tbs().subject.lemma_view_der();
                name.lemma_view_der();
            }
            cert.tbs().subject.der_eq(name)
        },
        GeneralName::DnsName(parent) => match san_entries(cert) {
            Some(names) => {
                let r = any_entry_within(&names, parent, true);
                proof { lemma_entries_view(names, spec_san(*cert)->Some_0); }
                r
            },
            None => false,
        },
        GeneralName::IpAddress(prefix) => match san_entries(cert) {
            Some(names) => {
                let r = any_entry_within(&names, prefix, false);
                proof { lemma_entries_view(names, spec_san(*cert)->Some_0); }
                r
            },
            None => false,
        },
        _ => false,
    }
}

/// The entries of `cert`'s subjectAltName extension, when it is present and
/// decodes.
fn san_entries<'a>(cert: &Certificate<'a>) -> (r: Option<Vec<GeneralName<'a>>>)
    ensures
        match r {
            Some(v) => spec_san(*cert) == Some(v@.map_values(|g: GeneralName<'a>| g@)),
            None => spec_san(*cert) is None,
        },
{
    match cert.tbs().extensions.subject_alt_name() {
        Ok(Some(san)) => Some(san.names),
        _ => None,
    }
}

/// A sequence of names and its view agree entry by entry.
proof fn lemma_entries_view<'a>(names: Vec<GeneralName<'a>>, view: Seq<GeneralNameView>)
    requires
        view == names@.map_values(|g: GeneralName<'a>| g@),
    ensures
        view.len() == names@.len(),
        forall|k: int| #![trigger view[k]] #![trigger names@[k]] 0 <= k < view.len() ==> view[k] == names@[k]@,
{
}

/// Whether some entry of `names` is a DNS name within `base` (when `dns`)
/// or an address within the prefix `base` (otherwise).
fn any_entry_within(names: &Vec<GeneralName<'_>>, base: &[u8], dns: bool) -> (r: bool)
    ensures
        dns ==> r == exists|k: int| 0 <= k < names@.len() && spec_dns_entry_within(#[trigger] names@[k]@, base@),
        !dns ==> r == exists|k: int| 0 <= k < names@.len() && spec_ip_entry_within(#[trigger] names@[k]@, base@),
{
    let mut i: usize = 0;
    while i < names.len()
        invariant
            i <= names@.len(),
            dns ==> forall|j: int| 0 <= j < i ==> !spec_dns_entry_within(#[trigger] names@[j]@, base@),
            !dns ==> forall|j: int| 0 <= j < i ==> !spec_ip_entry_within(#[trigger] names@[j]@, base@),
        decreases names@.len() - i,
    {
        match &names[i] {
            GeneralName::DnsName(d) => {
                if dns && dns_within(d, base) {
                    assert(spec_dns_entry_within(names@[i as int]@, base@));
                    return true;
                }
            },
            GeneralName::IpAddress(a) => {
                if !dns && ip_within(a, base) {
                    assert(spec_ip_entry_within(names@[i as int]@, base@));
                    return true;
                }
            },
            _ => {},
        }
        i += 1;
    }
    false
}

/// The subjectAltName entries of `c`, when that extension is present and
/// its value decodes.
pub open spec fn spec_san(c: Certificate) -> Option<Seq<GeneralNameView>> {
    let exts = c.spec_tbs().extensions.spec_list();
    if spec_first_ext(exts, ext::SUBJECT_ALT_NAME@) is Some {
        match spec_general_names_value(spec_ext_value(exts, ext::SUBJECT_ALT_NAME@)) {
            Ok(v) => Some(v),
            Err(_) => None,
        }
    } else {
        None
    }
}

/// `c` falls inside a subtree with base `base`: its subject DER equals a
/// directoryName base; one of its SAN DNS names lies within a dNSName base;
/// one of its SAN addresses lies within an iPAddress base. Other bases never
/// match.
pub open spec fn spec_subtree_matches(base: GeneralNameView, c: Certificate) -> bool {
    match base {
        GeneralNameView::DirectoryName(n) => c.spec_tbs().subject@.1 == n.1,
        GeneralNameView::DnsName(parent) => match spec_san(c) {
            Some(names) => exists|i: int| 0 <= i < names.len() && spec_dns_entry_within(#[trigger] names[i], parent),
            None => false,
        },
        GeneralNameView::IpAddress(prefix) => match spec_san(c) {
            Some(names) => exists|i: int| 0 <= i < names.len() && spec_ip_entry_within(#[trigger] names[i], prefix),
            None => false,
        },
        _ => false,
    }
}

/// A SAN entry that is a DNS name within `parent`.
pub open spec fn spec_dns_entry_within(g: GeneralNameView, parent: Seq<u8>) -> bool {
    match g {
        GeneralNameView::DnsName(d) => spec_dns_within(d, parent),
        _ => false,
    }
}

/// A SAN entry that is an address within the prefix `prefix`.
pub open spec fn spec_ip_entry_within(g: GeneralNameView, prefix: Seq<u8>) -> bool {
    match g {
        GeneralNameView::IpAddress(a) => spec_ip_within(a, prefix),
        _ => false,
    }
}

/// A base of one of the kinds that name constraints are checked for.
pub open spec fn spec_checked_kind(base: GeneralNameView) -> bool {
    base is DirectoryName || base is DnsName || base is IpAddress
}

/// `c` satisfies the constraints `permitted` / `excluded`: it matches no
/// excluded subtree, and, when a permitted subtree of a checked kind exists,
/// it matches some permitted subtree.
#[verifier::opaque]
pub open spec fn spec_nc_satisfied(c: Certificate, permitted: Seq<SubtreeView>, excluded: Seq<SubtreeView>) -> bool {
    &&& forall|k: int| 0 <= k < excluded.len() ==> !spec_subtree_matches((#[trigger] excluded[k]).0, c)
    &&& (exists|j: int| 0 <= j < permitted.len() && spec_checked_kind((#[trigger] permitted[j]).0)) ==> exists|j: int|
        0 <= j < permitted.len() && spec_subtree_matches((#[trigger] permitted[j]).0, c)
}

/// The subtrees that `c`'s NameConstraints extension adds (none when the
/// extension is absent or does not decode).
pub open spec fn spec_nc_of(c: Certificate) -> (Seq<SubtreeView>, Seq<SubtreeView>) {
    let exts = c.spec_tbs().extensions.spec_list();
    if spec_first_ext(exts, ext::NAME_CONSTRAINTS@) is Some {
        match spec_nc_value(spec_ext_value(exts, ext::NAME_CONSTRAINTS@)) {
            Ok(v) => v,
            Err(_) => (Seq::empty(), Seq::empty()),
        }
    } else {
        (Seq::empty(), Seq::empty())
    }
}

/// The permitted subtrees gathered from the first `i` certificates of a path.
pub open spec fn spec_permitted_upto(certs: Seq<&Certificate>, i: int) -> Seq<SubtreeView>
    decreases i,
{
    if i <= 0 {
        Seq::empty()
    } else {
        spec_permitted_upto(certs, i - 1) + spec_nc_of(*certs[i - 1]).0
    }
}

/// The excluded subtrees gathered from the first `i` certificates of a path.
pub open spec fn spec_excluded_upto(certs: Seq<&Certificate>, i: int) -> Seq<SubtreeView>
    decreases i,
{
    if i <= 0 {
        Seq::empty()
    } else {
        spec_excluded_upto(certs, i - 1) + spec_nc_of(*certs[i - 1]).1
    }
}

/// The policy check: when `c` has a CertificatePolicies extension that
/// decodes, it names at least one policy.
pub open spec fn spec_policy_ok(c: Certificate) -> bool {
    let exts = c.spec_tbs().extensions.spec_list();
    spec_first_ext(exts, ext::CERTIFICATE_POLICIES@) is Some ==> match spec_policies_value(
        spec_ext_value(exts, ext::CERTIFICATE_POLICIES@),
    ) {
        Ok(ps) => ps.len() != 0,
        Err(_) => true,
    }
}

/// The DNS name `child` lies within `parent`: it equals it, or ends with a
/// dot followed by it.
pub open spec fn spec_dns_within(child: Seq<u8>, parent: Seq<u8>) -> bool {
    ||| child == parent
    ||| (child.len() >= parent.len() + 2 && child[child.len() - parent.len() - 1] == 0x2e
        && child.subrange(child.len() - parent.len(), child.len() as int) == parent)
}

/// Law (DNS subtrees end at a label boundary): a name lies within itself;
/// a name made of labels, a dot and `parent` lies within `parent`; and a name
/// that only ends with the bytes of `parent`, the byte before them not being
/// a dot, does not.
pub proof fn lemma_dns_within_label_boundary(parent: Seq<u8>, label: Seq<u8>)
    requires
        label.len() >= 1,
    ensures
        spec_dns_within(parent, parent),
        spec_dns_within(label + seq![0x2eu8] + parent, parent),
        label.last() != 0x2e ==> !spec_dns_within(label + parent, parent),
{
    let c = label + seq![0x2eu8] + parent;
    assert(c.subrange(c.len() - parent.len(), c.len() as int) =~= parent);
    assert(c[c.len() - parent.len() - 1] == 0x2e);
    let e = label + parent;
    assert(e.len() > parent.len());
    assert(e != parent);
    assert(e[e.len() - parent.len() - 1] == label.last());
}

/// Whether the DNS name `child` lies within `parent`.
pub fn dns_within(child: &[u8], parent: &[u8]) -> (r: bool)
    ensures
        r == spec_dns_within(child@, parent@),
{
    // child is within parent if it equals parent or ends with "." + parent.
    if child.len() < parent.len() {
        return false;
    }
    if bytes_eq(child, parent) {
        return true;
    }
    let off = child.len() - parent.len();
    if off < 2 {
        return false;
    }
    child[off - 1] == 0x2e && bytes_eq(&child[off..child.len()], parent)
}

/// The address `child` starts with the address prefix `parent`, compared
/// over the length of the shorter of the two.
pub open spec fn spec_ip_within(child: Seq<u8>, parent: Seq<u8>) -> bool {
    let common = if child.len() < parent.len() { child.len() } else { parent.len() };
    child.subrange(0, common as int) == parent.subrange(0, common as int)
}

/// Law (address prefixes compare leading bytes): an address that starts
/// with the bytes of `prefix` lies within it, and one that differs from it at
/// a byte both have does not.
pub proof fn lemma_ip_within_leading_bytes(prefix: Seq<u8>, rest: Seq<u8>, addr: Seq<u8>, i: int)
    ensures
        spec_ip_within(prefix + rest, prefix),
        0 <= i < addr.len() && i < prefix.len() && addr[i] != prefix[i] ==> !spec_ip_within(addr, prefix),
{
    assert((prefix + rest).subrange(0, prefix.len() as int) =~= prefix.subrange(0, prefix.len() as int));
    if 0 <= i < addr.len() && i < prefix.len() && addr[i] != prefix[i] {
        let common = if addr.len() < prefix.len() { addr.len() } else { prefix.len() };
        assert(addr.subrange(0, common as int)[i] != prefix.subrange(0, common as int)[i]);
    }
}

/// Whether the address `child` lies within the prefix `parent`.
pub fn ip_within(child: &[u8], parent: &[u8]) -> (r: bool)
    ensures
        r == spec_ip_within(child@, parent@),
{
    // Treat as CIDR-style prefix match over the leading bytes of the address.
    let common = if child.len() < parent.len() { child.len() } else { parent.len() };
    bytes_eq(&child[0..common], &parent[0..common])
}

} // verus!
