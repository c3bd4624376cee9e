//! Minimal OCSP request / response parsing and matching (RFC 6960).
//!
//! This module *parses* OCSP structures and lets a caller match a `CertID`
//! to a `SingleResponse`. It does **not** fetch responses or perform the
//! signature verification itself — that is delegated to the
//! [`SignatureVerifier`](crate::x509::verify::SignatureVerifier) backend via
//! the `tbsResponseData` bytes exposed here.

use crate::asn1::any::{spec_any_at, Any};
use crate::asn1::decode::{
    decoded, enter, finish, lemma_expect_tlv_progress, lemma_items_step, list_result, spec_items_from, spec_nested_at, spec_prepend,
    spec_prim_at, Decode,
};
use crate::asn1::error::{Error, Result};
use crate::asn1::reader::{spec_default_config, Config, EncodingRule, Reader};
use crate::asn1::tag::{spec_context, spec_decode_tag, spec_universal, spec_universal_constructed, Tag};
use crate::asn1::types::{
    spec_as_i64, spec_as_u64, spec_integer_content, spec_oid_arcs, spec_oid_content, Enumerated, Integer, ObjectIdentifier, OctetString,
};
use crate::asn1::util::bytes_eq;
use crate::x509::algorithm::{spec_alg_id_at, AlgorithmIdentifier, AlgorithmView};
use crate::x509::crl::spec_next_tag_is;
use crate::x509::oid::{oid_eq_bytes, pkix};
use crate::x509::time::{spec_time_at, Time};
use vstd::prelude::*;

verus! {

broadcast use crate::asn1::reader::Reader::lemma_nonneg;

/// An OCSP `CertID` — identifies a cert by issuer name/key hashes + serial.
#[derive(Clone, Copy, Debug, PartialEq, Eq)]
pub struct CertId<'a> {
    /// The hash algorithm used for the name/key hashes.
    pub hash_algorithm: AlgorithmIdentifier<'a>,
    /// Hash of the issuer's DN.
    pub issuer_name_hash: &'a [u8],
    /// Hash of the issuer's public key.
    pub issuer_key_hash: &'a [u8],
    /// The target certificate's serial number.
    pub serial_number: Integer<'a>,
}

/// A `CertID` as values: hash algorithm, name hash, key hash, serial.
pub type CertIdView = (AlgorithmView, Seq<u8>, Seq<u8>, Seq<u8>);

impl<'a> View for CertId<'a> {
    type V = CertIdView;

    open spec fn view(&self) -> CertIdView {
        (self.hash_algorithm@, self.issuer_name_hash@, self.issuer_key_hash@, self.serial_number.0@)
    }
}

/// The content of a `CertID` SEQUENCE read at nesting `depth`: the hash
/// algorithm, two OCTET STRINGs, the serial INTEGER, and nothing after them.
pub open spec fn spec_cert_id_body(c: Seq<u8>, config: Config, depth: int) -> Result<CertIdView> {
    match spec_alg_id_at(c, 0, config, depth) {
        Err(e) => Err(e),
        Ok((alg, p1)) => match spec_prim_at(c, p1, config, spec_universal(4), |b: Seq<u8>| Ok::<Seq<u8>, Error>(b)) {
            Err(e) => Err(e),
            Ok((nh, p2)) => match spec_prim_at(c, p2, config, spec_universal(4), |b: Seq<u8>| Ok::<Seq<u8>, Error>(b)) {
                Err(e) => Err(e),
                Ok((kh, p3)) => match spec_prim_at(c, p3, config, spec_universal(2), |b: Seq<u8>| spec_integer_content(b, config.rule)) {
                    Err(e) => Err(e),
                    Ok((sn, p4)) => if p4 < c.len() {
                        Err(Error::TrailingData)
                    } else {
                        Ok((alg, nh, kh, sn))
                    },
                },
            },
        },
    }
}

/// The `CertID` at `pos` of `s`, met at nesting `depth`.
#[verifier::opaque]
pub open spec fn spec_cert_id_at(s: Seq<u8>, pos: int, config: Config, depth: int) -> Result<(CertIdView, int)> {
    spec_nested_at(s, pos, config, depth, spec_universal_constructed(16), |c: Seq<u8>, d: int| spec_cert_id_body(c, config, d))
}

impl<'a> CertId<'a> {
    /// The serial number as raw bytes.
    pub fn serial_number_bytes(&self) -> (b: &'a [u8])
        ensures
            b@ == self.serial_number.0@,
    {
        self.serial_number.as_bytes()
    }
}

impl<'a> Decode<'a> for CertId<'a> {
    open spec fn spec_decode(s: Seq<u8>, pos: int, config: crate::asn1::reader::Config, depth: int) -> crate::asn1::error::Result<(<Self as View>::V, int)> {
        spec_cert_id_at(s, pos, config, depth)
    }

    fn decode(r: &mut Reader<'a>) -> (res: Result<Self>)
        ensures
            decoded(*old(r), *final(r), res, spec_cert_id_at(old(r).spec_input(), old(r).spec_pos(), old(r).spec_config(), old(r).spec_depth())),
    {
        proof {
            reveal(spec_cert_id_at);
            lemma_expect_tlv_progress(r.spec_input(), r.spec_pos(), r.spec_config(), spec_universal_constructed(16));
        }
        let mut inner = enter(r, Tag::universal_constructed(Tag::SEQUENCE))?;
        let hash_algorithm = AlgorithmIdentifier::decode(&mut inner)?;
        let issuer_name_hash = OctetString::decode(&mut inner)?.0;
        let issuer_key_hash = OctetString::decode(&mut inner)?.0;
        let serial_number = Integer::decode(&mut inner)?;
        finish(&inner)?;
        Ok(CertId { hash_algorithm, issuer_name_hash, issuer_key_hash, serial_number })
    }
}

/// An OCSP `Request` (one `CertID`).
#[derive(Clone, Copy, Debug, PartialEq, Eq)]
pub struct Request<'a> {
    /// The requested certificate ID.
    pub req_cert: CertId<'a>,
}

impl<'a> View for Request<'a> {
    /// The requested certificate ID.
    type V = CertIdView;

    open spec fn view(&self) -> CertIdView {
        self.req_cert@
    }
}

/// The content of a `Request` SEQUENCE read at nesting `depth`: one
/// `CertID` and nothing after it.
pub open spec fn spec_request_body(c: Seq<u8>, config: Config, depth: int) -> Result<CertIdView> {
    match spec_cert_id_at(c, 0, config, depth) {
        Err(e) => Err(e),
        Ok((cid, p)) => if p < c.len() {
            Err(Error::TrailingData)
        } else {
            Ok(cid)
        },
    }
}

/// Reading one `Request` of a request list, from the top level.
pub open spec fn spec_request_item(config: Config) -> spec_fn(Seq<u8>, int) -> Result<(CertIdView, int)> {
    |s: Seq<u8>, p: int| spec_nested_at(s, p, config, 0, spec_universal_constructed(16), |c: Seq<u8>, d: int| spec_request_body(c, config, d))
}

impl<'a> Decode<'a> for Request<'a> {
    open spec fn spec_decode(s: Seq<u8>, pos: int, config: crate::asn1::reader::Config, depth: int) -> crate::asn1::error::Result<(<Self as View>::V, int)> {
        spec_nested_at(
            s,
            pos,
            config,
            depth,
            spec_universal_constructed(16),
            |c: Seq<u8>, d: int| spec_request_body(c, config, d),
        )
    }

    fn decode(r: &mut Reader<'a>) -> (res: Result<Self>)
    {
        proof { lemma_expect_tlv_progress(r.spec_input(), r.spec_pos(), r.spec_config(), spec_universal_constructed(16)); }
        let mut inner = enter(r, Tag::universal_constructed(Tag::SEQUENCE))?;
        let req_cert = CertId::decode(&mut inner)?;
        finish(&inner)?;
        Ok(Request { req_cert })
    }
}

/// An OCSP `TBSRequest`.
#[derive(Clone, Debug, PartialEq, Eq)]
pub struct TbsRequest<'a> {
    /// The requested certificate IDs.
    pub requests: Vec<Request<'a>>,
}

impl<'a> View for TbsRequest<'a> {
    /// The requested certificate IDs.
    type V = Seq<CertIdView>;

    open spec fn view(&self) -> Seq<CertIdView> {
        self.requests@.map_values(|q: Request<'a>| q@)
    }
}

/// The offset after the optional `[0]` version and `[1]` requestor name
/// that start at `q` of `c`.
pub open spec fn spec_skip_request_header(c: Seq<u8>, q: int, config: Config) -> Result<int>
    decreases c.len() - q,
{
    if q >= 0 && (spec_next_tag_is(c, q, spec_context(false, 0)) || spec_next_tag_is(c, q, spec_context(true, 1))) {
        match spec_any_at(c, q, config) {
            Err(e) => Err(e),
            Ok((_, n)) => if q < n <= c.len() {
                spec_skip_request_header(c, n, config)
            } else {
                Ok(n)
            },
        }
    } else {
        Ok(q)
    }
}

/// The content of a `TBSRequest` SEQUENCE: the optional header, then the
/// element whose value holds the requests (read from the top level), and
/// nothing after it.
pub open spec fn spec_tbs_request_body(c: Seq<u8>, config: Config) -> Result<Seq<CertIdView>> {
    match spec_skip_request_header(c, 0, config) {
        Err(e) => Err(e),
        Ok(q) => match spec_any_at(c, q, config) {
            Err(e) => Err(e),
            Ok((ra, q2)) => match spec_items_from(ra.2, 0, spec_request_item(config)) {
                Err(e) => Err(e),
                Ok(reqs) => if q2 < c.len() {
                    Err(Error::TrailingData)
                } else {
                    Ok(reqs)
                },
            },
        },
    }
}

/// The `TBSRequest` at `pos` of `s`, met at nesting `depth`.
#[verifier::opaque]
pub open spec fn spec_tbs_request_at(s: Seq<u8>, pos: int, config: Config, depth: int) -> Result<(Seq<CertIdView>, int)> {
    spec_nested_at(s, pos, config, depth, spec_universal_constructed(16), |c: Seq<u8>, d: int| spec_tbs_request_body(c, config))
}

/// Whether the next tag of `r` is `t` (false when no tag can be read).
fn next_tag_is(r: &Reader<'_>, t: Tag) -> (b: bool)
    ensures
        b == spec_next_tag_is(r.spec_input(), r.spec_pos(), t),
{
    match r.peek_tag() {
        Ok(x) => x == t,
        Err(_) => false,
    }
}

impl<'a> Decode<'a> for TbsRequest<'a> {
    open spec fn spec_decode(s: Seq<u8>, pos: int, config: crate::asn1::reader::Config, depth: int) -> crate::asn1::error::Result<(<Self as View>::V, int)> {
        spec_tbs_request_at(s, pos, config, depth)
    }

    fn decode(r: &mut Reader<'a>) -> (res: Result<Self>)
        ensures
            decoded(*old(r), *final(r), res, spec_tbs_request_at(old(r).spec_input(), old(r).spec_pos(), old(r).spec_config(), old(r).spec_depth())),
    {
        proof {
            reveal(spec_tbs_request_at);
            lemma_expect_tlv_progress(r.spec_input(), r.spec_pos(), r.spec_config(), spec_universal_constructed(16));
        }
        let mut inner = enter(r, Tag::universal_constructed(Tag::SEQUENCE))?;
        // Skip optional version [0] and requestorName [1].
        skip_request_header(&mut inner)?;
        proof { crate::asn1::reader::lemma_read_tlv_bounds(inner.spec_input(), inner.spec_pos(), inner.spec_config()); }
        let req_any = Any::decode(&mut inner)?;
        let requests = decode_requests(req_any.value, *inner.config())?;
        finish(&inner)?;
        Ok(TbsRequest { requests })
    }
}

/// Skip the optional `[0]` version and `[1]` requestor name.
fn skip_request_header(r: &mut Reader<'_>) -> (res: Result<()>)
    ensures
        final(r).same_source(*old(r)),
        match spec_skip_request_header(old(r).spec_input(), old(r).spec_pos(), old(r).spec_config()) {
            Ok(q) => res is Ok && final(r).spec_pos() == q,
            Err(e) => res == Err::<(), Error>(e),
        },
{
    let ghost s = r.spec_input();
    let ghost config = r.spec_config();
    let ghost start = r.spec_pos();
    while next_tag_is(r, Tag::context(false, 0)) || next_tag_is(r, Tag::context(true, 1))
        invariant
            r.same_source(*old(r)),
            s == r.spec_input(),
            config == r.spec_config(),
            start == old(r).spec_pos(),
            spec_skip_request_header(s, r.spec_pos(), config) == spec_skip_request_header(s, start, config),
        decreases r.spec_input().len() - r.spec_pos(),
    {
        proof { crate::asn1::reader::lemma_read_tlv_bounds(r.spec_input(), r.spec_pos(), r.spec_config()); }
        Any::decode(r)?;
    }
    Ok(())
}

/// Read the `Request`s of the value `content`, from the top level.
fn decode_requests<'a>(content: &'a [u8], config: Config) -> (res: Result<Vec<Request<'a>>>)
    ensures
        list_result(res, spec_items_from(content@, 0, spec_request_item(config))),
{
    let mut reqs = Reader::new(content, config);
    let ghost s = content@;
    let mut requests: Vec<Request<'a>> = Vec::new();
    assert(spec_prepend(requests@.map_values(|x: Request<'a>| x@), spec_items_from(s, 0, spec_request_item(config)))
        =~= spec_items_from(s, 0, spec_request_item(config)));
    while !reqs.is_empty()
        invariant
            reqs.spec_input() == s,
            s == content@,
            reqs.spec_config() == config,
            reqs.spec_depth() == 0,
            spec_prepend(requests@.map_values(|x: Request<'a>| x@), spec_items_from(s, reqs.spec_pos(), spec_request_item(config)))
                == spec_items_from(s, 0, spec_request_item(config)),
        decreases reqs.spec_input().len() - reqs.spec_pos(),
    {
        let ghost p = reqs.spec_pos();
        let ghost before = requests@.map_values(|x: Request<'a>| x@);
        let q = Request::decode(&mut reqs)?;
        proof { lemma_items_step::<CertIdView, Error>(s, p, spec_request_item(config), before, q@, reqs.spec_pos()); }
        requests.push(q);
        assert(requests@.map_values(|x: Request<'a>| x@) =~= before.push(q@));
    }
    let ghost fin = requests@.map_values(|x: Request<'a>| x@);
    assert(fin + Seq::<CertIdView>::empty() =~= fin);
    Ok(requests)
}

/// An OCSP `OCSPRequest`.
#[derive(Clone, Debug, PartialEq, Eq)]
pub struct OcspRequest<'a> {
    /// The to-be-signed request.
    pub tbs_request: TbsRequest<'a>,
}

impl<'a> View for OcspRequest<'a> {
    /// The requested certificate IDs.
    type V = Seq<CertIdView>;

    open spec fn view(&self) -> Seq<CertIdView> {
        self.tbs_request@
    }
}

/// The content of an `OCSPRequest` SEQUENCE read at nesting `depth`: the
/// `TBSRequest` and nothing after it.
pub open spec fn spec_ocsp_request_body(c: Seq<u8>, config: Config, depth: int) -> Result<Seq<CertIdView>> {
    match spec_tbs_request_at(c, 0, config, depth) {
        Err(e) => Err(e),
        Ok((t, p)) => if p < c.len() {
            Err(Error::TrailingData)
        } else {
            Ok(t)
        },
    }
}

impl<'a> Decode<'a> for OcspRequest<'a> {
    open spec fn spec_decode(s: Seq<u8>, pos: int, config: crate::asn1::reader::Config, depth: int) -> crate::asn1::error::Result<(<Self as View>::V, int)> {
        spec_nested_at(
            s,
            pos,
            config,
            depth,
            spec_universal_constructed(16),
            |c: Seq<u8>, d: int| spec_ocsp_request_body(c, config, d),
        )
    }

    fn decode(r: &mut Reader<'a>) -> (res: Result<Self>)
    {
        proof { lemma_expect_tlv_progress(r.spec_input(), r.spec_pos(), r.spec_config(), spec_universal_constructed(16)); }
        let mut inner = enter(r, Tag::universal_constructed(Tag::SEQUENCE))?;
        let tbs_request = TbsRequest::decode(&mut inner)?;
        finish(&inner)?;
        Ok(OcspRequest { tbs_request })
    }
}

/// OCSP `CertStatus` — `CHOICE { good, revoked, unknown }`.
#[derive(Clone, Copy, Debug, PartialEq, Eq)]
pub enum CertStatus<'a> {
    /// The certificate is not revoked.
    Good,
    /// The certificate has been revoked.
    Revoked {
        /// The revocation time.
        revocation_time: Time<'a>,
        /// The revocation reason, if present.
        reason: Option<u8>,
    },
    /// The responder does not know the status.
    Unknown,
}

/// A `CertStatus` as values.
pub ghost enum CertStatusView {
    /// Not revoked.
    Good,
    /// Revoked at the time, with the reason if given.
    Revoked((bool, Seq<u8>), Option<u8>),
    /// Unknown.
    Unknown,
}

impl<'a> View for CertStatus<'a> {
    type V = CertStatusView;

    open spec fn view(&self) -> CertStatusView {
        match *self {
            CertStatus::Good => CertStatusView::Good,
            CertStatus::Revoked { revocation_time, reason } => CertStatusView::Revoked(revocation_time@, reason),
            CertStatus::Unknown => CertStatusView::Unknown,
        }
    }
}

/// The `CertStatus` at `pos` of `s`: `[0]` good, `[1]` revoked (its value
/// holds the time and an optional reason INTEGER, whose low byte is kept),
/// `[2]` unknown; and the offset after it.
pub open spec fn spec_cert_status_at(s: Seq<u8>, pos: int, config: Config) -> Result<(CertStatusView, int)> {
    match spec_any_at(s, pos, config) {
        Err(e) => Err(e),
        Ok((a, n)) => if a.0 == spec_context(false, 0) {
            Ok((CertStatusView::Good, n))
        } else if a.0 == spec_context(true, 1) {
            match spec_time_at(a.2, 0, config) {
                Err(e) => Err(e),
                Ok((t, q)) => if q < a.2.len() {
                    match spec_prim_at(a.2, q, config, spec_universal(2), |b: Seq<u8>| spec_integer_content(b, config.rule)) {
                        Err(e) => Err(e),
                        Ok((ib, _)) => match spec_as_u64(ib) {
                            None => Err(Error::Custom("revocation reason too large")),
                            Some(v) => Ok((CertStatusView::Revoked(t, Some(v as u8)), n)),
                        },
                    }
                } else {
                    Ok((CertStatusView::Revoked(t, None), n))
                },
            }
        } else if a.0 == spec_context(false, 2) {
            Ok((CertStatusView::Unknown, n))
        } else {
            Err(Error::UnexpectedTag { expected: spec_context(false, 0), actual: a.0 })
        },
    }
}

impl<'a> Decode<'a> for CertStatus<'a> {
    open spec fn spec_decode(s: Seq<u8>, pos: int, config: crate::asn1::reader::Config, depth: int) -> crate::asn1::error::Result<(<Self as View>::V, int)> {
        spec_cert_status_at(s, pos, config)
    }

    fn decode(r: &mut Reader<'a>) -> (res: Result<Self>)
        ensures
            decoded(*old(r), *final(r), res, spec_cert_status_at(old(r).spec_input(), old(r).spec_pos(), old(r).spec_config())),
            match spec_any_at(old(r).spec_input(), old(r).spec_pos(), old(r).spec_config()) {
                Ok((a, n)) => {
                    &&& final(r).spec_pos() == n
                    &&& a.0 == spec_context(false, 0) ==> res == Ok::<Self, Error>(CertStatus::Good)
                    &&& a.0 == spec_context(false, 2) ==> res == Ok::<Self, Error>(CertStatus::Unknown)
                    &&& a.0 == spec_context(true, 1) ==> res is Err || res->Ok_0 is Revoked
                    &&& !(a.0 == spec_context(false, 0) || a.0 == spec_context(false, 2) || a.0 == spec_context(true, 1))
                        ==> res == Err::<Self, Error>(Error::UnexpectedTag { expected: spec_context(false, 0), actual: a.0 })
                },
                Err(e) => res == Err::<Self, Error>(e),
            },
    {
        proof { crate::asn1::reader::lemma_read_tlv_bounds(r.spec_input(), r.spec_pos(), r.spec_config()); }
        let any = Any::decode(r)?;
        let t = any.tag;
        if t == Tag::context(false, 0) {
            Ok(CertStatus::Good)
        } else if t == Tag::context(true, 1) {
            let mut sub = Reader::new(any.value, *r.config());
            let revocation_time = Time::decode(&mut sub)?;
            let reason = if !sub.is_empty() {
                match Integer::decode(&mut sub)?.as_u64() {
                    Some(v) => Some(v as u8),
                    None => {
                        return Err(Error::Custom("revocation reason too large"));
                    },
                }
            } else {
                None
            };
            Ok(CertStatus::Revoked { revocation_time, reason })
        } else if t == Tag::context(false, 2) {
            Ok(CertStatus::Unknown)
        } else {
            Err(Error::UnexpectedTag { expected: Tag::context(false, 0), actual: t })
        }
    }
}

/// A `SingleResponse` in a `BasicOCSPResponse`.
#[derive(Clone, Copy, Debug, PartialEq, Eq)]
pub struct SingleResponse<'a> {
    /// The cert this response is about.
    pub cert_id: CertId<'a>,
    /// Its status.
    pub cert_status: CertStatus<'a>,
    /// `thisUpdate` time.
    pub this_update: Time<'a>,
}

/// A `SingleResponse` as values.
pub type SingleResponseView = (CertIdView, CertStatusView, (bool, Seq<u8>));

impl<'a> View for SingleResponse<'a> {
    type V = SingleResponseView;

    open spec fn view(&self) -> SingleResponseView {
        (self.cert_id@, self.cert_status@, self.this_update@)
    }
}

/// The content of a `SingleResponse` SEQUENCE read at nesting `depth`: the
/// `CertID`, the status, `thisUpdate`, and nothing after them.
pub open spec fn spec_single_body(c: Seq<u8>, config: Config, depth: int) -> Result<SingleResponseView> {
    match spec_cert_id_at(c, 0, config, depth) {
        Err(e) => Err(e),
        Ok((cid, p1)) => match spec_cert_status_at(c, p1, config) {
            Err(e) => Err(e),
            Ok((st, p2)) => match spec_time_at(c, p2, config) {
                Err(e) => Err(e),
                Ok((tu, p3)) => if p3 < c.len() {
                    Err(Error::TrailingData)
                } else {
                    Ok((cid, st, tu))
                },
            },
        },
    }
}

/// The `SingleResponse` at `pos` of `s`, met at nesting `depth`.
#[verifier::opaque]
pub open spec fn spec_single_at(s: Seq<u8>, pos: int, config: Config, depth: int) -> Result<(SingleResponseView, int)> {
    spec_nested_at(s, pos, config, depth, spec_universal_constructed(16), |c: Seq<u8>, d: int| spec_single_body(c, config, d))
}

/// Reading one `SingleResponse` of a response list, from the top level.
pub open spec fn spec_single_item(config: Config) -> spec_fn(Seq<u8>, int) -> Result<(SingleResponseView, int)> {
    |s: Seq<u8>, p: int| spec_single_at(s, p, config, 0)
}

impl<'a> SingleResponse<'a> {
    /// Returns `true` if this response is about the certificate with the
    /// serial number `serial` (raw bytes).
    pub fn matches_serial(&self, serial: &[u8]) -> (r: bool)
        ensures
            r == (self.cert_id.serial_number.0@ == serial@),
    {
        bytes_eq(self.cert_id.serial_number_bytes(), serial)
    }
}

impl<'a> Decode<'a> for SingleResponse<'a> {
    open spec fn spec_decode(s: Seq<u8>, pos: int, config: crate::asn1::reader::Config, depth: int) -> crate::asn1::error::Result<(<Self as View>::V, int)> {
        spec_single_at(s, pos, config, depth)
    }

    fn decode(r: &mut Reader<'a>) -> (res: Result<Self>)
        ensures
            decoded(*old(r), *final(r), res, spec_single_at(old(r).spec_input(), old(r).spec_pos(), old(r).spec_config(), old(r).spec_depth())),
    {
        proof {
            reveal(spec_single_at);
            lemma_expect_tlv_progress(r.spec_input(), r.spec_pos(), r.spec_config(), spec_universal_constructed(16));
        }
        let mut inner = enter(r, Tag::universal_constructed(Tag::SEQUENCE))?;
        let cert_id = CertId::decode(&mut inner)?;
        let cert_status = CertStatus::decode(&mut inner)?;
        let this_update = Time::decode(&mut inner)?;
        finish(&inner)?;
        Ok(SingleResponse { cert_id, cert_status, this_update })
    }
}

/// A `BasicOCSPResponse`.
#[derive(Clone, Debug, PartialEq, Eq)]
pub struct BasicOcspResponse<'a> {
    /// The raw DER of `tbsResponseData` (for signature verification).
    pub tbs_response_data_der: &'a [u8],
    /// The responder's signature algorithm.
    pub signature_algorithm: AlgorithmIdentifier<'a>,
    /// The signature value.
    pub signature: &'a [u8],
    /// The contained `SingleResponse`s.
    pub responses: Vec<SingleResponse<'a>>,
}

/// A `BasicOCSPResponse` as values: the whole `tbsResponseData`, the
/// signature algorithm, the signature bytes, and the responses.
pub type BasicResponseView = (Seq<u8>, AlgorithmView, Seq<u8>, Seq<SingleResponseView>);

impl<'a> View for BasicOcspResponse<'a> {
    type V = BasicResponseView;

    open spec fn view(&self) -> BasicResponseView {
        (
            self.tbs_response_data_der@,
            self.signature_algorithm@,
            self.signature@,
            self.responses@.map_values(|x: SingleResponse<'a>| x@),
        )
    }
}

/// The responses of a `tbsResponseData` value `t` (read from the top
/// level): after the optional `[0]` version, the responder and
/// `producedAt`, the element whose value holds the responses.
pub open spec fn spec_response_data(t: Seq<u8>, config: Config) -> Result<Seq<SingleResponseView>> {
    let v: Result<int> = if spec_next_tag_is(t, 0, spec_context(false, 0)) {
        match spec_any_at(t, 0, config) {
            Err(e) => Err(e),
            Ok((_, q)) => Ok(q),
        }
    } else {
        Ok(0)
    };
    match v {
        Err(e) => Err(e),
        Ok(q0) => match spec_any_at(t, q0, config) {
            Err(e) => Err(e),
            Ok((_, q1)) => match spec_time_at(t, q1, config) {
                Err(e) => Err(e),
                Ok((_, q2)) => match spec_any_at(t, q2, config) {
                    Err(e) => Err(e),
                    Ok((ra, _)) => spec_items_from(ra.2, 0, spec_single_item(config)),
                },
            },
        },
    }
}

/// The content of a `BasicOCSPResponse` SEQUENCE read at nesting `depth`:
/// `tbsResponseData`, the signature algorithm, the signature element, and
/// nothing after them.
pub open spec fn spec_basic_response_body(c: Seq<u8>, config: Config, depth: int) -> Result<BasicResponseView> {
    match spec_any_at(c, 0, config) {
        Err(e) => Err(e),
        Ok((tbs, p1)) => match spec_response_data(tbs.2, config) {
            Err(e) => Err(e),
            Ok(responses) => match spec_alg_id_at(c, p1, config, depth) {
                Err(e) => Err(e),
                Ok((sa, p2)) => match spec_any_at(c, p2, config) {
                    Err(e) => Err(e),
                    Ok((sig, p3)) => if p3 < c.len() {
                        Err(Error::TrailingData)
                    } else {
                        Ok((tbs.3, sa, sig.2, responses))
                    },
                },
            },
        },
    }
}

/// The `BasicOCSPResponse` at `pos` of `s`, met at nesting `depth`.
#[verifier::opaque]
pub open spec fn spec_basic_response_at(s: Seq<u8>, pos: int, config: Config, depth: int) -> Result<(BasicResponseView, int)> {
    spec_nested_at(s, pos, config, depth, spec_universal_constructed(16), |c: Seq<u8>, d: int| spec_basic_response_body(c, config, d))
}

impl<'a> Decode<'a> for BasicOcspResponse<'a> {
    open spec fn spec_decode(s: Seq<u8>, pos: int, config: crate::asn1::reader::Config, depth: int) -> crate::asn1::error::Result<(<Self as View>::V, int)> {
        spec_basic_response_at(s, pos, config, depth)
    }

    fn decode(r: &mut Reader<'a>) -> (res: Result<Self>)
        ensures
            decoded(*old(r), *final(r), res, spec_basic_response_at(old(r).spec_input(), old(r).spec_pos(), old(r).spec_config(), old(r).spec_depth())),
    {
        proof {
            reveal(spec_basic_response_at);
            lemma_expect_tlv_progress(r.spec_input(), r.spec_pos(), r.spec_config(), spec_universal_constructed(16));
        }
        let mut inner = enter(r, Tag::universal_constructed(Tag::SEQUENCE))?;
        proof { crate::asn1::reader::lemma_read_tlv_bounds(inner.spec_input(), inner.spec_pos(), inner.spec_config()); }
        let tbs_any = Any::decode(&mut inner)?;
        let config = *inner.config();
        let responses = decode_response_data(tbs_any.value, config)?;
        let signature_algorithm = AlgorithmIdentifier::decode(&mut inner)?;
        let sig_any = Any::decode(&mut inner)?;
        let signature = sig_any.value;
        finish(&inner)?;
        let b = BasicOcspResponse { tbs_response_data_der: tbs_any.full, signature_algorithm, signature, responses };
        Ok(b)
    }
}

/// Read the responses of the `tbsResponseData` value `content`.
fn decode_response_data<'a>(content: &'a [u8], config: Config) -> (res: Result<Vec<SingleResponse<'a>>>)
    ensures
        list_result(res, spec_response_data(content@, config)),
{
    let mut tbs = Reader::new(content, config);
    // version [0] OPTIONAL
    if next_tag_is(&tbs, Tag::context(false, 0)) {
        Any::decode(&mut tbs)?;
    }
    // responderID CHOICE — byName [1] or byKey [2].
    let _responder = Any::decode(&mut tbs)?;
    let _produced_at = Time::decode(&mut tbs)?;
    let resp_any = Any::decode(&mut tbs)?;
    decode_single_responses(resp_any.value, config)
}

/// Read the `SingleResponse`s of the value `content`, from the top level.
fn decode_single_responses<'a>(content: &'a [u8], config: Config) -> (res: Result<Vec<SingleResponse<'a>>>)
    ensures
        list_result(res, spec_items_from(content@, 0, spec_single_item(config))),
{
    let mut resp = Reader::new(content, config);
    let ghost s = content@;
    let mut responses: Vec<SingleResponse<'a>> = Vec::new();
    assert(spec_prepend(responses@.map_values(|x: SingleResponse<'a>| x@), spec_items_from(s, 0, spec_single_item(config)))
        =~= spec_items_from(s, 0, spec_single_item(config)));
    while !resp.is_empty()
        invariant
            resp.spec_input() == s,
            s == content@,
            resp.spec_config() == config,
            resp.spec_depth() == 0,
            spec_prepend(responses@.map_values(|x: SingleResponse<'a>| x@), spec_items_from(s, resp.spec_pos(), spec_single_item(config)))
                == spec_items_from(s, 0, spec_single_item(config)),
        decreases resp.spec_input().len() - resp.spec_pos(),
    {
        let ghost p = resp.spec_pos();
        let ghost before = responses@.map_values(|x: SingleResponse<'a>| x@);
        let x = SingleResponse::decode(&mut resp)?;
        proof { lemma_items_step::<SingleResponseView, Error>(s, p, spec_single_item(config), before, x@, resp.spec_pos()); }
        responses.push(x);
        assert(responses@.map_values(|x: SingleResponse<'a>| x@) =~= before.push(x@));
    }
    let ghost fin = responses@.map_values(|x: SingleResponse<'a>| x@);
    assert(fin + Seq::<SingleResponseView>::empty() =~= fin);
    Ok(responses)
}

/// The OCSP `ResponseBytes` wrapper (`responseType` OID + `response` OCTET STRING).
#[derive(Clone, Copy, Debug, PartialEq, Eq)]
pub struct ResponseBytes<'a> {
    /// The response type OID (e.g. `id-pkix-ocsp-basic`).
    pub response_type: &'a [u8],
    /// The inner response DER (e.g. a `BasicOCSPResponse`).
    pub response: &'a [u8],
}

impl<'a> View for ResponseBytes<'a> {
    /// The response type OID bytes and the inner response bytes.
    type V = (Seq<u8>, Seq<u8>);

    open spec fn view(&self) -> (Seq<u8>, Seq<u8>) {
        (self.response_type@, self.response@)
    }
}

/// The content of a `ResponseBytes` SEQUENCE: the type OID, the response
/// OCTET STRING, and nothing after them.
pub open spec fn spec_response_bytes_body(c: Seq<u8>, config: Config) -> Result<(Seq<u8>, Seq<u8>)> {
    match spec_prim_at(c, 0, config, spec_universal(6), |b: Seq<u8>| spec_oid_content(b)) {
        Err(e) => Err(e),
        Ok((oid, p1)) => match spec_prim_at(c, p1, config, spec_universal(4), |b: Seq<u8>| Ok::<Seq<u8>, Error>(b)) {
            Err(e) => Err(e),
            Ok((resp, p2)) => if p2 < c.len() {
                Err(Error::TrailingData)
            } else {
                Ok((oid, resp))
            },
        },
    }
}

/// The `ResponseBytes` at `pos` of `s`, met at nesting `depth`.
#[verifier::opaque]
pub open spec fn spec_response_bytes_at(s: Seq<u8>, pos: int, config: Config, depth: int) -> Result<((Seq<u8>, Seq<u8>), int)> {
    spec_nested_at(s, pos, config, depth, spec_universal_constructed(16), |c: Seq<u8>, d: int| spec_response_bytes_body(c, config))
}

impl<'a> Decode<'a> for ResponseBytes<'a> {
    open spec fn spec_decode(s: Seq<u8>, pos: int, config: crate::asn1::reader::Config, depth: int) -> crate::asn1::error::Result<(<Self as View>::V, int)> {
        spec_response_bytes_at(s, pos, config, depth)
    }

    fn decode(r: &mut Reader<'a>) -> (res: Result<Self>)
        ensures
            decoded(*old(r), *final(r), res, spec_response_bytes_at(old(r).spec_input(), old(r).spec_pos(), old(r).spec_config(), old(r).spec_depth())),
            res matches Ok(b) ==> spec_oid_content(b.response_type@) is Ok,
    {
        proof {
            reveal(spec_response_bytes_at);
            lemma_expect_tlv_progress(r.spec_input(), r.spec_pos(), r.spec_config(), spec_universal_constructed(16));
        }
        let mut inner = enter(r, Tag::universal_constructed(Tag::SEQUENCE))?;
        let oid = ObjectIdentifier::decode(&mut inner)?;
        let response = OctetString::decode(&mut inner)?.0;
        finish(&inner)?;
        Ok(ResponseBytes { response_type: oid.as_bytes(), response })
    }
}

/// An OCSP `OCSPResponse`.
#[derive(Clone, Copy, Debug, PartialEq, Eq)]
pub struct OcspResponse<'a> {
    /// The response status: `0` = successful.
    pub status: u8,
    /// The response bytes, if present.
    pub response_bytes: Option<ResponseBytes<'a>>,
}

impl<'a> View for OcspResponse<'a> {
    /// The status and the response bytes, if present.
    type V = (u8, Option<(Seq<u8>, Seq<u8>)>);

    open spec fn view(&self) -> (u8, Option<(Seq<u8>, Seq<u8>)>) {
        (self.status, match self.response_bytes {
            Some(b) => Some(b@),
            None => None,
        })
    }
}

/// The content of an `OCSPResponse` SEQUENCE read at nesting `depth`: the
/// status ENUMERATED (one to eight bytes, its low byte kept), the optional
/// `ResponseBytes`, and nothing after them.
pub open spec fn spec_ocsp_response_body(c: Seq<u8>, config: Config, depth: int) -> Result<(u8, Option<(Seq<u8>, Seq<u8>)>)> {
    match spec_prim_at(c, 0, config, spec_universal(10), |b: Seq<u8>| Ok::<Seq<u8>, Error>(b)) {
        Err(e) => Err(e),
        Ok((eb, p1)) => match spec_as_i64(eb) {
            None => Err(Error::Custom("bad OCSP status")),
            Some(v) => if p1 >= c.len() {
                Ok((v as u8, None))
            } else {
                match spec_response_bytes_at(c, p1, config, depth) {
                    Err(e) => Err(e),
                    Ok((rb, p2)) => if p2 < c.len() {
                        Err(Error::TrailingData)
                    } else {
                        Ok((v as u8, Some(rb)))
                    },
                }
            },
        },
    }
}

/// The `OCSPResponse` at `pos` of `s`, met at nesting `depth`.
pub open spec fn spec_ocsp_response_at(s: Seq<u8>, pos: int, config: Config, depth: int) -> Result<((u8, Option<(Seq<u8>, Seq<u8>)>), int)> {
    spec_nested_at(s, pos, config, depth, spec_universal_constructed(16), |c: Seq<u8>, d: int| spec_ocsp_response_body(c, config, d))
}

impl<'a> Decode<'a> for OcspResponse<'a> {
    open spec fn spec_decode(s: Seq<u8>, pos: int, config: crate::asn1::reader::Config, depth: int) -> crate::asn1::error::Result<(<Self as View>::V, int)> {
        spec_ocsp_response_at(s, pos, config, depth)
    }

    fn decode(r: &mut Reader<'a>) -> (res: Result<Self>)
        ensures
            decoded(*old(r), *final(r), res, spec_ocsp_response_at(old(r).spec_input(), old(r).spec_pos(), old(r).spec_config(), old(r).spec_depth())),
    {
        proof { lemma_expect_tlv_progress(r.spec_input(), r.spec_pos(), r.spec_config(), spec_universal_constructed(16)); }
        let mut inner = enter(r, Tag::universal_constructed(Tag::SEQUENCE))?;
        let status = match Enumerated::decode(&mut inner)?.as_i64() {
            Some(v) => v as u8,
            None => {
                return Err(Error::Custom("bad OCSP status"));
            },
        };
        let response_bytes = if inner.is_empty() {
            None
        } else {
            Some(ResponseBytes::decode(&mut inner)?)
        };
        finish(&inner)?;
        Ok(OcspResponse { status, response_bytes })
    }
}

/// Decode a `BasicOCSPResponse` from a `response` OCTET STRING payload (DER,
/// filling it).
pub fn decode_basic_response(bytes: &[u8]) -> (res: Result<BasicOcspResponse<'_>>)
    ensures
        bytes@.len() == 0 ==> res is Err,
        match spec_basic_response_at(bytes@, 0, spec_default_config(EncodingRule::Der), 0) {
            Ok((v, n)) => if n < bytes@.len() {
                res == Err::<BasicOcspResponse<'_>, Error>(Error::TrailingData)
            } else {
                res is Ok && res->Ok_0@ == v
            },
            Err(e) => res == Err::<BasicOcspResponse<'_>, Error>(e),
        },
{
    proof { reveal(spec_basic_response_at); }
    crate::asn1::decode::<BasicOcspResponse<'_>>(bytes)
}

/// Returns `true` if `response_type` is the OCSP basic response type.
pub fn is_basic_response_type(response_type: &[u8]) -> (r: bool)
    ensures
        r == (response_type@.len() <= 126 && spec_oid_content(response_type@) is Ok && spec_oid_arcs(response_type@)
            == Some(pkix::OCSP_BASIC@)),
{
    oid_eq_bytes(response_type, &pkix::OCSP_BASIC)
}

} // verus!
