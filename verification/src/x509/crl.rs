//! X.509 `CertificateList` (CRL) decoding (RFC 5280 §5).

use crate::asn1::any::{spec_any_at, Any};
use crate::asn1::decode::{
    decoded, enter, finish, lemma_expect_tlv_progress, lemma_items_step, list_result, read_primitive, spec_expect_tlv, spec_items_from,
    spec_nested_at, spec_prepend, spec_prim_at, Decode,
};
use crate::asn1::error::{Error, Result};
use crate::asn1::reader::{Config, Reader};
use crate::asn1::tag::{spec_context, spec_decode_tag, spec_universal, spec_universal_constructed, Tag};
use crate::asn1::types::{spec_bitstring_content, spec_integer_content, BitString, Integer};
use crate::asn1::util::bytes_eq;
use crate::x509::algorithm::{spec_alg_id_at, AlgorithmIdentifier, AlgorithmView};
use crate::x509::extensions::{spec_extensions_content, spec_no_unknown_critical, Extensions};
use crate::x509::name::{spec_name_at, Name};
use crate::x509::time::{spec_time_at, spec_time_to_unix, Time, UnixTime};
use vstd::prelude::*;

verus! {

broadcast use crate::asn1::reader::Reader::lemma_nonneg;

/// A `RevokedCertificate` entry in a CRL.
#[derive(Clone, Copy, Debug, PartialEq, Eq)]
pub struct RevokedCertificate<'a> {
    /// The revoked certificate's serial number.
    pub user_certificate: Integer<'a>,
    /// The revocation date.
    pub revocation_date: Time<'a>,
}

/// The entry `e` revokes as of `now`: its revocation date converts to Unix
/// time and is not after `now`.
pub open spec fn spec_revoked_at(e: RevokedCertificate, now: i64) -> bool {
    match spec_time_to_unix(e.revocation_date@) {
        Ok(t) => t.0 <= now,
        Err(_) => false,
    }
}

impl<'a> View for RevokedCertificate<'a> {
    /// The serial number bytes and the revocation date.
    type V = (Seq<u8>, (bool, Seq<u8>));

    open spec fn view(&self) -> (Seq<u8>, (bool, Seq<u8>)) {
        (self.user_certificate.0@, self.revocation_date@)
    }
}

/// The content of a revoked-certificate SEQUENCE: the serial INTEGER, the
/// revocation date, and nothing after them.
pub open spec fn spec_revoked_body(c: Seq<u8>, config: Config) -> Result<(Seq<u8>, (bool, Seq<u8>))> {
    match spec_prim_at(c, 0, config, spec_universal(2), |b: Seq<u8>| spec_integer_content(b, config.rule)) {
        Err(e) => Err(e),
        Ok((serial, p)) => match spec_time_at(c, p, config) {
            Err(e) => Err(e),
            Ok((date, q)) => if q < c.len() {
                Err(Error::TrailingData)
            } else {
                Ok((serial, date))
            },
        },
    }
}

/// Reading one revoked-certificate entry, from the top level.
pub open spec fn spec_revoked_item(config: Config) -> spec_fn(Seq<u8>, int) -> Result<((Seq<u8>, (bool, Seq<u8>)), int)> {
    |s: Seq<u8>, p: int| spec_nested_at(s, p, config, 0, spec_universal_constructed(16), |c: Seq<u8>, d: int| spec_revoked_body(c, config))
}

impl<'a> RevokedCertificate<'a> {
    /// The serial number as raw bytes.
    pub fn serial_number_bytes(&self) -> (b: &'a [u8])
        ensures
            b@ == self.user_certificate.0@,
    {
        self.user_certificate.as_bytes()
    }

    /// Returns `true` if `now` is on or after the revocation date.
    pub fn is_revoked_at(&self, now: UnixTime) -> (r: bool)
        ensures
            r == spec_revoked_at(*self, now.0),
    {
        match self.revocation_date.to_unix() {
            Ok(t) => t.0 <= now.0,
            Err(_) => false,
        }
    }
}

/// An X.509 `CertificateList` (CRL).
#[derive(Clone, Debug, PartialEq, Eq)]
pub struct CertificateList<'a> {
    /// The issuer `Name`.
    pub issuer: Name<'a>,
    /// `thisUpdate` time.
    pub this_update: Time<'a>,
    /// `nextUpdate` time, if present.
    pub next_update: Option<Time<'a>>,
    /// The revoked certificates.
    pub revoked: Vec<RevokedCertificate<'a>>,
    /// CRL extensions (e.g. `cRLNumber`, authority key identifier).
    pub crl_extensions: Extensions<'a>,
    /// The signature algorithm.
    pub signature_algorithm: AlgorithmIdentifier<'a>,
    /// The signature value.
    pub signature_value: BitString<'a>,
    pub(crate) tbs_der: &'a [u8],
}

/// A `CertificateList` as values.
pub ghost struct CertificateListView {
    /// The issuer (its RDNs and whole encoding).
    pub issuer: (Seq<Seq<(Seq<u8>, (bool, u32, Seq<u8>))>>, Seq<u8>),
    /// `thisUpdate`.
    pub this_update: (bool, Seq<u8>),
    /// `nextUpdate`, if present.
    pub next_update: Option<(bool, Seq<u8>)>,
    /// The revoked entries.
    pub revoked: Seq<(Seq<u8>, (bool, Seq<u8>))>,
    /// The CRL extensions.
    pub extensions: Seq<(Seq<u8>, bool, Seq<u8>)>,
    /// The signature algorithm.
    pub signature_algorithm: AlgorithmView,
    /// The signature value.
    pub signature_value: (u8, Seq<u8>),
    /// The whole encoding of `tbsCertList`.
    pub tbs_der: Seq<u8>,
}

impl<'a> View for CertificateList<'a> {
    type V = CertificateListView;

    closed spec fn view(&self) -> CertificateListView {
        CertificateListView {
            issuer: self.issuer@,
            this_update: self.this_update@,
            next_update: match self.next_update {
                Some(t) => Some(t@),
                None => None,
            },
            revoked: self.revoked@.map_values(|e: RevokedCertificate<'a>| e@),
            extensions: self.crl_extensions@,
            signature_algorithm: self.signature_algorithm@,
            signature_value: self.signature_value@,
            tbs_der: self.tbs_der@,
        }
    }
}

/// Whether the element at `p` of `s` has the tag `t` (false when no tag can
/// be read there).
pub open spec fn spec_next_tag_is(s: Seq<u8>, p: int, t: Tag) -> bool {
    match spec_decode_tag(s, p) {
        Ok((x, _)) => x == t,
        Err(_) => false,
    }
}

/// The fields of `tbsCertList` from `thisUpdate`'s end `q3` of `t`: the
/// optional `nextUpdate` (a UTCTime or GeneralizedTime), the optional list of
/// revoked entries (a SEQUENCE), and the optional `[0]` wrapper around the
/// extensions SEQUENCE, which must fill it.
pub open spec fn spec_tbs_cert_list_tail(t: Seq<u8>, q3: int, config: Config) -> Result<
    (Option<(bool, Seq<u8>)>, Seq<(Seq<u8>, (bool, Seq<u8>))>, Seq<(Seq<u8>, bool, Seq<u8>)>),
> {
    let nu: Result<(Option<(bool, Seq<u8>)>, int)> = if q3 < t.len() && (spec_next_tag_is(t, q3, spec_universal(23)) || spec_next_tag_is(
        t,
        q3,
        spec_universal(24),
    )) {
        match spec_time_at(t, q3, config) {
            Err(e) => Err(e),
            Ok((v, q)) => Ok((Some(v), q)),
        }
    } else {
        Ok((None, q3))
    };
    match nu {
        Err(e) => Err(e),
        Ok((next_update, q4)) => {
            let rv: Result<(Seq<(Seq<u8>, (bool, Seq<u8>))>, int)> = if q4 < t.len() && spec_next_tag_is(
                t,
                q4,
                spec_universal_constructed(16),
            ) {
                match spec_any_at(t, q4, config) {
                    Err(e) => Err(e),
                    Ok((ra, q)) => match spec_items_from(ra.2, 0, spec_revoked_item(config)) {
                        Err(e) => Err(e),
                        Ok(v) => Ok((v, q)),
                    },
                }
            } else {
                Ok((Seq::empty(), q4))
            };
            match rv {
                Err(e) => Err(e),
                Ok((revoked, q5)) => if spec_next_tag_is(t, q5, spec_context(true, 0)) {
                    match spec_any_at(t, q5, config) {
                        Err(e) => Err(e),
                        Ok((ea, _)) => match spec_expect_tlv(ea.2, 0, config, spec_universal_constructed(16)) {
                            Err(e) => Err(e),
                            Ok((a, b, m)) => if m < ea.2.len() {
                                Err(Error::TrailingData)
                            } else {
                                match spec_extensions_content(ea.2.subrange(a, b), config) {
                                    Err(e) => Err(e),
                                    Ok(exts) => Ok((next_update, revoked, exts)),
                                }
                            },
                        },
                    }
                } else {
                    Ok((next_update, revoked, Seq::empty()))
                },
            }
        },
    }
}

/// The fields of a `tbsCertList` value `t` (read from the top level): the
/// optional version INTEGER, the signature algorithm (not kept), the issuer,
/// `thisUpdate`, then the optional fields.
pub open spec fn spec_tbs_cert_list(t: Seq<u8>, config: Config) -> Result<
    (
        (Seq<Seq<(Seq<u8>, (bool, u32, Seq<u8>))>>, Seq<u8>),
        (bool, Seq<u8>),
        Option<(bool, Seq<u8>)>,
        Seq<(Seq<u8>, (bool, Seq<u8>))>,
        Seq<(Seq<u8>, bool, Seq<u8>)>,
    ),
> {
    let v: Result<int> = if spec_next_tag_is(t, 0, spec_universal(2)) {
        match spec_prim_at(t, 0, config, spec_universal(2), |b: Seq<u8>| spec_integer_content(b, config.rule)) {
            Err(e) => Err(e),
            Ok((_, q)) => Ok(q),
        }
    } else {
        Ok(0)
    };
    match v {
        Err(e) => Err(e),
        Ok(q0) => match spec_alg_id_at(t, q0, config, 0) {
            Err(e) => Err(e),
            Ok((_, q1)) => match spec_name_at(t, q1, config) {
                Err(e) => Err(e),
                Ok((issuer, q2)) => match spec_time_at(t, q2, config) {
                    Err(e) => Err(e),
                    Ok((this_update, q3)) => match spec_tbs_cert_list_tail(t, q3, config) {
                        Err(e) => Err(e),
                        Ok((next_update, revoked, exts)) => Ok((issuer, this_update, next_update, revoked, exts)),
                    },
                },
            },
        },
    }
}

/// The content of a `CertificateList` SEQUENCE read at nesting `depth`: the
/// `tbsCertList` element, the signature algorithm, the signature BIT STRING,
/// and nothing after them.
pub open spec fn spec_crl_body(c: Seq<u8>, config: Config, depth: int) -> Result<CertificateListView> {
    match spec_any_at(c, 0, config) {
        Err(e) => Err(e),
        Ok((tbs, p1)) => match spec_tbs_cert_list(tbs.2, config) {
            Err(e) => Err(e),
            Ok((issuer, this_update, next_update, revoked, extensions)) => match spec_alg_id_at(c, p1, config, depth) {
                Err(e) => Err(e),
                Ok((signature_algorithm, p2)) => match spec_prim_at(c, p2, config, spec_universal(3), |b: Seq<u8>| spec_bitstring_content(b)) {
                    Err(e) => Err(e),
                    Ok((signature_value, p3)) => if p3 < c.len() {
                        Err(Error::TrailingData)
                    } else {
                        Ok(
                            CertificateListView {
                                issuer,
                                this_update,
                                next_update,
                                revoked,
                                extensions,
                                signature_algorithm,
                                signature_value,
                                tbs_der: tbs.3,
                            },
                        )
                    },
                },
            },
        },
    }
}

/// The `CertificateList` at `pos` of `s`, met at nesting `depth`.
pub open spec fn spec_crl_at(s: Seq<u8>, pos: int, config: Config, depth: int) -> Result<(CertificateListView, int)> {
    spec_nested_at(s, pos, config, depth, spec_universal_constructed(16), |c: Seq<u8>, d: int| spec_crl_body(c, config, d))
}

impl<'a> CertificateList<'a> {
    /// The revoked entries.
    pub closed spec fn spec_revoked(&self) -> Seq<RevokedCertificate<'a>> {
        self.revoked@
    }

    /// The extensions of the list.
    pub closed spec fn spec_extensions(&self) -> Extensions<'a> {
        self.crl_extensions
    }

    /// The retained DER of `tbsCertList`.
    pub closed spec fn spec_tbs_der(&self) -> Seq<u8> {
        self.tbs_der@
    }

    /// The raw DER of `tbsCertList` (the signed message).
    pub fn tbs_cert_list_der(&self) -> (b: &'a [u8])
        ensures
            b@ == self.spec_tbs_der(),
    {
        self.tbs_der
    }

    /// Returns `true` if `serial` (raw bytes) is present and revoked as of `now`.
    pub fn is_revoked(&self, serial: &[u8], now: UnixTime) -> (r: bool)
        ensures
            r == exists|i: int|
                0 <= i < self.spec_revoked().len() && (#[trigger] self.spec_revoked()[i]).user_certificate.0@ == serial@
                    && spec_revoked_at(self.spec_revoked()[i], now.0),
    {
        let mut i: usize = 0;
        while i < self.revoked.len()
            invariant
                i <= self.revoked@.len(),
                forall|j: int| 0 <= j < i ==> !((#[trigger] self.revoked@[j]).user_certificate.0@ == serial@ && spec_revoked_at(self.revoked@[j], now.0)),
            decreases self.revoked@.len() - i,
        {
            let e = &self.revoked[i];
            if bytes_eq(e.serial_number_bytes(), serial) && e.is_revoked_at(now) {
                assert(self.spec_revoked()[i as int].user_certificate.0@ == serial@);
                return true;
            }
            i += 1;
        }
        false
    }
}

/// Whether the next tag of `r` is `t` (false when no tag can be read).
fn next_tag_is(r: &Reader<'_>, t: Tag) -> (b: bool)
    ensures
        b == spec_next_tag_is(r.spec_input(), r.spec_pos(), t),
{
    match r.peek_tag() {
        Ok(x) => x == t,
        Err(_) => false,
    }
}

/// Read the revoked-certificate entries of the content `content`.
fn decode_revoked<'a>(content: &'a [u8], config: Config) -> (res: Result<Vec<RevokedCertificate<'a>>>)
    ensures
        list_result(res, spec_items_from(content@, 0, spec_revoked_item(config))),
{
    let mut rc = Reader::new(content, config);
    let ghost s = content@;
    let mut revoked: Vec<RevokedCertificate<'a>> = Vec::new();
    assert(spec_prepend(revoked@.map_values(|x: RevokedCertificate<'a>| x@), spec_items_from(s, 0, spec_revoked_item(config)))
        =~= spec_items_from(s, 0, spec_revoked_item(config)));
    while !rc.is_empty()
        invariant
            rc.spec_input() == s,
            s == content@,
            rc.spec_config() == config,
            rc.spec_depth() == 0,
            spec_prepend(revoked@.map_values(|x: RevokedCertificate<'a>| x@), spec_items_from(s, rc.spec_pos(), spec_revoked_item(config)))
                == spec_items_from(s, 0, spec_revoked_item(config)),
        decreases rc.spec_input().len() - rc.spec_pos(),
    {
        let ghost p = rc.spec_pos();
        let ghost before = revoked@.map_values(|x: RevokedCertificate<'a>| x@);
        proof { lemma_expect_tlv_progress(rc.spec_input(), rc.spec_pos(), rc.spec_config(), spec_universal_constructed(16)); }
        let mut e = enter(&mut rc, Tag::universal_constructed(Tag::SEQUENCE))?;
        let user_certificate = Integer::decode(&mut e)?;
        let revocation_date = Time::decode(&mut e)?;
        finish(&e)?;
        let entry = RevokedCertificate { user_certificate, revocation_date };
        proof { lemma_items_step::<(Seq<u8>, (bool, Seq<u8>)), Error>(s, p, spec_revoked_item(config), before, entry@, rc.spec_pos()); }
        revoked.push(entry);
        assert(revoked@.map_values(|x: RevokedCertificate<'a>| x@) =~= before.push(entry@));
    }
    let ghost fin = revoked@.map_values(|x: RevokedCertificate<'a>| x@);
    assert(fin + Seq::<(Seq<u8>, (bool, Seq<u8>))>::empty() =~= fin);
    Ok(revoked)
}

/// The optional fields of a `tbsCertList` read from `r2` (after `thisUpdate`).
fn decode_tbs_cert_list_tail<'a>(r2: &mut Reader<'a>, config: Config) -> (res: Result<
    (Option<Time<'a>>, Vec<RevokedCertificate<'a>>, Extensions<'a>),
>)
    requires
        old(r2).spec_config() == config,
        old(r2).spec_depth() == 0,
    ensures
        match spec_tbs_cert_list_tail(old(r2).spec_input(), old(r2).spec_pos(), config) {
            Ok(v) => res is Ok && (match res->Ok_0.0 {
                Some(t) => Some(t@),
                None => None,
            }) == v.0 && res->Ok_0.1@.map_values(|x: RevokedCertificate<'a>| x@) == v.1 && res->Ok_0.2@ == v.2,
            Err(e) => res == Err::<(Option<Time<'a>>, Vec<RevokedCertificate<'a>>, Extensions<'a>), Error>(e),
        },
        res matches Ok(v) ==> spec_no_unknown_critical(v.2.spec_list()),
{
    let next_update = if !r2.is_empty() && (next_tag_is(r2, Tag::universal(Tag::UTC_TIME)) || next_tag_is(
        r2,
        Tag::universal(Tag::GENERALIZED_TIME),
    )) {
        Some(Time::decode(r2)?)
    } else {
        None
    };

    let mut revoked: Vec<RevokedCertificate<'a>> = Vec::new();
    assert(revoked@.map_values(|x: RevokedCertificate<'a>| x@) =~= Seq::<(Seq<u8>, (bool, Seq<u8>))>::empty());
    if !r2.is_empty() && next_tag_is(r2, Tag::universal_constructed(Tag::SEQUENCE)) {
        let rc_any = Any::decode(r2)?;
        revoked = decode_revoked(rc_any.value, config)?;
    }

    let mut crl_extensions = Extensions::empty();
    if next_tag_is(r2, Tag::context(true, 0)) {
        // `[0] EXPLICIT Extensions`, where `Extensions ::= SEQUENCE OF Extension`.
        let ext_any = Any::decode(r2)?;
        let mut er = Reader::new(ext_any.value, config);
        let body = read_primitive(&mut er, Tag::universal_constructed(Tag::SEQUENCE))?;
        if !er.is_empty() {
            return Err(Error::TrailingData);
        }
        crl_extensions = Extensions::from_content(body, config)?;
    }
    Ok((next_update, revoked, crl_extensions))
}

/// The fields of the `tbsCertList` value `content`.
fn decode_tbs_cert_list<'a>(content: &'a [u8], config: Config) -> (res: Result<
    (Name<'a>, Time<'a>, Option<Time<'a>>, Vec<RevokedCertificate<'a>>, Extensions<'a>),
>)
    ensures
        match spec_tbs_cert_list(content@, config) {
            Ok(v) => res is Ok && res->Ok_0.0@ == v.0 && res->Ok_0.1@ == v.1 && (match res->Ok_0.2 {
                Some(t) => Some(t@),
                None => None,
            }) == v.2 && res->Ok_0.3@.map_values(|x: RevokedCertificate<'a>| x@) == v.3 && res->Ok_0.4@ == v.4,
            Err(e) => res == Err::<(Name<'a>, Time<'a>, Option<Time<'a>>, Vec<RevokedCertificate<'a>>, Extensions<'a>), Error>(e),
        },
        res matches Ok(v) ==> spec_no_unknown_critical(v.4.spec_list()),
{
    let mut r2 = Reader::new(content, config);
    // version OPTIONAL (INTEGER, v2 == 1).
    if next_tag_is(&r2, Tag::universal(Tag::INTEGER)) {
        let _version = Integer::decode(&mut r2)?;
    }
    let _tbs_signature = AlgorithmIdentifier::decode(&mut r2)?;
    let issuer = Name::decode(&mut r2)?;
    let this_update = Time::decode(&mut r2)?;
    let (next_update, revoked, crl_extensions) = decode_tbs_cert_list_tail(&mut r2, config)?;
    Ok((issuer, this_update, next_update, revoked, crl_extensions))
}

impl<'a> Decode<'a> for CertificateList<'a> {
    open spec fn spec_decode(s: Seq<u8>, pos: int, config: crate::asn1::reader::Config, depth: int) -> crate::asn1::error::Result<(<Self as View>::V, int)> {
        spec_crl_at(s, pos, config, depth)
    }

    fn decode(r: &mut Reader<'a>) -> (res: Result<Self>)
        ensures
            decoded(*old(r), *final(r), res, spec_crl_at(old(r).spec_input(), old(r).spec_pos(), old(r).spec_config(), old(r).spec_depth())),
            res matches Ok(c) ==> spec_no_unknown_critical(c.spec_extensions().spec_list()),
    {
        proof {
            lemma_expect_tlv_progress(r.spec_input(), r.spec_pos(), r.spec_config(), spec_universal_constructed(16));
        }
        let mut inner = enter(r, Tag::universal_constructed(Tag::SEQUENCE))?;
        proof { crate::asn1::reader::lemma_read_tlv_bounds(inner.spec_input(), inner.spec_pos(), inner.spec_config()); }
        let tbs_any = Any::decode(&mut inner)?;
        let config = *inner.config();
        let (issuer, this_update, next_update, revoked, crl_extensions) = decode_tbs_cert_list(tbs_any.value, config)?;
        let signature_algorithm = AlgorithmIdentifier::decode(&mut inner)?;
        let signature_value = BitString::decode(&mut inner)?;
        finish(&inner)?;
        let crl = CertificateList {
            issuer,
            this_update,
            next_update,
            revoked,
            crl_extensions,
            signature_algorithm,
            signature_value,
            tbs_der: tbs_any.full,
        };
        assert(crl@.revoked == revoked@.map_values(|x: RevokedCertificate<'a>| x@));
        Ok(crl)
    }
}

} // verus!
