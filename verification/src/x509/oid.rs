//! Well-known ASN.1 object identifiers used by X.509 / PKIX.
//!
//! OIDs are expressed as plain `u64` arcs and matched against a parsed
//! [`ObjectIdentifier`] via [`oid_eq`]. Keeping them as arcs (rather than
//! pre-encoded bytes) means the same constants drive both matching and any
//! future re-encoding.

pub mod pk;
pub mod sig;
pub mod digest;
pub mod curve;
pub mod ext;
pub mod attr;
pub mod eku;
pub mod pkix;

use crate::asn1::types::{spec_oid_arcs, spec_oid_content, ObjectIdentifier};
use vstd::prelude::*;

verus! {

/// A PKIX object identifier expressed as its arc components.
pub type Oid = &'static [u64];

/// Returns `true` if `oid` equals `expected`.
pub fn oid_eq(oid: &ObjectIdentifier<'_>, expected: &[u64]) -> (r: bool)
    ensures
        r == (spec_oid_arcs(oid.0@) == Some(expected@)),
{
    oid.matches(expected)
}

/// Returns `true` if `oid` is equal to one of `candidates`.
pub fn oid_in(oid: &ObjectIdentifier<'_>, candidates: &[&[u64]]) -> (r: bool)
    ensures
        r == exists|i: int| 0 <= i < candidates@.len() && spec_oid_arcs(oid.0@) == Some(#[trigger] candidates@[i]@),
{
    let mut i: usize = 0;
    while i < candidates.len()
        invariant
            i <= candidates@.len(),
            forall|j: int| 0 <= j < i ==> spec_oid_arcs(oid.0@) != Some(#[trigger] candidates@[j]@),
        decreases candidates@.len() - i,
    {
        if oid.matches(candidates[i]) {
            return true;
        }
        i += 1;
    }
    false
}

/// Returns `true` if raw `OBJECT IDENTIFIER` *content* bytes equal `expected`:
/// the bytes must form a valid OID value of at most 126 bytes.
///
/// Useful when an OID is available as bare base-128 subidentifier bytes (e.g. an
/// `responseType` payload) rather than a decoded [`ObjectIdentifier`].
pub fn oid_eq_bytes(bytes: &[u8], expected: &[u64]) -> (r: bool)
    ensures
        r == (bytes@.len() <= 126 && spec_oid_content(bytes@) is Ok && spec_oid_arcs(bytes@) == Some(expected@)),
{
    if bytes.len() > 126 {
        return false;
    }
    if bytes.len() == 0 || bytes[0] == 0x80 {
        return false;
    }
    ObjectIdentifier(bytes).matches(expected)
}

} // verus!
