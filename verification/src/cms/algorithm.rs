//! `AlgorithmIdentifier` — `SEQUENCE { algorithm OID, parameters ANY OPTIONAL }`.

use crate::asn1::any::Any;
use crate::asn1::decode::{decoded, enter, finish, lemma_expect_tlv_progress, Decode};
use crate::asn1::error::Result as CoreResult;
use crate::asn1::reader::Reader;
use crate::asn1::tag::{spec_universal_constructed, Tag};
use crate::x509::algorithm::{spec_alg_id_at, AlgorithmView};
use crate::asn1::types::{spec_oid_content, ObjectIdentifier};
use vstd::prelude::*;

verus! {

broadcast use crate::asn1::reader::Reader::lemma_nonneg;

/// An `AlgorithmIdentifier` as used throughout CMS and X.509.
#[derive(Clone, Copy, PartialEq, Eq, Debug)]
pub struct AlgorithmIdentifier<'a> {
    /// The algorithm OID (raw on-wire bytes).
    pub algorithm: ObjectIdentifier<'a>,
    /// Optional parameters (the `ANY DEFINED BY algorithm` value), borrowed.
    pub parameters: Option<Any<'a>>,
}

impl<'a> View for AlgorithmIdentifier<'a> {
    type V = AlgorithmView;

    open spec fn view(&self) -> AlgorithmView {
        (self.algorithm.0@, match self.parameters {
            Some(p) => Some(p@),
            None => None,
        })
    }
}

impl<'a> AlgorithmIdentifier<'a> {
    /// The raw algorithm OID bytes.
    pub fn algorithm_bytes(&self) -> (b: &'a [u8])
        ensures
            b@ == self.algorithm.0@,
    {
        self.algorithm.0
    }
}

impl<'a> Decode<'a> for AlgorithmIdentifier<'a> {
    open spec fn spec_decode(s: Seq<u8>, pos: int, config: crate::asn1::reader::Config, depth: int) -> crate::asn1::error::Result<(<Self as View>::V, int)> {
        spec_alg_id_at(s, pos, config, depth)
    }

    fn decode(r: &mut Reader<'a>) -> (res: CoreResult<Self>)
        ensures
            decoded(*old(r), *final(r), res, spec_alg_id_at(old(r).spec_input(), old(r).spec_pos(), old(r).spec_config(), old(r).spec_depth())),
            res matches Ok(v) ==> spec_oid_content(v.algorithm.0@) is Ok,
    {
        proof {
            reveal(spec_alg_id_at);
            lemma_expect_tlv_progress(r.spec_input(), r.spec_pos(), r.spec_config(), spec_universal_constructed(16));
        }
        let mut inner = enter(r, Tag::universal_constructed(Tag::SEQUENCE))?;
        let algorithm = ObjectIdentifier::decode(&mut inner)?;
        let parameters = if inner.is_empty() {
            None
        } else {
            Some(Any::decode(&mut inner)?)
        };
        finish(&inner)?;
        Ok(AlgorithmIdentifier { algorithm, parameters })
    }
}

} // verus!
