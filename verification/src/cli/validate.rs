//! Structural certificate check: does a parsed tree have the shape of an
//! X.509 `Certificate`?

use crate::asn1::util::push_str;
use crate::cli::error::CliError;
use crate::cli::inspect::{lemma_nodes_model_len, node_model, NodeModel, TlvNode};
use crate::text::{decimal, push_decimal};
use vstd::prelude::*;

verus! {

/// The verdict on a top-level node: the report text, or the complaint.
pub open spec fn spec_certificate_structure(cert: NodeModel) -> Result<Seq<char>, Seq<char>> {
    if !(cert.constructed && cert.class == 0 && cert.number == 16) {
        Err("top-level element is not a SEQUENCE (expected Certificate)"@)
    } else if cert.children.len() != 3 {
        Err("Certificate SEQUENCE must have 3 fields, found "@ + decimal(cert.children.len()))
    } else {
        let tbs = cert.children[0];
        let sig_alg = cert.children[1];
        let sig_val = cert.children[2];
        if !(tbs.constructed && tbs.number == 16) {
            Err("field 1 (tbsCertificate) is not a SEQUENCE"@)
        } else if !(sig_alg.constructed && sig_alg.number == 16) {
            Err("field 2 (signatureAlgorithm) is not a SEQUENCE"@)
        } else if sig_val.number != 3 {
            Err("field 3 (signatureValue) is not a BIT STRING"@)
        } else {
            Ok(
                "X.509 Certificate, tbsCertificate has "@ + decimal(tbs.children.len())
                    + " field(s), signature algorithm present"@,
            )
        }
    }
}

/// Verify a top-level node looks like an X.509 `Certificate`: a universal
/// constructed SEQUENCE of a SEQUENCE, a SEQUENCE and a BIT STRING.
pub fn check_certificate_structure(cert: &TlvNode) -> (res: Result<String, CliError>)
    ensures
        match spec_certificate_structure(node_model(*cert)) {
            Ok(t) => res matches Ok(s) && s@ == t,
            Err(t) => res matches Err(CliError::Msg(m)) && m@ == t,
        },
{
    proof {
        lemma_nodes_model_len(cert.children@);
    }
    if !(cert.constructed && cert.class == 0 && cert.number == 16) {
        return Err(CliError::msg("top-level element is not a SEQUENCE (expected Certificate)"));
    }
    if cert.children.len() != 3 {
        let mut m = String::from_str("Certificate SEQUENCE must have 3 fields, found ");
        push_decimal(&mut m, cert.children.len() as u128);
        return Err(CliError::Msg(m));
    }
    let tbs = &cert.children[0];
    let sig_alg = &cert.children[1];
    let sig_val = &cert.children[2];
    proof {
        lemma_nodes_model_len(tbs.children@);
    }
    if !(tbs.constructed && tbs.number == 16) {
        return Err(CliError::msg("field 1 (tbsCertificate) is not a SEQUENCE"));
    }
    if !(sig_alg.constructed && sig_alg.number == 16) {
        return Err(CliError::msg("field 2 (signatureAlgorithm) is not a SEQUENCE"));
    }
    if sig_val.number != 3 {
        return Err(CliError::msg("field 3 (signatureValue) is not a BIT STRING"));
    }
    let mut s = String::from_str("X.509 Certificate, tbsCertificate has ");
    push_decimal(&mut s, tbs.children.len() as u128);
    push_str(&mut s, " field(s), signature algorithm present");
    Ok(s)
}

} // verus!
