//! `tpt_asn1` — a zero-copy ASN.1 DER/BER/CER codec with X.509 and CMS
//! support, a schema-language front end, and the structural inspector used by
//! the command-line tool.

pub mod asn1;
pub mod x509;
pub mod cms;
pub mod compiler;
pub mod cli;
pub mod text;

use vstd::prelude::*;

verus! {


} // verus!
