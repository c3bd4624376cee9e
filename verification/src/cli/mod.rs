//! The logic behind the `tpt-asn1` command-line tool: PEM framing, the
//! structural TLV inspector and its JSON rendering.

pub mod pem;
pub mod inspect;
pub mod json;
pub mod error;
pub mod validate;
pub mod fuzz;
pub mod render;
