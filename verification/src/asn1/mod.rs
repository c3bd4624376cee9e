//! The tag-length-value codec: tags, lengths, the zero-copy reader, the
//! universal types and the writer.

pub mod error;
pub mod tag;
pub mod length;
pub mod reader;
pub mod writer;
pub mod decode;
pub mod util;
pub mod types;
pub mod any;
pub mod laws;

use crate::asn1::decode::{spec_filling, view_result, Decode};
use crate::asn1::error::{Error, Result};
use crate::asn1::reader::{spec_default_config, Config, EncodingRule, Reader};
use vstd::prelude::*;

verus! {

/// The value a read from the start of some bytes gives, whatever follows it.
pub open spec fn spec_leading<V>(r: Result<(V, int)>) -> Result<V> {
    match r {
        Err(e) => Err(e),
        Ok((v, _)) => Ok(v),
    }
}

/// Decode a single `T` from `bytes` using strict DER, requiring that the entire
/// input is consumed. Trailing bytes are rejected.
pub fn decode<'a, T: Decode<'a>>(bytes: &'a [u8]) -> (res: Result<T>)
    ensures
        bytes@.len() == 0 ==> res is Err,
        view_result(res, spec_filling(bytes@, T::spec_decode(bytes@, 0, spec_default_config(EncodingRule::Der), 0))),
{
    decode_with(bytes, Config::der())
}

/// Decode a single `T` from `bytes` using the supplied [`Config`]. Trailing
/// bytes are rejected.
pub fn decode_with<'a, T: Decode<'a>>(bytes: &'a [u8], config: Config) -> (res: Result<T>)
    ensures
        bytes@.len() == 0 ==> res is Err,
        view_result(res, spec_filling(bytes@, T::spec_decode(bytes@, 0, config, 0))),
{
    let mut reader = Reader::new(bytes, config);
    let value = T::decode(&mut reader)?;
    if reader.is_empty() {
        Ok(value)
    } else {
        Err(Error::TrailingData)
    }
}

/// Decode a single `T` from `bytes`, allowing (and ignoring) trailing data.
pub fn decode_partial<'a, T: Decode<'a>>(bytes: &'a [u8]) -> (res: Result<T>)
    ensures
        bytes@.len() == 0 ==> res is Err,
        view_result(res, spec_leading(T::spec_decode(bytes@, 0, spec_default_config(EncodingRule::Der), 0))),
{
    decode_partial_with(bytes, Config::der())
}

/// Decode a single `T` from `bytes` with the supplied [`Config`], allowing
/// trailing data.
pub fn decode_partial_with<'a, T: Decode<'a>>(bytes: &'a [u8], config: Config) -> (res: Result<T>)
    ensures
        bytes@.len() == 0 ==> res is Err,
        view_result(res, spec_leading(T::spec_decode(bytes@, 0, config, 0))),
{
    let mut reader = Reader::new(bytes, config);
    T::decode(&mut reader)
}

} // verus!
