use tpt_asn1::asn1::decode::{read_set_of, retag_implicit};
use tpt_asn1::asn1::util::encode_signed_integer;
use tpt_asn1::asn1::writer::Writer;
use tpt_asn1::asn1::error::Error;
use tpt_asn1::asn1::length::Length;
use tpt_asn1::asn1::reader::{self, Config, Reader};
use tpt_asn1::asn1::tag::Tag;
use tpt_asn1::asn1::types::{BitString, GeneralizedTime, Integer, UtcTime};
use tpt_asn1::asn1::decode::Decode;
use tpt_asn1::compiler::lexer::{lex, Token};
use tpt_asn1::x509::extensions::{AuthorityKeyIdentifier, Extensions};
use tpt_asn1::x509::name::AttributeValue;
use tpt_asn1::x509::ocsp::is_basic_response_type;

#[test]
fn slash_slash_comment_is_skipped() {
    assert_eq!(lex("// note\nA").unwrap(), vec![Token::Ident("A".to_string()), Token::Eof]);
    assert_eq!(lex("A // trailing").unwrap(), vec![Token::Ident("A".to_string()), Token::Eof]);
}

#[test]
fn der_rejects_leading_zero_length_octet() {
    let mut b = vec![0x04, 0x82, 0x00, 0x80];
    b.extend(std::iter::repeat(0u8).take(128));
    assert_eq!(reader::read_tlv(&b).err(), Some(Error::NonMinimalLength));
    let mut r = Reader::new(&[0x82, 0x00, 0x80], Config::der());
    assert_eq!(Length::decode(&mut r).err(), Some(Error::NonMinimalLength));
    let mut r = Reader::new(&[0x81, 0x01], Config::der());
    assert_eq!(Length::decode(&mut r).err(), Some(Error::NonMinimalLength));
}

#[test]
fn nested_indefinite_lengths_read_as_outer_element() {
    let b = [0x30, 0x80, 0x30, 0x80, 0x02, 0x01, 0x05, 0x00, 0x00, 0x00, 0x00];
    let mut r = Reader::new(&b, Config::ber());
    let (tag, len, value) = r.read_tlv().unwrap();
    assert_eq!(tag, Tag::universal_constructed(16));
    assert_eq!(len, Length::Indefinite);
    assert_eq!(value, &b[2..9]);
    assert_eq!(r.position(), 11);
}

#[test]
fn as_i64_requires_minimal_encoding() {
    assert_eq!(Integer(&[0x00, 0x05]).as_i64(), None);
    assert_eq!(Integer(&[0xFF, 0x80]).as_i64(), None);
    assert_eq!(Integer(&[0x05]).as_i64(), Some(5));
    assert_eq!(Integer(&[0x00, 0x80]).as_i64(), Some(128));
    assert_eq!(Integer(&[0x80]).as_i64(), Some(-128));
}

#[test]
fn as_u64_accepts_any_nonnegative_value_that_fits() {
    let max = [0x00, 0xFF, 0xFF, 0xFF, 0xFF, 0xFF, 0xFF, 0xFF, 0xFF];
    assert_eq!(Integer(&max).as_u64(), Some(u64::MAX));
    assert_eq!(Integer(&[0x80]).as_u64(), None);
    assert_eq!(Integer(&[0x01, 0x00, 0x00, 0x00, 0x00, 0x00, 0x00, 0x00, 0x00]).as_u64(), None);
    assert_eq!(Integer(&[0x00, 0x00, 0x05]).as_u64(), Some(5));
    assert_eq!(Integer(&[0x00]).as_u64(), Some(0));
}

#[test]
fn bit_string_without_data_needs_zero_unused_bits() {
    let mut r = Reader::new(&[0x03, 0x01, 0x07], Config::der());
    assert_eq!(BitString::decode(&mut r).err(), Some(Error::BadBitString));
    let mut r = Reader::new(&[0x03, 0x01, 0x00], Config::der());
    let bs = BitString::decode(&mut r).unwrap();
    assert_eq!(bs.data.len(), 0);
    assert_eq!(bs.unused_bits, 0);
}

#[test]
fn wide_attribute_values_have_no_text() {
    assert_eq!(AttributeValue::Bmp(&[0x00, 0x41]).as_str(), None);
    assert_eq!(AttributeValue::Universal(&[0x00, 0x00, 0x00, 0x41]).as_str(), None);
    assert_eq!(AttributeValue::Utf8(b"A").as_str(), Some("A"));
}

#[test]
fn ber_set_of_comes_back_in_canonical_order() {
    let b = [0x31, 0x06, 0x02, 0x01, 0x02, 0x02, 0x01, 0x01];
    let mut r = Reader::new(&b, Config::ber());
    let v = read_set_of::<Integer>(&mut r).unwrap();
    assert_eq!(v, vec![Integer(&[0x01]), Integer(&[0x02])]);
    let mut r = Reader::new(&b, Config::der());
    assert_eq!(read_set_of::<Integer>(&mut r).err(), Some(Error::SetOfNotSorted));
}

#[test]
fn utc_time_must_end_at_zone() {
    assert_eq!(UtcTime(b"260814120000Zjunk").parse().err(), Some(Error::BadTime));
    assert!(UtcTime(b"260814120000Z").parse().is_ok());
}

#[test]
fn aki_serial_is_implicit_integer() {
    let content = [0x30, 0x0F, 0x06, 0x03, 0x55, 0x1D, 0x23, 0x04, 0x08, 0x30, 0x06, 0x80, 0x01, 0xAA, 0x82, 0x01, 0x05];
    let exts = Extensions::from_content(&content, Config::der()).unwrap();
    assert_eq!(
        exts.authority_key_identifier(),
        Ok(Some(AuthorityKeyIdentifier { key_identifier: Some(&[0xAA][..]), authority_cert_serial: Some(Integer(&[0x05])) }))
    );
}

#[test]
fn ocsp_basic_response_type_oid() {
    let b = [0x2B, 0x06, 0x01, 0x05, 0x05, 0x07, 0x30, 0x01, 0x01];
    assert!(is_basic_response_type(&b));
    assert!(!is_basic_response_type(&b[..8]));
}

#[test]
fn signed_integer_encoding_reads_back() {
    for v in [0i64, 1, -1, 127, 128, -128, -129, 255, 256, 65535, i64::MAX, i64::MIN] {
        let mut out = [0u8; 9];
        let n = encode_signed_integer(v, &mut out);
        assert_eq!(Integer(&out[..n]).as_i64(), Some(v));
    }
}

#[test]
fn generalized_time_with_century_matches_utc_time() {
    assert_eq!(GeneralizedTime(b"20260814120000Z").parse(), UtcTime(b"260814120000Z").parse());
    assert_eq!(GeneralizedTime(b"19991231235959Z").parse(), UtcTime(b"991231235959Z").parse());
}

#[test]
fn retagged_element_reads_back() {
    let enc = [0x02, 0x01, 0x05];
    let re = retag_implicit(&enc, Tag::context(false, 3)).unwrap();
    let (t, l, v) = reader::read_tlv(&re).unwrap();
    assert_eq!(t, Tag::context(false, 3));
    assert_eq!(l, Length::Definite(1));
    assert_eq!(v, &[0x05]);
}

#[test]
fn retagged_indefinite_element_reads_back() {
    // SEQUENCE (indefinite) { NULL }, re-tagged with a high tag number.
    let enc = [0x30, 0x80, 0x05, 0x00, 0x00, 0x00];
    let re = retag_implicit(&enc, Tag::context(true, 40)).unwrap();
    assert_eq!(re, vec![0xbf, 0x28, 0x80, 0x05, 0x00, 0x00, 0x00]);
    let mut r = Reader::new(&re, Config::ber());
    let (t, l, v) = r.read_tlv().unwrap();
    assert_eq!(t, Tag::context(true, 40));
    assert_eq!(l, Length::Indefinite);
    assert_eq!(v, &[0x05, 0x00]);
    assert_eq!(r.position(), 7);
}

#[test]
fn slice_writer_holds_nested_bytes_when_they_fit() {
    let mut buf = [0u8; 8];
    let mut w = Writer::new(&mut buf);
    w.write_u8(0xAA).unwrap();
    w.nested(Tag::universal_constructed(16), |inner| inner.write_bytes(&[0x05, 0x00])).unwrap();
    assert_eq!(w.position(), 5);
    assert_eq!(w.as_written(), &[0xAA, 0x30, 0x02, 0x05, 0x00]);
    let mut small = [0u8; 2];
    let mut w = Writer::new(&mut small);
    w.nested(Tag::universal_constructed(16), |inner| inner.write_bytes(&[0x05, 0x00])).unwrap();
    assert_eq!(w.position(), 2);
}

#[test]
fn nested_write_error_leaves_writer_unchanged() {
    let mut w = Writer::new_vec();
    w.write_bytes(&[0xAA]).unwrap();
    let r = w.nested(Tag::universal_constructed(16), |_inner| Err(Error::BadTime));
    assert_eq!(r, Err(Error::BadTime));
    assert_eq!(w.into_vec(), vec![0xAA]);
    let mut w = Writer::new_vec();
    w.nested(Tag::universal_constructed(16), |inner| inner.write_bytes(&[0x05, 0x00])).unwrap();
    assert_eq!(w.into_vec(), vec![0x30, 0x02, 0x05, 0x00]);
}
