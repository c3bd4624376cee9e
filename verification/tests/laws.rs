use tpt_asn1::asn1::error::Error;
use tpt_asn1::asn1::reader::{self, Config, Reader};
use tpt_asn1::asn1::tag::{Class, Tag};
use tpt_asn1::asn1::length::Length;
use tpt_asn1::asn1::writer::Writer;
use tpt_asn1::asn1::types::Integer;

/// Writing then reading a primitive element gives back tag and content, for
/// low and high tag numbers and short and long lengths.
#[test]
fn written_primitive_reads_back() {
    let tags = [
        Tag::universal(Tag::INTEGER),
        Tag::context(false, 30),
        Tag::context(false, 31),
        Tag { class: Class::Private, constructed: false, number: 200_000 },
        Tag { class: Class::Application, constructed: true, number: u32::MAX },
    ];
    for tag in tags {
        for len in [0usize, 1, 127, 128, 255, 256, 70_000] {
            let content: Vec<u8> = (0..len).map(|i| (i % 251) as u8).collect();
            let mut w = Writer::new_vec();
            w.write_primitive(tag, &content).unwrap();
            let bytes = w.into_vec();
            let (t, l, v) = reader::read_tlv(&bytes).unwrap();
            assert_eq!(t, tag);
            assert_eq!(l, Length::Definite(len));
            assert_eq!(v, &content[..]);
            let mut r = Reader::new(&bytes, Config::ber());
            let (t2, _, v2) = r.read_tlv().unwrap();
            assert_eq!(t2, tag);
            assert_eq!(v2, &content[..]);
            assert!(r.is_empty());
        }
    }
}

#[test]
fn codec_error_text() {
    assert_eq!(Error::Truncated.to_string(), "truncated input");
    assert_eq!(Error::UnsupportedTagNumber(77).to_string(), "unsupported tag number 77");
    assert_eq!(
        Error::UnexpectedTag { expected: Tag::universal(2), actual: Tag::context(true, 0) }.to_string(),
        "unexpected tag: expected Tag { class: Universal, constructed: false, number: 2 }, got Tag { class: Context, constructed: true, number: 0 }"
    );
    assert_eq!(Error::Custom("my rule").to_string(), "my rule");
}

/// The quick-start example: reading `INTEGER 5`.
#[test]
fn quick_start_read_tlv() {
    let der = [0x02, 0x01, 0x05];
    let (tag, len, value) = reader::read_tlv(&der).unwrap();
    assert_eq!(tag.class, Class::Universal);
    assert_eq!(tag.number, 2);
    assert_eq!(len, Length::Definite(1));
    assert_eq!(value, &[0x05]);
}

/// Re-encoding what was read back from the writer's output gives the same bytes.
#[test]
fn reencode_is_byte_stable() {
    let content = [0x01u8, 0x00];
    let mut w = Writer::new_vec();
    w.write_primitive(Tag::universal(Tag::INTEGER), &content).unwrap();
    let bytes = w.into_vec();
    let (t, _, v) = reader::read_tlv(&bytes).unwrap();
    let mut w2 = Writer::new_vec();
    w2.write_primitive(t, v).unwrap();
    assert_eq!(w2.into_vec(), bytes);
}

/// Under DER an indefinite length is refused, and a definite one is kept.
#[test]
fn der_refuses_indefinite_length() {
    let indefinite = [0x30, 0x80, 0x02, 0x01, 0x05, 0x00, 0x00];
    assert_eq!(reader::read_tlv(&indefinite), Err(Error::IndefiniteLength));
    let mut r = Reader::new(&indefinite, Config::ber());
    let (t, l, v) = r.read_tlv().unwrap();
    assert_eq!(t, Tag::universal_constructed(Tag::SEQUENCE));
    assert_eq!(l, Length::Indefinite);
    assert_eq!(v, &[0x02, 0x01, 0x05]);
    let definite = [0x30, 0x03, 0x02, 0x01, 0x05];
    let (_, l2, v2) = reader::read_tlv(&definite).unwrap();
    assert_eq!(l2, Length::Definite(3));
    assert_eq!(v2, &[0x02, 0x01, 0x05]);
}

/// A decoded value must fill its input; trailing bytes are reported, and
/// the partial decoder ignores them.
#[test]
fn decode_requires_whole_input() {
    let bytes = [0x02, 0x01, 0x05, 0x00];
    assert_eq!(tpt_asn1::asn1::decode::<Integer>(&bytes).err(), Some(Error::TrailingData));
    let v = tpt_asn1::asn1::decode_partial::<Integer>(&bytes).unwrap();
    assert_eq!(v.as_bytes(), &[0x05]);
    assert_eq!(tpt_asn1::asn1::decode::<Integer>(&bytes[..3]).unwrap().as_bytes(), &[0x05]);
}

/// Under DER a long-form length whose value fits the short form is refused.
#[test]
fn der_refuses_long_form_short_value() {
    assert_eq!(reader::read_tlv(&[0x02, 0x81, 0x01, 0x05]).err(), Some(Error::NonMinimalLength));
    assert_eq!(reader::read_tlv(&[0x04, 0x82, 0x00, 0x7f]).err(), Some(Error::NonMinimalLength));
    let mut long = vec![0x04, 0x81, 0x80];
    long.extend(std::iter::repeat(0u8).take(0x80));
    let (_, l, v) = reader::read_tlv(&long).unwrap();
    assert_eq!(l, Length::Definite(0x80));
    assert_eq!(v.len(), 0x80);
}
