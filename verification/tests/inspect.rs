use tpt_asn1::asn1::error::Error as CoreError;
use tpt_asn1::asn1::reader::Config;
use tpt_asn1::cli::error::CliError;
use tpt_asn1::cli::fuzz::{count_nodes, count_openssl_elems, differential_finding};
use tpt_asn1::cli::inspect::{parse_tlvs, InspectOptions};
use tpt_asn1::cli::json::to_json;
use tpt_asn1::cli::pem::{decode_pem, detect_pem};
use tpt_asn1::cli::validate::check_certificate_structure;

fn opts(try_der: bool) -> InspectOptions {
    InspectOptions { config: Config::der(), max_depth: 64, try_der, show_bytes: false }
}

#[test]
fn pem_detection() {
    assert!(detect_pem(b"junk\n-----BEGIN CERTIFICATE-----\nAA==\n"));
    assert!(!detect_pem(b"-----BEGIN"));
    assert!(!detect_pem(&[0x30, 0x03, 0x02, 0x01, 0x05]));
}

#[test]
fn pem_decoding() {
    // MAMCAQU= is the DER 30 03 02 01 05.
    let text = b"preamble\r\n-----BEGIN TEST DATA-----\r\nMAMC\nAQU=\n-----END TEST DATA-----\ntrailer\n";
    let blocks = decode_pem(text).unwrap();
    assert_eq!(blocks.len(), 1);
    assert_eq!(blocks[0].label, "TEST DATA");
    assert_eq!(blocks[0].der, vec![0x30, 0x03, 0x02, 0x01, 0x05]);

    let two = b"-----BEGIN A-----\nAQID\n-----END A-----\n-----BEGIN  B -----\n/w==\n-----END B-----";
    let blocks = decode_pem(two).unwrap();
    assert_eq!(blocks.len(), 2);
    assert_eq!(blocks[0].der, vec![1, 2, 3]);
    assert_eq!(blocks[1].label, "B");
    assert_eq!(blocks[1].der, vec![0xff]);
}

#[test]
fn pem_errors() {
    assert_eq!(decode_pem(b"nothing here").unwrap_err(), "no PEM blocks found");
    assert_eq!(
        decode_pem(b"-----BEGIN CERT-----\nAAAA\n").unwrap_err(),
        "unterminated PEM block 'CERT'"
    );
    assert_eq!(
        decode_pem(b"-----BEGIN X-----\nA*AA\n-----END X-----\n").unwrap_err(),
        "invalid base64 character '*'"
    );
}

#[test]
fn pem_bad_base64_shows_the_first_byte() {
    assert_eq!(
        decode_pem("-----BEGIN X-----\nQU\u{e9}\n-----END X-----\n".as_bytes()).unwrap_err(),
        "invalid base64 character '\u{c3}'"
    );
    assert_eq!(
        decode_pem(b"-----BEGIN X-----\nQU=\n = \t\nQ\\\n-----END X-----\n").unwrap_err(),
        "invalid base64 character '\\\\'"
    );
}

#[test]
fn inspect_tree_and_summaries() {
    let der = [0x30, 0x08, 0x02, 0x01, 0x05, 0x04, 0x03, b'a', b'b', b'c'];
    let nodes = parse_tlvs(&der, &opts(false)).unwrap();
    assert_eq!(nodes.len(), 1);
    let seq = &nodes[0];
    assert_eq!(seq.tag_label, "SEQUENCE");
    assert_eq!(seq.summary, "2 element(s)");
    assert_eq!(seq.offset, 0);
    assert_eq!(seq.tlv_len, 10);
    assert!(seq.constructed);
    assert_eq!(seq.children[0].tag_label, "INTEGER");
    assert_eq!(seq.children[0].summary, "5 (05)");
    assert_eq!(seq.children[0].offset, 2);
    assert_eq!(seq.children[1].tag_label, "OCTET STRING");
    assert_eq!(seq.children[1].summary, "61 62 63");
    assert_eq!(seq.children[1].offset, 5);
}

#[test]
fn inspect_other_summaries() {
    let der = [
        0x01, 0x01, 0xff, // BOOLEAN true
        0x05, 0x00, // NULL
        0x06, 0x03, 0x55, 0x1d, 0x11, // OID 2.5.29.17
        0x03, 0x02, 0x04, 0xf0, // BIT STRING
        0x0c, 0x02, b'h', b'i', // UTF8String
        0x17, 0x0d, b'2', b'6', b'0', b'8', b'1', b'4', b'1', b'2', b'0', b'0', b'0', b'0', b'Z',
        0xa1, 0x00, // [CONTEXT 1] constructed, empty
        0x9f, 0x1f, 0x00, // [CONTEXT 31], empty
    ];
    let nodes = parse_tlvs(&der, &opts(false)).unwrap();
    let summaries: Vec<&str> = nodes.iter().map(|n| n.summary.as_str()).collect();
    assert_eq!(
        summaries,
        vec![
            "true",
            "NULL",
            "2.5.29.17",
            "unused 4 bits: f0",
            "\"hi\"",
            "2026-08-14T12:00:00Z (UTCTime)",
            "0 element(s)",
            "(empty)",
        ]
    );
    assert_eq!(nodes[6].tag_label, "[CONTEXT 1 constructed]");
    assert_eq!(nodes[7].tag_label, "[CONTEXT 31]");
}

#[test]
fn inspect_embedded_der_and_offsets() {
    // OCTET STRING wrapping an INTEGER, inside a SEQUENCE.
    let der = [0x30, 0x05, 0x04, 0x03, 0x02, 0x01, 0x07];
    let nodes = parse_tlvs(&der, &opts(true)).unwrap();
    let oct = &nodes[0].children[0];
    assert_eq!(oct.summary, "octet string, embedded DER (1 elem)");
    assert_eq!(oct.children[0].tag_label, "INTEGER");
    assert_eq!(oct.children[0].summary, "7 (07)");
    // Offsets count from the start of the whole input.
    assert_eq!(oct.offset, 2);
    assert_eq!(oct.children[0].offset, 4);

    let plain = parse_tlvs(&der, &opts(false)).unwrap();
    assert_eq!(plain[0].children[0].summary, "02 01 07");
    assert!(plain[0].children[0].children.is_empty());
}

#[test]
fn inspect_long_preview_and_errors() {
    let mut der = vec![0x04, 0x28];
    der.extend(std::iter::repeat(0xab).take(40));
    let nodes = parse_tlvs(&der, &opts(false)).unwrap();
    assert!(nodes[0].summary.ends_with(" … (40 bytes)"));
    assert!(nodes[0].summary.starts_with("ab ab"));

    assert_eq!(parse_tlvs(&[0x02, 0x05, 0x01], &opts(false)).unwrap_err(), CoreError::Truncated);
    assert!(parse_tlvs(&[], &opts(false)).unwrap().is_empty());
}

#[test]
fn json_rendering() {
    let der = [0x30, 0x03, 0x02, 0x01, 0x05];
    let nodes = parse_tlvs(&der, &opts(false)).unwrap();
    let json = to_json(&nodes, Some("DER"), "der");
    assert_eq!(
        json,
        "{\"tool\":\"tpt-asn1\",\"rule\":\"der\",\"block\":\"DER\",\"elements\":[{\"offset\":0,\"length\":5,\"class\":0,\"constructed\":true,\"tag_number\":16,\"tag\":\"SEQUENCE\",\"summary\":\"1 element(s)\",\"children\":[{\"offset\":2,\"length\":3,\"class\":0,\"constructed\":false,\"tag_number\":2,\"tag\":\"INTEGER\",\"summary\":\"5 (05)\",\"children\":[]}]}]}"
    );
    let escaped = to_json(&[], Some("a\"b\\\n\u{1}"), "ber");
    assert_eq!(escaped, "{\"tool\":\"tpt-asn1\",\"rule\":\"ber\",\"block\":\"a\\\"b\\\\\\n\\u0001\",\"elements\":[]}");
    assert_eq!(to_json(&[], None, "cer"), "{\"tool\":\"tpt-asn1\",\"rule\":\"cer\",\"block\":\"\",\"elements\":[]}");
}

#[test]
fn certificate_structure_check() {
    // SEQUENCE { SEQUENCE { INTEGER 1 }, SEQUENCE { NULL }, BIT STRING }
    let der = [0x30, 0x0c, 0x30, 0x03, 0x02, 0x01, 0x01, 0x30, 0x02, 0x05, 0x00, 0x03, 0x01, 0x00];
    let nodes = parse_tlvs(&der, &opts(false)).unwrap();
    assert_eq!(
        check_certificate_structure(&nodes[0]).unwrap(),
        "X.509 Certificate, tbsCertificate has 1 field(s), signature algorithm present"
    );

    let not_cert = parse_tlvs(&[0x02, 0x01, 0x01], &opts(false)).unwrap();
    match check_certificate_structure(&not_cert[0]) {
        Err(CliError::Msg(m)) => assert_eq!(m, "top-level element is not a SEQUENCE (expected Certificate)"),
        other => panic!("unexpected {other:?}"),
    }
    let two = parse_tlvs(&[0x30, 0x04, 0x05, 0x00, 0x05, 0x00], &opts(false)).unwrap();
    match check_certificate_structure(&two[0]) {
        Err(CliError::Msg(m)) => assert_eq!(m, "Certificate SEQUENCE must have 3 fields, found 2"),
        other => panic!("unexpected {other:?}"),
    }
}

#[test]
fn fuzz_helpers() {
    let der = [0x30, 0x05, 0x04, 0x03, 0x02, 0x01, 0x07];
    let nodes = parse_tlvs(&der, &opts(true)).unwrap();
    assert_eq!(count_nodes(&nodes), 3);

    let listing = b"    0:d=0  hl=2 l=   5 cons: SEQUENCE\n    2:d=1  hl=2 l=   3 prim: OCTET STRING\nnot an element\n\t7:x\n";
    assert_eq!(count_openssl_elems(listing), 3);

    assert_eq!(differential_finding(true, 3, true, 3), None);
    assert_eq!(
        differential_finding(true, 3, false, 0),
        Some("acceptance mismatch: tpt-asn1=true, openssl=false".to_string())
    );
    assert_eq!(
        differential_finding(true, 3, true, 4),
        Some("element count mismatch: tpt-asn1=3, openssl=4".to_string())
    );
}

#[test]
fn cli_error_text() {
    assert_eq!(CliError::msg("boom").to_string(), "boom");
    assert_eq!(CliError::Core(CoreError::Truncated).to_string(), "parse error: truncated input");
    assert_eq!(CliError::Pem("x".to_string()).to_string(), "pem error: x");
}
