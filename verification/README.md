# tpt_asn1

A zero-copy ASN.1 DER/BER/CER codec with X.509 and CMS (PKCS#7) support, a
front end for the `.tpt-asn1` schema language, and the structural inspector
behind the `tpt-asn1` command-line tool — written in Verus. Library
functions carry contracts proved by Verus. Where a pluggable backend (the
signature verifier, the envelope decryptor) does the cryptography, a
contract states what the library hands to the backend and does with its
answer; the answer itself is stated only for a backend that declares it
follows its spec. Diagnostics are specified character for character, but
for the quoted `Debug` form of a string or character inside them, which is
named rather than spelled out.

## Layout

- `src/asn1/` — tags, lengths, the reader and writer, the universal types,
  and `laws.rs`: what the reader makes of what the writer writes.
- `src/x509/` — certificates, names, extensions (fail-closed on unknown
  critical ones), CRLs, OCSP, and RFC 5280 path building and validation.
- `src/cms/` — ContentInfo, SignedData, EnvelopedData and signature
  verification against a pluggable backend.
- `src/compiler/` — the schema language's lexer and parser, each specified
  by a grammar written as spec functions.
- `src/cli/` — PEM framing and base64, the TLV inspection tree, its text and
  JSON renderings, and the decisions of the differential fuzzer.
- `src/text.rs` — character and number rendering shared by the above.
- `app/` — the `tpt-asn1` command line (argument parsing, files, the
  external `openssl` process, printing).
- `tests/` — scenarios for every layer.
