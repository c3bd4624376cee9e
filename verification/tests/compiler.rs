use tpt_asn1::compiler::ast::{Builtin, DefaultValue, TagClass, Tagging, Type, TypeDef};
use tpt_asn1::compiler::error::CompilerError;
use tpt_asn1::compiler::lexer::{lex, Token};
use tpt_asn1::compiler::parse;

const SCHEMA: &str = "
-- a small module
module Example {
  AlgorithmIdentifier ::= SEQUENCE {
    algorithm OBJECT IDENTIFIER,
    parameters OCTET STRING OPTIONAL
  }
  Color ::= ENUMERATED { red(0), green(1), blue(-2) }
  Names ::= SEQUENCE OF UTF8String;
  Pick ::= CHOICE {
    a [0] IMPLICIT INTEGER,
    b [APPLICATION 5] BOOLEAN DEFAULT TRUE,
    c Names
  }
  Serial ::= INTEGER
}
";

#[test]
fn lexer_tokens() {
    let toks = lex("A ::= [1] -5 RELATIVE-OID; -- note\n}").unwrap();
    assert_eq!(
        toks,
        vec![
            Token::Ident("A".to_string()),
            Token::Colon,
            Token::Colon,
            Token::Equals,
            Token::LBracket,
            Token::Int(1),
            Token::RBracket,
            Token::Int(-5),
            Token::Ident("RELATIVE-OID".to_string()),
            Token::Semi,
            Token::RBrace,
            Token::Eof,
        ]
    );
}

#[test]
fn lexer_errors() {
    assert_eq!(lex("a @ b"), Err(CompilerError::LexError("unexpected byte 0x40".to_string())));
    assert_eq!(
        lex("99999999999999999999"),
        Err(CompilerError::LexError("integer overflow".to_string()))
    );
    assert_eq!(lex("9223372036854775807").unwrap()[0], Token::Int(i64::MAX));
    assert_eq!(lex("").unwrap(), vec![Token::Eof]);
}

#[test]
fn parse_schema_shapes() {
    let schema = parse(SCHEMA).unwrap();
    assert_eq!(schema.module, "Example");
    assert_eq!(schema.types.len(), 5);

    assert_eq!(schema.types[0].name, "AlgorithmIdentifier");
    match &schema.types[0].def {
        TypeDef::Sequence(fields) => {
            assert_eq!(fields.len(), 2);
            assert_eq!(fields[0].name, "algorithm");
            assert!(matches!(fields[0].ty, Type::Builtin(Builtin::ObjectIdentifier)));
            assert!(!fields[0].optional);
            assert!(matches!(fields[1].ty, Type::Builtin(Builtin::OctetString)));
            assert!(fields[1].optional);
        },
        other => panic!("unexpected {other:?}"),
    }

    match &schema.types[1].def {
        TypeDef::Enumerated(vs) => {
            assert_eq!(vs.len(), 3);
            assert_eq!(vs[2].name, "blue");
            assert_eq!(vs[2].number, -2);
        },
        other => panic!("unexpected {other:?}"),
    }

    match &schema.types[2].def {
        TypeDef::Alias(Type::SequenceOf(inner)) => {
            assert!(matches!(**inner, Type::Builtin(Builtin::Utf8String)));
        },
        other => panic!("unexpected {other:?}"),
    }

    match &schema.types[3].def {
        TypeDef::Choice(fields) => {
            match fields[0].tagging {
                Tagging::Tagged(t) => {
                    assert_eq!(t.class, TagClass::Context);
                    assert_eq!(t.number, 0);
                    assert!(!t.explicit);
                },
                Tagging::Untagged => panic!("tag expected"),
            }
            match fields[1].tagging {
                Tagging::Tagged(t) => {
                    assert_eq!(t.class, TagClass::Application);
                    assert_eq!(t.number, 5);
                    assert!(t.explicit);
                },
                Tagging::Untagged => panic!("tag expected"),
            }
            assert_eq!(fields[1].default, Some(DefaultValue::Boolean(true)));
            match &fields[2].ty {
                Type::Named(n) => assert_eq!(n, "Names"),
                other => panic!("unexpected {other:?}"),
            }
        },
        other => panic!("unexpected {other:?}"),
    }

    assert!(matches!(schema.types[4].def, TypeDef::Alias(Type::Builtin(Builtin::Integer))));
}

#[test]
fn parse_errors() {
    assert_eq!(
        parse("modul X { }").unwrap_err(),
        CompilerError::ParseError("expected 'module', got 'modul'".to_string())
    );
    assert_eq!(
        parse("module X { A ::= SEQUENCE { f SEQUENCE { g INTEGER } } }").unwrap_err(),
        CompilerError::ParseError(
            "inline SEQUENCE must be a named type; define it at module level".to_string()
        )
    );
    assert_eq!(
        parse("module X { A ::= SEQUENCE { f ENUMERATED } }").unwrap_err(),
        CompilerError::ParseError("ENUMERATED must be a named type: `Name ::= ENUMERATED { ... }`".to_string())
    );
    assert!(matches!(parse("module X { A ::= SEQUENCE {").unwrap_err(), CompilerError::ParseError(_)));
    assert!(matches!(parse("module X { A INTEGER }").unwrap_err(), CompilerError::ParseError(_)));
    assert!(matches!(parse("module X { a @ }").unwrap_err(), CompilerError::LexError(_)));
}

#[test]
fn compiler_error_text() {
    assert_eq!(CompilerError::lex("boom").to_string(), "lex error: boom");
    assert_eq!(CompilerError::parse("bad").to_string(), "parse error: bad");
    assert_eq!(CompilerError::codegen("x").to_string(), "codegen error: x");
}

#[test]
fn empty_source_is_an_empty_schema() {
    let s = parse("  -- nothing\n").unwrap();
    assert_eq!(s.module, "");
    assert!(s.types.is_empty());
}

#[test]
fn parse_error_messages_name_the_tokens() {
    assert_eq!(
        parse("module X { A INTEGER }").unwrap_err(),
        CompilerError::ParseError("expected Colon, got Ident(\"INTEGER\") (token #4)".to_string())
    );
    assert_eq!(
        parse("module X { A ::= 5 }").unwrap_err(),
        CompilerError::ParseError("expected identifier, got Int(5) (token #8)".to_string())
    );
    assert_eq!(
        parse("module").unwrap_err(),
        CompilerError::ParseError("expected identifier, got Eof (token #1)".to_string())
    );
    assert_eq!(
        parse("module X { A ::= ENUMERATED { red(x) } }").unwrap_err(),
        CompilerError::ParseError("expected integer, got Ident(\"x\")".to_string())
    );
    assert_eq!(
        parse("module X { A ::= SEQUENCE { f BOOLEAN DEFAULT maybe } }").unwrap_err(),
        CompilerError::ParseError("unsupported DEFAULT value: Ident(\"maybe\")".to_string())
    );
    assert_eq!(
        parse("module X { A ::= SEQUENCE { f INTEGER DEFAULT { } } }").unwrap_err(),
        CompilerError::ParseError("unsupported DEFAULT value: LBrace".to_string())
    );
    assert_eq!(
        parse("module X { A ::= ENUMERATED { red(-7 } }").unwrap_err(),
        CompilerError::ParseError("expected RParen, got RBrace (token #12)".to_string())
    );
}
