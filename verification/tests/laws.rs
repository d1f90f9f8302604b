//! The library's cross-function properties, on concrete inputs.

use standarx_dsl::conversion::{byte_offset_to_position, span_to_range, Position};
use standarx_dsl::grammar::grammar_spec;
use standarx_dsl::lexer::{tokenize, LexItem, Token};
use standarx_dsl::lsp::{collect_diagnostics, diags_to_lsp, DiagnosticSeverity, DIAGNOSTIC_SOURCE};
use standarx_dsl::ast::FileV;
use standarx_dsl::schema::{DiagSeq, Schema, SourceBytes};
use standarx_dsl::{parse, parse_with_recovery, Diag, DiagKind, File};

const INPUTS: &[&str] = &[
    "",
    "k 1",
    "version \"0.1.0\"\nproject \"ext\" { path \"./ext\" }",
    "{ bad1 }\nok1 42\n{ bad2 again }\nok2 100\n",
    "broken { 1 2 3 }\nok \"value\"\n",
    "k @",
    "a b c d",
    "}}}} x 1",
    "g { k [1, {",
];

#[test]
fn recovery_agrees_with_parse() {
    for src in INPUTS {
        let (file, diags) = parse_with_recovery(src);
        match parse(src) {
            Ok(f) => {
                assert!(diags.is_empty(), "{src:?}: {diags:?}");
                assert_eq!(file, f, "{src:?}");
            }
            Err(_) => assert!(!diags.is_empty(), "{src:?}"),
        }
    }
}

#[test]
fn lexer_error_is_single_fatal_diagnostic() {
    let src = "ok 1\nk \"unterminated";
    let lexer_err = tokenize(src).expect_err("lexer error");
    let (file, diags) = parse_with_recovery(src);
    assert_eq!(file, File { stmts: Vec::new(), trailing_trivia: Vec::new() });
    assert_eq!(diags.len(), 1);
    assert_eq!(diags[0].span, lexer_err.span);
    assert_eq!(diags[0].to_string(), lexer_err.to_string());
}

#[test]
fn every_reported_diagnostic_is_a_parse_error() {
    for src in INPUTS {
        if let Err(d) = parse(src) {
            assert!(d.is_error(), "{src:?}");
            assert!(matches!(d.kind, DiagKind::Parse(_)), "{src:?}");
        }
        for d in parse_with_recovery(src).1 {
            assert!(d.is_error(), "{src:?}");
            assert!(matches!(d.kind, DiagKind::Parse(_)), "{src:?}");
        }
    }
}

#[test]
fn parse_is_deterministic() {
    for src in INPUTS {
        assert_eq!(format!("{:?}", parse(src)), format!("{:?}", parse(src)));
    }
}

#[test]
fn language_constants_are_the_reserved_words() {
    let spec = grammar_spec();
    assert_eq!(spec.language_constants, &["true", "false", "null"]);
    for word in spec.language_constants {
        let items = tokenize(word).expect("lex");
        assert_eq!(items.len(), 1);
        match &items[0] {
            LexItem::Token(t) => assert!(!matches!(t.node, Token::Ident(_)), "{word}"),
            other => panic!("expected a token, got {other:?}"),
        }
    }
    for word in ["truex", "nul", "False"] {
        match &tokenize(word).expect("lex")[0] {
            LexItem::Token(t) => assert!(matches!(t.node, Token::Ident(_)), "{word}"),
            other => panic!("expected a token, got {other:?}"),
        }
    }
}

#[test]
fn grammar_spec_values() {
    let spec = grammar_spec();
    assert_eq!(spec.display_name, "Standarx DSL");
    assert_eq!(spec.scope_name, "source.standarx");
    assert_eq!(spec.lang_slug, "standarx");
    assert_eq!(spec.line_comment, "#");
    assert_eq!(spec.brackets, &[("{", "}"), ("[", "]")]);
    assert_eq!(spec.auto_closing_pairs.len(), 4);
    assert_eq!(spec.surrounding_pairs, spec.auto_closing_pairs);
    assert_eq!(spec.word_pattern, "[A-Za-z_][A-Za-z0-9_]*");
}

#[test]
fn span_to_range_converts_both_ends() {
    let src = "ab\ncé🦀d";
    let r = span_to_range(src, &(1..src.len()));
    assert_eq!(r.start, Position { line: 0, character: 1 });
    assert_eq!(r.end, byte_offset_to_position(src, src.len()));
    assert_eq!(r.end, Position { line: 1, character: 5 });
}

struct KeyCounter;

impl Schema for KeyCounter {
    fn validated(&self, _file: FileV, _src: SourceBytes) -> DiagSeq {
        panic!("read by the verifier only")
    }

    fn validate(&self, file: &File, _src: &str) -> Vec<Diag> {
        file.stmts
            .iter()
            .map(|s| Diag::schema_warn(s.span.clone(), "statement seen"))
            .collect()
    }
}

struct RejectAll;

impl Schema for RejectAll {
    fn validated(&self, _file: FileV, _src: SourceBytes) -> DiagSeq {
        panic!("read by the verifier only")
    }

    fn validate(&self, _file: &File, src: &str) -> Vec<Diag> {
        vec![Diag::schema(0..src.len(), "rejected")]
    }
}

#[test]
fn collect_diagnostics_reports_the_parse_error_alone() {
    let src = "k 1\n{ broken }";
    let schemas: Vec<Box<dyn Schema>> = vec![Box::new(RejectAll)];
    let out = collect_diagnostics(src, &schemas);
    assert_eq!(out.len(), 1);
    assert_eq!(out[0].severity, Some(DiagnosticSeverity::Error));
    assert_eq!(out[0].range.start, Position { line: 1, character: 0 });
    assert!(out[0].message.starts_with("parse error: "));
}

#[test]
fn collect_diagnostics_concatenates_schemas_in_order() {
    let src = "a 1\nb 2";
    let none: Vec<Box<dyn Schema>> = Vec::new();
    assert!(collect_diagnostics(src, &none).is_empty());
    let schemas: Vec<Box<dyn Schema>> = vec![Box::new(KeyCounter), Box::new(RejectAll)];
    let out = collect_diagnostics(src, &schemas);
    assert_eq!(out.len(), 3);
    assert_eq!(out[0].severity, Some(DiagnosticSeverity::Warning));
    assert_eq!(out[0].range.start, Position { line: 0, character: 0 });
    assert_eq!(out[1].range.start, Position { line: 1, character: 0 });
    assert_eq!(out[2].message, "schema error: rejected");
    assert_eq!(out[2].source.as_deref(), Some(DIAGNOSTIC_SOURCE));
    assert_eq!(out[2].range.end, Position { line: 1, character: 3 });
}

#[test]
fn diags_to_lsp_keeps_order() {
    let src = "x\ny";
    let diags = vec![Diag::schema(2..3, "second line"), Diag::parse(0..1, "first line")];
    let out = diags_to_lsp(src, &diags);
    assert_eq!(out.len(), 2);
    assert_eq!(out[0].range.start.line, 1);
    assert_eq!(out[0].message, "schema error: second line");
    assert_eq!(out[1].range.start.line, 0);
}
