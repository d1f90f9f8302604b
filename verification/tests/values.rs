//! Exact values the lexer and parser produce: numbers, escapes, error
//! messages, trivia, block labels, and the small helpers around them.

use standarx_dsl::ast::{Expr, InterpExpr, StringLit, StringPart, TriviaKind};
use standarx_dsl::diag::DiagKind;
use standarx_dsl::lexer::{token_kind_name, tokenize, LexItem, Token};
use standarx_dsl::{parse, Diag, Severity, Spanned, Stmt};

fn single_value(src: &str) -> Expr {
    let mut file = parse(src).expect("parse");
    assert_eq!(file.stmts.len(), 1);
    match file.stmts.remove(0).node {
        Stmt::Assign(a) => a.value.node,
        other => panic!("expected assignment, got {other:?}"),
    }
}

fn error_message(src: &str) -> String {
    parse(src).expect_err("expected error").kind.to_string()
}

#[test]
fn integers_parse_to_their_value() {
    assert_eq!(single_value("k 42"), Expr::Int(42));
    assert_eq!(single_value("k -7"), Expr::Int(-7));
    assert_eq!(single_value("k 007"), Expr::Int(7));
    assert_eq!(single_value("k 9223372036854775807"), Expr::Int(i64::MAX));
    assert_eq!(single_value("k -9223372036854775808"), Expr::Int(i64::MIN));
}

#[test]
fn integer_overflow_is_invalid_int() {
    let d = parse("k 9223372036854775808").expect_err("overflow");
    assert_eq!(d.kind.to_string(), "parse error: invalid int");
    assert_eq!(d.span, 2..21);
    assert!(error_message("k -9223372036854775809").contains("invalid int"));
}

#[test]
fn floats_keep_their_text() {
    assert_eq!(single_value("k 1.5"), Expr::Float("1.5".to_string()));
    assert_eq!(single_value("k -0.25"), Expr::Float("-0.25".to_string()));
    // A dot not followed by a digit ends the integer.
    assert!(parse("k 1.").is_err());
}

#[test]
fn literals_and_lists() {
    assert_eq!(single_value("k true"), Expr::Bool(true));
    assert_eq!(single_value("k false"), Expr::Bool(false));
    assert_eq!(single_value("k null"), Expr::Null);
    match single_value("k [1, 2 3]") {
        Expr::List(items) => {
            let vals: Vec<Expr> = items.into_iter().map(|s| s.node).collect();
            assert_eq!(vals, vec![Expr::Int(1), Expr::Int(2), Expr::Int(3)]);
        }
        other => panic!("expected list, got {other:?}"),
    }
    let mut items = match single_value("k [{ a 1 b \"x\" }]") {
        Expr::List(items) => items,
        other => panic!("expected list, got {other:?}"),
    };
    assert_eq!(items.len(), 1);
    match items.remove(0).node {
        Expr::Mapping(entries) => {
            assert_eq!(entries.len(), 2);
            assert_eq!(entries[0].key.node.as_str(), "a");
            assert_eq!(entries[0].value.node, Expr::Int(1));
            assert_eq!(entries[1].key.node.as_str(), "b");
        }
        other => panic!("expected mapping, got {other:?}"),
    }
}

#[test]
fn references_keep_their_path() {
    match single_value("k task.\"build step\".x") {
        Expr::Ref(r) => {
            let names: Vec<&str> = r.path.iter().map(|s| s.node.as_str()).collect();
            assert_eq!(names, vec!["task", "build step", "x"]);
            assert_eq!(r.path[0].span, 2..6);
        }
        other => panic!("expected ref, got {other:?}"),
    }
}

fn single_text(src: &str) -> String {
    match single_value(src) {
        Expr::String(StringLit { parts, .. }) => match &parts[..] {
            [StringPart::Lit(s)] => s.clone(),
            other => panic!("expected one literal part, got {other:?}"),
        },
        other => panic!("expected string, got {other:?}"),
    }
}

#[test]
fn escapes_decode() {
    assert_eq!(single_text(r#"k "a\nb\tc\\d\"e""#), "a\nb\tc\\d\"e");
    assert!(error_message(r#"k "\0""#).contains("unknown escape '\\0'"));
    assert_eq!(single_text(r#"k "\r""#), "\r");
    assert_eq!(single_text(r#"k "\u{41}\u{e9}\u{1F980}""#), "Aé🦀");
    assert_eq!(single_text(r"k `\$\``"), "$`");
}

#[test]
fn unknown_escape_names_the_character() {
    let d = parse(r#"k "\q""#).expect_err("unknown escape");
    assert_eq!(d.kind.to_string(), "parse error: unknown escape '\\q'");
    assert_eq!(d.span, 3..5);
}

#[test]
fn unicode_escape_errors() {
    assert!(error_message(r#"k "\u{d800}""#).contains("invalid unicode codepoint"));
    assert!(error_message(r#"k "\u{110000}""#).contains("invalid unicode codepoint"));
    assert!(error_message(r#"k "\u{}""#).contains("invalid \\u{...} hex digits"));
}

#[test]
fn unexpected_character_is_shown_quoted() {
    assert_eq!(error_message("@"), "parse error: unexpected character '@'");
    assert_eq!(error_message("k ?"), "parse error: unexpected character '?'");
    let d = parse("a\n  %").expect_err("unexpected");
    assert_eq!(d.span, 4..5);
}

#[test]
fn equals_sign_has_its_own_message() {
    let d = parse("key = 1").expect_err("equals");
    assert_eq!(
        d.kind.to_string(),
        "parse error: '=' is not used in the standar DSL — write `key value` instead of `key = value`"
    );
    assert_eq!(d.span, 4..5);
}

#[test]
fn interpolation_parts() {
    match single_value("k `a${x.y}b${1}${\"s\"}`") {
        Expr::String(lit) => {
            assert!(lit.template);
            assert!(!lit.multiline);
            assert_eq!(lit.parts.len(), 5);
            assert_eq!(lit.parts[0], StringPart::Lit("a".to_string()));
            match &lit.parts[1] {
                StringPart::Interp(s) => match &s.node {
                    InterpExpr::Ref(r) => assert_eq!(r.path.len(), 2),
                    other => panic!("expected ref, got {other:?}"),
                },
                other => panic!("expected interp, got {other:?}"),
            }
            assert_eq!(lit.parts[2], StringPart::Lit("b".to_string()));
            match &lit.parts[3] {
                StringPart::Interp(s) => assert_eq!(s.node, InterpExpr::Int(1)),
                other => panic!("expected interp, got {other:?}"),
            }
            match &lit.parts[4] {
                StringPart::Interp(s) => assert_eq!(s.node, InterpExpr::String("s".to_string())),
                other => panic!("expected interp, got {other:?}"),
            }
        }
        other => panic!("expected string, got {other:?}"),
    }
}

#[test]
fn plain_strings_do_not_interpolate() {
    let text = single_text(r#"k "a${b}""#);
    assert_eq!(text, "a${b}");
}

#[test]
fn comments_attach_as_trivia() {
    let file = parse("# head\nk 1 # tail\n\n\nj 2\n# end").expect("parse");
    assert_eq!(file.stmts.len(), 2);
    let first = &file.stmts[0];
    assert_eq!(first.leading.len(), 1);
    assert_eq!(first.leading[0].kind, TriviaKind::LineComment(" head".to_string()));
    match &first.trailing {
        Some(t) => assert_eq!(t.kind, TriviaKind::LineComment(" tail".to_string())),
        None => panic!("expected a trailing comment"),
    }
    let second = &file.stmts[1];
    assert!(second.leading.iter().any(|t| t.kind == TriviaKind::BlankLine));
    assert_eq!(file.trailing_trivia.len(), 1);
    assert_eq!(file.trailing_trivia[0].kind, TriviaKind::LineComment(" end".to_string()));
}

#[test]
fn blocks_with_and_without_labels() {
    let file = parse("task \"build\" { cmd \"x\" }\nmeta { }").expect("parse");
    assert_eq!(file.stmts.len(), 2);
    match &file.stmts[0].node {
        Stmt::Block(b) => {
            assert_eq!(b.kind.node.as_str(), "task");
            let label = b.label.as_ref().expect("label");
            assert_eq!(label.node, "build");
            assert_eq!(label.span, 5..12);
            assert_eq!(b.stmts.len(), 1);
        }
        other => panic!("expected block, got {other:?}"),
    }
    match &file.stmts[1].node {
        Stmt::Block(b) => {
            assert!(b.label.is_none());
            assert!(b.stmts.is_empty());
        }
        other => panic!("expected block, got {other:?}"),
    }
}

#[test]
fn tokenize_gives_tokens_in_order() {
    let items = tokenize("a { 1 , }").expect("tokens");
    let kinds: Vec<&str> = items
        .iter()
        .filter_map(|i| match i {
            LexItem::Token(t) => Some(token_kind_name(&t.node)),
            LexItem::Trivia { .. } => None,
        })
        .collect();
    assert_eq!(kinds.len(), 5);
    assert_eq!(kinds[0], token_kind_name(&Token::Ident("a".to_string())));
    assert_eq!(kinds[1], token_kind_name(&Token::LBrace));
}

#[test]
fn token_kind_names() {
    assert_eq!(token_kind_name(&Token::Int(1)), "int");
    assert_eq!(token_kind_name(&Token::LBrace), "'{'");
    assert_eq!(token_kind_name(&Token::Comma), "','");
}

#[test]
fn bare_text_of_string_literals() {
    let plain = StringLit {
        parts: vec![StringPart::Lit("x".to_string())],
        multiline: false,
        template: false,
    };
    assert_eq!(plain.try_into_bare_text(0..3, "label").expect("bare"), "x");
    let empty = StringLit { parts: vec![], multiline: false, template: true };
    assert_eq!(empty.try_into_bare_text(0..2, "label").expect("bare"), "");
    let two = StringLit {
        parts: vec![StringPart::Lit("a".to_string()), StringPart::Lit("b".to_string())],
        multiline: false,
        template: false,
    };
    assert_eq!(two.try_into_bare_text(0..4, "label").expect("bare"), "ab");
    let interp = StringLit {
        parts: vec![
            StringPart::Lit("a".to_string()),
            StringPart::Interp(Spanned::new(InterpExpr::Null, 1..8)),
        ],
        multiline: false,
        template: true,
    };
    let d = interp.try_into_bare_text(0..9, "ref segment").expect_err("interpolation");
    assert_eq!(d.kind.to_string(), "parse error: ref segment cannot contain interpolation");
    let multi = StringLit {
        parts: vec![StringPart::Lit("x".to_string())],
        multiline: true,
        template: true,
    };
    let d = multi.try_into_bare_text(1..9, "block label").expect_err("multiline");
    assert_eq!(d.kind.to_string(), "parse error: block label cannot be a multi-line string");
    assert_eq!(d.span, 1..9);
}

#[test]
fn diag_constructors() {
    let p = Diag::parse(1..2, "m");
    assert!(p.is_error());
    assert_eq!(p.to_string(), "parse error: m");
    let s = Diag::schema(3..4, "bad key");
    assert_eq!(s.severity, Severity::Error);
    assert!(matches!(s.kind, DiagKind::Schema(_)));
    assert_eq!(s.to_string(), "schema error: bad key");
    let w = Diag::schema_warn(0..0, "old");
    assert!(!w.is_error());
    assert_eq!(w.severity, Severity::Warning);
    assert_eq!(w.span, 0..0);
}

#[test]
fn spanned_map_and_as_ref() {
    let s = Spanned::new(20, 3..5);
    let r = s.as_ref();
    assert_eq!(*r.node, 20);
    assert_eq!(r.span, 3..5);
    let m = s.map(|v| v + 1);
    assert_eq!(m.node, 21);
    assert_eq!(m.span, 3..5);
}

#[test]
fn trees_clone_to_equal_trees() {
    let src = "a [1, { k `x${y}` }]\nb \"l\" { c -2.5 # note\n}\n# end";
    let file = parse(src).expect("parse");
    let copy = file.clone();
    assert_eq!(copy, file);
    let stmt = file.stmts[1].clone();
    assert_eq!(stmt, file.stmts[1]);
    match &file.stmts[0].node {
        Stmt::Assign(a) => assert_eq!(a.value.node.clone(), a.value.node),
        other => panic!("expected assignment, got {other:?}"),
    }
}

#[test]
fn error_spans_cover_whole_characters() {
    let d = parse("k é").expect_err("unexpected");
    assert_eq!(d.span, 2..4);
    assert!(d.kind.to_string().starts_with("parse error: unexpected character"));
    let d = parse("k 🦀").expect_err("unexpected");
    assert_eq!(d.span, 2..6);
    let d = parse("k \"\\é\"").expect_err("unknown escape");
    assert_eq!(d.span, 3..6);
    let d = parse("k `${é}`").expect_err("garbage in interpolation");
    assert_eq!(d.span, 5..7);
}

#[test]
fn error_spans_stay_inside_the_source() {
    let src = "k `${";
    let d = parse(src).expect_err("open interpolation");
    assert_eq!(d.span, 5..5);
    assert!(d.kind.to_string().contains("expected ref, number, bool, null, or string inside ${...}"));
    let d = parse("k \"\\u").expect_err("open unicode escape");
    assert!(d.span.end <= 5);
}
