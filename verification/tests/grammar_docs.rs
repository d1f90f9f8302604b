//! The editor grammar documents: top-level keys, scope naming, bracket
//! pairs.

use serde_json::Value;
use standarx_dsl::grammar::grammar_spec;
use standarx_dsl::json::JsonValue;
use standarx_dsl::lang_config::config_document;
use standarx_dsl::textmate::grammar_document;

fn to_value(v: JsonValue) -> Value {
    match v {
        JsonValue::Null => Value::Null,
        JsonValue::Bool(b) => Value::Bool(b),
        JsonValue::Str(s) => Value::String(s),
        JsonValue::Arr(xs) => Value::Array(xs.into_iter().map(to_value).collect()),
        JsonValue::Obj(ms) => {
            Value::Object(ms.into_iter().map(|(k, v)| (k, to_value(v))).collect::<serde_json::Map<_, _>>())
        }
    }
}

#[test]
fn textmate_grammar_has_required_top_level_keys() {
    let spec = grammar_spec();
    let g = to_value(grammar_document());
    assert_eq!(g["name"], spec.display_name);
    assert_eq!(g["scopeName"], spec.scope_name);
    assert!(g["patterns"].is_array());
    assert!(g["repository"].is_object());
}

#[test]
fn textmate_inner_scopes_use_lang_slug_not_full_scope_name() {
    // Scopes like `comment.line.number-sign.standarx`, not
    // `...source.standarx`.
    let spec = grammar_spec();
    let g = to_value(grammar_document());
    let comment_name = g["repository"]["comment"]["name"].as_str().unwrap();
    assert!(
        comment_name.ends_with(&format!(".{}", spec.lang_slug)),
        "comment scope ends with .{}, got {comment_name}",
        spec.lang_slug
    );
    assert!(
        !comment_name.contains("source."),
        "inner scopes must not embed the full scope_name (got {comment_name})"
    );
}

#[test]
fn textmate_grammar_covers_all_token_categories() {
    let g = to_value(grammar_document());
    let repo = g["repository"].as_object().unwrap();
    for required in [
        "comment",
        "constant",
        "number",
        "string-plain",
        "string-inline-template",
        "string-multiline-template",
        "interpolation",
        "punctuation",
        "identifier",
    ] {
        assert!(repo.contains_key(required), "missing repository.{required}");
    }
}

#[test]
fn language_configuration_has_required_keys() {
    let spec = grammar_spec();
    let c = to_value(config_document());
    assert_eq!(c["comments"]["lineComment"], spec.line_comment);
    assert!(c["brackets"].is_array());
    assert!(c["autoClosingPairs"].is_array());
    assert!(c["surroundingPairs"].is_array());
    assert_eq!(c["wordPattern"], spec.word_pattern);
}

#[test]
fn language_configuration_brackets_match_spec() {
    let spec = grammar_spec();
    let c = to_value(config_document());
    let brackets: &Vec<Value> = c["brackets"].as_array().unwrap();
    assert_eq!(brackets.len(), spec.brackets.len());
    for (got, (open, close)) in brackets.iter().zip(spec.brackets) {
        assert_eq!(got[0], *open);
        assert_eq!(got[1], *close);
    }
}

fn all_names(v: &JsonValue, under_name: bool, out: &mut Vec<String>) {
    match v {
        JsonValue::Str(s) if under_name => out.push(s.clone()),
        JsonValue::Arr(xs) => xs.iter().for_each(|x| all_names(x, false, out)),
        JsonValue::Obj(ms) => ms.iter().for_each(|(k, x)| all_names(x, k == "name", out)),
        _ => {}
    }
}

#[test]
fn every_inner_scope_ends_with_the_slug() {
    let doc = grammar_document();
    let repository = match &doc {
        JsonValue::Obj(ms) => &ms.iter().find(|(k, _)| k == "repository").unwrap().1,
        other => panic!("expected an object, got {other:?}"),
    };
    let mut names = Vec::new();
    all_names(repository, false, &mut names);
    assert_eq!(names.len(), 18);
    for n in names {
        assert!(n.ends_with(".standarx") && !n.starts_with("source."), "{n}");
    }
    assert_eq!(to_value(config_document())["autoClosingPairs"][2]["open"], "\"");
}
