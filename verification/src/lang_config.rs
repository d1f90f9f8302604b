//! The VSCode-style language configuration document: brackets, comments,
//! auto-closing and surrounding pairs, and the word boundary.
use crate::grammar::{
    auto_closing_pairs_v, brackets_v, grammar_spec, line_comment_v, surrounding_pairs_v,
    word_pattern_v, GrammarSpec,
};
use crate::json::{items, items_v, jstr, members, members_v, push_item, push_member, JsonV, JsonValue};
use vstd::prelude::*;

verus! {

/// A pair as a two-element array.
pub open spec fn pair_arr(o: Seq<char>, c: Seq<char>) -> JsonV {
    JsonV::Arr(seq![JsonV::Str(o), JsonV::Str(c)])
}

/// A pair as an `{ "open", "close" }` object.
pub open spec fn pair_obj(o: Seq<char>, c: Seq<char>) -> JsonV {
    JsonV::Obj(seq![("open"@, JsonV::Str(o)), ("close"@, JsonV::Str(c))])
}

/// The members of the language configuration document, in order.
pub open spec fn config_members() -> Seq<(Seq<char>, JsonV)> {
    seq![
        ("comments"@, JsonV::Obj(seq![("lineComment"@, JsonV::Str("#"@))])),
        ("brackets"@, JsonV::Arr(seq![pair_arr("{"@, "}"@), pair_arr("["@, "]"@)])),
        (
            "autoClosingPairs"@,
            JsonV::Arr(
                seq![
                    pair_obj("{"@, "}"@),
                    pair_obj("["@, "]"@),
                    pair_obj("\""@, "\""@),
                    pair_obj("`"@, "`"@),
                ],
            ),
        ),
        (
            "surroundingPairs"@,
            JsonV::Arr(
                seq![
                    pair_arr("{"@, "}"@),
                    pair_arr("["@, "]"@),
                    pair_arr("\""@, "\""@),
                    pair_arr("`"@, "`"@),
                ],
            ),
        ),
        ("wordPattern"@, JsonV::Str("[A-Za-z_][A-Za-z0-9_]*"@)),
    ]
}

/// The language configuration document.
pub open spec fn spec_config_document() -> JsonV {
    JsonV::Obj(config_members())
}

fn jpair_arr(o: &str, c: &str) -> (r: JsonValue)
    ensures
        r@ == pair_arr(o@, c@),
{
    let mut xs = items();
    push_item(&mut xs, jstr(o));
    push_item(&mut xs, jstr(c));
    let r = JsonValue::Arr(xs);
    assert(r@ == JsonV::Arr(items_v(xs@)));
    assert(items_v(xs@) == seq![JsonV::Str(o@), JsonV::Str(c@)]);
    r
}

fn jpair_obj(o: &str, c: &str) -> (r: JsonValue)
    ensures
        r@ == pair_obj(o@, c@),
{
    let mut ms = members();
    push_member(&mut ms, "open", jstr(o));
    push_member(&mut ms, "close", jstr(c));
    let r = JsonValue::Obj(ms);
    assert(r@ == JsonV::Obj(members_v(ms@)));
    assert(members_v(ms@) == seq![("open"@, JsonV::Str(o@)), ("close"@, JsonV::Str(c@))]);
    r
}

/// The pairs `ps` as two-element arrays.
fn pair_arrays(ps: &[(&str, &str)]) -> (r: JsonValue)
    ensures
        r@ == JsonV::Arr(Seq::new(ps@.len(), |i: int| pair_arr(ps@[i].0@, ps@[i].1@))),
{
    let mut xs = items();
    let mut i: usize = 0;
    while i < ps.len()
        invariant
            i <= ps@.len(),
            items_v(xs@) == Seq::new(i as nat, |k: int| pair_arr(ps@[k].0@, ps@[k].1@)),
        decreases ps.len() - i,
    {
        let (o, c) = ps[i];
        push_item(&mut xs, jpair_arr(o, c));
        i += 1;
        assert(items_v(xs@) =~= Seq::new(i as nat, |k: int| pair_arr(ps@[k].0@, ps@[k].1@)));
    }
    let r = JsonValue::Arr(xs);
    assert(r@ == JsonV::Arr(items_v(xs@)));
    r
}

/// The pairs `ps` as `{ "open", "close" }` objects.
fn pair_objects(ps: &[(&str, &str)]) -> (r: JsonValue)
    ensures
        r@ == JsonV::Arr(Seq::new(ps@.len(), |i: int| pair_obj(ps@[i].0@, ps@[i].1@))),
{
    let mut xs = items();
    let mut i: usize = 0;
    while i < ps.len()
        invariant
            i <= ps@.len(),
            items_v(xs@) == Seq::new(i as nat, |k: int| pair_obj(ps@[k].0@, ps@[k].1@)),
        decreases ps.len() - i,
    {
        let (o, c) = ps[i];
        push_item(&mut xs, jpair_obj(o, c));
        i += 1;
        assert(items_v(xs@) =~= Seq::new(i as nat, |k: int| pair_obj(ps@[k].0@, ps@[k].1@)));
    }
    let r = JsonValue::Arr(xs);
    assert(r@ == JsonV::Arr(items_v(xs@)));
    r
}

/// The `language-configuration.json` document, built from the grammar
/// description.
pub fn config_document() -> (r: JsonValue)
    ensures
        r@ == spec_config_document(),
{
    let g: GrammarSpec = grammar_spec();
    let mut comments = members();
    push_member(&mut comments, "lineComment", jstr(g.line_comment));
    let comments = JsonValue::Obj(comments);
    let brackets = pair_arrays(g.brackets);
    let auto_closing = pair_objects(g.auto_closing_pairs);
    let surrounding = pair_arrays(g.surrounding_pairs);
    let mut doc = members();
    push_member(&mut doc, "comments", comments);
    push_member(&mut doc, "brackets", brackets);
    push_member(&mut doc, "autoClosingPairs", auto_closing);
    push_member(&mut doc, "surroundingPairs", surrounding);
    push_member(&mut doc, "wordPattern", jstr(g.word_pattern));
    let r = JsonValue::Obj(doc);
    proof {
        assert(comments@ == JsonV::Obj(seq![("lineComment"@, JsonV::Str("#"@))])) by {
            assert(members_v(comments->Obj_0@) == seq![("lineComment"@, JsonV::Str("#"@))]);
        }
        assert(Seq::new(g.brackets@.len(), |i: int| pair_arr(g.brackets@[i].0@, g.brackets@[i].1@))
            =~= seq![pair_arr("{"@, "}"@), pair_arr("["@, "]"@)]);
        assert(Seq::new(
            g.auto_closing_pairs@.len(),
            |i: int| pair_obj(g.auto_closing_pairs@[i].0@, g.auto_closing_pairs@[i].1@),
        ) =~= seq![
            pair_obj("{"@, "}"@),
            pair_obj("["@, "]"@),
            pair_obj("\""@, "\""@),
            pair_obj("`"@, "`"@),
        ]);
        assert(Seq::new(
            g.surrounding_pairs@.len(),
            |i: int| pair_arr(g.surrounding_pairs@[i].0@, g.surrounding_pairs@[i].1@),
        ) =~= seq![
            pair_arr("{"@, "}"@),
            pair_arr("["@, "]"@),
            pair_arr("\""@, "\""@),
            pair_arr("`"@, "`"@),
        ]);
        assert(r@ == JsonV::Obj(members_v(doc@)));
        assert(members_v(doc@) == config_members());
    }
    r
}

/// Pairs as two-element arrays, in order.
pub open spec fn arrays_of(ps: Seq<(Seq<char>, Seq<char>)>) -> Seq<JsonV> {
    Seq::new(ps.len(), |i: int| JsonV::Arr(seq![JsonV::Str(ps[i].0), JsonV::Str(ps[i].1)]))
}

/// Pairs as `{ "open", "close" }` objects, in order.
pub open spec fn objects_of(ps: Seq<(Seq<char>, Seq<char>)>) -> Seq<JsonV> {
    Seq::new(
        ps.len(),
        |i: int| JsonV::Obj(seq![("open"@, JsonV::Str(ps[i].0)), ("close"@, JsonV::Str(ps[i].1))]),
    )
}

/// The configuration carries exactly the grammar's description: its line
/// comment and word pattern, its brackets and surrounding pairs as
/// two-element arrays and its auto-closing pairs as open/close objects,
/// in order.
pub proof fn law_config_lists_the_grammar_pairs()
    ensures
        config_members().len() == 5,
        config_members()[0] == (
            "comments"@,
            JsonV::Obj(seq![("lineComment"@, JsonV::Str(line_comment_v()))]),
        ),
        config_members()[4] == ("wordPattern"@, JsonV::Str(word_pattern_v())),
        config_members()[1] == ("brackets"@, JsonV::Arr(arrays_of(brackets_v()))),
        config_members()[2] == ("autoClosingPairs"@, JsonV::Arr(objects_of(auto_closing_pairs_v()))),
        config_members()[3] == ("surroundingPairs"@, JsonV::Arr(arrays_of(surrounding_pairs_v()))),
{
    assert(arrays_of(brackets_v()) =~= seq![pair_arr("{"@, "}"@), pair_arr("["@, "]"@)]);
    assert(objects_of(auto_closing_pairs_v()) =~= seq![
        pair_obj("{"@, "}"@),
        pair_obj("["@, "]"@),
        pair_obj("\""@, "\""@),
        pair_obj("`"@, "`"@),
    ]);
    assert(arrays_of(surrounding_pairs_v()) =~= seq![
        pair_arr("{"@, "}"@),
        pair_arr("["@, "]"@),
        pair_arr("\""@, "\""@),
        pair_arr("`"@, "`"@),
    ]);
}

} // verus!
