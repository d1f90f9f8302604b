//! The TextMate grammar document, built from the grammar description:
//! scope names, patterns, and the escapes that the lexer accepts.
use crate::grammar::{grammar_spec, language_constants_v, GrammarSpec};
use crate::json::{items_v, members_v, items, jscoped, jstr, members, push_item, push_member, JsonV, JsonValue};
use vstd::prelude::*;

verus! {

/// The inner scope name `prefix.standarx`.
pub open spec fn scoped(prefix: Seq<char>) -> JsonV {
    JsonV::Str(prefix + "."@ + "standarx"@)
}

/// Whether `w` occurs in `t`.
pub open spec fn occurs_in(t: Seq<char>, w: Seq<char>) -> bool {
    exists|i: int| 0 <= i && i + w.len() <= t.len() && #[trigger] t.subrange(i, i + w.len()) == w
}

/// Whether `t` is an inner scope name: it ends with the language slug
/// `.standarx` and does not embed the full scope name `source.`.
pub open spec fn inner_scope(t: Seq<char>) -> bool {
    &&& t.len() >= 9
    &&& t.subrange(t.len() - 9, t.len() as int) == ".standarx"@
    &&& !occurs_in(t, "source."@)
}

/// Whether no `u` is followed by `r` in `t` from `k` on.
spec fn no_ur_from(t: Seq<char>, k: int) -> bool
    decreases t.len() - k,
{
    if k < 0 || k + 1 >= t.len() {
        true
    } else {
        !(t[k] == 'u' && t[k + 1] == 'r') && no_ur_from(t, k + 1)
    }
}

proof fn lemma_no_ur(t: Seq<char>, k: int, j: int)
    requires
        0 <= k <= j,
        j + 1 < t.len(),
        no_ur_from(t, k),
    ensures
        !(t[j] == 'u' && t[j + 1] == 'r'),
    decreases j - k,
{
    if k < j {
        lemma_no_ur(t, k + 1, j);
    }
}

/// Whether every `"name"` member inside `v`, at any depth, is an inner
/// scope name.
pub open spec fn names_scoped(v: JsonV) -> bool
    decreases v, 0int,
{
    match v {
        JsonV::Obj(ms) => members_scoped(ms, 0),
        JsonV::Arr(xs) => items_scoped(xs, 0),
        _ => true,
    }
}

pub open spec fn members_scoped(ms: Seq<(Seq<char>, JsonV)>, i: int) -> bool
    decreases ms, ms.len() - i,
{
    if i < 0 || i >= ms.len() {
        true
    } else {
        &&& (ms[i].0 == "name"@ ==> (ms[i].1 matches JsonV::Str(t) && inner_scope(t)))
        &&& names_scoped(ms[i].1)
        &&& members_scoped(ms, i + 1)
    }
}

pub open spec fn items_scoped(xs: Seq<JsonV>, i: int) -> bool
    decreases xs, xs.len() - i,
{
    if i < 0 || i >= xs.len() {
        true
    } else {
        names_scoped(xs[i]) && items_scoped(xs, i + 1)
    }
}

proof fn lemma_scoped(p: Seq<char>)
    requires
        no_ur_from(p + "."@ + "standarx"@, 0),
    ensures
        scoped(p) matches JsonV::Str(t) && inner_scope(t),
{
    reveal_strlit(".");
    reveal_strlit("standarx");
    reveal_strlit(".standarx");
    reveal_strlit("source.");
    let t = p + "."@ + "standarx"@;
    assert(t.subrange(t.len() - 9, t.len() as int) =~= ".standarx"@);
    if occurs_in(t, "source."@) {
        let i = choose|i: int|
            0 <= i && i + 7 <= t.len() && #[trigger] t.subrange(i, i + 7) == "source."@;
        assert(t.subrange(i, i + 7)[2] == t[i + 2]);
        assert(t.subrange(i, i + 7)[3] == t[i + 3]);
        lemma_no_ur(t, 0, i + 2);
    }
}

/// The repository entry `comment`.
pub open spec fn tm_comment() -> JsonV {
    JsonV::Obj(
        seq![
            ("name"@, scoped("comment.line.number-sign"@)),
            ("match"@, JsonV::Str("#.*$"@)),
        ],
    )
}

/// The repository entry `constant`.
pub open spec fn tm_constant() -> JsonV {
    JsonV::Obj(
        seq![
            ("name"@, scoped("constant.language"@)),
            ("match"@, JsonV::Str("\\b(true|false|null)\\b"@)),
        ],
    )
}

/// The repository entry `number`.
pub open spec fn tm_number() -> JsonV {
    JsonV::Obj(
        seq![
            ("patterns"@, JsonV::Arr(
                seq![
                    JsonV::Obj(
                        seq![
                            ("name"@, scoped("constant.numeric.float"@)),
                            ("match"@, JsonV::Str("-?\\b\\d+\\.\\d+([eE][+-]?\\d+)?\\b"@)),
                        ],
                    ),
                    JsonV::Obj(
                        seq![
                            ("name"@, scoped("constant.numeric.integer"@)),
                            ("match"@, JsonV::Str("-?\\b\\d+\\b"@)),
                        ],
                    ),
                ],
            )),
        ],
    )
}

/// The repository entry `string-plain`.
pub open spec fn tm_string_plain() -> JsonV {
    JsonV::Obj(
        seq![
            ("name"@, scoped("string.quoted.double"@)),
            ("begin"@, JsonV::Str("\""@)),
            ("end"@, JsonV::Str("\""@)),
            ("patterns"@, JsonV::Arr(
                seq![
                    JsonV::Obj(
                        seq![
                            ("name"@, scoped("constant.character.escape"@)),
                            ("match"@, JsonV::Str("\\\\([\\\\\"`nrt0]|u\\{[0-9a-fA-F]{1,6}\\})"@)),
                        ],
                    ),
                ],
            )),
        ],
    )
}

/// The repository entry `string-inline-template`.
pub open spec fn tm_string_inline_template() -> JsonV {
    JsonV::Obj(
        seq![
            ("name"@, scoped("string.quoted.other.template"@)),
            ("begin"@, JsonV::Str("`"@)),
            ("end"@, JsonV::Str("`"@)),
            ("patterns"@, JsonV::Arr(
                seq![
                    JsonV::Obj(
                        seq![
                            ("include"@, JsonV::Str("#string-escape"@)),
                        ],
                    ),
                    JsonV::Obj(
                        seq![
                            ("include"@, JsonV::Str("#interpolation"@)),
                        ],
                    ),
                ],
            )),
        ],
    )
}

/// The repository entry `string-multiline-template`.
pub open spec fn tm_string_multiline_template() -> JsonV {
    JsonV::Obj(
        seq![
            ("name"@, scoped("string.quoted.other.template.multiline"@)),
            ("begin"@, JsonV::Str("```"@)),
            ("end"@, JsonV::Str("```"@)),
            ("patterns"@, JsonV::Arr(
                seq![
                    JsonV::Obj(
                        seq![
                            ("include"@, JsonV::Str("#string-escape"@)),
                        ],
                    ),
                    JsonV::Obj(
                        seq![
                            ("include"@, JsonV::Str("#interpolation"@)),
                        ],
                    ),
                ],
            )),
        ],
    )
}

/// The repository entry `string-escape`.
pub open spec fn tm_string_escape() -> JsonV {
    JsonV::Obj(
        seq![
            ("name"@, scoped("constant.character.escape"@)),
            ("match"@, JsonV::Str("\\\\([\\\\\"`$nrt0]|u\\{[0-9a-fA-F]{1,6}\\})"@)),
        ],
    )
}

/// The repository entry `interpolation`.
pub open spec fn tm_interpolation() -> JsonV {
    JsonV::Obj(
        seq![
            ("name"@, scoped("meta.interpolation"@)),
            ("begin"@, JsonV::Str("\\$\\{"@)),
            ("beginCaptures"@, JsonV::Obj(
                seq![
                    ("0"@, JsonV::Obj(
                        seq![
                            ("name"@, scoped("punctuation.section.interpolation.begin"@)),
                        ],
                    )),
                ],
            )),
            ("end"@, JsonV::Str("\\}"@)),
            ("endCaptures"@, JsonV::Obj(
                seq![
                    ("0"@, JsonV::Obj(
                        seq![
                            ("name"@, scoped("punctuation.section.interpolation.end"@)),
                        ],
                    )),
                ],
            )),
            ("patterns"@, JsonV::Arr(
                seq![
                    JsonV::Obj(
                        seq![
                            ("include"@, JsonV::Str("#constant"@)),
                        ],
                    ),
                    JsonV::Obj(
                        seq![
                            ("include"@, JsonV::Str("#number"@)),
                        ],
                    ),
                    JsonV::Obj(
                        seq![
                            ("include"@, JsonV::Str("#string-plain"@)),
                        ],
                    ),
                    JsonV::Obj(
                        seq![
                            ("name"@, scoped("variable.other"@)),
                            ("match"@, JsonV::Str("[A-Za-z_][A-Za-z0-9_]*"@)),
                        ],
                    ),
                ],
            )),
        ],
    )
}

/// The repository entry `punctuation`.
pub open spec fn tm_punctuation() -> JsonV {
    JsonV::Obj(
        seq![
            ("patterns"@, JsonV::Arr(
                seq![
                    JsonV::Obj(
                        seq![
                            ("name"@, scoped("punctuation.section.block"@)),
                            ("match"@, JsonV::Str("[{}]"@)),
                        ],
                    ),
                    JsonV::Obj(
                        seq![
                            ("name"@, scoped("punctuation.section.brackets"@)),
                            ("match"@, JsonV::Str("[\\[\\]]"@)),
                        ],
                    ),
                    JsonV::Obj(
                        seq![
                            ("name"@, scoped("punctuation.separator.comma"@)),
                            ("match"@, JsonV::Str(","@)),
                        ],
                    ),
                    JsonV::Obj(
                        seq![
                            ("name"@, scoped("punctuation.accessor"@)),
                            ("match"@, JsonV::Str("\\."@)),
                        ],
                    ),
                ],
            )),
        ],
    )
}

/// The repository entry `identifier`.
pub open spec fn tm_identifier() -> JsonV {
    JsonV::Obj(
        seq![
            ("name"@, scoped("variable.other"@)),
            ("match"@, JsonV::Str("[A-Za-z_][A-Za-z0-9_]*"@)),
        ],
    )
}

fn build_comment(g: &GrammarSpec) -> (r: JsonValue)
    requires
        g.display_name@ == "Standarx DSL"@,
        g.scope_name@ == "source.standarx"@,
        g.lang_slug@ == "standarx"@,
        g.word_pattern@ == "[A-Za-z_][A-Za-z0-9_]*"@,
    ensures
        r@ == tm_comment(),
{
    let mut m1 = members();
    push_member(&mut m1, "name", jscoped("comment.line.number-sign", g.lang_slug));
    push_member(&mut m1, "match", jstr("#.*$"));
    let o1 = JsonValue::Obj(m1);
    assert(o1@ == JsonV::Obj(members_v(m1@)));
    assert(members_v(m1@) == seq![
            ("name"@, scoped("comment.line.number-sign"@)),
            ("match"@, JsonV::Str("#.*$"@)),
        ]);
    o1
}

fn build_constant(g: &GrammarSpec) -> (r: JsonValue)
    requires
        g.display_name@ == "Standarx DSL"@,
        g.scope_name@ == "source.standarx"@,
        g.lang_slug@ == "standarx"@,
        g.word_pattern@ == "[A-Za-z_][A-Za-z0-9_]*"@,
    ensures
        r@ == tm_constant(),
{
    let mut m1 = members();
    push_member(&mut m1, "name", jscoped("constant.language", g.lang_slug));
    push_member(&mut m1, "match", jstr("\\b(true|false|null)\\b"));
    let o1 = JsonValue::Obj(m1);
    assert(o1@ == JsonV::Obj(members_v(m1@)));
    assert(members_v(m1@) == seq![
            ("name"@, scoped("constant.language"@)),
            ("match"@, JsonV::Str("\\b(true|false|null)\\b"@)),
        ]);
    o1
}

fn build_number(g: &GrammarSpec) -> (r: JsonValue)
    requires
        g.display_name@ == "Standarx DSL"@,
        g.scope_name@ == "source.standarx"@,
        g.lang_slug@ == "standarx"@,
        g.word_pattern@ == "[A-Za-z_][A-Za-z0-9_]*"@,
    ensures
        r@ == tm_number(),
{
    let mut m1 = members();
    let mut a2 = items();
    let mut m3 = members();
    push_member(&mut m3, "name", jscoped("constant.numeric.float", g.lang_slug));
    push_member(&mut m3, "match", jstr("-?\\b\\d+\\.\\d+([eE][+-]?\\d+)?\\b"));
    let o3 = JsonValue::Obj(m3);
    assert(o3@ == JsonV::Obj(members_v(m3@)));
    assert(members_v(m3@) == seq![
            ("name"@, scoped("constant.numeric.float"@)),
            ("match"@, JsonV::Str("-?\\b\\d+\\.\\d+([eE][+-]?\\d+)?\\b"@)),
        ]);
    push_item(&mut a2, o3);
    let mut m4 = members();
    push_member(&mut m4, "name", jscoped("constant.numeric.integer", g.lang_slug));
    push_member(&mut m4, "match", jstr("-?\\b\\d+\\b"));
    let o4 = JsonValue::Obj(m4);
    assert(o4@ == JsonV::Obj(members_v(m4@)));
    assert(members_v(m4@) == seq![
            ("name"@, scoped("constant.numeric.integer"@)),
            ("match"@, JsonV::Str("-?\\b\\d+\\b"@)),
        ]);
    push_item(&mut a2, o4);
    let o2 = JsonValue::Arr(a2);
    assert(o2@ == JsonV::Arr(items_v(a2@)));
    assert(items_v(a2@) == seq![
            JsonV::Obj(
                seq![
                    ("name"@, scoped("constant.numeric.float"@)),
                    ("match"@, JsonV::Str("-?\\b\\d+\\.\\d+([eE][+-]?\\d+)?\\b"@)),
                ],
            ),
            JsonV::Obj(
                seq![
                    ("name"@, scoped("constant.numeric.integer"@)),
                    ("match"@, JsonV::Str("-?\\b\\d+\\b"@)),
                ],
            ),
        ]);
    push_member(&mut m1, "patterns", o2);
    let o1 = JsonValue::Obj(m1);
    assert(o1@ == JsonV::Obj(members_v(m1@)));
    assert(members_v(m1@) == seq![
            ("patterns"@, JsonV::Arr(
                seq![
                    JsonV::Obj(
                        seq![
                            ("name"@, scoped("constant.numeric.float"@)),
                            ("match"@, JsonV::Str("-?\\b\\d+\\.\\d+([eE][+-]?\\d+)?\\b"@)),
                        ],
                    ),
                    JsonV::Obj(
                        seq![
                            ("name"@, scoped("constant.numeric.integer"@)),
                            ("match"@, JsonV::Str("-?\\b\\d+\\b"@)),
                        ],
                    ),
                ],
            )),
        ]);
    o1
}

fn build_string_plain(g: &GrammarSpec) -> (r: JsonValue)
    requires
        g.display_name@ == "Standarx DSL"@,
        g.scope_name@ == "source.standarx"@,
        g.lang_slug@ == "standarx"@,
        g.word_pattern@ == "[A-Za-z_][A-Za-z0-9_]*"@,
    ensures
        r@ == tm_string_plain(),
{
    let mut m1 = members();
    push_member(&mut m1, "name", jscoped("string.quoted.double", g.lang_slug));
    push_member(&mut m1, "begin", jstr("\""));
    push_member(&mut m1, "end", jstr("\""));
    let mut a2 = items();
    let mut m3 = members();
    push_member(&mut m3, "name", jscoped("constant.character.escape", g.lang_slug));
    push_member(&mut m3, "match", jstr("\\\\([\\\\\"`nrt0]|u\\{[0-9a-fA-F]{1,6}\\})"));
    let o3 = JsonValue::Obj(m3);
    assert(o3@ == JsonV::Obj(members_v(m3@)));
    assert(members_v(m3@) == seq![
            ("name"@, scoped("constant.character.escape"@)),
            ("match"@, JsonV::Str("\\\\([\\\\\"`nrt0]|u\\{[0-9a-fA-F]{1,6}\\})"@)),
        ]);
    push_item(&mut a2, o3);
    let o2 = JsonValue::Arr(a2);
    assert(o2@ == JsonV::Arr(items_v(a2@)));
    assert(items_v(a2@) == seq![
            JsonV::Obj(
                seq![
                    ("name"@, scoped("constant.character.escape"@)),
                    ("match"@, JsonV::Str("\\\\([\\\\\"`nrt0]|u\\{[0-9a-fA-F]{1,6}\\})"@)),
                ],
            ),
        ]);
    push_member(&mut m1, "patterns", o2);
    let o1 = JsonValue::Obj(m1);
    assert(o1@ == JsonV::Obj(members_v(m1@)));
    assert(members_v(m1@) == seq![
            ("name"@, scoped("string.quoted.double"@)),
            ("begin"@, JsonV::Str("\""@)),
            ("end"@, JsonV::Str("\""@)),
            ("patterns"@, JsonV::Arr(
                seq![
                    JsonV::Obj(
                        seq![
                            ("name"@, scoped("constant.character.escape"@)),
                            ("match"@, JsonV::Str("\\\\([\\\\\"`nrt0]|u\\{[0-9a-fA-F]{1,6}\\})"@)),
                        ],
                    ),
                ],
            )),
        ]);
    o1
}

fn build_string_inline_template(g: &GrammarSpec) -> (r: JsonValue)
    requires
        g.display_name@ == "Standarx DSL"@,
        g.scope_name@ == "source.standarx"@,
        g.lang_slug@ == "standarx"@,
        g.word_pattern@ == "[A-Za-z_][A-Za-z0-9_]*"@,
    ensures
        r@ == tm_string_inline_template(),
{
    let mut m1 = members();
    push_member(&mut m1, "name", jscoped("string.quoted.other.template", g.lang_slug));
    push_member(&mut m1, "begin", jstr("`"));
    push_member(&mut m1, "end", jstr("`"));
    let mut a2 = items();
    let mut m3 = members();
    push_member(&mut m3, "include", jstr("#string-escape"));
    let o3 = JsonValue::Obj(m3);
    assert(o3@ == JsonV::Obj(members_v(m3@)));
    assert(members_v(m3@) == seq![
            ("include"@, JsonV::Str("#string-escape"@)),
        ]);
    push_item(&mut a2, o3);
    let mut m4 = members();
    push_member(&mut m4, "include", jstr("#interpolation"));
    let o4 = JsonValue::Obj(m4);
    assert(o4@ == JsonV::Obj(members_v(m4@)));
    assert(members_v(m4@) == seq![
            ("include"@, JsonV::Str("#interpolation"@)),
        ]);
    push_item(&mut a2, o4);
    let o2 = JsonValue::Arr(a2);
    assert(o2@ == JsonV::Arr(items_v(a2@)));
    assert(items_v(a2@) == seq![
            JsonV::Obj(
                seq![
                    ("include"@, JsonV::Str("#string-escape"@)),
                ],
            ),
            JsonV::Obj(
                seq![
                    ("include"@, JsonV::Str("#interpolation"@)),
                ],
            ),
        ]);
    push_member(&mut m1, "patterns", o2);
    let o1 = JsonValue::Obj(m1);
    assert(o1@ == JsonV::Obj(members_v(m1@)));
    assert(members_v(m1@) == seq![
            ("name"@, scoped("string.quoted.other.template"@)),
            ("begin"@, JsonV::Str("`"@)),
            ("end"@, JsonV::Str("`"@)),
            ("patterns"@, JsonV::Arr(
                seq![
                    JsonV::Obj(
                        seq![
                            ("include"@, JsonV::Str("#string-escape"@)),
                        ],
                    ),
                    JsonV::Obj(
                        seq![
                            ("include"@, JsonV::Str("#interpolation"@)),
                        ],
                    ),
                ],
            )),
        ]);
    o1
}

fn build_string_multiline_template(g: &GrammarSpec) -> (r: JsonValue)
    requires
        g.display_name@ == "Standarx DSL"@,
        g.scope_name@ == "source.standarx"@,
        g.lang_slug@ == "standarx"@,
        g.word_pattern@ == "[A-Za-z_][A-Za-z0-9_]*"@,
    ensures
        r@ == tm_string_multiline_template(),
{
    let mut m1 = members();
    push_member(&mut m1, "name", jscoped("string.quoted.other.template.multiline", g.lang_slug));
    push_member(&mut m1, "begin", jstr("```"));
    push_member(&mut m1, "end", jstr("```"));
    let mut a2 = items();
    let mut m3 = members();
    push_member(&mut m3, "include", jstr("#string-escape"));
    let o3 = JsonValue::Obj(m3);
    assert(o3@ == JsonV::Obj(members_v(m3@)));
    assert(members_v(m3@) == seq![
            ("include"@, JsonV::Str("#string-escape"@)),
        ]);
    push_item(&mut a2, o3);
    let mut m4 = members();
    push_member(&mut m4, "include", jstr("#interpolation"));
    let o4 = JsonValue::Obj(m4);
    assert(o4@ == JsonV::Obj(members_v(m4@)));
    assert(members_v(m4@) == seq![
            ("include"@, JsonV::Str("#interpolation"@)),
        ]);
    push_item(&mut a2, o4);
    let o2 = JsonValue::Arr(a2);
    assert(o2@ == JsonV::Arr(items_v(a2@)));
    assert(items_v(a2@) == seq![
            JsonV::Obj(
                seq![
                    ("include"@, JsonV::Str("#string-escape"@)),
                ],
            ),
            JsonV::Obj(
                seq![
                    ("include"@, JsonV::Str("#interpolation"@)),
                ],
            ),
        ]);
    push_member(&mut m1, "patterns", o2);
    let o1 = JsonValue::Obj(m1);
    assert(o1@ == JsonV::Obj(members_v(m1@)));
    assert(members_v(m1@) == seq![
            ("name"@, scoped("string.quoted.other.template.multiline"@)),
            ("begin"@, JsonV::Str("```"@)),
            ("end"@, JsonV::Str("```"@)),
            ("patterns"@, JsonV::Arr(
                seq![
                    JsonV::Obj(
                        seq![
                            ("include"@, JsonV::Str("#string-escape"@)),
                        ],
                    ),
                    JsonV::Obj(
                        seq![
                            ("include"@, JsonV::Str("#interpolation"@)),
                        ],
                    ),
                ],
            )),
        ]);
    o1
}

fn build_string_escape(g: &GrammarSpec) -> (r: JsonValue)
    requires
        g.display_name@ == "Standarx DSL"@,
        g.scope_name@ == "source.standarx"@,
        g.lang_slug@ == "standarx"@,
        g.word_pattern@ == "[A-Za-z_][A-Za-z0-9_]*"@,
    ensures
        r@ == tm_string_escape(),
{
    let mut m1 = members();
    push_member(&mut m1, "name", jscoped("constant.character.escape", g.lang_slug));
    push_member(&mut m1, "match", jstr("\\\\([\\\\\"`$nrt0]|u\\{[0-9a-fA-F]{1,6}\\})"));
    let o1 = JsonValue::Obj(m1);
    assert(o1@ == JsonV::Obj(members_v(m1@)));
    assert(members_v(m1@) == seq![
            ("name"@, scoped("constant.character.escape"@)),
            ("match"@, JsonV::Str("\\\\([\\\\\"`$nrt0]|u\\{[0-9a-fA-F]{1,6}\\})"@)),
        ]);
    o1
}

fn build_interpolation(g: &GrammarSpec) -> (r: JsonValue)
    requires
        g.display_name@ == "Standarx DSL"@,
        g.scope_name@ == "source.standarx"@,
        g.lang_slug@ == "standarx"@,
        g.word_pattern@ == "[A-Za-z_][A-Za-z0-9_]*"@,
    ensures
        r@ == tm_interpolation(),
{
    let mut m1 = members();
    push_member(&mut m1, "name", jscoped("meta.interpolation", g.lang_slug));
    push_member(&mut m1, "begin", jstr("\\$\\{"));
    let mut m2 = members();
    let mut m3 = members();
    push_member(&mut m3, "name", jscoped("punctuation.section.interpolation.begin", g.lang_slug));
    let o3 = JsonValue::Obj(m3);
    assert(o3@ == JsonV::Obj(members_v(m3@)));
    assert(members_v(m3@) == seq![
            ("name"@, scoped("punctuation.section.interpolation.begin"@)),
        ]);
    push_member(&mut m2, "0", o3);
    let o2 = JsonValue::Obj(m2);
    assert(o2@ == JsonV::Obj(members_v(m2@)));
    assert(members_v(m2@) == seq![
            ("0"@, JsonV::Obj(
                seq![
                    ("name"@, scoped("punctuation.section.interpolation.begin"@)),
                ],
            )),
        ]);
    push_member(&mut m1, "beginCaptures", o2);
    push_member(&mut m1, "end", jstr("\\}"));
    let mut m4 = members();
    let mut m5 = members();
    push_member(&mut m5, "name", jscoped("punctuation.section.interpolation.end", g.lang_slug));
    let o5 = JsonValue::Obj(m5);
    assert(o5@ == JsonV::Obj(members_v(m5@)));
    assert(members_v(m5@) == seq![
            ("name"@, scoped("punctuation.section.interpolation.end"@)),
        ]);
    push_member(&mut m4, "0", o5);
    let o4 = JsonValue::Obj(m4);
    assert(o4@ == JsonV::Obj(members_v(m4@)));
    assert(members_v(m4@) == seq![
            ("0"@, JsonV::Obj(
                seq![
                    ("name"@, scoped("punctuation.section.interpolation.end"@)),
                ],
            )),
        ]);
    push_member(&mut m1, "endCaptures", o4);
    let mut a6 = items();
    let mut m7 = members();
    push_member(&mut m7, "include", jstr("#constant"));
    let o7 = JsonValue::Obj(m7);
    assert(o7@ == JsonV::Obj(members_v(m7@)));
    assert(members_v(m7@) == seq![
            ("include"@, JsonV::Str("#constant"@)),
        ]);
    push_item(&mut a6, o7);
    let mut m8 = members();
    push_member(&mut m8, "include", jstr("#number"));
    let o8 = JsonValue::Obj(m8);
    assert(o8@ == JsonV::Obj(members_v(m8@)));
    assert(members_v(m8@) == seq![
            ("include"@, JsonV::Str("#number"@)),
        ]);
    push_item(&mut a6, o8);
    let mut m9 = members();
    push_member(&mut m9, "include", jstr("#string-plain"));
    let o9 = JsonValue::Obj(m9);
    assert(o9@ == JsonV::Obj(members_v(m9@)));
    assert(members_v(m9@) == seq![
            ("include"@, JsonV::Str("#string-plain"@)),
        ]);
    push_item(&mut a6, o9);
    let mut m10 = members();
    push_member(&mut m10, "name", jscoped("variable.other", g.lang_slug));
    push_member(&mut m10, "match", jstr(g.word_pattern));
    let o10 = JsonValue::Obj(m10);
    assert(o10@ == JsonV::Obj(members_v(m10@)));
    assert(members_v(m10@) == seq![
            ("name"@, scoped("variable.other"@)),
            ("match"@, JsonV::Str("[A-Za-z_][A-Za-z0-9_]*"@)),
        ]);
    push_item(&mut a6, o10);
    let o6 = JsonValue::Arr(a6);
    assert(o6@ == JsonV::Arr(items_v(a6@)));
    assert(items_v(a6@) == seq![
            JsonV::Obj(
                seq![
                    ("include"@, JsonV::Str("#constant"@)),
                ],
            ),
            JsonV::Obj(
                seq![
                    ("include"@, JsonV::Str("#number"@)),
                ],
            ),
            JsonV::Obj(
                seq![
                    ("include"@, JsonV::Str("#string-plain"@)),
                ],
            ),
            JsonV::Obj(
                seq![
                    ("name"@, scoped("variable.other"@)),
                    ("match"@, JsonV::Str("[A-Za-z_][A-Za-z0-9_]*"@)),
                ],
            ),
        ]);
    push_member(&mut m1, "patterns", o6);
    let o1 = JsonValue::Obj(m1);
    assert(o1@ == JsonV::Obj(members_v(m1@)));
    assert(members_v(m1@) == seq![
            ("name"@, scoped("meta.interpolation"@)),
            ("begin"@, JsonV::Str("\\$\\{"@)),
            ("beginCaptures"@, JsonV::Obj(
                seq![
                    ("0"@, JsonV::Obj(
                        seq![
                            ("name"@, scoped("punctuation.section.interpolation.begin"@)),
                        ],
                    )),
                ],
            )),
            ("end"@, JsonV::Str("\\}"@)),
            ("endCaptures"@, JsonV::Obj(
                seq![
                    ("0"@, JsonV::Obj(
                        seq![
                            ("name"@, scoped("punctuation.section.interpolation.end"@)),
                        ],
                    )),
                ],
            )),
            ("patterns"@, JsonV::Arr(
                seq![
                    JsonV::Obj(
                        seq![
                            ("include"@, JsonV::Str("#constant"@)),
                        ],
                    ),
                    JsonV::Obj(
                        seq![
                            ("include"@, JsonV::Str("#number"@)),
                        ],
                    ),
                    JsonV::Obj(
                        seq![
                            ("include"@, JsonV::Str("#string-plain"@)),
                        ],
                    ),
                    JsonV::Obj(
                        seq![
                            ("name"@, scoped("variable.other"@)),
                            ("match"@, JsonV::Str("[A-Za-z_][A-Za-z0-9_]*"@)),
                        ],
                    ),
                ],
            )),
        ]);
    o1
}

fn build_punctuation(g: &GrammarSpec) -> (r: JsonValue)
    requires
        g.display_name@ == "Standarx DSL"@,
        g.scope_name@ == "source.standarx"@,
        g.lang_slug@ == "standarx"@,
        g.word_pattern@ == "[A-Za-z_][A-Za-z0-9_]*"@,
    ensures
        r@ == tm_punctuation(),
{
    let mut m1 = members();
    let mut a2 = items();
    let mut m3 = members();
    push_member(&mut m3, "name", jscoped("punctuation.section.block", g.lang_slug));
    push_member(&mut m3, "match", jstr("[{}]"));
    let o3 = JsonValue::Obj(m3);
    assert(o3@ == JsonV::Obj(members_v(m3@)));
    assert(members_v(m3@) == seq![
            ("name"@, scoped("punctuation.section.block"@)),
            ("match"@, JsonV::Str("[{}]"@)),
        ]);
    push_item(&mut a2, o3);
    let mut m4 = members();
    push_member(&mut m4, "name", jscoped("punctuation.section.brackets", g.lang_slug));
    push_member(&mut m4, "match", jstr("[\\[\\]]"));
    let o4 = JsonValue::Obj(m4);
    assert(o4@ == JsonV::Obj(members_v(m4@)));
    assert(members_v(m4@) == seq![
            ("name"@, scoped("punctuation.section.brackets"@)),
            ("match"@, JsonV::Str("[\\[\\]]"@)),
        ]);
    push_item(&mut a2, o4);
    let mut m5 = members();
    push_member(&mut m5, "name", jscoped("punctuation.separator.comma", g.lang_slug));
    push_member(&mut m5, "match", jstr(","));
    let o5 = JsonValue::Obj(m5);
    assert(o5@ == JsonV::Obj(members_v(m5@)));
    assert(members_v(m5@) == seq![
            ("name"@, scoped("punctuation.separator.comma"@)),
            ("match"@, JsonV::Str(","@)),
        ]);
    push_item(&mut a2, o5);
    let mut m6 = members();
    push_member(&mut m6, "name", jscoped("punctuation.accessor", g.lang_slug));
    push_member(&mut m6, "match", jstr("\\."));
    let o6 = JsonValue::Obj(m6);
    assert(o6@ == JsonV::Obj(members_v(m6@)));
    assert(members_v(m6@) == seq![
            ("name"@, scoped("punctuation.accessor"@)),
            ("match"@, JsonV::Str("\\."@)),
        ]);
    push_item(&mut a2, o6);
    let o2 = JsonValue::Arr(a2);
    assert(o2@ == JsonV::Arr(items_v(a2@)));
    assert(items_v(a2@) == seq![
            JsonV::Obj(
                seq![
                    ("name"@, scoped("punctuation.section.block"@)),
                    ("match"@, JsonV::Str("[{}]"@)),
                ],
            ),
            JsonV::Obj(
                seq![
                    ("name"@, scoped("punctuation.section.brackets"@)),
                    ("match"@, JsonV::Str("[\\[\\]]"@)),
                ],
            ),
            JsonV::Obj(
                seq![
                    ("name"@, scoped("punctuation.separator.comma"@)),
                    ("match"@, JsonV::Str(","@)),
                ],
            ),
            JsonV::Obj(
                seq![
                    ("name"@, scoped("punctuation.accessor"@)),
                    ("match"@, JsonV::Str("\\."@)),
                ],
            ),
        ]);
    push_member(&mut m1, "patterns", o2);
    let o1 = JsonValue::Obj(m1);
    assert(o1@ == JsonV::Obj(members_v(m1@)));
    assert(members_v(m1@) == seq![
            ("patterns"@, JsonV::Arr(
                seq![
                    JsonV::Obj(
                        seq![
                            ("name"@, scoped("punctuation.section.block"@)),
                            ("match"@, JsonV::Str("[{}]"@)),
                        ],
                    ),
                    JsonV::Obj(
                        seq![
                            ("name"@, scoped("punctuation.section.brackets"@)),
                            ("match"@, JsonV::Str("[\\[\\]]"@)),
                        ],
                    ),
                    JsonV::Obj(
                        seq![
                            ("name"@, scoped("punctuation.separator.comma"@)),
                            ("match"@, JsonV::Str(","@)),
                        ],
                    ),
                    JsonV::Obj(
                        seq![
                            ("name"@, scoped("punctuation.accessor"@)),
                            ("match"@, JsonV::Str("\\."@)),
                        ],
                    ),
                ],
            )),
        ]);
    o1
}

fn build_identifier(g: &GrammarSpec) -> (r: JsonValue)
    requires
        g.display_name@ == "Standarx DSL"@,
        g.scope_name@ == "source.standarx"@,
        g.lang_slug@ == "standarx"@,
        g.word_pattern@ == "[A-Za-z_][A-Za-z0-9_]*"@,
    ensures
        r@ == tm_identifier(),
{
    let mut m1 = members();
    push_member(&mut m1, "name", jscoped("variable.other", g.lang_slug));
    push_member(&mut m1, "match", jstr(g.word_pattern));
    let o1 = JsonValue::Obj(m1);
    assert(o1@ == JsonV::Obj(members_v(m1@)));
    assert(members_v(m1@) == seq![
            ("name"@, scoped("variable.other"@)),
            ("match"@, JsonV::Str("[A-Za-z_][A-Za-z0-9_]*"@)),
        ]);
    o1
}

/// The TextMate grammar's repository of named patterns.
pub open spec fn tm_repository() -> JsonV {
    JsonV::Obj(tm_repository_members())
}

/// The members of the repository, in order.
pub open spec fn tm_repository_members() -> Seq<(Seq<char>, JsonV)> {
    seq![
            ("comment"@, tm_comment()),
            ("constant"@, tm_constant()),
            ("number"@, tm_number()),
            ("string-plain"@, tm_string_plain()),
            ("string-inline-template"@, tm_string_inline_template()),
            ("string-multiline-template"@, tm_string_multiline_template()),
            ("string-escape"@, tm_string_escape()),
            ("interpolation"@, tm_interpolation()),
            ("punctuation"@, tm_punctuation()),
            ("identifier"@, tm_identifier()),
    ]
}

/// The TextMate grammar document.
pub open spec fn spec_grammar_document() -> JsonV {
    JsonV::Obj(tm_document_members())
}

/// The top-level members of the grammar document, in order.
pub open spec fn tm_document_members() -> Seq<(Seq<char>, JsonV)> {
    seq![
            ("$schema"@, JsonV::Str("https://raw.githubusercontent.com/martinring/tmlanguage/master/tmlanguage.json"@)),
            ("name"@, JsonV::Str("Standarx DSL"@)),
            ("scopeName"@, JsonV::Str("source.standarx"@)),
            ("patterns"@, JsonV::Arr(
                seq![
                    JsonV::Obj(
                        seq![
                            ("include"@, JsonV::Str("#comment"@)),
                        ],
                    ),
                    JsonV::Obj(
                        seq![
                            ("include"@, JsonV::Str("#constant"@)),
                        ],
                    ),
                    JsonV::Obj(
                        seq![
                            ("include"@, JsonV::Str("#number"@)),
                        ],
                    ),
                    JsonV::Obj(
                        seq![
                            ("include"@, JsonV::Str("#string-multiline-template"@)),
                        ],
                    ),
                    JsonV::Obj(
                        seq![
                            ("include"@, JsonV::Str("#string-inline-template"@)),
                        ],
                    ),
                    JsonV::Obj(
                        seq![
                            ("include"@, JsonV::Str("#string-plain"@)),
                        ],
                    ),
                    JsonV::Obj(
                        seq![
                            ("include"@, JsonV::Str("#punctuation"@)),
                        ],
                    ),
                    JsonV::Obj(
                        seq![
                            ("include"@, JsonV::Str("#identifier"@)),
                        ],
                    ),
                ],
            )),
            ("repository"@, tm_repository()),
    ]
}

/// The TextMate grammar document: scopes, patterns and the escapes
/// that the lexer accepts.
pub fn grammar_document() -> (r: JsonValue)
    ensures
        r@ == spec_grammar_document(),
        r@ matches JsonV::Obj(ms) && ms.last() == ("repository"@, tm_repository()),
        names_scoped(tm_repository()),
{
    proof {
        law_inner_scopes_use_lang_slug();
    }
    let g = grammar_spec();
    let mut repo = members();
    push_member(&mut repo, "comment", build_comment(&g));
    push_member(&mut repo, "constant", build_constant(&g));
    push_member(&mut repo, "number", build_number(&g));
    push_member(&mut repo, "string-plain", build_string_plain(&g));
    push_member(&mut repo, "string-inline-template", build_string_inline_template(&g));
    push_member(&mut repo, "string-multiline-template", build_string_multiline_template(&g));
    push_member(&mut repo, "string-escape", build_string_escape(&g));
    push_member(&mut repo, "interpolation", build_interpolation(&g));
    push_member(&mut repo, "punctuation", build_punctuation(&g));
    push_member(&mut repo, "identifier", build_identifier(&g));
    let repository = JsonValue::Obj(repo);
    assert(repository@ == JsonV::Obj(members_v(repo@)));
    assert(members_v(repo@) == tm_repository_members());
    let mut doc = members();
    push_member(&mut doc, "$schema", jstr("https://raw.githubusercontent.com/martinring/tmlanguage/master/tmlanguage.json"));
    push_member(&mut doc, "name", jstr(g.display_name));
    push_member(&mut doc, "scopeName", jstr(g.scope_name));
    let mut a1 = items();
    let mut m2 = members();
    push_member(&mut m2, "include", jstr("#comment"));
    let o2 = JsonValue::Obj(m2);
    assert(o2@ == JsonV::Obj(members_v(m2@)));
    assert(members_v(m2@) == seq![
            ("include"@, JsonV::Str("#comment"@)),
        ]);
    push_item(&mut a1, o2);
    let mut m3 = members();
    push_member(&mut m3, "include", jstr("#constant"));
    let o3 = JsonValue::Obj(m3);
    assert(o3@ == JsonV::Obj(members_v(m3@)));
    assert(members_v(m3@) == seq![
            ("include"@, JsonV::Str("#constant"@)),
        ]);
    push_item(&mut a1, o3);
    let mut m4 = members();
    push_member(&mut m4, "include", jstr("#number"));
    let o4 = JsonValue::Obj(m4);
    assert(o4@ == JsonV::Obj(members_v(m4@)));
    assert(members_v(m4@) == seq![
            ("include"@, JsonV::Str("#number"@)),
        ]);
    push_item(&mut a1, o4);
    let mut m5 = members();
    push_member(&mut m5, "include", jstr("#string-multiline-template"));
    let o5 = JsonValue::Obj(m5);
    assert(o5@ == JsonV::Obj(members_v(m5@)));
    assert(members_v(m5@) == seq![
            ("include"@, JsonV::Str("#string-multiline-template"@)),
        ]);
    push_item(&mut a1, o5);
    let mut m6 = members();
    push_member(&mut m6, "include", jstr("#string-inline-template"));
    let o6 = JsonValue::Obj(m6);
    assert(o6@ == JsonV::Obj(members_v(m6@)));
    assert(members_v(m6@) == seq![
            ("include"@, JsonV::Str("#string-inline-template"@)),
        ]);
    push_item(&mut a1, o6);
    let mut m7 = members();
    push_member(&mut m7, "include", jstr("#string-plain"));
    let o7 = JsonValue::Obj(m7);
    assert(o7@ == JsonV::Obj(members_v(m7@)));
    assert(members_v(m7@) == seq![
            ("include"@, JsonV::Str("#string-plain"@)),
        ]);
    push_item(&mut a1, o7);
    let mut m8 = members();
    push_member(&mut m8, "include", jstr("#punctuation"));
    let o8 = JsonValue::Obj(m8);
    assert(o8@ == JsonV::Obj(members_v(m8@)));
    assert(members_v(m8@) == seq![
            ("include"@, JsonV::Str("#punctuation"@)),
        ]);
    push_item(&mut a1, o8);
    let mut m9 = members();
    push_member(&mut m9, "include", jstr("#identifier"));
    let o9 = JsonValue::Obj(m9);
    assert(o9@ == JsonV::Obj(members_v(m9@)));
    assert(members_v(m9@) == seq![
            ("include"@, JsonV::Str("#identifier"@)),
        ]);
    push_item(&mut a1, o9);
    let o1 = JsonValue::Arr(a1);
    assert(o1@ == JsonV::Arr(items_v(a1@)));
    assert(items_v(a1@) == seq![
            JsonV::Obj(
                seq![
                    ("include"@, JsonV::Str("#comment"@)),
                ],
            ),
            JsonV::Obj(
                seq![
                    ("include"@, JsonV::Str("#constant"@)),
                ],
            ),
            JsonV::Obj(
                seq![
                    ("include"@, JsonV::Str("#number"@)),
                ],
            ),
            JsonV::Obj(
                seq![
                    ("include"@, JsonV::Str("#string-multiline-template"@)),
                ],
            ),
            JsonV::Obj(
                seq![
                    ("include"@, JsonV::Str("#string-inline-template"@)),
                ],
            ),
            JsonV::Obj(
                seq![
                    ("include"@, JsonV::Str("#string-plain"@)),
                ],
            ),
            JsonV::Obj(
                seq![
                    ("include"@, JsonV::Str("#punctuation"@)),
                ],
            ),
            JsonV::Obj(
                seq![
                    ("include"@, JsonV::Str("#identifier"@)),
                ],
            ),
        ]);
    push_member(&mut doc, "patterns", o1);
    push_member(&mut doc, "repository", repository);
    let r = JsonValue::Obj(doc);
    assert(r@ == JsonV::Obj(members_v(doc@)));
    assert(members_v(doc@) == tm_document_members());
    r
}

/// Every inner scope of the grammar ends with the language slug and does
/// not embed the full scope name.
#[verifier::rlimit(50)]
pub proof fn law_inner_scopes_use_lang_slug()
    ensures
        names_scoped(tm_repository()),
{
    reveal_strlit(".");
    reveal_strlit("standarx");
    reveal_with_fuel(no_ur_from, 50);
    reveal_strlit("comment.line.number-sign");
    assert(no_ur_from("comment.line.number-sign"@ + "."@ + "standarx"@, 0));
    lemma_scoped("comment.line.number-sign"@);
    reveal_strlit("constant.character.escape");
    assert(no_ur_from("constant.character.escape"@ + "."@ + "standarx"@, 0));
    lemma_scoped("constant.character.escape"@);
    reveal_strlit("constant.language");
    assert(no_ur_from("constant.language"@ + "."@ + "standarx"@, 0));
    lemma_scoped("constant.language"@);
    reveal_strlit("constant.numeric.float");
    assert(no_ur_from("constant.numeric.float"@ + "."@ + "standarx"@, 0));
    lemma_scoped("constant.numeric.float"@);
    reveal_strlit("constant.numeric.integer");
    assert(no_ur_from("constant.numeric.integer"@ + "."@ + "standarx"@, 0));
    lemma_scoped("constant.numeric.integer"@);
    reveal_strlit("meta.interpolation");
    assert(no_ur_from("meta.interpolation"@ + "."@ + "standarx"@, 0));
    lemma_scoped("meta.interpolation"@);
    reveal_strlit("punctuation.accessor");
    assert(no_ur_from("punctuation.accessor"@ + "."@ + "standarx"@, 0));
    lemma_scoped("punctuation.accessor"@);
    reveal_strlit("punctuation.section.block");
    assert(no_ur_from("punctuation.section.block"@ + "."@ + "standarx"@, 0));
    lemma_scoped("punctuation.section.block"@);
    reveal_strlit("punctuation.section.brackets");
    assert(no_ur_from("punctuation.section.brackets"@ + "."@ + "standarx"@, 0));
    lemma_scoped("punctuation.section.brackets"@);
    reveal_strlit("punctuation.section.interpolation.begin");
    assert(no_ur_from("punctuation.section.interpolation.begin"@ + "."@ + "standarx"@, 0));
    lemma_scoped("punctuation.section.interpolation.begin"@);
    reveal_strlit("punctuation.section.interpolation.end");
    assert(no_ur_from("punctuation.section.interpolation.end"@ + "."@ + "standarx"@, 0));
    lemma_scoped("punctuation.section.interpolation.end"@);
    reveal_strlit("punctuation.separator.comma");
    assert(no_ur_from("punctuation.separator.comma"@ + "."@ + "standarx"@, 0));
    lemma_scoped("punctuation.separator.comma"@);
    reveal_strlit("string.quoted.double");
    assert(no_ur_from("string.quoted.double"@ + "."@ + "standarx"@, 0));
    lemma_scoped("string.quoted.double"@);
    reveal_strlit("string.quoted.other.template");
    assert(no_ur_from("string.quoted.other.template"@ + "."@ + "standarx"@, 0));
    lemma_scoped("string.quoted.other.template"@);
    reveal_strlit("string.quoted.other.template.multiline");
    assert(no_ur_from("string.quoted.other.template.multiline"@ + "."@ + "standarx"@, 0));
    lemma_scoped("string.quoted.other.template.multiline"@);
    reveal_strlit("variable.other");
    assert(no_ur_from("variable.other"@ + "."@ + "standarx"@, 0));
    lemma_scoped("variable.other"@);
    reveal_strlit("$schema");
    reveal_strlit("0");
    reveal_strlit("begin");
    reveal_strlit("beginCaptures");
    reveal_strlit("comment");
    reveal_strlit("constant");
    reveal_strlit("end");
    reveal_strlit("endCaptures");
    reveal_strlit("identifier");
    reveal_strlit("include");
    reveal_strlit("interpolation");
    reveal_strlit("match");
    reveal_strlit("name");
    reveal_strlit("number");
    reveal_strlit("patterns");
    reveal_strlit("punctuation");
    reveal_strlit("repository");
    reveal_strlit("scopeName");
    reveal_strlit("string-escape");
    reveal_strlit("string-inline-template");
    reveal_strlit("string-multiline-template");
    reveal_strlit("string-plain");
    assert("$schema"@.len() == 7);
    assert("0"@.len() == 1);
    assert("begin"@.len() == 5);
    assert("beginCaptures"@.len() == 13);
    assert("comment"@.len() == 7);
    assert("constant"@.len() == 8);
    assert("end"@.len() == 3);
    assert("endCaptures"@.len() == 11);
    assert("identifier"@.len() == 10);
    assert("include"@.len() == 7);
    assert("interpolation"@.len() == 13);
    assert("match"@.len() == 5);
    assert("number"@.len() == 6);
    assert("patterns"@.len() == 8);
    assert("punctuation"@.len() == 11);
    assert("repository"@.len() == 10);
    assert("scopeName"@.len() == 9);
    assert("string-escape"@.len() == 13);
    assert("string-inline-template"@.len() == 22);
    assert("string-multiline-template"@.len() == 25);
    assert("string-plain"@.len() == 12);
    assert("name"@.len() == 4);
    reveal_with_fuel(names_scoped, 4);
    reveal_with_fuel(members_scoped, 8);
    reveal_with_fuel(items_scoped, 6);
    if let JsonV::Obj(ms) = JsonV::Obj(
        seq![
            ("name"@, scoped("comment.line.number-sign"@)),
            ("match"@, JsonV::Str("#.*$"@)),
        ],
    ) {
        assert(members_scoped(ms, 2));
        assert(members_scoped(ms, 1));
        assert(members_scoped(ms, 0));
    }
    assert(names_scoped(JsonV::Obj(
        seq![
            ("name"@, scoped("comment.line.number-sign"@)),
            ("match"@, JsonV::Str("#.*$"@)),
        ],
    )));
    assert(names_scoped(tm_comment()));
    if let JsonV::Obj(ms) = JsonV::Obj(
        seq![
            ("name"@, scoped("constant.language"@)),
            ("match"@, JsonV::Str("\\b(true|false|null)\\b"@)),
        ],
    ) {
        assert(members_scoped(ms, 2));
        assert(members_scoped(ms, 1));
        assert(members_scoped(ms, 0));
    }
    assert(names_scoped(JsonV::Obj(
        seq![
            ("name"@, scoped("constant.language"@)),
            ("match"@, JsonV::Str("\\b(true|false|null)\\b"@)),
        ],
    )));
    assert(names_scoped(tm_constant()));
    if let JsonV::Obj(ms) = JsonV::Obj(
        seq![
            ("name"@, scoped("constant.numeric.float"@)),
            ("match"@, JsonV::Str("-?\\b\\d+\\.\\d+([eE][+-]?\\d+)?\\b"@)),
        ],
    ) {
        assert(members_scoped(ms, 2));
        assert(members_scoped(ms, 1));
        assert(members_scoped(ms, 0));
    }
    assert(names_scoped(JsonV::Obj(
        seq![
            ("name"@, scoped("constant.numeric.float"@)),
            ("match"@, JsonV::Str("-?\\b\\d+\\.\\d+([eE][+-]?\\d+)?\\b"@)),
        ],
    )));
    if let JsonV::Obj(ms) = JsonV::Obj(
        seq![
            ("name"@, scoped("constant.numeric.integer"@)),
            ("match"@, JsonV::Str("-?\\b\\d+\\b"@)),
        ],
    ) {
        assert(members_scoped(ms, 2));
        assert(members_scoped(ms, 1));
        assert(members_scoped(ms, 0));
    }
    assert(names_scoped(JsonV::Obj(
        seq![
            ("name"@, scoped("constant.numeric.integer"@)),
            ("match"@, JsonV::Str("-?\\b\\d+\\b"@)),
        ],
    )));
    if let JsonV::Arr(xs) = JsonV::Arr(
        seq![
            JsonV::Obj(
                seq![
                    ("name"@, scoped("constant.numeric.float"@)),
                    ("match"@, JsonV::Str("-?\\b\\d+\\.\\d+([eE][+-]?\\d+)?\\b"@)),
                ],
            ),
            JsonV::Obj(
                seq![
                    ("name"@, scoped("constant.numeric.integer"@)),
                    ("match"@, JsonV::Str("-?\\b\\d+\\b"@)),
                ],
            ),
        ],
    ) {
        assert(items_scoped(xs, 2));
        assert(items_scoped(xs, 1));
        assert(items_scoped(xs, 0));
    }
    assert(names_scoped(JsonV::Arr(
        seq![
            JsonV::Obj(
                seq![
                    ("name"@, scoped("constant.numeric.float"@)),
                    ("match"@, JsonV::Str("-?\\b\\d+\\.\\d+([eE][+-]?\\d+)?\\b"@)),
                ],
            ),
            JsonV::Obj(
                seq![
                    ("name"@, scoped("constant.numeric.integer"@)),
                    ("match"@, JsonV::Str("-?\\b\\d+\\b"@)),
                ],
            ),
        ],
    )));
    if let JsonV::Obj(ms) = JsonV::Obj(
        seq![
            ("patterns"@, JsonV::Arr(
                seq![
                    JsonV::Obj(
                        seq![
                            ("name"@, scoped("constant.numeric.float"@)),
                            ("match"@, JsonV::Str("-?\\b\\d+\\.\\d+([eE][+-]?\\d+)?\\b"@)),
                        ],
                    ),
                    JsonV::Obj(
                        seq![
                            ("name"@, scoped("constant.numeric.integer"@)),
                            ("match"@, JsonV::Str("-?\\b\\d+\\b"@)),
                        ],
                    ),
                ],
            )),
        ],
    ) {
        assert(members_scoped(ms, 1));
        assert(members_scoped(ms, 0));
    }
    assert(names_scoped(JsonV::Obj(
        seq![
            ("patterns"@, JsonV::Arr(
                seq![
                    JsonV::Obj(
                        seq![
                            ("name"@, scoped("constant.numeric.float"@)),
                            ("match"@, JsonV::Str("-?\\b\\d+\\.\\d+([eE][+-]?\\d+)?\\b"@)),
                        ],
                    ),
                    JsonV::Obj(
                        seq![
                            ("name"@, scoped("constant.numeric.integer"@)),
                            ("match"@, JsonV::Str("-?\\b\\d+\\b"@)),
                        ],
                    ),
                ],
            )),
        ],
    )));
    assert(names_scoped(tm_number()));
    if let JsonV::Obj(ms) = JsonV::Obj(
        seq![
            ("name"@, scoped("constant.character.escape"@)),
            ("match"@, JsonV::Str("\\\\([\\\\\"`nrt0]|u\\{[0-9a-fA-F]{1,6}\\})"@)),
        ],
    ) {
        assert(members_scoped(ms, 2));
        assert(members_scoped(ms, 1));
        assert(members_scoped(ms, 0));
    }
    assert(names_scoped(JsonV::Obj(
        seq![
            ("name"@, scoped("constant.character.escape"@)),
            ("match"@, JsonV::Str("\\\\([\\\\\"`nrt0]|u\\{[0-9a-fA-F]{1,6}\\})"@)),
        ],
    )));
    if let JsonV::Arr(xs) = JsonV::Arr(
        seq![
            JsonV::Obj(
                seq![
                    ("name"@, scoped("constant.character.escape"@)),
                    ("match"@, JsonV::Str("\\\\([\\\\\"`nrt0]|u\\{[0-9a-fA-F]{1,6}\\})"@)),
                ],
            ),
        ],
    ) {
        assert(items_scoped(xs, 1));
        assert(items_scoped(xs, 0));
    }
    assert(names_scoped(JsonV::Arr(
        seq![
            JsonV::Obj(
                seq![
                    ("name"@, scoped("constant.character.escape"@)),
                    ("match"@, JsonV::Str("\\\\([\\\\\"`nrt0]|u\\{[0-9a-fA-F]{1,6}\\})"@)),
                ],
            ),
        ],
    )));
    if let JsonV::Obj(ms) = JsonV::Obj(
        seq![
            ("name"@, scoped("string.quoted.double"@)),
            ("begin"@, JsonV::Str("\""@)),
            ("end"@, JsonV::Str("\""@)),
            ("patterns"@, JsonV::Arr(
                seq![
                    JsonV::Obj(
                        seq![
                            ("name"@, scoped("constant.character.escape"@)),
                            ("match"@, JsonV::Str("\\\\([\\\\\"`nrt0]|u\\{[0-9a-fA-F]{1,6}\\})"@)),
                        ],
                    ),
                ],
            )),
        ],
    ) {
        assert(members_scoped(ms, 4));
        assert(members_scoped(ms, 3));
        assert(members_scoped(ms, 2));
        assert(members_scoped(ms, 1));
        assert(members_scoped(ms, 0));
    }
    assert(names_scoped(JsonV::Obj(
        seq![
            ("name"@, scoped("string.quoted.double"@)),
            ("begin"@, JsonV::Str("\""@)),
            ("end"@, JsonV::Str("\""@)),
            ("patterns"@, JsonV::Arr(
                seq![
                    JsonV::Obj(
                        seq![
                            ("name"@, scoped("constant.character.escape"@)),
                            ("match"@, JsonV::Str("\\\\([\\\\\"`nrt0]|u\\{[0-9a-fA-F]{1,6}\\})"@)),
                        ],
                    ),
                ],
            )),
        ],
    )));
    assert(names_scoped(tm_string_plain()));
    if let JsonV::Obj(ms) = JsonV::Obj(
        seq![
            ("include"@, JsonV::Str("#string-escape"@)),
        ],
    ) {
        assert(members_scoped(ms, 1));
        assert(members_scoped(ms, 0));
    }
    assert(names_scoped(JsonV::Obj(
        seq![
            ("include"@, JsonV::Str("#string-escape"@)),
        ],
    )));
    if let JsonV::Obj(ms) = JsonV::Obj(
        seq![
            ("include"@, JsonV::Str("#interpolation"@)),
        ],
    ) {
        assert(members_scoped(ms, 1));
        assert(members_scoped(ms, 0));
    }
    assert(names_scoped(JsonV::Obj(
        seq![
            ("include"@, JsonV::Str("#interpolation"@)),
        ],
    )));
    if let JsonV::Arr(xs) = JsonV::Arr(
        seq![
            JsonV::Obj(
                seq![
                    ("include"@, JsonV::Str("#string-escape"@)),
                ],
            ),
            JsonV::Obj(
                seq![
                    ("include"@, JsonV::Str("#interpolation"@)),
                ],
            ),
        ],
    ) {
        assert(items_scoped(xs, 2));
        assert(items_scoped(xs, 1));
        assert(items_scoped(xs, 0));
    }
    assert(names_scoped(JsonV::Arr(
        seq![
            JsonV::Obj(
                seq![
                    ("include"@, JsonV::Str("#string-escape"@)),
                ],
            ),
            JsonV::Obj(
                seq![
                    ("include"@, JsonV::Str("#interpolation"@)),
                ],
            ),
        ],
    )));
    if let JsonV::Obj(ms) = JsonV::Obj(
        seq![
            ("name"@, scoped("string.quoted.other.template"@)),
            ("begin"@, JsonV::Str("`"@)),
            ("end"@, JsonV::Str("`"@)),
            ("patterns"@, JsonV::Arr(
                seq![
                    JsonV::Obj(
                        seq![
                            ("include"@, JsonV::Str("#string-escape"@)),
                        ],
                    ),
                    JsonV::Obj(
                        seq![
                            ("include"@, JsonV::Str("#interpolation"@)),
                        ],
                    ),
                ],
            )),
        ],
    ) {
        assert(members_scoped(ms, 4));
        assert(members_scoped(ms, 3));
        assert(members_scoped(ms, 2));
        assert(members_scoped(ms, 1));
        assert(members_scoped(ms, 0));
    }
    assert(names_scoped(JsonV::Obj(
        seq![
            ("name"@, scoped("string.quoted.other.template"@)),
            ("begin"@, JsonV::Str("`"@)),
            ("end"@, JsonV::Str("`"@)),
            ("patterns"@, JsonV::Arr(
                seq![
                    JsonV::Obj(
                        seq![
                            ("include"@, JsonV::Str("#string-escape"@)),
                        ],
                    ),
                    JsonV::Obj(
                        seq![
                            ("include"@, JsonV::Str("#interpolation"@)),
                        ],
                    ),
                ],
            )),
        ],
    )));
    assert(names_scoped(tm_string_inline_template()));
    if let JsonV::Obj(ms) = JsonV::Obj(
        seq![
            ("include"@, JsonV::Str("#string-escape"@)),
        ],
    ) {
        assert(members_scoped(ms, 1));
        assert(members_scoped(ms, 0));
    }
    assert(names_scoped(JsonV::Obj(
        seq![
            ("include"@, JsonV::Str("#string-escape"@)),
        ],
    )));
    if let JsonV::Obj(ms) = JsonV::Obj(
        seq![
            ("include"@, JsonV::Str("#interpolation"@)),
        ],
    ) {
        assert(members_scoped(ms, 1));
        assert(members_scoped(ms, 0));
    }
    assert(names_scoped(JsonV::Obj(
        seq![
            ("include"@, JsonV::Str("#interpolation"@)),
        ],
    )));
    if let JsonV::Arr(xs) = JsonV::Arr(
        seq![
            JsonV::Obj(
                seq![
                    ("include"@, JsonV::Str("#string-escape"@)),
                ],
            ),
            JsonV::Obj(
                seq![
                    ("include"@, JsonV::Str("#interpolation"@)),
                ],
            ),
        ],
    ) {
        assert(items_scoped(xs, 2));
        assert(items_scoped(xs, 1));
        assert(items_scoped(xs, 0));
    }
    assert(names_scoped(JsonV::Arr(
        seq![
            JsonV::Obj(
                seq![
                    ("include"@, JsonV::Str("#string-escape"@)),
                ],
            ),
            JsonV::Obj(
                seq![
                    ("include"@, JsonV::Str("#interpolation"@)),
                ],
            ),
        ],
    )));
    if let JsonV::Obj(ms) = JsonV::Obj(
        seq![
            ("name"@, scoped("string.quoted.other.template.multiline"@)),
            ("begin"@, JsonV::Str("```"@)),
            ("end"@, JsonV::Str("```"@)),
            ("patterns"@, JsonV::Arr(
                seq![
                    JsonV::Obj(
                        seq![
                            ("include"@, JsonV::Str("#string-escape"@)),
                        ],
                    ),
                    JsonV::Obj(
                        seq![
                            ("include"@, JsonV::Str("#interpolation"@)),
                        ],
                    ),
                ],
            )),
        ],
    ) {
        assert(members_scoped(ms, 4));
        assert(members_scoped(ms, 3));
        assert(members_scoped(ms, 2));
        assert(members_scoped(ms, 1));
        assert(members_scoped(ms, 0));
    }
    assert(names_scoped(JsonV::Obj(
        seq![
            ("name"@, scoped("string.quoted.other.template.multiline"@)),
            ("begin"@, JsonV::Str("```"@)),
            ("end"@, JsonV::Str("```"@)),
            ("patterns"@, JsonV::Arr(
                seq![
                    JsonV::Obj(
                        seq![
                            ("include"@, JsonV::Str("#string-escape"@)),
                        ],
                    ),
                    JsonV::Obj(
                        seq![
                            ("include"@, JsonV::Str("#interpolation"@)),
                        ],
                    ),
                ],
            )),
        ],
    )));
    assert(names_scoped(tm_string_multiline_template()));
    if let JsonV::Obj(ms) = JsonV::Obj(
        seq![
            ("name"@, scoped("constant.character.escape"@)),
            ("match"@, JsonV::Str("\\\\([\\\\\"`$nrt0]|u\\{[0-9a-fA-F]{1,6}\\})"@)),
        ],
    ) {
        assert(members_scoped(ms, 2));
        assert(members_scoped(ms, 1));
        assert(members_scoped(ms, 0));
    }
    assert(names_scoped(JsonV::Obj(
        seq![
            ("name"@, scoped("constant.character.escape"@)),
            ("match"@, JsonV::Str("\\\\([\\\\\"`$nrt0]|u\\{[0-9a-fA-F]{1,6}\\})"@)),
        ],
    )));
    assert(names_scoped(tm_string_escape()));
    if let JsonV::Obj(ms) = JsonV::Obj(
        seq![
            ("name"@, scoped("punctuation.section.interpolation.begin"@)),
        ],
    ) {
        assert(members_scoped(ms, 1));
        assert(members_scoped(ms, 0));
    }
    assert(names_scoped(JsonV::Obj(
        seq![
            ("name"@, scoped("punctuation.section.interpolation.begin"@)),
        ],
    )));
    if let JsonV::Obj(ms) = JsonV::Obj(
        seq![
            ("0"@, JsonV::Obj(
                seq![
                    ("name"@, scoped("punctuation.section.interpolation.begin"@)),
                ],
            )),
        ],
    ) {
        assert(members_scoped(ms, 1));
        assert(members_scoped(ms, 0));
    }
    assert(names_scoped(JsonV::Obj(
        seq![
            ("0"@, JsonV::Obj(
                seq![
                    ("name"@, scoped("punctuation.section.interpolation.begin"@)),
                ],
            )),
        ],
    )));
    if let JsonV::Obj(ms) = JsonV::Obj(
        seq![
            ("name"@, scoped("punctuation.section.interpolation.end"@)),
        ],
    ) {
        assert(members_scoped(ms, 1));
        assert(members_scoped(ms, 0));
    }
    assert(names_scoped(JsonV::Obj(
        seq![
            ("name"@, scoped("punctuation.section.interpolation.end"@)),
        ],
    )));
    if let JsonV::Obj(ms) = JsonV::Obj(
        seq![
            ("0"@, JsonV::Obj(
                seq![
                    ("name"@, scoped("punctuation.section.interpolation.end"@)),
                ],
            )),
        ],
    ) {
        assert(members_scoped(ms, 1));
        assert(members_scoped(ms, 0));
    }
    assert(names_scoped(JsonV::Obj(
        seq![
            ("0"@, JsonV::Obj(
                seq![
                    ("name"@, scoped("punctuation.section.interpolation.end"@)),
                ],
            )),
        ],
    )));
    if let JsonV::Obj(ms) = JsonV::Obj(
        seq![
            ("include"@, JsonV::Str("#constant"@)),
        ],
    ) {
        assert(members_scoped(ms, 1));
        assert(members_scoped(ms, 0));
    }
    assert(names_scoped(JsonV::Obj(
        seq![
            ("include"@, JsonV::Str("#constant"@)),
        ],
    )));
    if let JsonV::Obj(ms) = JsonV::Obj(
        seq![
            ("include"@, JsonV::Str("#number"@)),
        ],
    ) {
        assert(members_scoped(ms, 1));
        assert(members_scoped(ms, 0));
    }
    assert(names_scoped(JsonV::Obj(
        seq![
            ("include"@, JsonV::Str("#number"@)),
        ],
    )));
    if let JsonV::Obj(ms) = JsonV::Obj(
        seq![
            ("include"@, JsonV::Str("#string-plain"@)),
        ],
    ) {
        assert(members_scoped(ms, 1));
        assert(members_scoped(ms, 0));
    }
    assert(names_scoped(JsonV::Obj(
        seq![
            ("include"@, JsonV::Str("#string-plain"@)),
        ],
    )));
    if let JsonV::Obj(ms) = JsonV::Obj(
        seq![
            ("name"@, scoped("variable.other"@)),
            ("match"@, JsonV::Str("[A-Za-z_][A-Za-z0-9_]*"@)),
        ],
    ) {
        assert(members_scoped(ms, 2));
        assert(members_scoped(ms, 1));
        assert(members_scoped(ms, 0));
    }
    assert(names_scoped(JsonV::Obj(
        seq![
            ("name"@, scoped("variable.other"@)),
            ("match"@, JsonV::Str("[A-Za-z_][A-Za-z0-9_]*"@)),
        ],
    )));
    if let JsonV::Arr(xs) = JsonV::Arr(
        seq![
            JsonV::Obj(
                seq![
                    ("include"@, JsonV::Str("#constant"@)),
                ],
            ),
            JsonV::Obj(
                seq![
                    ("include"@, JsonV::Str("#number"@)),
                ],
            ),
            JsonV::Obj(
                seq![
                    ("include"@, JsonV::Str("#string-plain"@)),
                ],
            ),
            JsonV::Obj(
                seq![
                    ("name"@, scoped("variable.other"@)),
                    ("match"@, JsonV::Str("[A-Za-z_][A-Za-z0-9_]*"@)),
                ],
            ),
        ],
    ) {
        assert(items_scoped(xs, 4));
        assert(items_scoped(xs, 3));
        assert(items_scoped(xs, 2));
        assert(items_scoped(xs, 1));
        assert(items_scoped(xs, 0));
    }
    assert(names_scoped(JsonV::Arr(
        seq![
            JsonV::Obj(
                seq![
                    ("include"@, JsonV::Str("#constant"@)),
                ],
            ),
            JsonV::Obj(
                seq![
                    ("include"@, JsonV::Str("#number"@)),
                ],
            ),
            JsonV::Obj(
                seq![
                    ("include"@, JsonV::Str("#string-plain"@)),
                ],
            ),
            JsonV::Obj(
                seq![
                    ("name"@, scoped("variable.other"@)),
                    ("match"@, JsonV::Str("[A-Za-z_][A-Za-z0-9_]*"@)),
                ],
            ),
        ],
    )));
    if let JsonV::Obj(ms) = JsonV::Obj(
        seq![
            ("name"@, scoped("meta.interpolation"@)),
            ("begin"@, JsonV::Str("\\$\\{"@)),
            ("beginCaptures"@, JsonV::Obj(
                seq![
                    ("0"@, JsonV::Obj(
                        seq![
                            ("name"@, scoped("punctuation.section.interpolation.begin"@)),
                        ],
                    )),
                ],
            )),
            ("end"@, JsonV::Str("\\}"@)),
            ("endCaptures"@, JsonV::Obj(
                seq![
                    ("0"@, JsonV::Obj(
                        seq![
                            ("name"@, scoped("punctuation.section.interpolation.end"@)),
                        ],
                    )),
                ],
            )),
            ("patterns"@, JsonV::Arr(
                seq![
                    JsonV::Obj(
                        seq![
                            ("include"@, JsonV::Str("#constant"@)),
                        ],
                    ),
                    JsonV::Obj(
                        seq![
                            ("include"@, JsonV::Str("#number"@)),
                        ],
                    ),
                    JsonV::Obj(
                        seq![
                            ("include"@, JsonV::Str("#string-plain"@)),
                        ],
                    ),
                    JsonV::Obj(
                        seq![
                            ("name"@, scoped("variable.other"@)),
                            ("match"@, JsonV::Str("[A-Za-z_][A-Za-z0-9_]*"@)),
                        ],
                    ),
                ],
            )),
        ],
    ) {
        assert(members_scoped(ms, 6));
        assert(members_scoped(ms, 5));
        assert(members_scoped(ms, 4));
        assert(members_scoped(ms, 3));
        assert(members_scoped(ms, 2));
        assert(members_scoped(ms, 1));
        assert(members_scoped(ms, 0));
    }
    assert(names_scoped(JsonV::Obj(
        seq![
            ("name"@, scoped("meta.interpolation"@)),
            ("begin"@, JsonV::Str("\\$\\{"@)),
            ("beginCaptures"@, JsonV::Obj(
                seq![
                    ("0"@, JsonV::Obj(
                        seq![
                            ("name"@, scoped("punctuation.section.interpolation.begin"@)),
                        ],
                    )),
                ],
            )),
            ("end"@, JsonV::Str("\\}"@)),
            ("endCaptures"@, JsonV::Obj(
                seq![
                    ("0"@, JsonV::Obj(
                        seq![
                            ("name"@, scoped("punctuation.section.interpolation.end"@)),
                        ],
                    )),
                ],
            )),
            ("patterns"@, JsonV::Arr(
                seq![
                    JsonV::Obj(
                        seq![
                            ("include"@, JsonV::Str("#constant"@)),
                        ],
                    ),
                    JsonV::Obj(
                        seq![
                            ("include"@, JsonV::Str("#number"@)),
                        ],
                    ),
                    JsonV::Obj(
                        seq![
                            ("include"@, JsonV::Str("#string-plain"@)),
                        ],
                    ),
                    JsonV::Obj(
                        seq![
                            ("name"@, scoped("variable.other"@)),
                            ("match"@, JsonV::Str("[A-Za-z_][A-Za-z0-9_]*"@)),
                        ],
                    ),
                ],
            )),
        ],
    )));
    assert(names_scoped(tm_interpolation()));
    if let JsonV::Obj(ms) = JsonV::Obj(
        seq![
            ("name"@, scoped("punctuation.section.block"@)),
            ("match"@, JsonV::Str("[{}]"@)),
        ],
    ) {
        assert(members_scoped(ms, 2));
        assert(members_scoped(ms, 1));
        assert(members_scoped(ms, 0));
    }
    assert(names_scoped(JsonV::Obj(
        seq![
            ("name"@, scoped("punctuation.section.block"@)),
            ("match"@, JsonV::Str("[{}]"@)),
        ],
    )));
    if let JsonV::Obj(ms) = JsonV::Obj(
        seq![
            ("name"@, scoped("punctuation.section.brackets"@)),
            ("match"@, JsonV::Str("[\\[\\]]"@)),
        ],
    ) {
        assert(members_scoped(ms, 2));
        assert(members_scoped(ms, 1));
        assert(members_scoped(ms, 0));
    }
    assert(names_scoped(JsonV::Obj(
        seq![
            ("name"@, scoped("punctuation.section.brackets"@)),
            ("match"@, JsonV::Str("[\\[\\]]"@)),
        ],
    )));
    if let JsonV::Obj(ms) = JsonV::Obj(
        seq![
            ("name"@, scoped("punctuation.separator.comma"@)),
            ("match"@, JsonV::Str(","@)),
        ],
    ) {
        assert(members_scoped(ms, 2));
        assert(members_scoped(ms, 1));
        assert(members_scoped(ms, 0));
    }
    assert(names_scoped(JsonV::Obj(
        seq![
            ("name"@, scoped("punctuation.separator.comma"@)),
            ("match"@, JsonV::Str(","@)),
        ],
    )));
    if let JsonV::Obj(ms) = JsonV::Obj(
        seq![
            ("name"@, scoped("punctuation.accessor"@)),
            ("match"@, JsonV::Str("\\."@)),
        ],
    ) {
        assert(members_scoped(ms, 2));
        assert(members_scoped(ms, 1));
        assert(members_scoped(ms, 0));
    }
    assert(names_scoped(JsonV::Obj(
        seq![
            ("name"@, scoped("punctuation.accessor"@)),
            ("match"@, JsonV::Str("\\."@)),
        ],
    )));
    if let JsonV::Arr(xs) = JsonV::Arr(
        seq![
            JsonV::Obj(
                seq![
                    ("name"@, scoped("punctuation.section.block"@)),
                    ("match"@, JsonV::Str("[{}]"@)),
                ],
            ),
            JsonV::Obj(
                seq![
                    ("name"@, scoped("punctuation.section.brackets"@)),
                    ("match"@, JsonV::Str("[\\[\\]]"@)),
                ],
            ),
            JsonV::Obj(
                seq![
                    ("name"@, scoped("punctuation.separator.comma"@)),
                    ("match"@, JsonV::Str(","@)),
                ],
            ),
            JsonV::Obj(
                seq![
                    ("name"@, scoped("punctuation.accessor"@)),
                    ("match"@, JsonV::Str("\\."@)),
                ],
            ),
        ],
    ) {
        assert(items_scoped(xs, 4));
        assert(items_scoped(xs, 3));
        assert(items_scoped(xs, 2));
        assert(items_scoped(xs, 1));
        assert(items_scoped(xs, 0));
    }
    assert(names_scoped(JsonV::Arr(
        seq![
            JsonV::Obj(
                seq![
                    ("name"@, scoped("punctuation.section.block"@)),
                    ("match"@, JsonV::Str("[{}]"@)),
                ],
            ),
            JsonV::Obj(
                seq![
                    ("name"@, scoped("punctuation.section.brackets"@)),
                    ("match"@, JsonV::Str("[\\[\\]]"@)),
                ],
            ),
            JsonV::Obj(
                seq![
                    ("name"@, scoped("punctuation.separator.comma"@)),
                    ("match"@, JsonV::Str(","@)),
                ],
            ),
            JsonV::Obj(
                seq![
                    ("name"@, scoped("punctuation.accessor"@)),
                    ("match"@, JsonV::Str("\\."@)),
                ],
            ),
        ],
    )));
    if let JsonV::Obj(ms) = JsonV::Obj(
        seq![
            ("patterns"@, JsonV::Arr(
                seq![
                    JsonV::Obj(
                        seq![
                            ("name"@, scoped("punctuation.section.block"@)),
                            ("match"@, JsonV::Str("[{}]"@)),
                        ],
                    ),
                    JsonV::Obj(
                        seq![
                            ("name"@, scoped("punctuation.section.brackets"@)),
                            ("match"@, JsonV::Str("[\\[\\]]"@)),
                        ],
                    ),
                    JsonV::Obj(
                        seq![
                            ("name"@, scoped("punctuation.separator.comma"@)),
                            ("match"@, JsonV::Str(","@)),
                        ],
                    ),
                    JsonV::Obj(
                        seq![
                            ("name"@, scoped("punctuation.accessor"@)),
                            ("match"@, JsonV::Str("\\."@)),
                        ],
                    ),
                ],
            )),
        ],
    ) {
        assert(members_scoped(ms, 1));
        assert(members_scoped(ms, 0));
    }
    assert(names_scoped(JsonV::Obj(
        seq![
            ("patterns"@, JsonV::Arr(
                seq![
                    JsonV::Obj(
                        seq![
                            ("name"@, scoped("punctuation.section.block"@)),
                            ("match"@, JsonV::Str("[{}]"@)),
                        ],
                    ),
                    JsonV::Obj(
                        seq![
                            ("name"@, scoped("punctuation.section.brackets"@)),
                            ("match"@, JsonV::Str("[\\[\\]]"@)),
                        ],
                    ),
                    JsonV::Obj(
                        seq![
                            ("name"@, scoped("punctuation.separator.comma"@)),
                            ("match"@, JsonV::Str(","@)),
                        ],
                    ),
                    JsonV::Obj(
                        seq![
                            ("name"@, scoped("punctuation.accessor"@)),
                            ("match"@, JsonV::Str("\\."@)),
                        ],
                    ),
                ],
            )),
        ],
    )));
    assert(names_scoped(tm_punctuation()));
    if let JsonV::Obj(ms) = JsonV::Obj(
        seq![
            ("name"@, scoped("variable.other"@)),
            ("match"@, JsonV::Str("[A-Za-z_][A-Za-z0-9_]*"@)),
        ],
    ) {
        assert(members_scoped(ms, 2));
        assert(members_scoped(ms, 1));
        assert(members_scoped(ms, 0));
    }
    assert(names_scoped(JsonV::Obj(
        seq![
            ("name"@, scoped("variable.other"@)),
            ("match"@, JsonV::Str("[A-Za-z_][A-Za-z0-9_]*"@)),
        ],
    )));
    assert(names_scoped(tm_identifier()));
    assert(members_scoped(tm_repository_members(), 10));
    assert(members_scoped(tm_repository_members(), 9));
    assert(members_scoped(tm_repository_members(), 8));
    assert(members_scoped(tm_repository_members(), 7));
    assert(members_scoped(tm_repository_members(), 6));
    assert(members_scoped(tm_repository_members(), 5));
    assert(members_scoped(tm_repository_members(), 4));
    assert(members_scoped(tm_repository_members(), 3));
    assert(members_scoped(tm_repository_members(), 2));
    assert(members_scoped(tm_repository_members(), 1));
    assert(members_scoped(tm_repository_members(), 0));
}

/// The words joined by `|`, in order.
pub open spec fn alternation(ws: Seq<Seq<char>>) -> Seq<char>
    decreases ws.len(),
{
    if ws.len() == 0 {
        Seq::empty()
    } else if ws.len() == 1 {
        ws[0]
    } else {
        alternation(ws.drop_last()) + "|"@ + ws.last()
    }
}

/// The grammar's constant pattern matches exactly the grammar's language
/// constants, as whole words.
pub proof fn law_constant_pattern_matches_language_constants()
    ensures
        tm_constant() matches JsonV::Obj(ms) && ms.len() == 2 && ms[1] == (
            "match"@,
            JsonV::Str("\\b("@ + alternation(language_constants_v()) + ")\\b"@),
        ),
{
    reveal_strlit("\\b(true|false|null)\\b");
    reveal_strlit("\\b(");
    reveal_strlit(")\\b");
    reveal_strlit("|");
    reveal_strlit("true");
    reveal_strlit("false");
    reveal_strlit("null");
    reveal_with_fuel(alternation, 4);
    let ws = language_constants_v();
    assert(ws.drop_last() =~= seq!["true"@, "false"@]);
    assert(ws.drop_last().drop_last() =~= seq!["true"@]);
    assert("\\b("@ + alternation(ws) + ")\\b"@ =~= "\\b(true|false|null)\\b"@);
}

} // verus!
