//! Editor-agnostic description of the DSL's surface syntax: keywords,
//! brackets, comment style, string fences and identifier shape. Editor
//! grammar files are generated from it.
use crate::lexer_spec::{spec_trivia, word_token, LexItemV, TokenV};
use vstd::prelude::*;
use vstd::utf8::*;

verus! {

/// Canonical surface-syntax description of the DSL.
pub struct GrammarSpec {
    /// Human-readable language name (shown in editor pickers).
    pub display_name: &'static str,
    /// TextMate scope root.
    pub scope_name: &'static str,
    /// Short slug used as the trailing component of every inner scope.
    pub lang_slug: &'static str,
    /// Reserved bare-word literals.
    pub language_constants: &'static [&'static str],
    /// Line comment prefix.
    pub line_comment: &'static str,
    /// Matched bracket pairs, block pairs first.
    pub brackets: &'static [(&'static str, &'static str)],
    /// Pairs that auto-close as the user types.
    pub auto_closing_pairs: &'static [(&'static str, &'static str)],
    /// Surrounding pairs (wrap the selection on type).
    pub surrounding_pairs: &'static [(&'static str, &'static str)],
    /// Regex matching an identifier.
    pub word_pattern: &'static str,
}

/// The reserved bare-word literals, as text.
pub open spec fn language_constants_v() -> Seq<Seq<char>> {
    seq!["true"@, "false"@, "null"@]
}

/// The views of string pairs.
pub open spec fn pairs_v(ps: Seq<(&str, &str)>) -> Seq<(Seq<char>, Seq<char>)> {
    ps.map_values(|p: (&str, &str)| (p.0@, p.1@))
}

/// The matched bracket pairs, block pairs first.
pub open spec fn brackets_v() -> Seq<(Seq<char>, Seq<char>)> {
    seq![("{"@, "}"@), ("["@, "]"@)]
}

/// The pairs that auto-close as the user types.
pub open spec fn auto_closing_pairs_v() -> Seq<(Seq<char>, Seq<char>)> {
    seq![("{"@, "}"@), ("["@, "]"@), ("\""@, "\""@), ("`"@, "`"@)]
}

/// The pairs that wrap the selection when typed.
pub open spec fn surrounding_pairs_v() -> Seq<(Seq<char>, Seq<char>)> {
    seq![("{"@, "}"@), ("["@, "]"@), ("\""@, "\""@), ("`"@, "`"@)]
}

/// The line comment prefix.
pub open spec fn line_comment_v() -> Seq<char> {
    "#"@
}

/// The identifier pattern.
pub open spec fn word_pattern_v() -> Seq<char> {
    "[A-Za-z_][A-Za-z0-9_]*"@
}

/// The live description.
pub fn grammar_spec() -> (r: GrammarSpec)
    ensures
        r.display_name@ == "Standarx DSL"@,
        r.scope_name@ == "source.standarx"@,
        r.lang_slug@ == "standarx"@,
        r.language_constants@.map_values(|c: &str| c@) == language_constants_v(),
        r.line_comment@ == line_comment_v(),
        r.brackets@.len() == 2,
        r.brackets@[0].0@ == "{"@ && r.brackets@[0].1@ == "}"@,
        r.brackets@[1].0@ == "["@ && r.brackets@[1].1@ == "]"@,
        r.auto_closing_pairs@.len() == 4,
        r.auto_closing_pairs@[0].0@ == "{"@ && r.auto_closing_pairs@[0].1@ == "}"@,
        r.auto_closing_pairs@[1].0@ == "["@ && r.auto_closing_pairs@[1].1@ == "]"@,
        r.auto_closing_pairs@[2].0@ == "\""@ && r.auto_closing_pairs@[2].1@ == "\""@,
        r.auto_closing_pairs@[3].0@ == "`"@ && r.auto_closing_pairs@[3].1@ == "`"@,
        r.surrounding_pairs@ == r.auto_closing_pairs@,
        pairs_v(r.brackets@) == brackets_v(),
        pairs_v(r.auto_closing_pairs@) == auto_closing_pairs_v(),
        pairs_v(r.surrounding_pairs@) == surrounding_pairs_v(),
        r.word_pattern@ == word_pattern_v(),
{
    GrammarSpec {
        display_name: "Standarx DSL",
        scope_name: "source.standarx",
        lang_slug: "standarx",
        language_constants: &["true", "false", "null"],
        line_comment: "#",
        brackets: &[("{", "}"), ("[", "]")],
        auto_closing_pairs: &[("{", "}"), ("[", "]"), ("\"", "\""), ("`", "`")],
        surrounding_pairs: &[("{", "}"), ("[", "]"), ("\"", "\""), ("`", "`")],
        word_pattern: "[A-Za-z_][A-Za-z0-9_]*",
    }
}

/// One byte per character: the low byte of each code.
spec fn low_bytes(cs: Seq<char>) -> Seq<u8>
    decreases cs.len(),
{
    if cs.len() == 0 {
        Seq::empty()
    } else {
        seq![(cs[0] as u32) as u8] + low_bytes(cs.drop_first())
    }
}

/// Text of ASCII characters encodes to one byte per character.
proof fn lemma_ascii_encode(cs: Seq<char>)
    requires
        forall|k: int| 0 <= k < cs.len() ==> (#[trigger] cs[k] as u32) <= 0x7f,
    ensures
        encode_utf8(cs) =~= low_bytes(cs),
    decreases cs.len(),
{
    if cs.len() > 0 {
        let x = cs[0] as u32;
        assert((x & 0x7F) as u8 == x as u8) by (bit_vector)
            requires
                x <= 0x7f,
        ;
        assert(forall|k: int| 0 <= k < cs.drop_first().len() ==> cs.drop_first()[k] == cs[k + 1]);
        lemma_ascii_encode(cs.drop_first());
    }
}

/// A bare word is lexed as a literal rather than an identifier exactly
/// when it spells one of the grammar's language constants.
pub proof fn law_language_constants_are_reserved(w: Seq<u8>)
    ensures
        !(word_token(w, 0, w.len() as int) is Ident) <==> exists|i: int|
            0 <= i < language_constants_v().len() && encode_utf8(
                #[trigger] language_constants_v()[i],
            ) == w,
{
    reveal_strlit("true");
    reveal_strlit("false");
    reveal_strlit("null");
    let t = seq![116u8, 114u8, 117u8, 101u8];
    let f = seq![102u8, 97u8, 108u8, 115u8, 101u8];
    let n = seq![110u8, 117u8, 108u8, 108u8];
    lemma_ascii_encode("true"@);
    lemma_ascii_encode("false"@);
    lemma_ascii_encode("null"@);
    reveal_with_fuel(low_bytes, 6);
    assert(encode_utf8("true"@) =~= t);
    assert(encode_utf8("false"@) =~= f);
    assert(encode_utf8("null"@) =~= n);
    assert(w.subrange(0, w.len() as int) =~= w);
    if !(word_token(w, 0, w.len() as int) is Ident) {
        if w == t {
            assert(encode_utf8(language_constants_v()[0]) == w);
        } else if w == f {
            assert(encode_utf8(language_constants_v()[1]) == w);
        } else {
            assert(encode_utf8(language_constants_v()[2]) == w);
        }
    }
}

/// The grammar's line comment prefix is the byte that starts a comment
/// for the lexer: a `#` at a token boundary begins a line comment there.
pub proof fn law_line_comment_prefix_starts_lexer_comment(s: Seq<u8>, pos: int, crossed: bool)
    requires
        0 <= pos < s.len(),
        s[pos] == 35,
    ensures
        line_comment_v() == seq![35u8 as char],
        spec_trivia(s, pos, crossed) matches Ok((items, p)) ==> items.len() >= 1 && (
        items[0] matches LexItemV::Trivia(tv, a) && tv.kind is LineComment && tv.span.0 == pos),
{
    reveal_strlit("#");
    assert(line_comment_v() =~= seq![35u8 as char]);
}

} // verus!
