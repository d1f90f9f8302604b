//! The lexer's meaning, as functions on the source bytes.
//!
//! Every function here reads the source `s` from a position and says
//! what the lexer produces there: a value and the position just after
//! it, or the diagnostic it reports.
use crate::ast::{
    first_text, has_interp, InterpExprV, NameV, RefV, StringLitV, StringPartV, TriviaKindV, TriviaV,
};
use crate::diag::{is_parse_error, perr, DiagV, SpanV};
use crate::text::{char_debug_text, suffix};
use vstd::prelude::*;
use vstd::utf8::*;

verus! {

broadcast use vstd::seq::group_seq_axioms;

/// The mathematical form of a token.
pub enum TokenV {
    Ident(Seq<char>),
    Int(i64),
    Float(Seq<char>),
    True,
    False,
    Null,
    Str(StringLitV),
    LBrace,
    RBrace,
    LBracket,
    RBracket,
    Comma,
    Dot,
}

/// The mathematical form of a lexer item.
pub enum LexItemV {
    Token(TokenV, SpanV),
    Trivia(TriviaV, bool),
}

/// A number literal: an integer value, or the source text of a float.
pub enum NumV {
    Int(i64),
    Float(Seq<char>),
}

/// A short name for a token's kind, used in diagnostics.
pub open spec fn kind_name(t: TokenV) -> Seq<char> {
    match t {
        TokenV::Ident(_) => "identifier"@,
        TokenV::Int(_) => "int"@,
        TokenV::Float(_) => "float"@,
        TokenV::True => "true"@,
        TokenV::False => "false"@,
        TokenV::Null => "null"@,
        TokenV::Str(_) => "string"@,
        TokenV::LBrace => "'{'"@,
        TokenV::RBrace => "'}'"@,
        TokenV::LBracket => "'['"@,
        TokenV::RBracket => "']'"@,
        TokenV::Comma => "','"@,
        TokenV::Dot => "'.'"@,
    }
}

/// The byte at `i`, if there is one.
pub open spec fn at(s: Seq<u8>, i: int) -> Option<u8> {
    if 0 <= i < s.len() {
        Some(s[i])
    } else {
        None
    }
}

/// Whether `s` holds the three bytes `a b c` starting at `i`.
pub open spec fn starts3(s: Seq<u8>, i: int, a: u8, b: u8, c: u8) -> bool {
    at(s, i) == Some(a) && at(s, i + 1) == Some(b) && at(s, i + 2) == Some(c)
}

pub open spec fn is_digit(b: u8) -> bool {
    48 <= b <= 57
}

pub open spec fn is_hex(b: u8) -> bool {
    is_digit(b) || 97 <= b <= 102 || 65 <= b <= 70
}

pub open spec fn is_alpha(b: u8) -> bool {
    97 <= b <= 122 || 65 <= b <= 90
}

pub open spec fn ident_start(b: u8) -> bool {
    b == 95 || is_alpha(b)
}

pub open spec fn ident_continue(b: u8) -> bool {
    b == 95 || is_alpha(b) || is_digit(b)
}

/// Space, tab, carriage return, newline.
pub open spec fn is_ws(b: u8) -> bool {
    b == 32 || b == 9 || b == 13 || b == 10
}

/// Space or tab.
pub open spec fn is_inline_ws(b: u8) -> bool {
    b == 32 || b == 9
}

pub open spec fn not_newline(b: u8) -> bool {
    b != 10
}

/// The first position at or after `i` whose byte fails `p` (or the end).
pub open spec fn run_end(s: Seq<u8>, i: int, p: spec_fn(u8) -> bool) -> int
    decreases s.len() - i,
{
    if 0 <= i < s.len() && p(s[i]) {
        run_end(s, i + 1, p)
    } else {
        i
    }
}

pub proof fn lemma_run_end(s: Seq<u8>, i: int, p: spec_fn(u8) -> bool)
    requires
        0 <= i <= s.len(),
    ensures
        i <= run_end(s, i, p) <= s.len(),
        forall|k: int| i <= k < run_end(s, i, p) ==> p(#[trigger] s[k]),
        run_end(s, i, p) == s.len() || !p(s[run_end(s, i, p)]),
    decreases s.len() - i,
{
    if i < s.len() && p(s[i]) {
        lemma_run_end(s, i + 1, p);
    }
}

/// The decimal value of the digits `s[a..b]`.
pub open spec fn digits_value(s: Seq<u8>, a: int, b: int) -> nat
    decreases b - a,
{
    if b <= a {
        0
    } else {
        digits_value(s, a, b - 1) * 10 + (s[b - 1] - 48) as nat
    }
}

/// The hexadecimal value of the digits `s[a..b]`.
pub open spec fn hex_digit(b: u8) -> nat {
    if is_digit(b) {
        (b - 48) as nat
    } else if 97 <= b <= 102 {
        (b - 87) as nat
    } else {
        (b - 55) as nat
    }
}

pub open spec fn hex_value(s: Seq<u8>, a: int, b: int) -> nat
    decreases b - a,
{
    if b <= a {
        0
    } else {
        hex_value(s, a, b - 1) * 16 + hex_digit(s[b - 1])
    }
}

/// The text of the bytes `s[a..b]`.
pub open spec fn text(s: Seq<u8>, a: int, b: int) -> Seq<char> {
    decode_utf8(s.subrange(a, b))
}

// ---------------------------------------------------------------------
// Identifiers and numbers
// ---------------------------------------------------------------------

pub open spec fn ident_end(s: Seq<u8>, i: int) -> int {
    run_end(s, i, |b: u8| ident_continue(b))
}

/// The token for the word `s[a..b]`: a keyword or an identifier.
pub open spec fn word_token(s: Seq<u8>, a: int, b: int) -> TokenV {
    let w = s.subrange(a, b);
    if w == seq![116u8, 114u8, 117u8, 101u8] {
        TokenV::True
    } else if w == seq![102u8, 97u8, 108u8, 115u8, 101u8] {
        TokenV::False
    } else if w == seq![110u8, 117u8, 108u8, 108u8] {
        TokenV::Null
    } else {
        TokenV::Ident(text(s, a, b))
    }
}

pub open spec fn digits_end(s: Seq<u8>, i: int) -> int {
    run_end(s, i, |b: u8| is_digit(b))
}

/// The number of bytes of the UTF-8 sequence that the lead byte `b`
/// starts (1 for an ASCII byte).
pub open spec fn char_width(b: u8) -> int {
    if b < 0xC0 {
        1
    } else if b < 0xE0 {
        2
    } else if b < 0xF0 {
        3
    } else {
        4
    }
}

/// The end of the character that starts at `p` (clamped to the text).
pub open spec fn char_end(s: Seq<u8>, p: int) -> int {
    if p + char_width(s[p]) <= s.len() {
        p + char_width(s[p])
    } else {
        s.len() as int
    }
}

/// A number starting at `start`: `-?digits` is an integer, and
/// `-?digits.digits` is a float kept as text.
pub open spec fn spec_number(s: Seq<u8>, start: int) -> Result<(NumV, int), DiagV> {
    let neg = at(s, start) == Some(45u8);
    let p0 = if neg {
        start + 1
    } else {
        start
    };
    let p1 = digits_end(s, p0);
    if p1 == p0 {
        Err(perr(start, p0, "expected digit after '-'"@))
    } else if at(s, p1) == Some(46u8) && (at(s, p1 + 1) matches Some(d) && is_digit(d)) {
        let p2 = digits_end(s, p1 + 1);
        Ok((NumV::Float(text(s, start, p2)), p2))
    } else {
        let m = digits_value(s, p0, p1);
        let v: int = if neg {
            -m
        } else {
            m as int
        };
        if i64::MIN <= v <= i64::MAX {
            Ok((NumV::Int(v as i64), p1))
        } else {
            Err(perr(start, p1, "invalid int"@))
        }
    }
}

// ---------------------------------------------------------------------
// Escapes
// ---------------------------------------------------------------------

/// The byte that a one-letter escape `\e` stands for, in a plain string
/// (`template == false`) or in a template.
pub open spec fn simple_escape(e: u8, template: bool) -> Option<u8> {
    if e == 92 {
        Some(92u8)
    } else if e == 110 {
        Some(10u8)
    } else if e == 116 {
        Some(9u8)
    } else if e == 114 {
        Some(13u8)
    } else if !template && e == 34 {
        Some(34u8)
    } else if template && e == 96 {
        Some(96u8)
    } else if template && e == 36 {
        Some(36u8)
    } else {
        None
    }
}

/// `\u{...}` once `\u` is read: `p` is just after the `u`, `start` is
/// the backslash.
pub open spec fn spec_unicode(s: Seq<u8>, p: int, start: int) -> Result<(Seq<u8>, int), DiagV> {
    if at(s, p) != Some(123u8) {
        Err(
            perr(
                start,
                if 0 <= p < s.len() {
                    char_end(s, p)
                } else {
                    p
                },
                "expected '{' after \\u"@,
            ),
        )
    } else {
        let h0 = p + 1;
        let h = run_end(s, h0, |b: u8| is_hex(b));
        if h == h0 || h - h0 > 6 {
            Err(perr(start, h, "invalid \\u{...} hex digits"@))
        } else {
            let code = hex_value(s, h0, h);
            if !is_scalar(code as u32) {
                Err(perr(start, h, "invalid unicode codepoint"@))
            } else if at(s, h) != Some(125u8) {
                Err(
                    perr(
                        start,
                        if 0 <= h < s.len() {
                            char_end(s, h)
                        } else {
                            h
                        },
                        "expected '}' to close \\u{...}"@,
                    ),
                )
            } else {
                Ok((encode_scalar(code as u32), h + 1))
            }
        }
    }
}

/// An escape starting with the backslash at `pos`: the bytes it adds to
/// the text, and the position after it.
pub open spec fn spec_escape(s: Seq<u8>, pos: int, template: bool) -> Result<(Seq<u8>, int), DiagV> {
    let p = pos + 1;
    match at(s, p) {
        None => Err(perr(pos, p, "dangling backslash"@)),
        Some(e) => if e == 117 {
            spec_unicode(s, p + 1, pos)
        } else {
            match simple_escape(e, template) {
                Some(c) => Ok((seq![c], p + 1)),
                None => Err(perr(pos, char_end(s, p), "unknown escape '\\"@ + seq![e as char] + "'"@)),
            }
        },
    }
}

pub proof fn lemma_escape_advances(s: Seq<u8>, pos: int, template: bool)
    requires
        0 <= pos,
    ensures
        spec_escape(s, pos, template) matches Ok((bytes, e)) ==> pos + 2 <= e <= s.len(),
{
    if at(s, pos + 1) == Some(117u8) && at(s, pos + 2) == Some(123u8) {
        lemma_run_end(s, pos + 3, |b: u8| is_hex(b));
    }
}

// ---------------------------------------------------------------------
// String literals
// ---------------------------------------------------------------------

/// The parts so far, with the pending text (if any) appended.
pub open spec fn flush(parts: Seq<StringPartV>, buf: Seq<u8>) -> Seq<StringPartV> {
    if buf.len() == 0 {
        parts
    } else {
        parts.push(StringPartV::Lit(decode_utf8(buf)))
    }
}

/// The body of a plain string from `pos`, with text `buf` read so far.
pub open spec fn plain_body(s: Seq<u8>, start: int, pos: int, buf: Seq<u8>) -> Result<
    (StringLitV, int),
    DiagV,
>
    decreases s.len() - pos,
{
    if pos < 0 || pos >= s.len() {
        Err(perr(start, pos, "unterminated string literal"@))
    } else {
        let b = s[pos];
        if b == 34 {
            Ok(
                (
                    StringLitV { parts: flush(Seq::empty(), buf), multiline: false, template: false },
                    pos + 1,
                ),
            )
        } else if b == 10 {
            Err(
                perr(
                    pos,
                    pos + 1,
                    "unterminated string literal (newline in basic string — use ``` ... ``` for multi-line)"@,
                ),
            )
        } else if b == 92 {
            match spec_escape(s, pos, false) {
                Err(d) => Err(d),
                Ok((bytes, e)) => {
                    proof {
                        lemma_escape_advances(s, pos, false);
                    }
                    plain_body(s, start, e, buf + bytes)
                },
            }
        } else {
            plain_body(s, start, pos + 1, buf.push(b))
        }
    }
}

/// A plain `"..."` string whose opening quote is at `start`.
pub open spec fn spec_plain_string(s: Seq<u8>, start: int) -> Result<(StringLitV, int), DiagV> {
    if starts3(s, start, 34u8, 34u8, 34u8) {
        Err(
            perr(
                start,
                start + 3,
                "triple-quote multi-line strings are not supported, use ``` ... ``` for multi-line templates"@,
            ),
        )
    } else {
        plain_body(s, start, start + 1, Seq::empty())
    }
}

pub proof fn lemma_plain_body_advances(s: Seq<u8>, start: int, pos: int, buf: Seq<u8>)
    requires
        0 <= pos,
    ensures
        plain_body(s, start, pos, buf) matches Ok((lit, e)) ==> pos < e <= s.len(),
    decreases s.len() - pos,
{
    if 0 <= pos < s.len() {
        let b = s[pos];
        if b == 92 {
            lemma_escape_advances(s, pos, false);
            if let Ok((bytes, e)) = spec_escape(s, pos, false) {
                lemma_plain_body_advances(s, start, e, buf + bytes);
            }
        } else if b != 34 && b != 10 {
            lemma_plain_body_advances(s, start, pos + 1, buf.push(b));
        }
    }
}

pub proof fn lemma_plain_string_advances(s: Seq<u8>, start: int)
    requires
        0 <= start,
    ensures
        spec_plain_string(s, start) matches Ok((lit, e)) ==> start < e <= s.len(),
{
    lemma_plain_body_advances(s, start, start + 1, Seq::empty());
}

// ---------------------------------------------------------------------
// Interpolation
// ---------------------------------------------------------------------

pub open spec fn inline_ws_end(s: Seq<u8>, i: int) -> int {
    run_end(s, i, |b: u8| is_inline_ws(b))
}

/// The rest of a reference path inside `${...}` after `path` was read.
pub open spec fn interp_path(s: Seq<u8>, pos: int, path: Seq<NameV>) -> Result<
    (InterpExprV, int),
    DiagV,
>
    decreases s.len() - pos,
{
    let p = inline_ws_end(s, pos);
    if pos < 0 || at(s, p) != Some(46u8) {
        Ok((InterpExprV::Ref(RefV { path }), p))
    } else {
        let q = inline_ws_end(s, p + 1);
        proof {
            lemma_run_end(s, pos, |b: u8| is_inline_ws(b));
            lemma_run_end(s, p + 1, |b: u8| is_inline_ws(b));
        }
        match at(s, q) {
            None => Err(perr(q, q, "expected identifier or quoted segment after '.'"@)),
            Some(b) => if b == 34 {
                match spec_plain_string(s, q) {
                    Err(d) => Err(d),
                    Ok((lit, e)) => {
                        proof {
                            lemma_plain_string_advances(s, q);
                        }
                        if has_interp(lit.parts) {
                            Err(perr(q, e, "ref segment cannot contain interpolation"@))
                        } else {
                            interp_path(s, e, path.push((first_text(lit.parts), (q, e))))
                        }
                    },
                }
            } else if !ident_start(b) {
                Err(perr(q, char_end(s, q), "expected identifier or quoted segment after '.'"@))
            } else {
                let e = ident_end(s, q);
                proof {
                    lemma_run_end(s, q, |b: u8| ident_continue(b));
                }
                match word_token(s, q, e) {
                    TokenV::Ident(name) => interp_path(s, e, path.push((name, (q, e)))),
                    _ => Err(perr(q, e, "reserved word cannot appear in reference path"@)),
                }
            },
        }
    }
}

/// The body of `${...}`, starting at `start` (after the opening and any
/// blanks).
pub open spec fn spec_interp_body(s: Seq<u8>, start: int) -> Result<(InterpExprV, int), DiagV> {
    match at(s, start) {
        Some(b) => if b == 34 {
            match spec_plain_string(s, start) {
                Err(d) => Err(d),
                Ok((lit, e)) => if lit.parts.len() == 0 {
                    Ok((InterpExprV::Str(Seq::empty()), e))
                } else if lit.parts.len() == 1 && lit.parts[0] is Lit {
                    Ok((InterpExprV::Str(first_text(lit.parts)), e))
                } else {
                    Err(perr(start, e, "nested interpolation inside ${...} is not allowed"@))
                },
            }
        } else if b == 45 || is_digit(b) {
            match spec_number(s, start) {
                Err(d) => Err(d),
                Ok((NumV::Int(v), e)) => Ok((InterpExprV::Int(v), e)),
                Ok((NumV::Float(t), e)) => Ok((InterpExprV::Float(t), e)),
            }
        } else if ident_start(b) {
            let e = ident_end(s, start);
            match word_token(s, start, e) {
                TokenV::True => Ok((InterpExprV::Bool(true), e)),
                TokenV::False => Ok((InterpExprV::Bool(false), e)),
                TokenV::Null => Ok((InterpExprV::Null, e)),
                TokenV::Ident(name) => interp_path(s, e, seq![(name, (start, e))]),
                _ => Ok((InterpExprV::Null, e)),
            }
        } else {
            Err(
                perr(
                    start,
                    char_end(s, start),
                    "expected ref, number, bool, null, or string inside ${...}"@,
                ),
            )
        },
        None => Err(
            perr(start, start, "expected ref, number, bool, null, or string inside ${...}"@),
        ),
    }
}

/// An interpolation `${ body }` whose `$` is at `start`: the body, its
/// span and the position after the closing brace.
pub open spec fn spec_interp(s: Seq<u8>, start: int) -> Result<(InterpExprV, SpanV, int), DiagV> {
    let p = inline_ws_end(s, start + 2);
    match spec_interp_body(s, p) {
        Err(d) => Err(d),
        Ok((body, q)) => {
            let r = inline_ws_end(s, q);
            if at(s, r) != Some(125u8) {
                Err(perr(start, r, "expected '}' to close interpolation"@))
            } else {
                Ok((body, (start, r + 1), r + 1))
            }
        },
    }
}

pub proof fn lemma_interp_path_advances(s: Seq<u8>, pos: int, path: Seq<NameV>)
    requires
        0 <= pos <= s.len(),
    ensures
        interp_path(s, pos, path) matches Ok((x, e)) ==> pos <= e <= s.len(),
    decreases s.len() - pos,
{
    let p = inline_ws_end(s, pos);
    lemma_run_end(s, pos, |b: u8| is_inline_ws(b));
    if at(s, p) == Some(46u8) {
        let q = inline_ws_end(s, p + 1);
        lemma_run_end(s, p + 1, |b: u8| is_inline_ws(b));
        if let Some(b) = at(s, q) {
            if b == 34 {
                lemma_plain_string_advances(s, q);
                if let Ok((lit, e)) = spec_plain_string(s, q) {
                    lemma_interp_path_advances(s, e, path.push((first_text(lit.parts), (q, e))));
                }
            } else if ident_start(b) {
                let e = ident_end(s, q);
                lemma_run_end(s, q, |b: u8| ident_continue(b));
                if let TokenV::Ident(name) = word_token(s, q, e) {
                    lemma_interp_path_advances(s, e, path.push((name, (q, e))));
                }
            }
        }
    }
}

pub proof fn lemma_interp_advances(s: Seq<u8>, start: int)
    requires
        0 <= start,
        start + 2 <= s.len(),
    ensures
        spec_interp(s, start) matches Ok((x, sp, e)) ==> start + 3 <= e <= s.len() && sp == (
            start,
            e,
        ),
{
    let p = inline_ws_end(s, start + 2);
    lemma_run_end(s, start + 2, |b: u8| is_inline_ws(b));
    if let Ok((body, q)) = spec_interp_body(s, p) {
        if let Some(b) = at(s, p) {
            if b == 34 {
                lemma_plain_string_advances(s, p);
            } else if b == 45 || is_digit(b) {
                lemma_number_in_bounds(s, p);
            } else if ident_start(b) {
                let e = ident_end(s, p);
                lemma_run_end(s, p, |b: u8| ident_continue(b));
                if let TokenV::Ident(name) = word_token(s, p, e) {
                    lemma_interp_path_advances(s, e, seq![(name, (p, e))]);
                }
            }
        }
        lemma_run_end(s, q, |b: u8| is_inline_ws(b));
    }
}

pub proof fn lemma_number_in_bounds(s: Seq<u8>, start: int)
    requires
        0 <= start < s.len(),
    ensures
        spec_number(s, start) matches Ok((n, e)) ==> start < e <= s.len(),
{
    let p0 = if at(s, start) == Some(45u8) {
        start + 1
    } else {
        start
    };
    lemma_run_end(s, p0, |b: u8| is_digit(b));
    let p1 = digits_end(s, p0);
    if p1 < s.len() && s[p1] == 46 && p1 + 1 < s.len() {
        lemma_run_end(s, p1 + 1, |b: u8| is_digit(b));
    }
}

// ---------------------------------------------------------------------
// Templates
// ---------------------------------------------------------------------

/// The body of an inline template `` `...` `` from `pos`.
pub open spec fn inline_body(
    s: Seq<u8>,
    start: int,
    pos: int,
    parts: Seq<StringPartV>,
    buf: Seq<u8>,
) -> Result<(StringLitV, int), DiagV>
    decreases s.len() - pos,
{
    if pos < 0 || pos >= s.len() {
        Err(perr(start, pos, "unterminated template literal"@))
    } else {
        let b = s[pos];
        if b == 96 {
            Ok((StringLitV { parts: flush(parts, buf), multiline: false, template: true }, pos + 1))
        } else if b == 10 {
            Err(
                perr(
                    pos,
                    pos + 1,
                    "unterminated template (newline in inline template — use ``` ... ``` for multi-line)"@,
                ),
            )
        } else if b == 92 {
            match spec_escape(s, pos, true) {
                Err(d) => Err(d),
                Ok((bytes, e)) => {
                    proof {
                        lemma_escape_advances(s, pos, true);
                    }
                    inline_body(s, start, e, parts, buf + bytes)
                },
            }
        } else if b == 36 && at(s, pos + 1) == Some(123u8) {
            match spec_interp(s, pos) {
                Err(d) => Err(d),
                Ok((x, sp, e)) => {
                    proof {
                        lemma_interp_advances(s, pos);
                    }
                    inline_body(
                        s,
                        start,
                        e,
                        flush(parts, buf).push(StringPartV::Interp(x, sp)),
                        Seq::empty(),
                    )
                },
            }
        } else {
            inline_body(s, start, pos + 1, parts, buf.push(b))
        }
    }
}

/// The body of a multi-line template ```` ```...``` ```` from `pos`.
pub open spec fn multiline_body(
    s: Seq<u8>,
    start: int,
    pos: int,
    parts: Seq<StringPartV>,
    buf: Seq<u8>,
) -> Result<(StringLitV, int), DiagV>
    decreases s.len() - pos,
{
    if pos < 0 || pos >= s.len() {
        Err(perr(start, pos, "unterminated multi-line template"@))
    } else if starts3(s, pos, 96u8, 96u8, 96u8) {
        Ok((StringLitV { parts: flush(parts, buf), multiline: true, template: true }, pos + 3))
    } else {
        let b = s[pos];
        if b == 92 {
            match spec_escape(s, pos, true) {
                Err(d) => Err(d),
                Ok((bytes, e)) => {
                    proof {
                        lemma_escape_advances(s, pos, true);
                    }
                    multiline_body(s, start, e, parts, buf + bytes)
                },
            }
        } else if b == 36 && at(s, pos + 1) == Some(123u8) {
            match spec_interp(s, pos) {
                Err(d) => Err(d),
                Ok((x, sp, e)) => {
                    proof {
                        lemma_interp_advances(s, pos);
                    }
                    multiline_body(
                        s,
                        start,
                        e,
                        flush(parts, buf).push(StringPartV::Interp(x, sp)),
                        Seq::empty(),
                    )
                },
            }
        } else {
            multiline_body(s, start, pos + 1, parts, buf.push(b))
        }
    }
}

/// A template whose first backtick is at `start`.
pub open spec fn spec_template(s: Seq<u8>, start: int) -> Result<(StringLitV, int), DiagV> {
    if starts3(s, start, 96u8, 96u8, 96u8) {
        multiline_body(s, start, start + 3, Seq::empty(), Seq::empty())
    } else {
        inline_body(s, start, start + 1, Seq::empty(), Seq::empty())
    }
}

// ---------------------------------------------------------------------
// Trivia and tokens
// ---------------------------------------------------------------------

/// The number of newlines in `s[a..b]`.
pub open spec fn count_newlines(s: Seq<u8>, a: int, b: int) -> nat
    decreases b - a,
{
    if b <= a {
        0
    } else {
        count_newlines(s, a, b - 1) + if s[b - 1] == 10 {
            1nat
        } else {
            0nat
        }
    }
}

/// Whitespace and `#` comments from `pos`. `crossed` tells whether a
/// newline was already passed since the last token. Gives the trivia
/// items and the position of the next token (or the end).
pub open spec fn spec_trivia(s: Seq<u8>, pos: int, crossed: bool) -> Result<
    (Seq<LexItemV>, int),
    DiagV,
>
    decreases s.len() - pos,
{
    if pos < 0 || pos >= s.len() {
        Ok((Seq::empty(), pos))
    } else {
        let b = s[pos];
        if is_ws(b) {
            let e = run_end(s, pos, |b: u8| is_ws(b));
            proof {
                lemma_run_end(s, pos, |b: u8| is_ws(b));
            }
            let n = count_newlines(s, pos, e);
            let here = if n >= 2 {
                seq![
                    LexItemV::Trivia(TriviaV { kind: TriviaKindV::BlankLine, span: (pos, e) }, false),
                ]
            } else {
                Seq::empty()
            };
            match spec_trivia(s, e, crossed || n > 0) {
                Err(d) => Err(d),
                Ok((rest, p)) => Ok((here + rest, p)),
            }
        } else if b == 35 {
            let e = run_end(s, pos + 1, |b: u8| not_newline(b));
            proof {
                lemma_run_end(s, pos + 1, |b: u8| not_newline(b));
            }
            let item = LexItemV::Trivia(
                TriviaV { kind: TriviaKindV::LineComment(text(s, pos + 1, e)), span: (pos, e) },
                !crossed,
            );
            match spec_trivia(s, e, true) {
                Err(d) => Err(d),
                Ok((rest, p)) => Ok((seq![item] + rest, p)),
            }
        } else if b == 47 && at(s, pos + 1) == Some(47u8) {
            Err(perr(pos, pos + 2, "'//' comments are not supported, use '#' instead"@))
        } else if b == 47 && at(s, pos + 1) == Some(42u8) {
            Err(
                perr(
                    pos,
                    pos + 2,
                    "'/* ... */' block comments are not supported, use '#' line comments"@,
                ),
            )
        } else {
            Ok((Seq::empty(), pos))
        }
    }
}

pub proof fn lemma_trivia_advances(s: Seq<u8>, pos: int, crossed: bool)
    requires
        0 <= pos <= s.len(),
    ensures
        spec_trivia(s, pos, crossed) matches Ok((items, p)) ==> pos <= p <= s.len() && (p
            == s.len() || !(is_ws(s[p]) || s[p] == 35)),
    decreases s.len() - pos,
{
    if pos < s.len() {
        let b = s[pos];
        if is_ws(b) {
            lemma_run_end(s, pos, |b: u8| is_ws(b));
            let e = run_end(s, pos, |b: u8| is_ws(b));
            lemma_trivia_advances(s, e, crossed || count_newlines(s, pos, e) > 0);
        } else if b == 35 {
            lemma_run_end(s, pos + 1, |b: u8| not_newline(b));
            lemma_trivia_advances(s, run_end(s, pos + 1, |b: u8| not_newline(b)), true);
        }
    }
}

/// The token starting at `start`: the token and the position after it.
#[verifier::opaque]
pub open spec fn spec_next_token(s: Seq<u8>, start: int) -> Result<(TokenV, int), DiagV> {
    let b = s[start];
    if b == 123 {
        Ok((TokenV::LBrace, start + 1))
    } else if b == 125 {
        Ok((TokenV::RBrace, start + 1))
    } else if b == 91 {
        Ok((TokenV::LBracket, start + 1))
    } else if b == 93 {
        Ok((TokenV::RBracket, start + 1))
    } else if b == 44 {
        Ok((TokenV::Comma, start + 1))
    } else if b == 46 {
        Ok((TokenV::Dot, start + 1))
    } else if b == 61 {
        Err(
            perr(
                start,
                start + 1,
                "'=' is not used in the standar DSL — write `key value` instead of `key = value`"@,
            ),
        )
    } else if b == 34 {
        match spec_plain_string(s, start) {
            Err(d) => Err(d),
            Ok((lit, e)) => Ok((TokenV::Str(lit), e)),
        }
    } else if b == 96 {
        match spec_template(s, start) {
            Err(d) => Err(d),
            Ok((lit, e)) => Ok((TokenV::Str(lit), e)),
        }
    } else if b == 45 || is_digit(b) {
        match spec_number(s, start) {
            Err(d) => Err(d),
            Ok((NumV::Int(v), e)) => Ok((TokenV::Int(v), e)),
            Ok((NumV::Float(t), e)) => Ok((TokenV::Float(t), e)),
        }
    } else if ident_start(b) {
        let e = ident_end(s, start);
        Ok((word_token(s, start, e), e))
    } else {
        Err(perr(start, char_end(s, start), "unexpected character "@ + char_debug_text(b as char)))
    }
}

pub proof fn lemma_template_advances(s: Seq<u8>, start: int)
    requires
        0 <= start < s.len(),
    ensures
        spec_template(s, start) matches Ok((lit, e)) ==> start < e <= s.len(),
{
    if starts3(s, start, 96u8, 96u8, 96u8) {
        lemma_multiline_advances(s, start, start + 3, Seq::empty(), Seq::empty());
    } else {
        lemma_inline_advances(s, start, start + 1, Seq::empty(), Seq::empty());
    }
}

pub proof fn lemma_inline_advances(
    s: Seq<u8>,
    start: int,
    pos: int,
    parts: Seq<StringPartV>,
    buf: Seq<u8>,
)
    requires
        0 <= pos,
    ensures
        inline_body(s, start, pos, parts, buf) matches Ok((lit, e)) ==> pos < e <= s.len(),
    decreases s.len() - pos,
{
    if 0 <= pos < s.len() {
        let b = s[pos];
        if b == 92 {
            lemma_escape_advances(s, pos, true);
            if let Ok((bytes, e)) = spec_escape(s, pos, true) {
                lemma_inline_advances(s, start, e, parts, buf + bytes);
            }
        } else if b == 36 && at(s, pos + 1) == Some(123u8) {
            lemma_interp_advances(s, pos);
            if let Ok((x, sp, e)) = spec_interp(s, pos) {
                lemma_inline_advances(
                    s,
                    start,
                    e,
                    flush(parts, buf).push(StringPartV::Interp(x, sp)),
                    Seq::empty(),
                );
            }
        } else if b != 96 && b != 10 {
            lemma_inline_advances(s, start, pos + 1, parts, buf.push(b));
        }
    }
}

pub proof fn lemma_multiline_advances(
    s: Seq<u8>,
    start: int,
    pos: int,
    parts: Seq<StringPartV>,
    buf: Seq<u8>,
)
    requires
        0 <= pos,
    ensures
        multiline_body(s, start, pos, parts, buf) matches Ok((lit, e)) ==> pos < e <= s.len(),
    decreases s.len() - pos,
{
    if 0 <= pos < s.len() && !starts3(s, pos, 96u8, 96u8, 96u8) {
        let b = s[pos];
        if b == 92 {
            lemma_escape_advances(s, pos, true);
            if let Ok((bytes, e)) = spec_escape(s, pos, true) {
                lemma_multiline_advances(s, start, e, parts, buf + bytes);
            }
        } else if b == 36 && at(s, pos + 1) == Some(123u8) {
            lemma_interp_advances(s, pos);
            if let Ok((x, sp, e)) = spec_interp(s, pos) {
                lemma_multiline_advances(
                    s,
                    start,
                    e,
                    flush(parts, buf).push(StringPartV::Interp(x, sp)),
                    Seq::empty(),
                );
            }
        } else {
            lemma_multiline_advances(s, start, pos + 1, parts, buf.push(b));
        }
    }
}

pub proof fn lemma_next_token_advances(s: Seq<u8>, start: int)
    requires
        0 <= start < s.len(),
    ensures
        spec_next_token(s, start) matches Ok((t, e)) ==> start < e <= s.len(),
{
    reveal(spec_next_token);
    let b = s[start];
    if b == 34 {
        lemma_plain_string_advances(s, start);
    } else if b == 96 {
        lemma_template_advances(s, start);
    } else if b == 45 || is_digit(b) {
        lemma_number_in_bounds(s, start);
    } else if ident_start(b) {
        lemma_run_end(s, start, |b: u8| ident_continue(b));
    }
}

/// The lexer items from `pos` to the end of the source.
pub open spec fn spec_tokens_from(s: Seq<u8>, pos: int) -> Result<Seq<LexItemV>, DiagV>
    decreases s.len() - pos,
{
    if pos < 0 || pos > s.len() {
        Ok(Seq::empty())
    } else {
        match spec_trivia(s, pos, false) {
            Err(d) => Err(d),
            Ok((tv, p)) => {
                proof {
                    lemma_trivia_advances(s, pos, false);
                }
                if p >= s.len() {
                    Ok(tv)
                } else {
                    match spec_next_token(s, p) {
                        Err(d) => Err(d),
                        Ok((t, e)) => {
                            proof {
                                lemma_next_token_advances(s, p);
                            }
                            match spec_tokens_from(s, e) {
                                Err(d) => Err(d),
                                Ok(rest) => Ok(tv + seq![LexItemV::Token(t, (p, e))] + rest),
                            }
                        },
                    }
                }
            },
        }
    }
}

/// What `tokenize` gives for the source bytes `s`.
pub open spec fn spec_tokenize(s: Seq<u8>) -> Result<Seq<LexItemV>, DiagV> {
    spec_tokens_from(s, 0)
}


// ---------------------------------------------------------------------
// Every lexer item covers at least one byte
// ---------------------------------------------------------------------

pub proof fn lemma_trivia_count(s: Seq<u8>, pos: int, crossed: bool)
    requires
        0 <= pos <= s.len(),
    ensures
        spec_trivia(s, pos, crossed) matches Ok((items, p)) ==> items.len() <= p - pos,
    decreases s.len() - pos,
{
    if pos < s.len() {
        let b = s[pos];
        if is_ws(b) {
            lemma_run_end(s, pos, |b: u8| is_ws(b));
            let e = run_end(s, pos, |b: u8| is_ws(b));
            lemma_trivia_count(s, e, crossed || count_newlines(s, pos, e) > 0);
        } else if b == 35 {
            lemma_run_end(s, pos + 1, |b: u8| not_newline(b));
            lemma_trivia_count(s, run_end(s, pos + 1, |b: u8| not_newline(b)), true);
        }
    }
}

pub proof fn lemma_tokens_count(s: Seq<u8>, pos: int)
    requires
        0 <= pos <= s.len(),
    ensures
        spec_tokens_from(s, pos) matches Ok(items) ==> items.len() <= s.len() - pos,
    decreases s.len() - pos,
{
    lemma_trivia_count(s, pos, false);
    lemma_trivia_advances(s, pos, false);
    if let Ok((tv, p)) = spec_trivia(s, pos, false) {
        if p < s.len() {
            lemma_next_token_advances(s, p);
            if let Ok((t, e)) = spec_next_token(s, p) {
                lemma_tokens_count(s, e);
            }
        }
    }
}

// ---------------------------------------------------------------------
// Every lexer diagnostic is a parse error
// ---------------------------------------------------------------------

proof fn lemma_plain_body_errors(s: Seq<u8>, start: int, pos: int, buf: Seq<u8>)
    ensures
        plain_body(s, start, pos, buf) matches Err(d) ==> is_parse_error(d),
    decreases s.len() - pos,
{
    if 0 <= pos < s.len() {
        let b = s[pos];
        if b == 92 {
            if let Ok((bytes, e)) = spec_escape(s, pos, false) {
                lemma_escape_advances(s, pos, false);
                lemma_plain_body_errors(s, start, e, buf + bytes);
            }
        } else if b != 34 && b != 10 {
            lemma_plain_body_errors(s, start, pos + 1, buf.push(b));
        }
    }
}

proof fn lemma_plain_string_errors(s: Seq<u8>, start: int)
    ensures
        spec_plain_string(s, start) matches Err(d) ==> is_parse_error(d),
{
    lemma_plain_body_errors(s, start, start + 1, Seq::empty());
}

proof fn lemma_interp_path_errors(s: Seq<u8>, pos: int, path: Seq<NameV>)
    ensures
        interp_path(s, pos, path) matches Err(d) ==> is_parse_error(d),
    decreases s.len() - pos,
{
    let p = inline_ws_end(s, pos);
    if pos >= 0 && at(s, p) == Some(46u8) {
        lemma_run_end(s, pos, |b: u8| is_inline_ws(b));
        lemma_run_end(s, p + 1, |b: u8| is_inline_ws(b));
        let q = inline_ws_end(s, p + 1);
        if let Some(b) = at(s, q) {
            if b == 34 {
                lemma_plain_string_errors(s, q);
                if let Ok((lit, e)) = spec_plain_string(s, q) {
                    lemma_plain_string_advances(s, q);
                    lemma_interp_path_errors(s, e, path.push((first_text(lit.parts), (q, e))));
                }
            } else if ident_start(b) {
                let e = ident_end(s, q);
                lemma_run_end(s, q, |b: u8| ident_continue(b));
                if let TokenV::Ident(name) = word_token(s, q, e) {
                    lemma_interp_path_errors(s, e, path.push((name, (q, e))));
                }
            }
        }
    }
}

proof fn lemma_interp_errors(s: Seq<u8>, start: int)
    ensures
        spec_interp(s, start) matches Err(d) ==> is_parse_error(d),
{
    let p = inline_ws_end(s, start + 2);
    if let Some(b) = at(s, p) {
        if b == 34 {
            lemma_plain_string_errors(s, p);
        } else if ident_start(b) {
            let e = ident_end(s, p);
            if let TokenV::Ident(name) = word_token(s, p, e) {
                lemma_interp_path_errors(s, e, seq![(name, (p, e))]);
            }
        }
    }
}

proof fn lemma_inline_errors(
    s: Seq<u8>,
    start: int,
    pos: int,
    parts: Seq<StringPartV>,
    buf: Seq<u8>,
)
    ensures
        inline_body(s, start, pos, parts, buf) matches Err(d) ==> is_parse_error(d),
    decreases s.len() - pos,
{
    if 0 <= pos < s.len() {
        let b = s[pos];
        if b == 92 {
            if let Ok((bytes, e)) = spec_escape(s, pos, true) {
                lemma_escape_advances(s, pos, true);
                lemma_inline_errors(s, start, e, parts, buf + bytes);
            }
        } else if b == 36 && at(s, pos + 1) == Some(123u8) {
            lemma_interp_errors(s, pos);
            if let Ok((x, sp, e)) = spec_interp(s, pos) {
                lemma_interp_advances(s, pos);
                lemma_inline_errors(
                    s,
                    start,
                    e,
                    flush(parts, buf).push(StringPartV::Interp(x, sp)),
                    Seq::empty(),
                );
            }
        } else if b != 96 && b != 10 {
            lemma_inline_errors(s, start, pos + 1, parts, buf.push(b));
        }
    }
}

proof fn lemma_multiline_errors(
    s: Seq<u8>,
    start: int,
    pos: int,
    parts: Seq<StringPartV>,
    buf: Seq<u8>,
)
    ensures
        multiline_body(s, start, pos, parts, buf) matches Err(d) ==> is_parse_error(d),
    decreases s.len() - pos,
{
    if 0 <= pos < s.len() && !starts3(s, pos, 96u8, 96u8, 96u8) {
        let b = s[pos];
        if b == 92 {
            if let Ok((bytes, e)) = spec_escape(s, pos, true) {
                lemma_escape_advances(s, pos, true);
                lemma_multiline_errors(s, start, e, parts, buf + bytes);
            }
        } else if b == 36 && at(s, pos + 1) == Some(123u8) {
            lemma_interp_errors(s, pos);
            if let Ok((x, sp, e)) = spec_interp(s, pos) {
                lemma_interp_advances(s, pos);
                lemma_multiline_errors(
                    s,
                    start,
                    e,
                    flush(parts, buf).push(StringPartV::Interp(x, sp)),
                    Seq::empty(),
                );
            }
        } else {
            lemma_multiline_errors(s, start, pos + 1, parts, buf.push(b));
        }
    }
}

proof fn lemma_trivia_errors(s: Seq<u8>, pos: int, crossed: bool)
    ensures
        spec_trivia(s, pos, crossed) matches Err(d) ==> is_parse_error(d),
    decreases s.len() - pos,
{
    if 0 <= pos < s.len() {
        let b = s[pos];
        if is_ws(b) {
            lemma_run_end(s, pos, |b: u8| is_ws(b));
            let e = run_end(s, pos, |b: u8| is_ws(b));
            lemma_trivia_errors(s, e, crossed || count_newlines(s, pos, e) > 0);
        } else if b == 35 {
            lemma_run_end(s, pos + 1, |b: u8| not_newline(b));
            lemma_trivia_errors(s, run_end(s, pos + 1, |b: u8| not_newline(b)), true);
        }
    }
}

proof fn lemma_next_token_errors(s: Seq<u8>, start: int)
    ensures
        spec_next_token(s, start) matches Err(d) ==> is_parse_error(d),
{
    reveal(spec_next_token);
    lemma_plain_string_errors(s, start);
    if starts3(s, start, 96u8, 96u8, 96u8) {
        lemma_multiline_errors(s, start, start + 3, Seq::empty(), Seq::empty());
    } else {
        lemma_inline_errors(s, start, start + 1, Seq::empty(), Seq::empty());
    }
}

/// Every diagnostic of the lexer is a parse error.
pub proof fn lemma_tokens_errors(s: Seq<u8>, pos: int)
    ensures
        spec_tokens_from(s, pos) matches Err(d) ==> is_parse_error(d),
    decreases s.len() - pos,
{
    if 0 <= pos <= s.len() {
        lemma_trivia_errors(s, pos, false);
        if let Ok((tv, p)) = spec_trivia(s, pos, false) {
            lemma_trivia_advances(s, pos, false);
            if p < s.len() {
                lemma_next_token_errors(s, p);
                if let Ok((t, e)) = spec_next_token(s, p) {
                    lemma_next_token_advances(s, p);
                    lemma_tokens_errors(s, e);
                }
            }
        }
    }
}

// ---------------------------------------------------------------------
// Every lexer diagnostic spans whole characters of the source
// ---------------------------------------------------------------------

/// Whether `sp` is a byte range of `s` whose ends are character
/// boundaries.
pub open spec fn span_within(s: Seq<u8>, sp: SpanV) -> bool {
    &&& 0 <= sp.0 <= sp.1 <= s.len()
    &&& is_char_boundary(s, sp.0)
    &&& is_char_boundary(s, sp.1)
}

/// From a character boundary, the end of that character is one too.
pub proof fn lemma_char_end_boundary(s: Seq<u8>, i: int)
    requires
        valid_utf8(s),
        0 <= i < s.len(),
        is_char_boundary(s, i),
    ensures
        i < char_end(s, i) <= s.len(),
        is_char_boundary(s, char_end(s, i)),
{
    valid_utf8_split(s, i);
    is_char_boundary_start_end_of_seq(s);
    let t = s.subrange(i, s.len() as int);
    assert(t[0] == s[i]);
    is_char_boundary_iff_is_leading_byte(s, i);
    let w = length_of_first_scalar(t);
    assert(w == char_width(s[i]));
    assert(pop_first_scalar(t) =~= s.subrange(i + w, s.len() as int));
    assert(valid_first_scalar(t));
    assert(valid_utf8(pop_first_scalar(t)));
    assert(w <= t.len());
    if i + w < s.len() {
        let u = s.subrange(i + w, s.len() as int);
        assert(valid_utf8(u));
        assert(valid_first_scalar(u));
        assert(u[0] == s[i + w]);
        is_char_boundary_iff_is_leading_byte(s, i + w);
    }
}

/// An ASCII byte starts a character, and so does the byte after it.
pub proof fn lemma_ascii_boundaries(s: Seq<u8>, i: int)
    requires
        valid_utf8(s),
        0 <= i < s.len(),
        s[i] <= 0x7f,
    ensures
        is_char_boundary(s, i),
        is_char_boundary(s, i + 1),
{
    is_char_boundary_iff_is_leading_byte(s, i);
    lemma_char_end_boundary(s, i);
}

/// The end of a text is a character boundary.
pub proof fn lemma_end_boundary(s: Seq<u8>)
    requires
        valid_utf8(s),
    ensures
        is_char_boundary(s, s.len() as int),
        is_char_boundary(s, 0),
{
    is_char_boundary_start_end_of_seq(s);
}

proof fn lemma_number_spans(s: Seq<u8>, start: int)
    requires
        valid_utf8(s),
        0 <= start < s.len(),
        s[start] == 45 || is_digit(s[start]),
    ensures
        spec_number(s, start) matches Err(d) ==> span_within(s, d.span),
        spec_number(s, start) matches Ok((n, e)) ==> start < e <= s.len() && is_digit(s[e - 1]),
{
    let neg = at(s, start) == Some(45u8);
    let p0 = if neg {
        start + 1
    } else {
        start
    };
    lemma_ascii_boundaries(s, start);
    lemma_end_boundary(s);
    lemma_run_end(s, p0, |b: u8| is_digit(b));
    let p1 = digits_end(s, p0);
    if p1 > p0 {
        lemma_ascii_boundaries(s, p1 - 1);
        assert(is_digit(s[p1 - 1]));
        if at(s, p1) == Some(46u8) && (at(s, p1 + 1) matches Some(d) && is_digit(d)) {
            lemma_run_end(s, p1 + 1, |b: u8| is_digit(b));
            let p2 = digits_end(s, p1 + 1);
            assert(is_digit(s[p2 - 1]));
        }
    }
}

proof fn lemma_unicode_spans(s: Seq<u8>, p: int, start: int)
    requires
        valid_utf8(s),
        0 <= start,
        p == start + 2 <= s.len(),
        s[start] == 92,
        s[start + 1] == 117,
    ensures
        spec_unicode(s, p, start) matches Err(d) ==> span_within(s, d.span),
        spec_unicode(s, p, start) matches Ok((bytes, e)) ==> p < e <= s.len() && s[e - 1] == 125,
{
    lemma_ascii_boundaries(s, start);
    lemma_ascii_boundaries(s, start + 1);
    lemma_end_boundary(s);
    if p < s.len() {
        lemma_char_end_boundary(s, p);
    }
    if at(s, p) == Some(123u8) {
        lemma_ascii_boundaries(s, p);
        let h0 = p + 1;
        lemma_run_end(s, h0, |b: u8| is_hex(b));
        let h = run_end(s, h0, |b: u8| is_hex(b));
        if h > h0 {
            assert(is_hex(s[h - 1]));
            lemma_ascii_boundaries(s, h - 1);
        }
        if h < s.len() {
            lemma_char_end_boundary(s, h);
        }
    }
}

proof fn lemma_escape_spans(s: Seq<u8>, pos: int, template: bool)
    requires
        valid_utf8(s),
        0 <= pos < s.len(),
        s[pos] == 92,
    ensures
        spec_escape(s, pos, template) matches Err(d) ==> span_within(s, d.span),
{
    lemma_ascii_boundaries(s, pos);
    lemma_end_boundary(s);
    let p = pos + 1;
    if p < s.len() {
        lemma_char_end_boundary(s, p);
        if s[p] == 117 {
            lemma_unicode_spans(s, p + 1, pos);
        }
    }
}

proof fn lemma_plain_body_spans(s: Seq<u8>, start: int, pos: int, buf: Seq<u8>)
    requires
        valid_utf8(s),
        0 <= start < pos <= s.len(),
        s[start] <= 0x7f,
    ensures
        plain_body(s, start, pos, buf) matches Err(d) ==> span_within(s, d.span),
        plain_body(s, start, pos, buf) matches Ok((lit, e)) ==> pos < e <= s.len() && s[e - 1]
            == 34,
    decreases s.len() - pos,
{
    lemma_ascii_boundaries(s, start);
    lemma_end_boundary(s);
    if pos < s.len() {
        let b = s[pos];
        if b == 10 {
            lemma_ascii_boundaries(s, pos);
        } else if b == 92 {
            lemma_escape_spans(s, pos, false);
            lemma_escape_advances(s, pos, false);
            if let Ok((bytes, e)) = spec_escape(s, pos, false) {
                lemma_plain_body_spans(s, start, e, buf + bytes);
            }
        } else if b != 34 {
            lemma_plain_body_spans(s, start, pos + 1, buf.push(b));
        }
    }
}

proof fn lemma_plain_string_spans(s: Seq<u8>, start: int)
    requires
        valid_utf8(s),
        0 <= start < s.len(),
        s[start] == 34,
    ensures
        spec_plain_string(s, start) matches Err(d) ==> span_within(s, d.span),
        spec_plain_string(s, start) matches Ok((lit, e)) ==> start < e <= s.len() && s[e - 1]
            == 34,
{
    lemma_ascii_boundaries(s, start);
    if starts3(s, start, 34u8, 34u8, 34u8) {
        lemma_ascii_boundaries(s, start + 2);
    } else {
        lemma_plain_body_spans(s, start, start + 1, Seq::empty());
    }
}


/// After a run of ASCII bytes from a boundary `i`, its end `e` is a
/// boundary too.
proof fn lemma_run_boundary(s: Seq<u8>, i: int, e: int)
    requires
        valid_utf8(s),
        0 <= i <= e <= s.len(),
        is_char_boundary(s, i),
        e > i ==> s[e - 1] <= 0x7f,
    ensures
        is_char_boundary(s, e),
{
    if e > i {
        lemma_ascii_boundaries(s, e - 1);
    }
}

proof fn lemma_interp_path_spans(s: Seq<u8>, pos: int, path: Seq<NameV>)
    requires
        valid_utf8(s),
        0 <= pos <= s.len(),
        is_char_boundary(s, pos),
    ensures
        interp_path(s, pos, path) matches Err(d) ==> span_within(s, d.span),
        interp_path(s, pos, path) matches Ok((x, p)) ==> pos <= p <= s.len() && is_char_boundary(
            s,
            p,
        ),
    decreases s.len() - pos,
{
    lemma_end_boundary(s);
    lemma_run_end(s, pos, |b: u8| is_inline_ws(b));
    let p = inline_ws_end(s, pos);
    if p > pos {
        assert(is_inline_ws(s[p - 1]));
    }
    lemma_run_boundary(s, pos, p);
    if at(s, p) == Some(46u8) {
        lemma_ascii_boundaries(s, p);
        lemma_run_end(s, p + 1, |b: u8| is_inline_ws(b));
        let q = inline_ws_end(s, p + 1);
        if q > p + 1 {
            assert(is_inline_ws(s[q - 1]));
        }
        lemma_run_boundary(s, p + 1, q);
        if let Some(b) = at(s, q) {
            lemma_char_end_boundary(s, q);
            if b == 34 {
                lemma_plain_string_spans(s, q);
                if let Ok((lit, e)) = spec_plain_string(s, q) {
                    lemma_ascii_boundaries(s, e - 1);
                    lemma_interp_path_spans(s, e, path.push((first_text(lit.parts), (q, e))));
                }
            } else if ident_start(b) {
                lemma_run_end(s, q, |b: u8| ident_continue(b));
                let e = ident_end(s, q);
                assert(ident_continue(s[e - 1]));
                lemma_ascii_boundaries(s, e - 1);
                if let TokenV::Ident(name) = word_token(s, q, e) {
                    lemma_interp_path_spans(s, e, path.push((name, (q, e))));
                }
            }
        }
    }
}

proof fn lemma_interp_body_spans(s: Seq<u8>, start: int)
    requires
        valid_utf8(s),
        0 <= start <= s.len(),
        is_char_boundary(s, start),
    ensures
        spec_interp_body(s, start) matches Err(d) ==> span_within(s, d.span),
        spec_interp_body(s, start) matches Ok((x, e)) ==> start <= e <= s.len()
            && is_char_boundary(s, e),
{
    lemma_end_boundary(s);
    if let Some(b) = at(s, start) {
        lemma_char_end_boundary(s, start);
        if b == 34 {
            lemma_plain_string_spans(s, start);
            if let Ok((lit, e)) = spec_plain_string(s, start) {
                lemma_ascii_boundaries(s, e - 1);
            }
        } else if b == 45 || is_digit(b) {
            lemma_number_spans(s, start);
            if let Ok((n, e)) = spec_number(s, start) {
                lemma_ascii_boundaries(s, e - 1);
            }
        } else if ident_start(b) {
            lemma_run_end(s, start, |b: u8| ident_continue(b));
            let e = ident_end(s, start);
            assert(ident_continue(s[e - 1]));
            lemma_ascii_boundaries(s, e - 1);
            if let TokenV::Ident(name) = word_token(s, start, e) {
                lemma_interp_path_spans(s, e, seq![(name, (start, e))]);
            }
        }
    }
}

proof fn lemma_interp_spans(s: Seq<u8>, start: int)
    requires
        valid_utf8(s),
        0 <= start,
        start + 1 < s.len(),
        s[start] == 36,
        s[start + 1] == 123,
    ensures
        spec_interp(s, start) matches Err(d) ==> span_within(s, d.span),
{
    lemma_ascii_boundaries(s, start);
    lemma_ascii_boundaries(s, start + 1);
    lemma_run_end(s, start + 2, |b: u8| is_inline_ws(b));
    let p = inline_ws_end(s, start + 2);
    if p > start + 2 {
        assert(is_inline_ws(s[p - 1]));
    }
    lemma_run_boundary(s, start + 2, p);
    lemma_interp_body_spans(s, p);
    if let Ok((body, q)) = spec_interp_body(s, p) {
        lemma_run_end(s, q, |b: u8| is_inline_ws(b));
        let r = inline_ws_end(s, q);
        if r > q {
            assert(is_inline_ws(s[r - 1]));
        }
        lemma_run_boundary(s, q, r);
    }
}

proof fn lemma_inline_spans(s: Seq<u8>, start: int, pos: int, parts: Seq<StringPartV>, buf: Seq<u8>)
    requires
        valid_utf8(s),
        0 <= start < pos <= s.len(),
        s[start] <= 0x7f,
    ensures
        inline_body(s, start, pos, parts, buf) matches Err(d) ==> span_within(s, d.span),
        inline_body(s, start, pos, parts, buf) matches Ok((lit, e)) ==> pos < e <= s.len() && s[e
            - 1] == 96,
    decreases s.len() - pos,
{
    lemma_ascii_boundaries(s, start);
    lemma_end_boundary(s);
    if pos < s.len() {
        let b = s[pos];
        if b == 10 {
            lemma_ascii_boundaries(s, pos);
        } else if b == 92 {
            lemma_escape_spans(s, pos, true);
            lemma_escape_advances(s, pos, true);
            if let Ok((bytes, e)) = spec_escape(s, pos, true) {
                lemma_inline_spans(s, start, e, parts, buf + bytes);
            }
        } else if b == 36 && at(s, pos + 1) == Some(123u8) {
            lemma_interp_spans(s, pos);
            lemma_interp_advances(s, pos);
            if let Ok((x, sp, e)) = spec_interp(s, pos) {
                lemma_inline_spans(
                    s,
                    start,
                    e,
                    flush(parts, buf).push(StringPartV::Interp(x, sp)),
                    Seq::empty(),
                );
            }
        } else if b != 96 {
            lemma_inline_spans(s, start, pos + 1, parts, buf.push(b));
        }
    }
}

proof fn lemma_multiline_spans(
    s: Seq<u8>,
    start: int,
    pos: int,
    parts: Seq<StringPartV>,
    buf: Seq<u8>,
)
    requires
        valid_utf8(s),
        0 <= start < pos <= s.len(),
        s[start] <= 0x7f,
    ensures
        multiline_body(s, start, pos, parts, buf) matches Err(d) ==> span_within(s, d.span),
        multiline_body(s, start, pos, parts, buf) matches Ok((lit, e)) ==> pos < e <= s.len()
            && s[e - 1] == 96,
    decreases s.len() - pos,
{
    lemma_ascii_boundaries(s, start);
    lemma_end_boundary(s);
    if pos < s.len() && !starts3(s, pos, 96u8, 96u8, 96u8) {
        let b = s[pos];
        if b == 92 {
            lemma_escape_spans(s, pos, true);
            lemma_escape_advances(s, pos, true);
            if let Ok((bytes, e)) = spec_escape(s, pos, true) {
                lemma_multiline_spans(s, start, e, parts, buf + bytes);
            }
        } else if b == 36 && at(s, pos + 1) == Some(123u8) {
            lemma_interp_spans(s, pos);
            lemma_interp_advances(s, pos);
            if let Ok((x, sp, e)) = spec_interp(s, pos) {
                lemma_multiline_spans(
                    s,
                    start,
                    e,
                    flush(parts, buf).push(StringPartV::Interp(x, sp)),
                    Seq::empty(),
                );
            }
        } else {
            lemma_multiline_spans(s, start, pos + 1, parts, buf.push(b));
        }
    }
}

proof fn lemma_trivia_spans(s: Seq<u8>, pos: int, crossed: bool)
    requires
        valid_utf8(s),
        0 <= pos <= s.len(),
        is_char_boundary(s, pos),
    ensures
        spec_trivia(s, pos, crossed) matches Err(d) ==> span_within(s, d.span),
        spec_trivia(s, pos, crossed) matches Ok((items, p)) ==> is_char_boundary(s, p) && forall|
            k: int,
        | 0 <= k < items.len() ==> #[trigger] items[k] is Trivia,
    decreases s.len() - pos,
{
    lemma_end_boundary(s);
    if pos < s.len() {
        let b = s[pos];
        if is_ws(b) {
            lemma_run_end(s, pos, |b: u8| is_ws(b));
            let e = run_end(s, pos, |b: u8| is_ws(b));
            assert(is_ws(s[e - 1]));
            lemma_ascii_boundaries(s, e - 1);
            let n = count_newlines(s, pos, e);
            lemma_trivia_spans(s, e, crossed || n > 0);
        } else if b == 35 {
            lemma_run_end(s, pos + 1, |b: u8| not_newline(b));
            let e = run_end(s, pos + 1, |b: u8| not_newline(b));
            if e < s.len() {
                lemma_ascii_boundaries(s, e);
            }
            lemma_trivia_spans(s, e, true);
        } else if b == 47 && (at(s, pos + 1) == Some(47u8) || at(s, pos + 1) == Some(42u8)) {
            lemma_ascii_boundaries(s, pos + 1);
        }
    }
}

proof fn lemma_next_token_spans(s: Seq<u8>, start: int)
    requires
        valid_utf8(s),
        0 <= start < s.len(),
        is_char_boundary(s, start),
    ensures
        spec_next_token(s, start) matches Err(d) ==> span_within(s, d.span),
        spec_next_token(s, start) matches Ok((t, e)) ==> start < e <= s.len() && is_char_boundary(
            s,
            e,
        ),
{
    reveal(spec_next_token);
    lemma_end_boundary(s);
    lemma_char_end_boundary(s, start);
    let b = s[start];
    if b <= 0x7f {
        lemma_ascii_boundaries(s, start);
    }
    if b == 34 {
        lemma_plain_string_spans(s, start);
        if let Ok((lit, e)) = spec_plain_string(s, start) {
            lemma_ascii_boundaries(s, e - 1);
        }
    } else if b == 96 {
        if starts3(s, start, 96u8, 96u8, 96u8) {
            lemma_multiline_spans(s, start, start + 3, Seq::empty(), Seq::empty());
        } else {
            lemma_inline_spans(s, start, start + 1, Seq::empty(), Seq::empty());
        }
        if let Ok((lit, e)) = spec_template(s, start) {
            lemma_ascii_boundaries(s, e - 1);
        }
    } else if b == 45 || is_digit(b) {
        lemma_number_spans(s, start);
        if let Ok((n, e)) = spec_number(s, start) {
            lemma_ascii_boundaries(s, e - 1);
        }
    } else if ident_start(b) {
        lemma_run_end(s, start, |b: u8| ident_continue(b));
        let e = ident_end(s, start);
        assert(ident_continue(s[e - 1]));
        lemma_ascii_boundaries(s, e - 1);
    }
}

/// Whether every token among `items` spans whole characters of `s`.
pub open spec fn tokens_within(s: Seq<u8>, items: Seq<LexItemV>) -> bool {
    forall|k: int|
        0 <= k < items.len() ==> (#[trigger] items[k] matches LexItemV::Token(t, sp) ==> span_within(
            s,
            sp,
        ))
}

/// The lexer's diagnostic, and every token it gives, span whole
/// characters of a valid source text.
pub proof fn lemma_tokens_spans(s: Seq<u8>, pos: int)
    requires
        valid_utf8(s),
        0 <= pos <= s.len(),
        is_char_boundary(s, pos),
    ensures
        spec_tokens_from(s, pos) matches Err(d) ==> span_within(s, d.span),
        spec_tokens_from(s, pos) matches Ok(items) ==> tokens_within(s, items),
    decreases s.len() - pos,
{
    lemma_trivia_spans(s, pos, false);
    if let Ok((tv, p)) = spec_trivia(s, pos, false) {
        lemma_trivia_advances(s, pos, false);
        if p < s.len() {
            lemma_next_token_spans(s, p);
            if let Ok((t, e)) = spec_next_token(s, p) {
                lemma_tokens_spans(s, e);
                if let Ok(rest) = spec_tokens_from(s, e) {
                    let items = tv + seq![LexItemV::Token(t, (p, e))] + rest;
                    assert forall|k: int| 0 <= k < items.len() implies (#[trigger] items[k] matches LexItemV::Token(
                        t2,
                        sp,
                    ) ==> span_within(s, sp)) by {
                        if k < tv.len() {
                            assert(items[k] == tv[k]);
                        } else if k == tv.len() {
                        } else {
                            assert(items[k] == rest[k - tv.len() - 1]);
                        }
                    }
                }
            }
        } else {
            assert forall|k: int| 0 <= k < tv.len() implies (#[trigger] tv[k] matches LexItemV::Token(
                t2,
                sp,
            ) ==> span_within(s, sp)) by {}
        }
    }
}

// ---------------------------------------------------------------------
// Blank lines
// ---------------------------------------------------------------------

/// The trivia items from `pos` on all start at or after `pos`.
proof fn lemma_trivia_items_after(s: Seq<u8>, pos: int, crossed: bool)
    requires
        0 <= pos <= s.len(),
    ensures
        spec_trivia(s, pos, crossed) matches Ok((items, p)) ==> forall|k: int|
            0 <= k < items.len() ==> (#[trigger] items[k] matches LexItemV::Trivia(tv, a)
                && tv.span.0 >= pos),
    decreases s.len() - pos,
{
    if pos < s.len() {
        let b = s[pos];
        if is_ws(b) {
            lemma_run_end(s, pos, |b: u8| is_ws(b));
            let e = run_end(s, pos, |b: u8| is_ws(b));
            let n = count_newlines(s, pos, e);
            lemma_trivia_items_after(s, e, crossed || n > 0);
            if let Ok((rest, p)) = spec_trivia(s, e, crossed || n > 0) {
                let first = if n >= 2 {
                    seq![
                        LexItemV::Trivia(
                            TriviaV { kind: TriviaKindV::BlankLine, span: (pos, e) },
                            false,
                        ),
                    ]
                } else {
                    Seq::empty()
                };
                assert forall|k: int| 0 <= k < (first + rest).len() implies (#[trigger] (first
                    + rest)[k] matches LexItemV::Trivia(tv, a) && tv.span.0 >= pos) by {
                    if k >= first.len() {
                        assert((first + rest)[k] == rest[k - first.len()]);
                    }
                }
            }
        } else if b == 35 {
            lemma_run_end(s, pos + 1, |b: u8| not_newline(b));
            let e = run_end(s, pos + 1, |b: u8| not_newline(b));
            lemma_trivia_items_after(s, e, true);
            if let Ok((rest, p)) = spec_trivia(s, e, true) {
                let item = LexItemV::Trivia(
                    TriviaV { kind: TriviaKindV::LineComment(text(s, pos + 1, e)), span: (pos, e) },
                    !crossed,
                );
                assert forall|k: int| 0 <= k < (seq![item] + rest).len() implies (#[trigger] (seq![
                    item,
                ] + rest)[k] matches LexItemV::Trivia(tv, a) && tv.span.0 >= pos) by {
                    if k >= 1 {
                        assert((seq![item] + rest)[k] == rest[k - 1]);
                    }
                }
            }
        }
    }
}

/// A whitespace run `s[pos..e]` gives a blank-line item covering exactly
/// that run if and only if the run holds at least two newlines (an empty
/// line between two lines).
pub proof fn law_blank_line_trivia(s: Seq<u8>, pos: int, e: int, crossed: bool)
    requires
        0 <= pos < e <= s.len(),
        forall|k: int| pos <= k < e ==> is_ws(#[trigger] s[k]),
        e == s.len() || !is_ws(s[e]),
        spec_trivia(s, pos, crossed) is Ok,
    ensures
        count_newlines(s, pos, e) >= 2 <==> spec_trivia(s, pos, crossed)->Ok_0.0.contains(
            LexItemV::Trivia(TriviaV { kind: TriviaKindV::BlankLine, span: (pos, e) }, false),
        ),
{
    lemma_run_end(s, pos, |b: u8| is_ws(b));
    let r = run_end(s, pos, |b: u8| is_ws(b));
    if r < e {
        assert(is_ws(s[r]));
    }
    if e < r {
        assert(is_ws(s[e]));
    }
    assert(r == e);
    let n = count_newlines(s, pos, e);
    let item = LexItemV::Trivia(TriviaV { kind: TriviaKindV::BlankLine, span: (pos, e) }, false);
    lemma_run_end(s, e, |b: u8| is_ws(b));
    lemma_trivia_items_after(s, e, crossed || n > 0);
    let (rest, p) = spec_trivia(s, e, crossed || n > 0)->Ok_0;
    let items = spec_trivia(s, pos, crossed)->Ok_0.0;
    if n >= 2 {
        assert(items[0] == item);
    } else {
        assert(items == rest);
        if items.contains(item) {
            let k = choose|k: int| 0 <= k < items.len() && items[k] == item;
            assert(items[k] matches LexItemV::Trivia(tv, a) && tv.span.0 >= e);
        }
    }
}

// ---------------------------------------------------------------------
// Plain strings without escapes keep their text
// ---------------------------------------------------------------------

proof fn lemma_plain_body_plain(s: Seq<u8>, start: int, pos: int, q: int, buf: Seq<u8>)
    requires
        0 <= pos <= q < s.len(),
        s[q] == 34,
        forall|k: int| pos <= k < q ==> s[k] != 34 && s[k] != 92 && s[k] != 10,
    ensures
        plain_body(s, start, pos, buf) == Ok::<(StringLitV, int), DiagV>(
            (
                StringLitV {
                    parts: flush(Seq::empty(), buf + s.subrange(pos, q)),
                    multiline: false,
                    template: false,
                },
                q + 1,
            ),
        ),
    decreases q - pos,
{
    if pos < q {
        lemma_plain_body_plain(s, start, pos + 1, q, buf.push(s[pos]));
        assert(buf.push(s[pos]) + s.subrange(pos + 1, q) =~= buf + s.subrange(pos, q));
    } else {
        assert(buf + s.subrange(pos, q) =~= buf);
    }
}

/// A plain string whose body holds no quote, backslash or newline is
/// read as exactly its text: one literal part decoding the bytes between
/// the quotes (none when they are empty), and reading stops just after
/// the closing quote.
pub proof fn law_plain_string_keeps_text(s: Seq<u8>, start: int, q: int)
    requires
        0 <= start < q < s.len(),
        s[start] == 34,
        s[q] == 34,
        forall|k: int| start < k < q ==> s[k] != 34 && s[k] != 92 && s[k] != 10,
        !starts3(s, start, 34u8, 34u8, 34u8),
    ensures
        spec_plain_string(s, start) == Ok::<(StringLitV, int), DiagV>(
            (
                StringLitV {
                    parts: if q == start + 1 {
                        Seq::empty()
                    } else {
                        seq![StringPartV::Lit(decode_utf8(s.subrange(start + 1, q)))]
                    },
                    multiline: false,
                    template: false,
                },
                q + 1,
            ),
        ),
{
    lemma_plain_body_plain(s, start, start + 1, q, Seq::empty());
    assert(Seq::<u8>::empty() + s.subrange(start + 1, q) =~= s.subrange(start + 1, q));
}

/// The one-letter escapes stand for the characters they name: `\n`
/// newline, `\t` tab, `\r` carriage return, `\\` backslash; `\"` in a
/// plain string, and `` \` `` and `\$` in a template. Each reads two bytes.
pub proof fn law_escapes_name_their_characters(s: Seq<u8>, pos: int, template: bool)
    requires
        0 <= pos,
        pos + 1 < s.len(),
        s[pos] == 92,
    ensures
        s[pos + 1] == 110 ==> spec_escape(s, pos, template) == Ok::<(Seq<u8>, int), DiagV>((seq![10u8], pos + 2)),
        s[pos + 1] == 116 ==> spec_escape(s, pos, template) == Ok::<(Seq<u8>, int), DiagV>((seq![9u8], pos + 2)),
        s[pos + 1] == 114 ==> spec_escape(s, pos, template) == Ok::<(Seq<u8>, int), DiagV>((seq![13u8], pos + 2)),
        s[pos + 1] == 92 ==> spec_escape(s, pos, template) == Ok::<(Seq<u8>, int), DiagV>((seq![92u8], pos + 2)),
        s[pos + 1] == 34 && !template ==> spec_escape(s, pos, template) == Ok::<(Seq<u8>, int), DiagV>((seq![34u8], pos + 2)),
        s[pos + 1] == 96 && template ==> spec_escape(s, pos, template) == Ok::<(Seq<u8>, int), DiagV>((seq![96u8], pos + 2)),
        s[pos + 1] == 36 && template ==> spec_escape(s, pos, template) == Ok::<(Seq<u8>, int), DiagV>((seq![36u8], pos + 2)),
        s[pos + 1] == 34 && template ==> spec_escape(s, pos, template) is Err,
        s[pos + 1] == 96 && !template ==> spec_escape(s, pos, template) is Err,
{
}

} // verus!
