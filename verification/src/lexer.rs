//! Byte-level lexer: turns the source into tokens and trivia.
use crate::ast::{
    first_text, has_interp, join2, name_v, names_v, parts_v, Ident, InterpExpr, InterpExprV,
    NameV, Ref, StringLit, StringLitV, StringPart, StringPartV, Trivia, TriviaKind, TriviaKindV,
    TriviaV,
};
use crate::diag::{span_v, Diag, DiagV, Spanned};
use crate::lexer_spec::{
    at, char_end, count_newlines, digits_end, digits_value, flush, hex_value, ident_continue, ident_end,
    ident_start, inline_body, inline_ws_end, interp_path, is_digit, is_hex, is_inline_ws, is_ws,
    kind_name, lemma_escape_advances, lemma_interp_advances, lemma_next_token_advances,
    lemma_plain_string_advances, lemma_run_end, lemma_trivia_advances, multiline_body,
    not_newline, plain_body, run_end, simple_escape, spec_escape, spec_interp, spec_interp_body,
    spec_next_token, spec_number, spec_plain_string, spec_template, spec_tokenize,
    spec_tokens_from, spec_trivia, spec_unicode, starts3, text, word_token, LexItemV, NumV,
    TokenV,
};
use crate::text::{
    char_debug, char_to_string, copy_range, lemma_ascii_run, lemma_ascii_step, lemma_ascii_valid,
    lemma_concat_valid, lemma_empty_valid, lemma_scalar_valid, lemma_valid_piece, push_scalar,
    suffix, text_from_bytes,
};
use vstd::prelude::*;
use vstd::utf8::*;
use vstd::string::StringSliceAdditionalSpecFns;

verus! {

broadcast use vstd::seq::group_seq_axioms;

#[derive(Debug, Clone, PartialEq)]
pub enum Token {
    Ident(String),
    Int(i64),
    /// A float literal, kept as its decimal source text.
    Float(String),
    True,
    False,
    Null,
    String(StringLit),
    LBrace,
    RBrace,
    LBracket,
    RBracket,
    Comma,
    Dot,
}

impl View for Token {
    type V = TokenV;

    open spec fn view(&self) -> TokenV {
        match self {
            Token::Ident(s) => TokenV::Ident(s@),
            Token::Int(v) => TokenV::Int(*v),
            Token::Float(t) => TokenV::Float(t@),
            Token::True => TokenV::True,
            Token::False => TokenV::False,
            Token::Null => TokenV::Null,
            Token::String(l) => TokenV::Str(l@),
            Token::LBrace => TokenV::LBrace,
            Token::RBrace => TokenV::RBrace,
            Token::LBracket => TokenV::LBracket,
            Token::RBracket => TokenV::RBracket,
            Token::Comma => TokenV::Comma,
            Token::Dot => TokenV::Dot,
        }
    }
}

impl Token {
    pub fn dup(&self) -> (r: Token)
        ensures
            r@ == self@,
    {
        match self {
            Token::Ident(s) => Token::Ident(s.clone()),
            Token::Int(v) => Token::Int(*v),
            Token::Float(t) => Token::Float(t.clone()),
            Token::True => Token::True,
            Token::False => Token::False,
            Token::Null => Token::Null,
            Token::String(l) => Token::String(l.dup()),
            Token::LBrace => Token::LBrace,
            Token::RBrace => Token::RBrace,
            Token::LBracket => Token::LBracket,
            Token::RBracket => Token::RBracket,
            Token::Comma => Token::Comma,
            Token::Dot => Token::Dot,
        }
    }
}

#[derive(Debug, Clone)]
pub enum LexItem {
    Token(Spanned<Token>),
    Trivia { trivia: Trivia, attached_to_prev: bool },
}

impl View for LexItem {
    type V = LexItemV;

    open spec fn view(&self) -> LexItemV {
        match self {
            LexItem::Token(t) => LexItemV::Token(t.node@, span_v(t.span)),
            LexItem::Trivia { trivia, attached_to_prev } => LexItemV::Trivia(
                trivia@,
                *attached_to_prev,
            ),
        }
    }
}

pub open spec fn items_v(xs: Seq<LexItem>) -> Seq<LexItemV> {
    xs.map_values(|x: LexItem| x@)
}

/// A number literal as the lexer reads it.
enum Num {
    Int(i64),
    Float(String),
}

impl View for Num {
    type V = NumV;

    closed spec fn view(&self) -> NumV {
        match self {
            Num::Int(v) => NumV::Int(*v),
            Num::Float(t) => NumV::Float(t@),
        }
    }
}

/// Split a source string into tokens and trivia.
pub fn tokenize(src: &str) -> (r: Result<Vec<LexItem>, Diag>)
    requires
        src.spec_bytes().len() < usize::MAX,
    ensures
        match spec_tokenize(src.spec_bytes()) {
            Ok(items) => r matches Ok(v) && items_v(v@) == items,
            Err(d) => r matches Err(e) && e@ == d,
        },
{
    let mut lx = Lexer::new(src);
    let ghost s = src.spec_bytes();
    let mut out: Vec<LexItem> = Vec::new();
    proof {
        encode_utf8_valid_utf8(src@);
        assert(suffix(s, 0) =~= s);
        lemma_with_prefix_empty(spec_tokens_from(s, 0));
    }
    loop
        invariant
            lx.wf(),
            lx.src@ == s,
            s == src.spec_bytes(),
            valid_utf8(suffix(s, lx.pos as int)),
            spec_tokenize(s) == with_prefix(items_v(out@), spec_tokens_from(s, lx.pos as int)),
        decreases s.len() - lx.pos,
    {
        let ghost p0 = lx.pos as int;
        let ghost out0 = items_v(out@);
        proof {
            lemma_trivia_advances(s, p0, false);
            lemma_tokens_from_unfold(s, p0);
        }
        match lx.consume_trivia(&mut out) {
            Ok(()) => {},
            Err(d) => {
                proof {
                    assert(spec_tokens_from(s, p0) == Err::<Seq<LexItemV>, DiagV>(d@));
                }
                return Err(d);
            },
        }
        let ghost out1 = items_v(out@);
        let ghost p1 = lx.pos as int;
        let ghost tv = out1.subrange(out0.len() as int, out1.len() as int);
        proof {
            assert(out1 =~= out0 + tv);
            if let Ok((items, p)) = spec_trivia(s, p0, false) {
                assert(items =~= tv);
            }
        }
        if lx.eof() {
            proof {
                assert(spec_tokens_from(s, p0) == Ok::<Seq<LexItemV>, DiagV>(tv));
            }
            return Ok(out);
        }
        let tok = match lx.next_token() {
            Ok(t) => t,
            Err(d) => {
                proof {
                    if let Ok((items, p)) = spec_trivia(s, p0, false) {
                        assert(spec_tokens_from(s, p0) == Err::<Seq<LexItemV>, DiagV>(d@));
                    }
                }
                return Err(d);
            },
        };
        let ghost tv_tok = LexItemV::Token(tok.node@, span_v(tok.span));
        out.push(LexItem::Token(tok));
        proof {
            lemma_next_token_advances(s, p1);
            assert(items_v(out@) =~= out1.push(tv_tok));
            let e = lx.pos as int;
            match spec_tokens_from(s, e) {
                Ok(rest) => {
                    assert(spec_tokens_from(s, p0) == Ok::<Seq<LexItemV>, DiagV>(
                        tv + seq![tv_tok] + rest,
                    ));
                    assert(out0 + (tv + seq![tv_tok] + rest) =~= items_v(out@) + rest);
                },
                Err(d) => {
                    assert(spec_tokens_from(s, p0) == Err::<Seq<LexItemV>, DiagV>(d));
                },
            }
        }
    }
}

proof fn lemma_tokens_from_unfold(s: Seq<u8>, p0: int)
    requires
        0 <= p0 <= s.len(),
    ensures
        spec_tokens_from(s, p0) == (match spec_trivia(s, p0, false) {
            Err(d) => Err(d),
            Ok((tv, p)) => if p >= s.len() {
                Ok(tv)
            } else {
                match spec_next_token(s, p) {
                    Err(d) => Err(d),
                    Ok((t, e)) => match spec_tokens_from(s, e) {
                        Err(d) => Err(d),
                        Ok(rest) => Ok(tv + seq![LexItemV::Token(t, (p, e))] + rest),
                    },
                }
            },
        }),
{
}

/// `pre` put in front of a token-list result.
pub open spec fn with_prefix(pre: Seq<LexItemV>, r: Result<Seq<LexItemV>, DiagV>) -> Result<
    Seq<LexItemV>,
    DiagV,
> {
    match r {
        Ok(xs) => Ok(pre + xs),
        Err(d) => Err(d),
    }
}

proof fn lemma_with_prefix_empty(r: Result<Seq<LexItemV>, DiagV>)
    ensures
        with_prefix(Seq::empty(), r) == r,
{
    if let Ok(xs) = r {
        assert(Seq::<LexItemV>::empty() + xs =~= xs);
    }
}

struct Lexer<'a> {
    src: &'a [u8],
    pos: usize,
}

impl<'a> Lexer<'a> {
    spec fn wf(&self) -> bool {
        self.pos <= self.src@.len() && self.src@.len() < usize::MAX
    }

    fn new(src: &'a str) -> (r: Self)
        requires
            src.spec_bytes().len() < usize::MAX,
        ensures
            r.src@ == src.spec_bytes(),
            r.pos == 0,
            r.wf(),
    {
        Lexer { src: src.as_bytes(), pos: 0 }
    }

    fn eof(&self) -> (r: bool)
        ensures
            r == (self.pos >= self.src@.len()),
    {
        self.pos >= self.src.len()
    }

    fn peek(&self) -> (r: Option<u8>)
        ensures
            r == at(self.src@, self.pos as int),
    {
        if self.pos < self.src.len() {
            Some(self.src[self.pos])
        } else {
            None
        }
    }

    fn peek_at(&self, off: usize) -> (r: Option<u8>)
        requires
            self.wf(),
        ensures
            r == at(self.src@, self.pos + off),
    {
        if off < self.src.len() - self.pos {
            Some(self.src[self.pos + off])
        } else {
            None
        }
    }

    fn starts_with(&self, s: &[u8]) -> (r: bool)
        requires
            self.wf(),
        ensures
            r == (self.pos + s@.len() <= self.src@.len() && self.src@.subrange(
                self.pos as int,
                self.pos + s@.len(),
            ) == s@),
    {
        if s.len() > self.src.len() - self.pos {
            return false;
        }
        let mut k: usize = 0;
        while k < s.len()
            invariant
                self.wf(),
                k <= s@.len(),
                self.pos + s@.len() <= self.src@.len(),
                forall|j: int| 0 <= j < k ==> self.src@[self.pos + j] == s@[j],
            decreases s@.len() - k,
        {
            if self.src[self.pos + k] != s[k] {
                assert(self.src@.subrange(self.pos as int, self.pos + s@.len())[k as int]
                    != s@[k as int]);
                return false;
            }
            k += 1;
        }
        assert(self.src@.subrange(self.pos as int, self.pos + s@.len()) =~= s@);
        true
    }

    fn bump(&mut self) -> (r: Option<u8>)
        requires
            old(self).wf(),
        ensures
            final(self).wf(),
            final(self).src == old(self).src,
            r == at(old(self).src@, old(self).pos as int),
            final(self).pos == old(self).pos + if r is Some {
                1int
            } else {
                0int
            },
    {
        let b = self.peek()?;
        self.pos += 1;
        Some(b)
    }

    /// Whether `s[start..end]` spells exactly `w`.
    /// The end of the character that starts at `p`.
    fn char_end_at(&self, p: usize) -> (r: usize)
        requires
            self.wf(),
            p < self.src@.len(),
        ensures
            r == char_end(self.src@, p as int),
    {
        let b = self.src[p];
        let w: usize = if b < 0xC0 {
            1
        } else if b < 0xE0 {
            2
        } else if b < 0xF0 {
            3
        } else {
            4
        };
        if w <= self.src.len() - p {
            p + w
        } else {
            self.src.len()
        }
    }

    fn word_is(&self, start: usize, end: usize, w: &[u8]) -> (r: bool)
        requires
            start <= end <= self.src@.len(),
        ensures
            r == (self.src@.subrange(start as int, end as int) == w@),
    {
        if end - start != w.len() {
            return false;
        }
        let mut k: usize = 0;
        while k < w.len()
            invariant
                start <= end <= self.src@.len(),
                end - start == w@.len(),
                k <= w@.len(),
                forall|j: int| 0 <= j < k ==> self.src@[start + j] == w@[j],
            decreases w@.len() - k,
        {
            if self.src[start + k] != w[k] {
                assert(self.src@.subrange(start as int, end as int)[k as int] != w@[k as int]);
                return false;
            }
            k += 1;
        }
        assert(self.src@.subrange(start as int, end as int) =~= w@);
        true
    }

    fn lex_ident(&mut self, start: usize) -> (r: Spanned<Token>)
        requires
            old(self).wf(),
            old(self).pos == start,
            start < old(self).src@.len(),
            ident_start(old(self).src@[start as int]),
            valid_utf8(suffix(old(self).src@, start as int)),
        ensures
            final(self).wf(),
            final(self).src == old(self).src,
            final(self).pos == ident_end(old(self).src@, start as int),
            r.node@ == word_token(old(self).src@, start as int, final(self).pos as int),
            span_v(r.span) == (start as int, final(self).pos as int),
            valid_utf8(suffix(old(self).src@, final(self).pos as int)),
    {
        let ghost s = self.src@;
        while self.pos < self.src.len() && is_ident_continue(self.src[self.pos])
            invariant
                self.wf(),
                self.src@ == s,
                start <= self.pos,
                ident_end(s, start as int) == ident_end(s, self.pos as int),
                forall|k: int| start <= k < self.pos ==> #[trigger] s[k] <= 0x7f,
            decreases s.len() - self.pos,
        {
            self.pos += 1;
        }
        let end = self.pos;
        proof {
            lemma_ascii_run(s, start as int, end as int);
            assert(forall|k: int|
                0 <= k < s.subrange(start as int, end as int).len() ==> s.subrange(
                    start as int,
                    end as int,
                )[k] == s[start + k]);
        }
        let tok = if self.word_is(start, end, &[116u8, 114, 117, 101]) {
            proof {
                assert(seq![116u8, 114u8, 117u8, 101u8] =~= [116u8, 114, 117, 101]@);
            }
            Token::True
        } else if self.word_is(start, end, &[102u8, 97, 108, 115, 101]) {
            proof {
                assert(seq![116u8, 114u8, 117u8, 101u8] =~= [116u8, 114, 117, 101]@);
                assert(seq![102u8, 97u8, 108u8, 115u8, 101u8] =~= [102u8, 97, 108, 115, 101]@);
            }
            Token::False
        } else if self.word_is(start, end, &[110u8, 117, 108, 108]) {
            proof {
                assert(seq![116u8, 114u8, 117u8, 101u8] =~= [116u8, 114, 117, 101]@);
                assert(seq![102u8, 97u8, 108u8, 115u8, 101u8] =~= [102u8, 97, 108, 115, 101]@);
                assert(seq![110u8, 117u8, 108u8, 108u8] =~= [110u8, 117, 108, 108]@);
            }
            Token::Null
        } else {
            proof {
                assert(seq![116u8, 114u8, 117u8, 101u8] =~= [116u8, 114, 117, 101]@);
                assert(seq![102u8, 97u8, 108u8, 115u8, 101u8] =~= [102u8, 97, 108, 115, 101]@);
                assert(seq![110u8, 117u8, 108u8, 108u8] =~= [110u8, 117, 108, 108]@);
                lemma_ascii_valid(s.subrange(start as int, end as int));
            }
            Token::Ident(text_from_bytes(copy_range(self.src, start, end)))
        };
        Spanned::new(tok, start..end)
    }

    /// Escapes for plain `"..."`: `\"`, `\\`, `\n`, `\t`, `\r`, `\u{...}`.
    fn read_plain_escape(&mut self, buf: &mut Vec<u8>) -> (r: Result<(), Diag>)
        requires
            old(self).wf(),
            at(old(self).src@, old(self).pos as int) == Some(92u8),
            valid_utf8(suffix(old(self).src@, old(self).pos as int)),
        ensures
            final(self).wf(),
            final(self).src == old(self).src,
            match spec_escape(old(self).src@, old(self).pos as int, false) {
                Ok((bytes, e)) => r is Ok && final(buf)@ == old(buf)@ + bytes && final(self).pos
                    == e && valid_utf8(bytes) && valid_utf8(suffix(old(self).src@, e)),
                Err(d) => r matches Err(x) && x@ == d,
            },
    {
        self.read_escape(buf, false)
    }

    /// Escapes for templates: adds `` \` `` and `\$` to the plain ones
    /// (and drops `\"`).
    fn read_template_escape(&mut self, buf: &mut Vec<u8>) -> (r: Result<(), Diag>)
        requires
            old(self).wf(),
            at(old(self).src@, old(self).pos as int) == Some(92u8),
            valid_utf8(suffix(old(self).src@, old(self).pos as int)),
        ensures
            final(self).wf(),
            final(self).src == old(self).src,
            match spec_escape(old(self).src@, old(self).pos as int, true) {
                Ok((bytes, e)) => r is Ok && final(buf)@ == old(buf)@ + bytes && final(self).pos
                    == e && valid_utf8(bytes) && valid_utf8(suffix(old(self).src@, e)),
                Err(d) => r matches Err(x) && x@ == d,
            },
    {
        self.read_escape(buf, true)
    }

    fn read_escape(&mut self, buf: &mut Vec<u8>, template: bool) -> (r: Result<(), Diag>)
        requires
            old(self).wf(),
            at(old(self).src@, old(self).pos as int) == Some(92u8),
            valid_utf8(suffix(old(self).src@, old(self).pos as int)),
        ensures
            final(self).wf(),
            final(self).src == old(self).src,
            match spec_escape(old(self).src@, old(self).pos as int, template) {
                Ok((bytes, e)) => r is Ok && final(buf)@ == old(buf)@ + bytes && final(self).pos
                    == e && valid_utf8(bytes) && valid_utf8(suffix(old(self).src@, e)),
                Err(d) => r matches Err(x) && x@ == d && final(buf)@ == old(buf)@,
            },
    {
        let ghost s = self.src@;
        let start = self.pos;
        self.pos += 1;
        let e = match self.bump() {
            Some(e) => e,
            None => {
                return Err(Diag::parse(start..self.pos, "dangling backslash"));
            },
        };
        if e == 117 {
            return self.read_unicode_escape(buf, start);
        }
        let c: u8 = if e == 92 {
            92
        } else if e == 110 {
            10
        } else if e == 116 {
            9
        } else if e == 114 {
            13
        } else if !template && e == 34 {
            34
        } else if template && e == 96 {
            96
        } else if template && e == 36 {
            36
        } else {
            let ch = char_to_string(e as char);
            let m1 = join2("unknown escape '\\", ch.as_str());
            let m = join2(m1.as_str(), "'");
            let end = self.char_end_at(start + 1);
            return Err(Diag::parse(start..end, m.as_str()));
        };
        buf.push(c);
        proof {
            assert(simple_escape(e, template) == Some(c));
            lemma_ascii_run(s, start as int, start + 2);
            lemma_ascii_valid(seq![c]);
        }
        Ok(())
    }

    fn read_unicode_escape(&mut self, buf: &mut Vec<u8>, start: usize) -> (r: Result<(), Diag>)
        requires
            old(self).wf(),
            old(self).pos == start + 2,
            at(old(self).src@, start as int) == Some(92u8),
            at(old(self).src@, start + 1) == Some(117u8),
            valid_utf8(suffix(old(self).src@, start as int)),
        ensures
            final(self).wf(),
            final(self).src == old(self).src,
            match spec_unicode(old(self).src@, start + 2, start as int) {
                Ok((bytes, e)) => r is Ok && final(buf)@ == old(buf)@ + bytes && final(self).pos
                    == e && valid_utf8(bytes) && valid_utf8(suffix(old(self).src@, e)),
                Err(d) => r matches Err(x) && x@ == d && final(buf)@ == old(buf)@,
            },
    {
        let ghost s = self.src@;
        match self.bump() {
            Some(123u8) => {},
            _ => {
                let end = if start + 2 < self.src.len() {
                    self.char_end_at(start + 2)
                } else {
                    start + 2
                };
                return Err(Diag::parse(start..end, "expected '{' after \\u"));
            },
        }
        let hex_start = self.pos;
        let mut code: u32 = 0;
        while self.pos < self.src.len() && is_ascii_hexdigit(self.src[self.pos])
            invariant
                self.wf(),
                self.src@ == s,
                hex_start <= self.pos,
                run_end(s, hex_start as int, |b: u8| is_hex(b)) == run_end(
                    s,
                    self.pos as int,
                    |b: u8| is_hex(b),
                ),
                forall|k: int| hex_start <= k < self.pos ==> is_hex(#[trigger] s[k]),
                self.pos - hex_start <= 6 ==> code == hex_value(s, hex_start as int, self.pos as int)
                    && code < pow16((self.pos - hex_start) as nat),
            decreases s.len() - self.pos,
        {
            let b = self.src[self.pos];
            let d: u32 = if b <= 57 {
                (b - 48) as u32
            } else if b >= 97 {
                (b - 87) as u32
            } else {
                (b - 55) as u32
            };
            if self.pos - hex_start < 6 {
                proof {
                    lemma_pow16((self.pos - hex_start) as nat);
                }
                code = code * 16 + d;
            }
            self.pos += 1;
        }
        let h = self.pos;
        if h == hex_start || h - hex_start > 6 {
            return Err(Diag::parse(start..h, "invalid \\u{...} hex digits"));
        }
        if !(code <= 0x10FFFF && !(0xD800 <= code && code <= 0xDFFF)) {
            return Err(Diag::parse(start..h, "invalid unicode codepoint"));
        }
        match self.bump() {
            Some(125u8) => {},
            _ => {
                let end = if h < self.src.len() {
                    self.char_end_at(h)
                } else {
                    h
                };
                return Err(Diag::parse(start..end, "expected '}' to close \\u{...}"));
            },
        }
        push_scalar(buf, code);
        proof {
            lemma_scalar_valid(code);
            assert forall|k: int| start <= k < h + 1 implies #[trigger] s[k] <= 0x7f by {
                if hex_start <= k < h {
                }
            }
            lemma_ascii_run(s, start as int, h + 1);
        }
        Ok(())
    }

    /// `"..."`: plain string, no interpolation, single-line.
    fn lex_plain_string_token(&mut self, start: usize) -> (r: Result<StringLit, Diag>)
        requires
            old(self).wf(),
            old(self).pos == start,
            at(old(self).src@, start as int) == Some(34u8),
            valid_utf8(suffix(old(self).src@, start as int)),
        ensures
            final(self).wf(),
            final(self).src == old(self).src,
            match spec_plain_string(old(self).src@, start as int) {
                Ok((lit, e)) => r matches Ok(x) && x@ == lit && final(self).pos == e && valid_utf8(
                    suffix(old(self).src@, e),
                ),
                Err(d) => r matches Err(x) && x@ == d,
            },
    {
        let ghost s = self.src@;
        if self.starts_with(&[34u8, 34, 34]) {
            proof {
                assert(s.subrange(start as int, start + 3)[1] == s[start + 1]);
                assert(s.subrange(start as int, start + 3)[2] == s[start + 2]);
            }
            return Err(
                Diag::parse(
                    start..start + 3,
                    "triple-quote multi-line strings are not supported, use ``` ... ``` for multi-line templates",
                ),
            );
        }
        proof {
            if starts3(s, start as int, 34u8, 34u8, 34u8) {
                assert(s.subrange(start as int, start + 3) =~= [34u8, 34, 34]@);
            }
            lemma_ascii_step(s, start as int);
        }
        self.pos += 1;
        let mut buf: Vec<u8> = Vec::new();
        let ghost mut committed: Seq<u8> = Seq::empty();
        let ghost mut run_start: int = self.pos as int;
        proof {
            lemma_empty_valid();
            assert(buf@ =~= committed + s.subrange(run_start, self.pos as int));
        }
        loop
            invariant
                self.wf(),
                self.src == old(self).src,
                self.src@ == s,
                start < self.pos,
                !starts3(s, start as int, 34u8, 34u8, 34u8),
                plain_body(s, start as int, self.pos as int, buf@) == plain_body(
                    s,
                    start as int,
                    start + 1,
                    Seq::empty(),
                ),
                valid_utf8(committed),
                buf@ == committed + s.subrange(run_start, self.pos as int),
                start < run_start <= self.pos,
                valid_utf8(suffix(s, run_start)),
            decreases s.len() - self.pos,
        {
            match self.peek() {
                None => {
                    return Err(Diag::parse(start..self.pos, "unterminated string literal"));
                },
                Some(b) => {
                    if b == 34 {
                        let ghost p = self.pos as int;
                        proof {
                            lemma_valid_piece(s, run_start, p);
                            lemma_concat_valid(committed, s.subrange(run_start, p));
                            lemma_ascii_step(s, p);
                        }
                        let ghost bufv = buf@;
                        self.pos += 1;
                        let mut parts: Vec<StringPart> = Vec::new();
                        if buf.len() != 0 {
                            parts.push(StringPart::Lit(text_from_bytes(buf)));
                        }
                        let lit = StringLit { parts, multiline: false, template: false };
                        proof {
                            assert(lit@.parts =~= flush(Seq::empty(), bufv));
                            assert(plain_body(s, start as int, p, bufv) == Ok::<
                                (StringLitV, int),
                                DiagV,
                            >((lit@, p + 1)));
                        }
                        return Ok(lit);
                    } else if b == 10 {
                        return Err(
                            Diag::parse(
                                self.pos..self.pos + 1,
                                "unterminated string literal (newline in basic string — use ``` ... ``` for multi-line)",
                            ),
                        );
                    } else if b == 92 {
                        let ghost p = self.pos as int;
                        proof {
                            lemma_valid_piece(s, run_start, p);
                            lemma_concat_valid(committed, s.subrange(run_start, p));
                            committed = buf@;
                        }
                        self.read_plain_escape(&mut buf)?;
                        proof {
                            lemma_escape_advances(s, p, false);
                            if let Ok((bytes, e)) = spec_escape(s, p, false) {
                                lemma_concat_valid(committed, bytes);
                            }
                            committed = buf@;
                            run_start = self.pos as int;
                            assert(buf@ =~= committed + s.subrange(run_start, self.pos as int));
                        }
                    } else {
                        self.pos += 1;
                        buf.push(b);
                        proof {
                            assert(buf@ =~= committed + s.subrange(run_start, self.pos as int));
                        }
                    }
                },
            }
        }
    }

    fn skip_inline_ws(&mut self)
        requires
            old(self).wf(),
            valid_utf8(suffix(old(self).src@, old(self).pos as int)),
        ensures
            final(self).wf(),
            final(self).src == old(self).src,
            final(self).pos == inline_ws_end(old(self).src@, old(self).pos as int),
            valid_utf8(suffix(old(self).src@, final(self).pos as int)),
    {
        let ghost s = self.src@;
        let ghost p0 = self.pos as int;
        while self.pos < self.src.len() && (self.src[self.pos] == 32 || self.src[self.pos] == 9)
            invariant
                self.wf(),
                self.src == old(self).src,
                self.src@ == s,
                p0 <= self.pos,
                inline_ws_end(s, p0) == inline_ws_end(s, self.pos as int),
                valid_utf8(suffix(s, self.pos as int)),
            decreases s.len() - self.pos,
        {
            proof {
                lemma_ascii_step(s, self.pos as int);
            }
            self.pos += 1;
        }
    }

    /// The body of `${...}`.
    fn lex_interp_body(&mut self, start: usize) -> (r: Result<InterpExpr, Diag>)
        requires
            old(self).wf(),
            old(self).pos == start,
            valid_utf8(suffix(old(self).src@, start as int)),
        ensures
            final(self).wf(),
            final(self).src == old(self).src,
            match spec_interp_body(old(self).src@, start as int) {
                Ok((x, e)) => r matches Ok(y) && y@ == x && final(self).pos == e && valid_utf8(
                    suffix(old(self).src@, e),
                ),
                Err(d) => r matches Err(y) && y@ == d,
            },
    {
        let ghost s = self.src@;
        match self.peek() {
            Some(b) => {
                if b == 34 {
                    let lit = self.lex_plain_string_token(start)?;
                    let n = lit.parts.len();
                    if n == 0 {
                        Ok(InterpExpr::String(String::new()))
                    } else if n == 1 {
                        match &lit.parts[0] {
                            StringPart::Lit(t) => Ok(InterpExpr::String(t.clone())),
                            StringPart::Interp(_) => Err(
                                Diag::parse(
                                    start..self.pos,
                                    "nested interpolation inside ${...} is not allowed",
                                ),
                            ),
                        }
                    } else {
                        Err(
                            Diag::parse(
                                start..self.pos,
                                "nested interpolation inside ${...} is not allowed",
                            ),
                        )
                    }
                } else if b == 45 || is_ascii_digit(b) {
                    match self.lex_number(start)? {
                        Num::Int(v) => Ok(InterpExpr::Int(v)),
                        Num::Float(t) => Ok(InterpExpr::Float(t)),
                    }
                } else if is_ident_start(b) {
                    let head = self.lex_ident(start);
                    match head.node {
                        Token::True => Ok(InterpExpr::Bool(true)),
                        Token::False => Ok(InterpExpr::Bool(false)),
                        Token::Null => Ok(InterpExpr::Null),
                        Token::Ident(name) => {
                            let mut path: Vec<Spanned<Ident>> = Vec::new();
                            path.push(Spanned::new(Ident(name), head.span));
                            proof {
                                assert(names_v(path@) =~= seq![(name@, (start as int, self.pos as int))]);
                            }
                            self.lex_interp_path(path)
                        },
                        _ => Ok(InterpExpr::Null),
                    }
                } else {
                    let end = self.char_end_at(start);
                    Err(
                        Diag::parse(
                            start..end,
                            "expected ref, number, bool, null, or string inside ${...}",
                        ),
                    )
                }
            },
            None => Err(
                Diag::parse(
                    start..start,
                    "expected ref, number, bool, null, or string inside ${...}",
                ),
            ),
        }
    }

    /// The rest of a reference path inside `${...}`.
    fn lex_interp_path(&mut self, path0: Vec<Spanned<Ident>>) -> (r: Result<InterpExpr, Diag>)
        requires
            old(self).wf(),
            valid_utf8(suffix(old(self).src@, old(self).pos as int)),
        ensures
            final(self).wf(),
            final(self).src == old(self).src,
            match interp_path(old(self).src@, old(self).pos as int, names_v(path0@)) {
                Ok((x, e)) => r matches Ok(y) && y@ == x && final(self).pos == e && valid_utf8(
                    suffix(old(self).src@, e),
                ),
                Err(d) => r matches Err(y) && y@ == d,
            },
    {
        let ghost s = self.src@;
        let ghost target = interp_path(s, self.pos as int, names_v(path0@));
        let mut path = path0;
        loop
            invariant
                self.wf(),
                self.src == old(self).src,
                self.src@ == s,
                valid_utf8(suffix(s, self.pos as int)),
                interp_path(s, self.pos as int, names_v(path@)) == target,
                target == interp_path(s, old(self).pos as int, names_v(path0@)),
            decreases s.len() - self.pos,
        {
            let ghost p0 = self.pos as int;
            self.skip_inline_ws();
            if self.peek() != Some(46u8) {
                let r = InterpExpr::Ref(Ref { path });
                return Ok(r);
            }
            let ghost p = self.pos as int;
            proof {
                lemma_ascii_step(s, p);
                lemma_run_end(s, p0, |b: u8| is_inline_ws(b));
            }
            self.pos += 1;
            self.skip_inline_ws();
            let seg_start = self.pos;
            proof {
                lemma_run_end(s, p + 1, |b: u8| is_inline_ws(b));
            }
            match self.peek() {
                None => {
                    return Err(
                        Diag::parse(
                            seg_start..self.pos,
                            "expected identifier or quoted segment after '.'",
                        ),
                    );
                },
                Some(b) => {
                    if b == 34 {
                        let lit = self.lex_plain_string_token(seg_start)?;
                        proof {
                            lemma_plain_string_advances(s, seg_start as int);
                        }
                        if lit_has_interp(&lit) {
                            return Err(
                                Diag::parse(
                                    seg_start..self.pos,
                                    "ref segment cannot contain interpolation",
                                ),
                            );
                        }
                        let t = lit_first_text(&lit);
                        let ghost old_path = names_v(path@);
                        path.push(Spanned::new(Ident(t), seg_start..self.pos));
                        proof {
                            assert(names_v(path@) =~= old_path.push(
                                (first_text(lit@.parts), (seg_start as int, self.pos as int)),
                            ));
                        }
                    } else if !is_ident_start(b) {
                        let end = self.char_end_at(seg_start);
                        return Err(
                            Diag::parse(
                                seg_start..end,
                                "expected identifier or quoted segment after '.'",
                            ),
                        );
                    } else {
                        let seg = self.lex_ident(seg_start);
                        proof {
                            lemma_run_end(s, seg_start as int, |b: u8| ident_continue(b));
                        }
                        match seg.node {
                            Token::Ident(n) => {
                                let ghost old_path = names_v(path@);
                                path.push(Spanned::new(Ident(n), seg.span));
                                proof {
                                    assert(names_v(path@) =~= old_path.push(
                                        (n@, (seg_start as int, self.pos as int)),
                                    ));
                                }
                            },
                            _ => {
                                return Err(
                                    Diag::parse(
                                        seg.span,
                                        "reserved word cannot appear in reference path",
                                    ),
                                );
                            },
                        }
                    }
                },
            }
        }
    }

    /// An interpolation `${ ... }` starting at the `$`.
    fn lex_interp(&mut self) -> (r: Result<Spanned<InterpExpr>, Diag>)
        requires
            old(self).wf(),
            at(old(self).src@, old(self).pos as int) == Some(36u8),
            at(old(self).src@, old(self).pos + 1) == Some(123u8),
            valid_utf8(suffix(old(self).src@, old(self).pos as int)),
        ensures
            final(self).wf(),
            final(self).src == old(self).src,
            match spec_interp(old(self).src@, old(self).pos as int) {
                Ok((x, sp, e)) => r matches Ok(y) && y.node@ == x && span_v(y.span) == sp
                    && final(self).pos == e && valid_utf8(suffix(old(self).src@, e)),
                Err(d) => r matches Err(y) && y@ == d,
            },
    {
        let ghost s = self.src@;
        let start = self.pos;
        proof {
            lemma_ascii_run(s, start as int, start + 2);
        }
        self.pos += 2;
        self.skip_inline_ws();
        let body_start = self.pos;
        let body = self.lex_interp_body(body_start)?;
        self.skip_inline_ws();
        if self.peek() != Some(125u8) {
            return Err(Diag::parse(start..self.pos, "expected '}' to close interpolation"));
        }
        proof {
            lemma_ascii_step(s, self.pos as int);
        }
        self.pos += 1;
        Ok(Spanned::new(body, start..self.pos))
    }

    /// `` `...` `` (single-line) or ```` ```...``` ```` (multi-line): a
    /// template string with `${...}` interpolation.
    fn lex_template_token(&mut self, start: usize) -> (r: Result<StringLit, Diag>)
        requires
            old(self).wf(),
            old(self).pos == start,
            at(old(self).src@, start as int) == Some(96u8),
            valid_utf8(suffix(old(self).src@, start as int)),
        ensures
            final(self).wf(),
            final(self).src == old(self).src,
            match spec_template(old(self).src@, start as int) {
                Ok((lit, e)) => r matches Ok(x) && x@ == lit && final(self).pos == e && valid_utf8(
                    suffix(old(self).src@, e),
                ),
                Err(d) => r matches Err(x) && x@ == d,
            },
    {
        let ghost s = self.src@;
        if self.starts_with(&[96u8, 96, 96]) {
            proof {
                assert(s.subrange(start as int, start + 3)[1] == s[start + 1]);
                assert(s.subrange(start as int, start + 3)[2] == s[start + 2]);
            }
            self.lex_multiline_template(start)
        } else {
            proof {
                if starts3(s, start as int, 96u8, 96u8, 96u8) {
                    assert(s.subrange(start as int, start + 3) =~= [96u8, 96, 96]@);
                }
            }
            self.lex_inline_template(start)
        }
    }

    #[verifier::rlimit(50)]
    fn lex_inline_template(&mut self, start: usize) -> (r: Result<StringLit, Diag>)
        requires
            old(self).wf(),
            old(self).pos == start,
            at(old(self).src@, start as int) == Some(96u8),
            valid_utf8(suffix(old(self).src@, start as int)),
        ensures
            final(self).wf(),
            final(self).src == old(self).src,
            match inline_body(old(self).src@, start as int, start + 1, Seq::empty(), Seq::empty()) {
                Ok((lit, e)) => r matches Ok(x) && x@ == lit && final(self).pos == e && valid_utf8(
                    suffix(old(self).src@, e),
                ),
                Err(d) => r matches Err(x) && x@ == d,
            },
    {
        let ghost s = self.src@;
        let ghost target = inline_body(s, start as int, start + 1, Seq::empty(), Seq::empty());
        proof {
            lemma_ascii_step(s, start as int);
        }
        self.pos += 1;
        let mut parts: Vec<StringPart> = Vec::new();
        let mut buf: Vec<u8> = Vec::new();
        let ghost mut committed: Seq<u8> = Seq::empty();
        let ghost mut run_start: int = self.pos as int;
        proof {
            lemma_empty_valid();
            assert(buf@ =~= committed + s.subrange(run_start, self.pos as int));
            assert(parts_v(parts@) =~= Seq::<StringPartV>::empty());
        }
        loop
            invariant
                self.wf(),
                self.src == old(self).src,
                self.src@ == s,
                start < self.pos,
                inline_body(s, start as int, self.pos as int, parts_v(parts@), buf@) == target,
                target == inline_body(s, start as int, start + 1, Seq::empty(), Seq::empty()),
                valid_utf8(committed),
                buf@ == committed + s.subrange(run_start, self.pos as int),
                start < run_start <= self.pos,
                valid_utf8(suffix(s, run_start)),
            decreases s.len() - self.pos,
        {
            match self.peek() {
                None => {
                    return Err(Diag::parse(start..self.pos, "unterminated template literal"));
                },
                Some(b) => {
                    let ghost p = self.pos as int;
                    if b == 96 {
                        proof {
                            lemma_valid_piece(s, run_start, p);
                            lemma_concat_valid(committed, s.subrange(run_start, p));
                            lemma_ascii_step(s, p);
                        }
                        self.pos += 1;
                        flush_buf(&mut parts, buf);
                        return Ok(StringLit { parts, multiline: false, template: true });
                    } else if b == 10 {
                        return Err(
                            Diag::parse(
                                self.pos..self.pos + 1,
                                "unterminated template (newline in inline template — use ``` ... ``` for multi-line)",
                            ),
                        );
                    } else if b == 92 {
                        proof {
                            lemma_valid_piece(s, run_start, p);
                            lemma_concat_valid(committed, s.subrange(run_start, p));
                            committed = buf@;
                        }
                        self.read_template_escape(&mut buf)?;
                        proof {
                            lemma_escape_advances(s, p, true);
                            if let Ok((bytes, e)) = spec_escape(s, p, true) {
                                lemma_concat_valid(committed, bytes);
                            }
                            committed = buf@;
                            run_start = self.pos as int;
                            assert(buf@ =~= committed + s.subrange(run_start, self.pos as int));
                        }
                    } else if b == 36 && self.peek_at(1) == Some(123u8) {
                        proof {
                            lemma_valid_piece(s, run_start, p);
                            lemma_concat_valid(committed, s.subrange(run_start, p));
                        }
                        flush_buf(&mut parts, buf);
                        buf = Vec::new();
                        let interp = self.lex_interp()?;
                        proof {
                            lemma_interp_advances(s, p);
                        }
                        let ghost before = parts_v(parts@);
                        parts.push(StringPart::Interp(interp));
                        proof {
                            assert(parts_v(parts@) =~= before.push(parts@.last()@));
                            lemma_empty_valid();
                            committed = Seq::empty();
                            run_start = self.pos as int;
                            assert(buf@ =~= committed + s.subrange(run_start, self.pos as int));
                        }
                    } else {
                        self.pos += 1;
                        buf.push(b);
                        proof {
                            assert(buf@ =~= committed + s.subrange(run_start, self.pos as int));
                        }
                    }
                },
            }
        }
    }

    #[verifier::rlimit(50)]
    fn lex_multiline_template(&mut self, start: usize) -> (r: Result<StringLit, Diag>)
        requires
            old(self).wf(),
            old(self).pos == start,
            starts3(old(self).src@, start as int, 96u8, 96u8, 96u8),
            valid_utf8(suffix(old(self).src@, start as int)),
        ensures
            final(self).wf(),
            final(self).src == old(self).src,
            match multiline_body(
                old(self).src@,
                start as int,
                start + 3,
                Seq::empty(),
                Seq::empty(),
            ) {
                Ok((lit, e)) => r matches Ok(x) && x@ == lit && final(self).pos == e && valid_utf8(
                    suffix(old(self).src@, e),
                ),
                Err(d) => r matches Err(x) && x@ == d,
            },
    {
        let ghost s = self.src@;
        let ghost target = multiline_body(s, start as int, start + 3, Seq::empty(), Seq::empty());
        proof {
            lemma_ascii_run(s, start as int, start + 3);
        }
        self.pos += 3;
        let mut parts: Vec<StringPart> = Vec::new();
        let mut buf: Vec<u8> = Vec::new();
        let ghost mut committed: Seq<u8> = Seq::empty();
        let ghost mut run_start: int = self.pos as int;
        proof {
            lemma_empty_valid();
            assert(buf@ =~= committed + s.subrange(run_start, self.pos as int));
            assert(parts_v(parts@) =~= Seq::<StringPartV>::empty());
        }
        loop
            invariant
                self.wf(),
                self.src == old(self).src,
                self.src@ == s,
                start < self.pos,
                multiline_body(s, start as int, self.pos as int, parts_v(parts@), buf@) == target,
                target == multiline_body(s, start as int, start + 3, Seq::empty(), Seq::empty()),
                valid_utf8(committed),
                buf@ == committed + s.subrange(run_start, self.pos as int),
                start < run_start <= self.pos,
                valid_utf8(suffix(s, run_start)),
            decreases s.len() - self.pos,
        {
            let ghost p = self.pos as int;
            if self.starts_with(&[96u8, 96, 96]) {
                proof {
                    assert(s.subrange(p, p + 3)[0] == s[p]);
                    assert(s.subrange(p, p + 3)[1] == s[p + 1]);
                    assert(s.subrange(p, p + 3)[2] == s[p + 2]);
                    lemma_valid_piece(s, run_start, p);
                    lemma_concat_valid(committed, s.subrange(run_start, p));
                    lemma_ascii_run(s, p, p + 3);
                }
                self.pos += 3;
                flush_buf(&mut parts, buf);
                return Ok(StringLit { parts, multiline: true, template: true });
            }
            proof {
                if starts3(s, p, 96u8, 96u8, 96u8) {
                    assert(s.subrange(p, p + 3) =~= [96u8, 96, 96]@);
                }
            }
            match self.peek() {
                None => {
                    return Err(Diag::parse(start..self.pos, "unterminated multi-line template"));
                },
                Some(b) => {
                    if b == 92 {
                        proof {
                            lemma_valid_piece(s, run_start, p);
                            lemma_concat_valid(committed, s.subrange(run_start, p));
                            committed = buf@;
                        }
                        self.read_template_escape(&mut buf)?;
                        proof {
                            lemma_escape_advances(s, p, true);
                            if let Ok((bytes, e)) = spec_escape(s, p, true) {
                                lemma_concat_valid(committed, bytes);
                            }
                            committed = buf@;
                            run_start = self.pos as int;
                            assert(buf@ =~= committed + s.subrange(run_start, self.pos as int));
                        }
                    } else if b == 36 && self.peek_at(1) == Some(123u8) {
                        proof {
                            lemma_valid_piece(s, run_start, p);
                            lemma_concat_valid(committed, s.subrange(run_start, p));
                        }
                        flush_buf(&mut parts, buf);
                        buf = Vec::new();
                        let interp = self.lex_interp()?;
                        proof {
                            lemma_interp_advances(s, p);
                        }
                        let ghost before = parts_v(parts@);
                        parts.push(StringPart::Interp(interp));
                        proof {
                            assert(parts_v(parts@) =~= before.push(parts@.last()@));
                            lemma_empty_valid();
                            committed = Seq::empty();
                            run_start = self.pos as int;
                            assert(buf@ =~= committed + s.subrange(run_start, self.pos as int));
                        }
                    } else {
                        self.pos += 1;
                        buf.push(b);
                        proof {
                            assert(buf@ =~= committed + s.subrange(run_start, self.pos as int));
                        }
                    }
                },
            }
        }
    }

    fn consume_trivia(&mut self, out: &mut Vec<LexItem>) -> (r: Result<(), Diag>)
        requires
            old(self).wf(),
            valid_utf8(suffix(old(self).src@, old(self).pos as int)),
        ensures
            final(self).wf(),
            final(self).src == old(self).src,
            match spec_trivia(old(self).src@, old(self).pos as int, false) {
                Ok((items, p)) => r is Ok && items_v(final(out)@) == items_v(old(out)@) + items
                    && final(self).pos == p && valid_utf8(suffix(old(self).src@, p)),
                Err(d) => r matches Err(x) && x@ == d,
            },
    {
        let ghost s = self.src@;
        let ghost out0 = items_v(out@);
        let ghost target = spec_trivia(s, self.pos as int, false);
        let ghost mut produced: Seq<LexItemV> = Seq::empty();
        let mut crossed_newline = false;
        proof {
            assert(items_v(out@) =~= out0 + produced);
            assert(prepend(produced, target) =~~= target) by {
                if let Ok((xs, p)) = target {
                    assert(produced + xs =~= xs);
                }
            }
        }
        loop
            invariant
                self.wf(),
                self.src == old(self).src,
                self.src@ == s,
                valid_utf8(suffix(s, self.pos as int)),
                target == spec_trivia(s, old(self).pos as int, false),
                out0 == items_v(old(out)@),
                items_v(out@) == out0 + produced,
                target == prepend(produced, spec_trivia(s, self.pos as int, crossed_newline)),
            decreases s.len() - self.pos,
        {
            let ghost p0 = self.pos as int;
            let ghost c0 = crossed_newline;
            match self.peek() {
                None => {
                    proof {
                        assert(out0 + produced + Seq::<LexItemV>::empty() =~= out0 + produced);
                    }
                    return Ok(());
                },
                Some(b) => {
                    if b == 32 || b == 9 || b == 13 || b == 10 {
                        let ws_start = self.pos;
                        let mut newlines: usize = 0;
                        while self.pos < self.src.len() && (self.src[self.pos] == 32
                            || self.src[self.pos] == 9 || self.src[self.pos] == 13
                            || self.src[self.pos] == 10)
                            invariant
                                self.wf(),
                                self.src == old(self).src,
                                self.src@ == s,
                                ws_start <= self.pos,
                                run_end(s, ws_start as int, |b: u8| is_ws(b)) == run_end(
                                    s,
                                    self.pos as int,
                                    |b: u8| is_ws(b),
                                ),
                                newlines == count_newlines(s, ws_start as int, self.pos as int),
                                newlines <= self.pos - ws_start,
                                valid_utf8(suffix(s, self.pos as int)),
                            decreases s.len() - self.pos,
                        {
                            if self.src[self.pos] == 10 {
                                newlines += 1;
                            }
                            proof {
                                lemma_ascii_step(s, self.pos as int);
                            }
                            self.pos += 1;
                        }
                        if newlines > 0 {
                            crossed_newline = true;
                        }
                        let ghost before = items_v(out@);
                        if newlines >= 2 {
                            out.push(
                                LexItem::Trivia {
                                    trivia: Trivia {
                                        kind: TriviaKind::BlankLine,
                                        span: ws_start..self.pos,
                                    },
                                    attached_to_prev: false,
                                },
                            );
                        }
                        proof {
                            lemma_run_end(s, ws_start as int, |b: u8| is_ws(b));
                            let here = if newlines >= 2 {
                                seq![
                                    LexItemV::Trivia(
                                        TriviaV {
                                            kind: TriviaKindV::BlankLine,
                                            span: (ws_start as int, self.pos as int),
                                        },
                                        false,
                                    ),
                                ]
                            } else {
                                Seq::empty()
                            };
                            assert(items_v(out@) =~= before + here);
                            assert(spec_trivia(s, p0, c0) == prepend(
                                here,
                                spec_trivia(s, self.pos as int, crossed_newline),
                            ));
                            assert(out0 + (produced + here) =~= items_v(out@));
                            if let Ok((rest, q)) = spec_trivia(s, self.pos as int, crossed_newline) {
                                assert((produced + here) + rest =~= produced + (here + rest));
                            }
                            produced = produced + here;
                        }
                    } else if b == 35 {
                        let start = self.pos;
                        proof {
                            lemma_ascii_step(s, start as int);
                        }
                        self.pos += 1;
                        let body_start = self.pos;
                        while self.pos < self.src.len() && self.src[self.pos] != 10
                            invariant
                                self.wf(),
                                self.src == old(self).src,
                                self.src@ == s,
                                body_start <= self.pos,
                                run_end(s, body_start as int, |b: u8| not_newline(b)) == run_end(
                                    s,
                                    self.pos as int,
                                    |b: u8| not_newline(b),
                                ),
                            decreases s.len() - self.pos,
                        {
                            self.pos += 1;
                        }
                        proof {
                            lemma_valid_piece(s, body_start as int, self.pos as int);
                        }
                        let t = text_from_bytes(copy_range(self.src, body_start, self.pos));
                        let attached_to_prev = !crossed_newline;
                        let ghost before = items_v(out@);
                        out.push(
                            LexItem::Trivia {
                                trivia: Trivia {
                                    kind: TriviaKind::LineComment(t),
                                    span: start..self.pos,
                                },
                                attached_to_prev,
                            },
                        );
                        crossed_newline = true;
                        proof {
                            lemma_run_end(s, body_start as int, |b: u8| not_newline(b));
                            let here = seq![items_v(out@).last()];
                            assert(items_v(out@) =~= before + here);
                            assert(spec_trivia(s, p0, c0) == prepend(here, spec_trivia(s, self.pos as int, true)));
                            assert(out0 + (produced + here) =~= items_v(out@));
                            if let Ok((rest, q)) = spec_trivia(s, self.pos as int, true) {
                                assert((produced + here) + rest =~= produced + (here + rest));
                            }
                            produced = produced + here;
                        }
                    } else if b == 47 && self.peek_at(1) == Some(47u8) {
                        return Err(
                            Diag::parse(
                                self.pos..self.pos + 2,
                                "'//' comments are not supported, use '#' instead",
                            ),
                        );
                    } else if b == 47 && self.peek_at(1) == Some(42u8) {
                        return Err(
                            Diag::parse(
                                self.pos..self.pos + 2,
                                "'/* ... */' block comments are not supported, use '#' line comments",
                            ),
                        );
                    } else {
                        proof {
                            assert(out0 + produced + Seq::<LexItemV>::empty() =~= out0 + produced);
                        }
                        return Ok(());
                    }
                },
            }
        }
    }

    fn next_token(&mut self) -> (r: Result<Spanned<Token>, Diag>)
        requires
            old(self).wf(),
            old(self).pos < old(self).src@.len(),
            valid_utf8(suffix(old(self).src@, old(self).pos as int)),
        ensures
            final(self).wf(),
            final(self).src == old(self).src,
            match spec_next_token(old(self).src@, old(self).pos as int) {
                Ok((t, e)) => r matches Ok(x) && x.node@ == t && span_v(x.span) == (
                    old(self).pos as int,
                    e,
                ) && final(self).pos == e && valid_utf8(suffix(old(self).src@, e)),
                Err(d) => r matches Err(x) && x@ == d,
            },
            r is Ok ==> old(self).pos < final(self).pos <= old(self).src@.len(),
    {
        let ghost s = self.src@;
        let start = self.pos;
        let b = self.src[start];
        proof {
            lemma_next_token_advances(s, start as int);
            reveal(spec_next_token);
        }
        if b == 123 || b == 125 || b == 91 || b == 93 || b == 44 || b == 46 {
            proof {
                lemma_ascii_step(s, start as int);
            }
            self.pos += 1;
            let tok = if b == 123 {
                Token::LBrace
            } else if b == 125 {
                Token::RBrace
            } else if b == 91 {
                Token::LBracket
            } else if b == 93 {
                Token::RBracket
            } else if b == 44 {
                Token::Comma
            } else {
                Token::Dot
            };
            Ok(Spanned::new(tok, start..self.pos))
        } else if b == 61 {
            Err(
                Diag::parse(
                    start..start + 1,
                    "'=' is not used in the standar DSL — write `key value` instead of `key = value`",
                ),
            )
        } else if b == 34 {
            let lit = self.lex_plain_string_token(start)?;
            Ok(Spanned::new(Token::String(lit), start..self.pos))
        } else if b == 96 {
            let lit = self.lex_template_token(start)?;
            Ok(Spanned::new(Token::String(lit), start..self.pos))
        } else if b == 45 || is_ascii_digit(b) {
            match self.lex_number(start)? {
                Num::Int(v) => Ok(Spanned::new(Token::Int(v), start..self.pos)),
                Num::Float(t) => Ok(Spanned::new(Token::Float(t), start..self.pos)),
            }
        } else if is_ident_start(b) {
            Ok(self.lex_ident(start))
        } else {
            let shown = char_debug(b as char);
            let m = unexpected_character_message(shown.as_str());
            let end = self.char_end_at(start);
            Err(Diag::parse(start..end, m.as_str()))
        }
    }

    fn lex_number(&mut self, start: usize) -> (r: Result<Num, Diag>)
        requires
            old(self).wf(),
            old(self).pos == start,
            start < old(self).src@.len(),
            valid_utf8(suffix(old(self).src@, start as int)),
        ensures
            final(self).wf(),
            final(self).src == old(self).src,
            match spec_number(old(self).src@, start as int) {
                Ok((n, e)) => r matches Ok(x) && x@ == n && final(self).pos == e && valid_utf8(
                    suffix(old(self).src@, e),
                ),
                Err(d) => r matches Err(x) && x@ == d,
            },
    {
        let ghost s = self.src@;
        let neg = self.peek() == Some(45u8);
        if neg {
            self.pos += 1;
        }
        let int_start = self.pos;
        let mut mag: u64 = 0;
        let mut over = false;
        while self.pos < self.src.len() && is_ascii_digit(self.src[self.pos])
            invariant
                self.wf(),
                self.src@ == s,
                int_start <= self.pos,
                digits_end(s, int_start as int) == digits_end(s, self.pos as int),
                forall|k: int| int_start <= k < self.pos ==> is_digit(#[trigger] s[k]),
                !over ==> mag == digits_value(s, int_start as int, self.pos as int),
                over ==> digits_value(s, int_start as int, self.pos as int) > u64::MAX,
            decreases s.len() - self.pos,
        {
            let d = (self.src[self.pos] - 48) as u64;
            if !over {
                match mag.checked_mul(10) {
                    Some(m10) => match m10.checked_add(d) {
                        Some(v) => {
                            mag = v;
                        },
                        None => {
                            over = true;
                        },
                    },
                    None => {
                        over = true;
                    },
                }
            }
            self.pos += 1;
        }
        if self.pos == int_start {
            return Err(Diag::parse(start..self.pos, "expected digit after '-'"));
        }
        let p1 = self.pos;
        if self.peek() == Some(46u8) {
            if let Some(next) = self.peek_at(1) {
                if is_ascii_digit(next) {
                    self.pos += 1;
                    while self.pos < self.src.len() && is_ascii_digit(self.src[self.pos])
                        invariant
                            self.wf(),
                            self.src@ == s,
                            p1 + 1 <= self.pos,
                            digits_end(s, p1 + 1) == digits_end(s, self.pos as int),
                            forall|k: int| p1 + 1 <= k < self.pos ==> is_digit(#[trigger] s[k]),
                        decreases s.len() - self.pos,
                    {
                        self.pos += 1;
                    }
                    let end = self.pos;
                    proof {
                        assert forall|k: int| start <= k < end implies #[trigger] s[k] <= 0x7f by {
                            if k >= p1 + 1 {
                            } else if k >= int_start && k < p1 {
                            }
                        }
                        lemma_ascii_run(s, start as int, end as int);
                        lemma_ascii_valid(s.subrange(start as int, end as int));
                    }
                    let t = text_from_bytes(copy_range(self.src, start, end));
                    return Ok(Num::Float(t));
                }
            }
        }
        proof {
            assert forall|k: int| start <= k < p1 implies #[trigger] s[k] <= 0x7f by {
                if k >= int_start {
                }
            }
            lemma_ascii_run(s, start as int, p1 as int);
        }
        if over {
            return Err(Diag::parse(start..p1, "invalid int"));
        }
        if neg {
            if mag <= 9223372036854775808u64 {
                let v: i64 = if mag == 9223372036854775808u64 {
                    i64::MIN
                } else {
                    -(mag as i64)
                };
                Ok(Num::Int(v))
            } else {
                Err(Diag::parse(start..p1, "invalid int"))
            }
        } else {
            if mag <= 9223372036854775807u64 {
                Ok(Num::Int(mag as i64))
            } else {
                Err(Diag::parse(start..p1, "invalid int"))
            }
        }
    }
}

/// Move the pending text (if any) into the parts as a literal part.
fn flush_buf(parts: &mut Vec<StringPart>, buf: Vec<u8>)
    requires
        valid_utf8(buf@),
    ensures
        parts_v(final(parts)@) == flush(parts_v(old(parts)@), buf@),
{
    let ghost before = parts_v(parts@);
    let ghost b = buf@;
    if buf.len() != 0 {
        parts.push(StringPart::Lit(text_from_bytes(buf)));
        proof {
            assert(parts_v(parts@) =~= before.push(StringPartV::Lit(decode_utf8(b))));
        }
    }
}

fn lit_has_interp(lit: &StringLit) -> (r: bool)
    ensures
        r == has_interp(lit@.parts),
{
    let n = lit.parts.len();
    let mut i: usize = 0;
    while i < n
        invariant
            n == lit.parts@.len(),
            i <= n,
            forall|j: int| 0 <= j < i ==> !(lit@.parts[j] is Interp),
        decreases n - i,
    {
        if let StringPart::Interp(_) = &lit.parts[i] {
            assert(lit@.parts[i as int] is Interp);
            return true;
        }
        i += 1;
    }
    false
}

fn lit_first_text(lit: &StringLit) -> (r: String)
    ensures
        r@ == first_text(lit@.parts),
{
    if lit.parts.len() == 0 {
        String::new()
    } else {
        match &lit.parts[0] {
            StringPart::Lit(t) => t.clone(),
            StringPart::Interp(_) => String::new(),
        }
    }
}

/// `pre` put in front of the items of a trivia result.
pub open spec fn prepend(pre: Seq<LexItemV>, r: Result<(Seq<LexItemV>, int), DiagV>) -> Result<
    (Seq<LexItemV>, int),
    DiagV,
> {
    match r {
        Ok((xs, p)) => Ok((pre + xs, p)),
        Err(d) => Err(d),
    }
}

/// The message for a character that starts no token, given the `{:?}`
/// rendering of that character.
pub fn unexpected_character_message(shown: &str) -> (r: String)
    ensures
        r@ == "unexpected character "@ + shown@,
{
    join2("unexpected character ", shown)
}

pub fn token_kind_name(t: &Token) -> (r: &'static str)
    ensures
        r@ == kind_name(t@),
{
    match t {
        Token::Ident(_) => "identifier",
        Token::Int(_) => "int",
        Token::Float(_) => "float",
        Token::True => "true",
        Token::False => "false",
        Token::Null => "null",
        Token::String(_) => "string",
        Token::LBrace => "'{'",
        Token::RBrace => "'}'",
        Token::LBracket => "'['",
        Token::RBracket => "']'",
        Token::Comma => "','",
        Token::Dot => "'.'",
    }
}

/// `16` to the power `n`.
pub open spec fn pow16(n: nat) -> nat
    decreases n,
{
    if n == 0 {
        1
    } else {
        16 * pow16((n - 1) as nat)
    }
}

proof fn lemma_pow16(n: nat)
    requires
        n < 6,
    ensures
        pow16(n) <= 1048576,
        pow16(n + 1) == 16 * pow16(n),
{
    reveal_with_fuel(pow16, 7);
}

pub fn is_ident_start(b: u8) -> (r: bool)
    ensures
        r == ident_start(b),
{
    b == 95 || (97 <= b && b <= 122) || (65 <= b && b <= 90)
}

pub fn is_ident_continue(b: u8) -> (r: bool)
    ensures
        r == ident_continue(b),
{
    b == 95 || (97 <= b && b <= 122) || (65 <= b && b <= 90) || (48 <= b && b <= 57)
}

fn is_ascii_digit(b: u8) -> (r: bool)
    ensures
        r == is_digit(b),
{
    48 <= b && b <= 57
}

fn is_ascii_hexdigit(b: u8) -> (r: bool)
    ensures
        r == is_hex(b),
{
    (48 <= b && b <= 57) || (97 <= b && b <= 102) || (65 <= b && b <= 70)
}

} // verus!
