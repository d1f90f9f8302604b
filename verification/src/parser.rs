//! Recursive-descent parser over the lexer's items.
use crate::ast::{
    join2, name_v, names_v, sexpr_v, stmt_nodes_v, trivias_v, Assign, Block, Expr, ExprV, File,
    Ident, MapEntry, MapEntryV, NameV, Ref, Stmt, StmtNode, StmtNodeV, StmtV, StringLit, Trivia,
    TriviaKind, TriviaV,
};
use crate::diag::{span_v, Diag, DiagV, Span, SpanV, Spanned};
use crate::lexer::{items_v, token_kind_name, LexItem, Token};
use crate::lexer_spec::{kind_name, LexItemV, TokenV};
use crate::parser_spec::{
    attach, firsts, lemma_block_items_progress, lemma_expr_progress, lemma_next_tok,
    lemma_ref_progress, lemma_skip_comma, lemma_stmt_progress, lemma_sync_from, next_tok,
    p_block_items, p_block_open, p_expect, p_expr, p_file, p_file_recover, p_list, p_map, p_ref,
    p_stmt, same_kind, skip_comma, span_at, spec_parse_tokens, spec_parse_tokens_recover,
    sync_from, depth_after, tok_at, trivia_between,
};
use vstd::prelude::*;

verus! {

broadcast use vstd::seq::group_seq_axioms;

/// The view of a list of (trivia, attached-to-previous) pairs.
pub open spec fn raw_v(xs: Seq<(Trivia, bool)>) -> Seq<(TriviaV, bool)> {
    xs.map_values(|x: (Trivia, bool)| (x.0@, x.1))
}

pub open spec fn sexprs_v(xs: Seq<Spanned<Expr>>) -> Seq<(ExprV, SpanV)> {
    xs.map_values(|x: Spanned<Expr>| sexpr_v(x))
}

pub open spec fn entries_v(xs: Seq<MapEntry>) -> Seq<MapEntryV> {
    xs.map_values(|x: MapEntry| MapEntryV { key: name_v(x.key), value: sexpr_v(x.value) })
}

/// Parse the lexer's items into a file. `eof` is the span reported when
/// a token is missing at the end of the input.
pub fn parse_tokens(items: Vec<LexItem>, eof: Span) -> (r: Result<File, Diag>)
    requires
        items@.len() < usize::MAX,
    ensures
        match spec_parse_tokens(items_v(items@), span_v(eof)) {
            Ok(f) => r matches Ok(x) && x@ == f,
            Err(d) => r matches Err(x) && x@ == d,
        },
{
    let p = Parser { items, eof };
    p.parse_file()
}

/// Parse the lexer's items into a file, dropping every statement that
/// fails and resuming at the next identifier at brace depth 0; gives the
/// file and every diagnostic met.
pub fn parse_tokens_with_recovery(items: Vec<LexItem>, eof: Span) -> (r: (File, Vec<Diag>))
    requires
        items@.len() < usize::MAX,
    ensures
        (r.0@, r.1@.map_values(|d: Diag| d@)) == spec_parse_tokens_recover(
            items_v(items@),
            span_v(eof),
        ),
{
    let p = Parser { items, eof };
    p.parse_file_with_recovery()
}

struct Parser {
    items: Vec<LexItem>,
    eof: Span,
}

/// The view of an optional block label.
pub open spec fn label_v(l: Option<Spanned<String>>) -> Option<NameV> {
    match l {
        Some(x) => Some((x.node@, span_v(x.span))),
        None => None,
    }
}

/// Copy a span.
fn copy_span(s: &Span) -> (r: Span)
    ensures
        r == *s,
{
    s.start..s.end
}

/// The trivia of (trivia, attached) pairs.
fn trivia_only(raw: Vec<(Trivia, bool)>) -> (r: Vec<Trivia>)
    ensures
        trivias_v(r@) == firsts(raw_v(raw@)),
{
    let mut out: Vec<Trivia> = Vec::new();
    let n = raw.len();
    let mut i: usize = 0;
    while i < n
        invariant
            n == raw@.len(),
            i <= n,
            trivias_v(out@) == firsts(raw_v(raw@)).subrange(0, i as int),
        decreases n - i,
    {
        let ghost before = trivias_v(out@);
        out.push(raw[i].0.dup());
        proof {
            assert(raw_v(raw@)[i as int] == (raw@[i as int].0@, raw@[i as int].1));
            assert(trivias_v(out@) =~= before.push(raw@[i as int].0@));
        }
        i += 1;
        proof {
            assert(trivias_v(out@) =~= firsts(raw_v(raw@)).subrange(0, i as int));
        }
    }
    proof {
        assert(firsts(raw_v(raw@)).subrange(0, n as int) =~= firsts(raw_v(raw@)));
    }
    out
}

/// A line comment on the same line as the previous statement becomes
/// that statement's trailing comment.
fn attach_prev_trailing(stmts: &mut Vec<StmtNode>, raw: &mut Vec<(Trivia, bool)>)
    ensures
        (stmt_nodes_v(final(stmts)@), raw_v(final(raw)@)) == attach(
            stmt_nodes_v(old(stmts)@),
            raw_v(old(raw)@),
        ),
{
    if stmts.len() == 0 || raw.len() == 0 {
        return;
    }
    let attached = raw[0].1;
    let is_line = match &raw[0].0.kind {
        TriviaKind::LineComment(_) => true,
        _ => false,
    };
    if attached && is_line {
        let ghost s0 = stmt_nodes_v(stmts@);
        let ghost r0 = raw_v(raw@);
        let (t, _) = raw.remove(0);
        let mut last = stmts.pop().unwrap();
        last.trailing = Some(t);
        stmts.push(last);
        proof {
            assert(raw_v(raw@) =~= r0.drop_first());
            assert(stmt_nodes_v(stmts@) =~= attach(s0, r0).0);
        }
    }
}

impl Parser {
    spec fn its(&self) -> Seq<LexItemV> {
        items_v(self.items@)
    }

    spec fn eofv(&self) -> SpanV {
        span_v(self.eof)
    }

    spec fn wf(&self) -> bool {
        self.items@.len() < usize::MAX
    }

    /// The next token at or after `pos`, with its index.
    fn peek_token(&self, pos: usize) -> (r: Option<(usize, &Spanned<Token>)>)
        requires
            self.wf(),
            pos <= self.items@.len(),
        ensures
            match r {
                None => next_tok(self.its(), pos as int) >= self.items@.len(),
                Some((i, t)) => i == next_tok(self.its(), pos as int) && i < self.items@.len()
                    && t.node@ == tok_at(self.its(), i as int) && span_v(t.span) == span_at(
                    self.its(),
                    i as int,
                ),
            },
    {
        let mut i = pos;
        while i < self.items.len()
            invariant
                self.wf(),
                pos <= i <= self.items@.len(),
                next_tok(self.its(), pos as int) == next_tok(self.its(), i as int),
            decreases self.items@.len() - i,
        {
            match &self.items[i] {
                LexItem::Token(t) => {
                    return Some((i, t));
                },
                LexItem::Trivia { .. } => {},
            }
            i += 1;
        }
        None
    }

    /// The trivia items before the next token, and that token's index.
    fn take_leading_trivia(&self, pos: usize) -> (r: (Vec<(Trivia, bool)>, usize))
        requires
            self.wf(),
            pos <= self.items@.len(),
        ensures
            r.1 == next_tok(self.its(), pos as int),
            raw_v(r.0@) == trivia_between(self.its(), pos as int, r.1 as int),
    {
        let mut out: Vec<(Trivia, bool)> = Vec::new();
        let mut i = pos;
        loop
            invariant
                self.wf(),
                pos <= i <= self.items@.len(),
                next_tok(self.its(), pos as int) == next_tok(self.its(), i as int),
                raw_v(out@) == trivia_between(self.its(), pos as int, i as int),
            decreases self.items@.len() - i,
        {
            if i >= self.items.len() {
                return (out, i);
            }
            match &self.items[i] {
                LexItem::Trivia { trivia, attached_to_prev } => {
                    let ghost before = raw_v(out@);
                    out.push((trivia.dup(), *attached_to_prev));
                    proof {
                        assert(self.its()[i as int] == self.items@[i as int]@);
                        assert(raw_v(out@) =~= before.push((trivia@, *attached_to_prev)));
                        assert(raw_v(out@) =~= trivia_between(self.its(), pos as int, i + 1));
                    }
                },
                LexItem::Token(_) => {
                    return (out, i);
                },
            }
            i += 1;
        }
    }

    /// The next token, which must have `want`'s kind.
    fn expect_kind(&self, pos: usize, want: &Token, label: &str) -> (r: Result<(Span, usize), Diag>)
        requires
            self.wf(),
            pos <= self.items@.len(),
        ensures
            match p_expect(self.its(), self.eofv(), pos as int, want@, label@) {
                Ok(i) => r matches Ok((sp, q)) && q == i + 1 && span_v(sp) == span_at(
                    self.its(),
                    i,
                ),
                Err(d) => r matches Err(x) && x@ == d,
            },
    {
        match self.peek_token(pos) {
            Some((i, t)) => {
                if same_kind_tok(&t.node, want) {
                    Ok((copy_span(&t.span), i + 1))
                } else {
                    let m1 = join2("expected ", label);
                    let m2 = join2(m1.as_str(), ", found ");
                    let m = join2(m2.as_str(), token_kind_name(&t.node));
                    Err(Diag::parse(copy_span(&t.span), m.as_str()))
                }
            },
            None => {
                let m1 = join2("expected ", label);
                let m = join2(m1.as_str(), ", found end of input");
                Err(Diag::parse(copy_span(&self.eof), m.as_str()))
            },
        }
    }

    fn parse_file(&self) -> (r: Result<File, Diag>)
        requires
            self.wf(),
        ensures
            match p_file(self.its(), self.eofv(), 0, Seq::empty()) {
                Ok(f) => r matches Ok(x) && x@ == f,
                Err(d) => r matches Err(x) && x@ == d,
            },
    {
        let ghost target = p_file(self.its(), self.eofv(), 0, Seq::empty());
        let mut stmts: Vec<StmtNode> = Vec::new();
        let mut pos: usize = 0;
        proof {
            assert(stmt_nodes_v(stmts@) =~= Seq::<StmtNodeV>::empty());
        }
        loop
            invariant
                self.wf(),
                pos <= self.items@.len(),
                target == p_file(self.its(), self.eofv(), 0, Seq::empty()),
                p_file(self.its(), self.eofv(), pos as int, stmt_nodes_v(stmts@)) == target,
            decreases self.items@.len() - pos,
        {
            let (mut raw, t) = self.take_leading_trivia(pos);
            attach_prev_trailing(&mut stmts, &mut raw);
            if t >= self.items.len() {
                let trailing_trivia = trivia_only(raw);
                return Ok(File { stmts, trailing_trivia });
            }
            let leading = trivia_only(raw);
            match self.parse_stmt_body(t) {
                Err(d) => {
                    return Err(d);
                },
                Ok((node, span, p2)) => {
                    proof {
                        lemma_stmt_progress(self.its(), self.eofv(), t as int);
                        lemma_next_tok(self.its(), pos as int);
                    }
                    let ghost before = stmt_nodes_v(stmts@);
                    stmts.push(StmtNode { leading, trailing: None, node, span });
                    proof {
                        assert(stmt_nodes_v(stmts@) =~= before.push(stmts@.last()@));
                    }
                    pos = p2;
                },
            }
        }
    }

    fn parse_file_with_recovery(&self) -> (r: (File, Vec<Diag>))
        requires
            self.wf(),
        ensures
            (r.0@, r.1@.map_values(|d: Diag| d@)) == p_file_recover(
                self.its(),
                self.eofv(),
                0,
                Seq::empty(),
                Seq::empty(),
            ),
    {
        let ghost target = p_file_recover(
            self.its(),
            self.eofv(),
            0,
            Seq::empty(),
            Seq::empty(),
        );
        let mut stmts: Vec<StmtNode> = Vec::new();
        let mut diags: Vec<Diag> = Vec::new();
        let mut pos: usize = 0;
        proof {
            assert(stmt_nodes_v(stmts@) =~= Seq::<StmtNodeV>::empty());
            assert(diags@.map_values(|d: Diag| d@) =~= Seq::<DiagV>::empty());
        }
        loop
            invariant
                self.wf(),
                pos <= self.items@.len(),
                target == p_file_recover(
                    self.its(),
                    self.eofv(),
                    0,
                    Seq::empty(),
                    Seq::empty(),
                ),
                p_file_recover(
                    self.its(),
                    self.eofv(),
                    pos as int,
                    stmt_nodes_v(stmts@),
                    diags@.map_values(|d: Diag| d@),
                ) == target,
            decreases self.items@.len() - pos,
        {
            let (mut raw, t) = self.take_leading_trivia(pos);
            attach_prev_trailing(&mut stmts, &mut raw);
            if t >= self.items.len() {
                let trailing_trivia = trivia_only(raw);
                return (File { stmts, trailing_trivia }, diags);
            }
            proof {
                lemma_next_tok(self.its(), pos as int);
            }
            let leading = trivia_only(raw);
            match self.parse_stmt_body(t) {
                Err(d) => {
                    let ghost before = diags@.map_values(|d: Diag| d@);
                    diags.push(d);
                    proof {
                        assert(diags@.map_values(|d: Diag| d@) =~= before.push(diags@.last()@));
                        lemma_sync_from(self.its(), t as int, 0, t as int);
                    }
                    pos = self.sync_point(t);
                },
                Ok((node, span, p2)) => {
                    proof {
                        lemma_stmt_progress(self.its(), self.eofv(), t as int);
                    }
                    let ghost before = stmt_nodes_v(stmts@);
                    stmts.push(StmtNode { leading, trailing: None, node, span });
                    proof {
                        assert(stmt_nodes_v(stmts@) =~= before.push(stmts@.last()@));
                    }
                    pos = p2;
                },
            }
        }
    }

    /// After a comma, if the next token is one; else `p` itself.
    fn skip_comma_at(&self, p: usize) -> (r: usize)
        requires
            self.wf(),
            p <= self.items@.len(),
        ensures
            r == skip_comma(self.its(), p as int),
    {
        match self.peek_token(p) {
            Some((c, t)) => match &t.node {
                Token::Comma => c + 1,
                _ => p,
            },
            None => p,
        }
    }

    /// A statement whose first token is the next one at or after `pos`:
    /// the statement, its span, and the position after it.
    fn parse_stmt_body(&self, pos: usize) -> (r: Result<(Stmt, Span, usize), Diag>)
        requires
            self.wf(),
            pos <= self.items@.len(),
        ensures
            match p_stmt(self.its(), self.eofv(), pos as int) {
                Ok(((st, sp), p)) => r matches Ok((x, xs, q)) && x@ == st && span_v(xs) == sp && q
                    == p,
                Err(d) => r matches Err(x) && x@ == d,
            },
        decreases self.items@.len() - pos, 0int,
    {
        match self.peek_token(pos) {
            None => Err(Diag::parse(copy_span(&self.eof), "expected statement, found end of input")),
            Some((i, head)) => {
                let name = match &head.node {
                    Token::Ident(n) => n.clone(),
                    other => {
                        let m = join2(
                            "expected identifier at start of statement, found ",
                            token_kind_name(other),
                        );
                        return Err(Diag::parse(copy_span(&head.span), m.as_str()));
                    },
                };
                let head_span = copy_span(&head.span);
                let key = Spanned::new(Ident(name), copy_span(&head_span));
                proof {
                    lemma_next_tok(self.its(), pos as int);
                    lemma_next_tok(self.its(), i + 1);
                }
                match self.peek_token(i + 1) {
                    None => Err(
                        Diag::parse(
                            copy_span(&self.eof),
                            "expected value or '{' after identifier, found end of input",
                        ),
                    ),
                    Some((j, t)) => match &t.node {
                        Token::LBrace => self.parse_block_body(i + 1, key, None),
                        Token::String(lit0) => {
                            let lit = lit0.dup();
                            let str_span = copy_span(&t.span);
                            let next_is_brace = match self.peek_token(j + 1) {
                                Some((_, u)) => match &u.node {
                                    Token::LBrace => true,
                                    _ => false,
                                },
                                None => false,
                            };
                            if next_is_brace {
                                match lit.try_into_bare_text(copy_span(&str_span), "block label") {
                                    Err(d) => Err(d),
                                    Ok(text) => self.parse_block_body(
                                        j + 1,
                                        key,
                                        Some(Spanned::new(text, str_span)),
                                    ),
                                }
                            } else {
                                let end = str_span.end;
                                let value = Spanned::new(Expr::String(lit), str_span);
                                let span = head_span.start..end;
                                Ok((Stmt::Assign(Assign { key, value }), span, j + 1))
                            }
                        },
                        _ => match self.parse_expr(i + 1) {
                            Err(d) => Err(d),
                            Ok((value, p2)) => {
                                let span = head_span.start..value.span.end;
                                Ok((Stmt::Assign(Assign { key, value }), span, p2))
                            },
                        },
                    },
                }
            },
        }
    }

    /// A block body `{ ... }` for the block `kind` (and `label`), whose
    /// `{` is the next token at or after `pos`.
    fn parse_block_body(&self, pos: usize, kind: Spanned<Ident>, label: Option<Spanned<String>>) -> (r:
        Result<(Stmt, Span, usize), Diag>)
        requires
            self.wf(),
            pos <= self.items@.len(),
        ensures
            match p_block_open(self.its(), self.eofv(), pos as int, name_v(kind), label_v(label)) {
                Ok(((st, sp), p)) => r matches Ok((x, xs, q)) && x@ == st && span_v(xs) == sp && q
                    == p,
                Err(d) => r matches Err(x) && x@ == d,
            },
        decreases self.items@.len() - pos, 0int,
    {
        let (lb, after) = match self.expect_kind(pos, &Token::LBrace, "'{'") {
            Ok(x) => x,
            Err(d) => {
                return Err(d);
            },
        };
        proof {
            lemma_next_tok(self.its(), pos as int);
        }
        let ghost kv = name_v(kind);
        let ghost lv = label_v(label);
        let ghost target = p_block_items(
            self.its(),
            self.eofv(),
            after as int,
            kv,
            lv,
            Seq::empty(),
            span_v(lb),
        );
        let start = kind.span.start;
        let mut stmts: Vec<StmtNode> = Vec::new();
        let mut cur = after;
        proof {
            assert(stmt_nodes_v(stmts@) =~= Seq::<StmtNodeV>::empty());
            assert(p_block_open(self.its(), self.eofv(), pos as int, kv, lv) == target);
        }
        loop
            invariant
                self.wf(),
                pos < after <= cur <= self.items@.len(),
                p_block_open(self.its(), self.eofv(), pos as int, kv, lv) == target,
                kv == name_v(kind),
                lv == label_v(label),
                start == kind.span.start,
                target == p_block_items(
                    self.its(),
                    self.eofv(),
                    after as int,
                    kv,
                    lv,
                    Seq::empty(),
                    span_v(lb),
                ),
                p_block_items(
                    self.its(),
                    self.eofv(),
                    cur as int,
                    kv,
                    lv,
                    stmt_nodes_v(stmts@),
                    span_v(lb),
                ) == target,
            decreases self.items@.len() - cur,
        {
            let (mut raw, t) = self.take_leading_trivia(cur);
            attach_prev_trailing(&mut stmts, &mut raw);
            proof {
                lemma_next_tok(self.its(), cur as int);
            }
            let tk = match self.peek_token(t) {
                None => {
                    return Err(
                        Diag::parse(copy_span(&lb), "unterminated block body, expected '}'"),
                    );
                },
                Some((_, tk)) => tk,
            };
            proof {
                lemma_next_tok(self.its(), cur as int);
                lemma_next_tok(self.its(), t as int);
            }
            if let Token::RBrace = &tk.node {
                let trailing_trivia = trivia_only(raw);
                let span = start..tk.span.end;
                let ghost stmts_now = stmts@;
                let st = Stmt::Block(Block { kind, label, stmts, trailing_trivia });
                proof {
                    if let StmtV::Block(bv) = st@ {
                        assert(bv.stmts =~= stmt_nodes_v(stmts_now));
                    }
                }
                return Ok((st, span, t + 1));
            }
            let leading = trivia_only(raw);
            match self.parse_stmt_body(t) {
                Err(d) => {
                    return Err(d);
                },
                Ok((node, span, p2)) => {
                    proof {
                        lemma_stmt_progress(self.its(), self.eofv(), t as int);
                    }
                    let ghost before = stmt_nodes_v(stmts@);
                    stmts.push(StmtNode { leading, trailing: None, node, span });
                    proof {
                        assert(stmt_nodes_v(stmts@) =~= before.push(stmts@.last()@));
                        lemma_skip_comma(self.its(), p2 as int);
                    }
                    cur = self.skip_comma_at(p2);
                },
            }
        }
    }

    /// An expression starting at the next token at or after `pos`.
    fn parse_expr(&self, pos: usize) -> (r: Result<(Spanned<Expr>, usize), Diag>)
        requires
            self.wf(),
            pos <= self.items@.len(),
        ensures
            match p_expr(self.its(), self.eofv(), pos as int) {
                Ok((e, p)) => r matches Ok((x, q)) && sexpr_v(x) == e && q == p,
                Err(d) => r matches Err(x) && x@ == d,
            },
        decreases self.items@.len() - pos, 0int,
    {
        match self.peek_token(pos) {
            None => Err(Diag::parse(copy_span(&self.eof), "expected expression, found end of input")),
            Some((i, head)) => {
                proof {
                    lemma_next_tok(self.its(), pos as int);
                }
                let sp = copy_span(&head.span);
                match &head.node {
                    Token::Int(v) => Ok((Spanned::new(Expr::Int(*v), sp), i + 1)),
                    Token::Float(t) => Ok((Spanned::new(Expr::Float(t.clone()), sp), i + 1)),
                    Token::True => Ok((Spanned::new(Expr::Bool(true), sp), i + 1)),
                    Token::False => Ok((Spanned::new(Expr::Bool(false), sp), i + 1)),
                    Token::Null => Ok((Spanned::new(Expr::Null, sp), i + 1)),
                    Token::String(s) => Ok((Spanned::new(Expr::String(s.dup()), sp), i + 1)),
                    Token::Ident(name) => {
                        let mut path: Vec<Spanned<Ident>> = Vec::new();
                        path.push(Spanned::new(Ident(name.clone()), copy_span(&sp)));
                        proof {
                            assert(names_v(path@) =~= seq![(name@, span_v(sp))]);
                        }
                        self.parse_ref_expr(i + 1, path, sp.start, sp.end)
                    },
                    Token::LBracket => self.parse_list_expr(i + 1, sp.start),
                    Token::LBrace => self.parse_map_expr(i + 1, sp.start),
                    other => {
                        let m = join2("expected expression, found ", token_kind_name(other));
                        Err(Diag::parse(sp, m.as_str()))
                    },
                }
            },
        }
    }

    /// The rest of a reference `a.b."c"` after `path0` was read.
    fn parse_ref_expr(&self, pos: usize, path0: Vec<Spanned<Ident>>, start: usize, end0: usize) -> (r:
        Result<(Spanned<Expr>, usize), Diag>)
        requires
            self.wf(),
            pos <= self.items@.len(),
        ensures
            match p_ref(
                self.its(),
                self.eofv(),
                pos as int,
                names_v(path0@),
                start as int,
                end0 as int,
            ) {
                Ok((e, p)) => r matches Ok((x, q)) && sexpr_v(x) == e && q == p,
                Err(d) => r matches Err(x) && x@ == d,
            },
    {
        let ghost target = p_ref(
            self.its(),
            self.eofv(),
            pos as int,
            names_v(path0@),
            start as int,
            end0 as int,
        );
        let mut path = path0;
        let mut end = end0;
        let mut cur = pos;
        loop
            invariant
                self.wf(),
                pos <= cur <= self.items@.len(),
                target == p_ref(
                    self.its(),
                    self.eofv(),
                    pos as int,
                    names_v(path0@),
                    start as int,
                    end0 as int,
                ),
                p_ref(
                    self.its(),
                    self.eofv(),
                    cur as int,
                    names_v(path@),
                    start as int,
                    end as int,
                ) == target,
            decreases self.items@.len() - cur,
        {
            let i = match self.peek_token(cur) {
                Some((i, t)) => match &t.node {
                    Token::Dot => i,
                    _ => {
                        let r = Spanned::new(Expr::Ref(Ref { path }), start..end);
                        return Ok((r, cur));
                    },
                },
                None => {
                    let r = Spanned::new(Expr::Ref(Ref { path }), start..end);
                    return Ok((r, cur));
                },
            };
            proof {
                lemma_next_tok(self.its(), cur as int);
                lemma_next_tok(self.its(), i + 1);
            }
            match self.peek_token(i + 1) {
                None => {
                    return Err(
                        Diag::parse(
                            copy_span(&self.eof),
                            "expected identifier or quoted segment after '.'",
                        ),
                    );
                },
                Some((j, seg)) => {
                    let seg_span = copy_span(&seg.span);
                    let ghost before = names_v(path@);
                    match &seg.node {
                        Token::Ident(s) => {
                            path.push(Spanned::new(Ident(s.clone()), copy_span(&seg_span)));
                            proof {
                                assert(names_v(path@) =~= before.push((s@, span_v(seg_span))));
                            }
                        },
                        Token::String(lit) => {
                            match lit.dup().try_into_bare_text(copy_span(&seg_span), "ref segment") {
                                Err(d) => {
                                    return Err(d);
                                },
                                Ok(t) => {
                                    let ghost tv = t@;
                                    path.push(Spanned::new(Ident(t), copy_span(&seg_span)));
                                    proof {
                                        assert(names_v(path@) =~= before.push((tv, span_v(seg_span))));
                                    }
                                },
                            }
                        },
                        other => {
                            let m = join2(
                                "expected identifier or quoted segment after '.', found ",
                                token_kind_name(other),
                            );
                            return Err(Diag::parse(seg_span, m.as_str()));
                        },
                    }
                    end = seg_span.end;
                    cur = j + 1;
                },
            }
        }
    }

    /// The rest of a list `[ ... ]` opened at `start`.
    fn parse_list_expr(&self, pos: usize, start: usize) -> (r: Result<(Spanned<Expr>, usize), Diag>)
        requires
            self.wf(),
            pos <= self.items@.len(),
        ensures
            match p_list(self.its(), self.eofv(), pos as int, start as int, Seq::empty()) {
                Ok((e, p)) => r matches Ok((x, q)) && sexpr_v(x) == e && q == p,
                Err(d) => r matches Err(x) && x@ == d,
            },
        decreases self.items@.len() - pos, 1int,
    {
        let ghost target = p_list(self.its(), self.eofv(), pos as int, start as int, Seq::empty());
        let mut items: Vec<Spanned<Expr>> = Vec::new();
        let mut cur = pos;
        proof {
            assert(sexprs_v(items@) =~= Seq::<(ExprV, SpanV)>::empty());
        }
        loop
            invariant
                self.wf(),
                pos <= cur <= self.items@.len(),
                target == p_list(self.its(), self.eofv(), pos as int, start as int, Seq::empty()),
                p_list(self.its(), self.eofv(), cur as int, start as int, sexprs_v(items@))
                    == target,
            decreases self.items@.len() - cur,
        {
            match self.peek_token(cur) {
                None => {
                    return Err(
                        Diag::parse(copy_span(&self.eof), "unterminated list, expected ']'"),
                    );
                },
                Some((i, t)) => {
                    if let Token::RBracket = &t.node {
                        let span = start..t.span.end;
                        let e = Expr::List(items);
                        proof {
                            if let ExprV::List(xs) = e@ {
                                assert(xs =~= sexprs_v(items@));
                            }
                        }
                        return Ok((Spanned::new(e, span), i + 1));
                    }
                },
            }
            match self.parse_expr(cur) {
                Err(d) => {
                    return Err(d);
                },
                Ok((e, p2)) => {
                    proof {
                        lemma_expr_progress(self.its(), self.eofv(), cur as int);
                        lemma_skip_comma(self.its(), p2 as int);
                    }
                    let ghost before = sexprs_v(items@);
                    items.push(e);
                    proof {
                        assert(sexprs_v(items@) =~= before.push(sexpr_v(items@.last())));
                    }
                    cur = self.skip_comma_at(p2);
                },
            }
        }
    }

    /// The rest of a map `{ k v, ... }` opened at `start`.
    fn parse_map_expr(&self, pos: usize, start: usize) -> (r: Result<(Spanned<Expr>, usize), Diag>)
        requires
            self.wf(),
            pos <= self.items@.len(),
        ensures
            match p_map(self.its(), self.eofv(), pos as int, start as int, Seq::empty()) {
                Ok((e, p)) => r matches Ok((x, q)) && sexpr_v(x) == e && q == p,
                Err(d) => r matches Err(x) && x@ == d,
            },
        decreases self.items@.len() - pos, 1int,
    {
        let ghost target = p_map(self.its(), self.eofv(), pos as int, start as int, Seq::empty());
        let mut entries: Vec<MapEntry> = Vec::new();
        let mut cur = pos;
        proof {
            assert(entries_v(entries@) =~= Seq::<MapEntryV>::empty());
        }
        loop
            invariant
                self.wf(),
                pos <= cur <= self.items@.len(),
                target == p_map(self.its(), self.eofv(), pos as int, start as int, Seq::empty()),
                p_map(self.its(), self.eofv(), cur as int, start as int, entries_v(entries@))
                    == target,
            decreases self.items@.len() - cur,
        {
            let (i, key_tok) = match self.peek_token(cur) {
                None => {
                    return Err(Diag::parse(copy_span(&self.eof), "unterminated map, expected '}'"));
                },
                Some((i, t)) => (i, t),
            };
            if let Token::RBrace = &key_tok.node {
                let span = start..key_tok.span.end;
                let e = Expr::Mapping(entries);
                proof {
                    if let ExprV::Mapping(xs) = e@ {
                        assert(xs =~= entries_v(entries@));
                    }
                }
                return Ok((Spanned::new(e, span), i + 1));
            }
            proof {
                lemma_next_tok(self.its(), cur as int);
            }
            let key_span = copy_span(&key_tok.span);
            let key_name = match &key_tok.node {
                Token::Ident(s) => s.clone(),
                other => {
                    let m = join2("expected identifier as map key, found ", token_kind_name(other));
                    return Err(Diag::parse(key_span, m.as_str()));
                },
            };
            let key = Spanned::new(Ident(key_name), key_span);
            match self.parse_expr(i + 1) {
                Err(d) => {
                    return Err(d);
                },
                Ok((value, p2)) => {
                    proof {
                        lemma_expr_progress(self.its(), self.eofv(), i + 1);
                        lemma_skip_comma(self.its(), p2 as int);
                    }
                    let ghost before = entries_v(entries@);
                    entries.push(MapEntry { key, value });
                    proof {
                        assert(entries_v(entries@) =~= before.push(
                            MapEntryV {
                                key: name_v(entries@.last().key),
                                value: sexpr_v(entries@.last().value),
                            },
                        ));
                    }
                    cur = self.skip_comma_at(p2);
                },
            }
        }
    }

    /// Where to resume after the statement starting at token `first`
    /// failed: the next identifier past it at brace depth 0.
    fn sync_point(&self, first: usize) -> (r: usize)
        requires
            self.wf(),
            first < self.items@.len(),
        ensures
            r == sync_from(self.its(), first as int, 0, first as int),
    {
        let mut depth: usize = 0;
        let mut pos = first;
        loop
            invariant
                self.wf(),
                first <= pos <= self.items@.len(),
                depth <= pos - first,
                sync_from(self.its(), pos as int, depth as nat, first as int) == sync_from(
                    self.its(),
                    first as int,
                    0,
                    first as int,
                ),
            decreases self.items@.len() - pos,
        {
            match self.peek_token(pos) {
                None => {
                    return self.items.len();
                },
                Some((k, t)) => {
                    proof {
                        lemma_next_tok(self.its(), pos as int);
                    }
                    let is_ident = match &t.node {
                        Token::Ident(_) => true,
                        _ => false,
                    };
                    if k > first && depth == 0 && is_ident {
                        return k;
                    }
                    let ghost d0 = depth as nat;
                    match &t.node {
                        Token::LBrace => {
                            depth = depth + 1;
                        },
                        Token::RBrace => {
                            if depth > 0 {
                                depth = depth - 1;
                            }
                        },
                        _ => {},
                    }
                    proof {
                        assert(depth as nat == depth_after(tok_at(self.its(), k as int), d0));
                    }
                    pos = k + 1;
                },
            }
        }
    }
}

/// Whether two tokens are of the same kind.
fn same_kind_tok(a: &Token, b: &Token) -> (r: bool)
    ensures
        r == same_kind(a@, b@),
{
    match (a, b) {
        (Token::Ident(_), Token::Ident(_)) => true,
        (Token::Int(_), Token::Int(_)) => true,
        (Token::Float(_), Token::Float(_)) => true,
        (Token::True, Token::True) => true,
        (Token::False, Token::False) => true,
        (Token::Null, Token::Null) => true,
        (Token::String(_), Token::String(_)) => true,
        (Token::LBrace, Token::LBrace) => true,
        (Token::RBrace, Token::RBrace) => true,
        (Token::LBracket, Token::LBracket) => true,
        (Token::RBracket, Token::RBracket) => true,
        (Token::Comma, Token::Comma) => true,
        (Token::Dot, Token::Dot) => true,
        _ => false,
    }
}

} // verus!
