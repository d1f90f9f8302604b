//! The parser's meaning, as functions on the lexer's items.
//!
//! Positions index the item sequence (tokens and trivia). Each function
//! says what the parser builds from a position: a value and the position
//! where it stopped, or the diagnostic it reports.
use crate::ast::{
    bare_text_result, AssignV, BlockV, ExprV, FileV, MapEntryV, NameV, RefV, StmtNodeV, StmtV,
    TriviaKindV, TriviaV,
};
use crate::diag::{is_parse_error, perr, DiagV, SpanV};
use crate::lexer_spec::{kind_name, LexItemV, TokenV};
use vstd::prelude::*;

verus! {

broadcast use vstd::seq::group_seq_axioms;

/// The index of the first token at or after `pos` (the length if none).
pub open spec fn next_tok(its: Seq<LexItemV>, pos: int) -> int
    decreases its.len() - pos,
{
    if pos < 0 || pos >= its.len() {
        its.len() as int
    } else if its[pos] is Token {
        pos
    } else {
        next_tok(its, pos + 1)
    }
}

pub proof fn lemma_next_tok(its: Seq<LexItemV>, pos: int)
    requires
        0 <= pos,
    ensures
        pos <= next_tok(its, pos) || next_tok(its, pos) == its.len(),
        next_tok(its, pos) <= its.len(),
        next_tok(its, pos) < its.len() ==> its[next_tok(its, pos)] is Token && pos <= next_tok(
            its,
            pos,
        ),
        forall|k: int| pos <= k < next_tok(its, pos) ==> !(#[trigger] its[k] is Token),
    decreases its.len() - pos,
{
    if pos < its.len() && !(its[pos] is Token) {
        lemma_next_tok(its, pos + 1);
    }
}

/// The token at index `i` (meaningful when it is a token).
pub open spec fn tok_at(its: Seq<LexItemV>, i: int) -> TokenV {
    match its[i] {
        LexItemV::Token(t, _) => t,
        LexItemV::Trivia(..) => TokenV::Null,
    }
}

/// The span of the token at index `i`.
pub open spec fn span_at(its: Seq<LexItemV>, i: int) -> SpanV {
    match its[i] {
        LexItemV::Token(_, sp) => sp,
        LexItemV::Trivia(tv, _) => tv.span,
    }
}

/// The trivia items from `a` up to (not including) `b`.
pub open spec fn trivia_between(its: Seq<LexItemV>, a: int, b: int) -> Seq<(TriviaV, bool)> {
    Seq::new(
        (b - a) as nat,
        |k: int|
            match its[a + k] {
                LexItemV::Trivia(tv, att) => (tv, att),
                LexItemV::Token(_, sp) => (TriviaV { kind: TriviaKindV::BlankLine, span: sp }, false),
            },
    )
}

/// Just the trivia of (trivia, attached) pairs.
pub open spec fn firsts(raw: Seq<(TriviaV, bool)>) -> Seq<TriviaV> {
    raw.map_values(|x: (TriviaV, bool)| x.0)
}

/// After a comma (if the next token is one), else `p` itself.
pub open spec fn skip_comma(its: Seq<LexItemV>, p: int) -> int {
    let j = next_tok(its, p);
    if j < its.len() && tok_at(its, j) is Comma {
        j + 1
    } else {
        p
    }
}

/// A line comment that sat on the same line as the previous statement
/// becomes that statement's trailing comment.
pub open spec fn attach(stmts: Seq<StmtNodeV>, raw: Seq<(TriviaV, bool)>) -> (
    Seq<StmtNodeV>,
    Seq<(TriviaV, bool)>,
) {
    if stmts.len() > 0 && raw.len() > 0 && raw[0].1 && raw[0].0.kind is LineComment {
        let n = stmts.last();
        (
            stmts.update(
                stmts.len() - 1,
                StmtNodeV { leading: n.leading, trailing: Some(raw[0].0), node: n.node, span: n.span },
            ),
            raw.drop_first(),
        )
    } else {
        (stmts, raw)
    }
}

/// Whether two tokens are of the same kind (payload aside).
pub open spec fn same_kind(a: TokenV, b: TokenV) -> bool {
    match (a, b) {
        (TokenV::Ident(_), TokenV::Ident(_)) => true,
        (TokenV::Int(_), TokenV::Int(_)) => true,
        (TokenV::Float(_), TokenV::Float(_)) => true,
        (TokenV::True, TokenV::True) => true,
        (TokenV::False, TokenV::False) => true,
        (TokenV::Null, TokenV::Null) => true,
        (TokenV::Str(_), TokenV::Str(_)) => true,
        (TokenV::LBrace, TokenV::LBrace) => true,
        (TokenV::RBrace, TokenV::RBrace) => true,
        (TokenV::LBracket, TokenV::LBracket) => true,
        (TokenV::RBracket, TokenV::RBracket) => true,
        (TokenV::Comma, TokenV::Comma) => true,
        (TokenV::Dot, TokenV::Dot) => true,
        _ => false,
    }
}

/// The next token, which must be of `want`'s kind (`label` names it in
/// the diagnostic): its index.
pub open spec fn p_expect(
    its: Seq<LexItemV>,
    eof: SpanV,
    pos: int,
    want: TokenV,
    label: Seq<char>,
) -> Result<int, DiagV> {
    let i = next_tok(its, pos);
    if i >= its.len() {
        Err(perr(eof.0, eof.1, "expected "@ + label + ", found end of input"@))
    } else if same_kind(tok_at(its, i), want) {
        Ok(i)
    } else {
        Err(
            perr(
                span_at(its, i).0,
                span_at(its, i).1,
                "expected "@ + label + ", found "@ + kind_name(tok_at(its, i)),
            ),
        )
    }
}

// ---------------------------------------------------------------------
// Expressions
// ---------------------------------------------------------------------

/// The rest of a reference `a.b."c"` after `path` (spanning `start..end`)
/// was read; `pos` is just after the last segment.
pub open spec fn p_ref(
    its: Seq<LexItemV>,
    eof: SpanV,
    pos: int,
    path: Seq<NameV>,
    start: int,
    end: int,
) -> Result<((ExprV, SpanV), int), DiagV>
    decreases its.len() - pos,
{
    let i = next_tok(its, pos);
    if pos < 0 || !(i < its.len() && tok_at(its, i) is Dot) {
        Ok(((ExprV::Ref(RefV { path }), (start, end)), pos))
    } else {
        let j = next_tok(its, i + 1);
        proof {
            lemma_next_tok(its, pos);
            lemma_next_tok(its, i + 1);
        }
        if j >= its.len() {
            Err(perr(eof.0, eof.1, "expected identifier or quoted segment after '.'"@))
        } else {
            let sp = span_at(its, j);
            match tok_at(its, j) {
                TokenV::Ident(name) => p_ref(its, eof, j + 1, path.push((name, sp)), start, sp.1),
                TokenV::Str(lit) => match bare_text_result(lit, sp, "ref segment"@) {
                    Err(d) => Err(d),
                    Ok(t) => p_ref(its, eof, j + 1, path.push((t, sp)), start, sp.1),
                },
                other => Err(
                    perr(
                        sp.0,
                        sp.1,
                        "expected identifier or quoted segment after '.', found "@ + kind_name(
                            other,
                        ),
                    ),
                ),
            }
        }
    }
}

/// The diagnostic that stands for "no progress": never produced (see
/// `lemma_expr_progress`), it only keeps the definitions total.
pub open spec fn stalled() -> DiagV {
    perr(0, 0, Seq::empty())
}

/// An expression starting at the next token at or after `pos`: the
/// expression with its span, and the position after it.
pub open spec fn p_expr(its: Seq<LexItemV>, eof: SpanV, pos: int) -> Result<
    ((ExprV, SpanV), int),
    DiagV,
>
    decreases its.len() - pos, 0int,
{
    let i = next_tok(its, pos);
    if pos < 0 || i >= its.len() {
        Err(perr(eof.0, eof.1, "expected expression, found end of input"@))
    } else {
        proof {
            lemma_next_tok(its, pos);
        }
        let sp = span_at(its, i);
        match tok_at(its, i) {
            TokenV::Int(v) => Ok(((ExprV::Int(v), sp), i + 1)),
            TokenV::Float(t) => Ok(((ExprV::Float(t), sp), i + 1)),
            TokenV::True => Ok(((ExprV::Bool(true), sp), i + 1)),
            TokenV::False => Ok(((ExprV::Bool(false), sp), i + 1)),
            TokenV::Null => Ok(((ExprV::Null, sp), i + 1)),
            TokenV::Str(lit) => Ok(((ExprV::Str(lit), sp), i + 1)),
            TokenV::Ident(name) => p_ref(its, eof, i + 1, seq![(name, sp)], sp.0, sp.1),
            TokenV::LBracket => p_list(its, eof, i + 1, sp.0, Seq::empty()),
            TokenV::LBrace => p_map(its, eof, i + 1, sp.0, Seq::empty()),
            other => Err(perr(sp.0, sp.1, "expected expression, found "@ + kind_name(other))),
        }
    }
}

/// The rest of a list `[ ... ]` opened at `start`, with `items` read.
pub open spec fn p_list(
    its: Seq<LexItemV>,
    eof: SpanV,
    pos: int,
    start: int,
    items: Seq<(ExprV, SpanV)>,
) -> Result<((ExprV, SpanV), int), DiagV>
    decreases its.len() - pos, 1int,
{
    let i = next_tok(its, pos);
    if pos < 0 || i >= its.len() {
        Err(perr(eof.0, eof.1, "unterminated list, expected ']'"@))
    } else if tok_at(its, i) is RBracket {
        Ok(((ExprV::List(items), (start, span_at(its, i).1)), i + 1))
    } else {
        match p_expr(its, eof, pos) {
            Err(d) => Err(d),
            Ok((e, p2)) => {
                let p3 = skip_comma(its, p2);
                if p3 <= pos || p3 > its.len() {
                    Err(stalled())
                } else {
                    p_list(its, eof, p3, start, items.push(e))
                }
            },
        }
    }
}

/// The rest of a map `{ k v, ... }` opened at `start`, with `entries`
/// read.
pub open spec fn p_map(
    its: Seq<LexItemV>,
    eof: SpanV,
    pos: int,
    start: int,
    entries: Seq<MapEntryV>,
) -> Result<((ExprV, SpanV), int), DiagV>
    decreases its.len() - pos, 1int,
{
    let i = next_tok(its, pos);
    if pos < 0 || i >= its.len() {
        Err(perr(eof.0, eof.1, "unterminated map, expected '}'"@))
    } else if tok_at(its, i) is RBrace {
        Ok(((ExprV::Mapping(entries), (start, span_at(its, i).1)), i + 1))
    } else {
        proof {
            lemma_next_tok(its, pos);
        }
        let ksp = span_at(its, i);
        match tok_at(its, i) {
            TokenV::Ident(name) => match p_expr(its, eof, i + 1) {
                Err(d) => Err(d),
                Ok((v, p2)) => {
                    let p3 = skip_comma(its, p2);
                    if p3 <= pos || p3 > its.len() {
                        Err(stalled())
                    } else {
                        p_map(
                            its,
                            eof,
                            p3,
                            start,
                            entries.push(MapEntryV { key: (name, ksp), value: v }),
                        )
                    }
                },
            },
            other => Err(
                perr(ksp.0, ksp.1, "expected identifier as map key, found "@ + kind_name(other)),
            ),
        }
    }
}

// ---------------------------------------------------------------------
// Statements
// ---------------------------------------------------------------------

/// A statement whose first token is the next one at or after `pos`.
pub open spec fn p_stmt(its: Seq<LexItemV>, eof: SpanV, pos: int) -> Result<
    ((StmtV, SpanV), int),
    DiagV,
>
    decreases its.len() - pos, 0int,
{
    let i = next_tok(its, pos);
    if pos < 0 || i >= its.len() {
        Err(perr(eof.0, eof.1, "expected statement, found end of input"@))
    } else {
        proof {
            lemma_next_tok(its, pos);
        }
        let ksp = span_at(its, i);
        match tok_at(its, i) {
            TokenV::Ident(name) => {
                let key = (name, ksp);
                let j = next_tok(its, i + 1);
                proof {
                    lemma_next_tok(its, i + 1);
                }
                if j >= its.len() {
                    Err(
                        perr(
                            eof.0,
                            eof.1,
                            "expected value or '{' after identifier, found end of input"@,
                        ),
                    )
                } else {
                    let vsp = span_at(its, j);
                    match tok_at(its, j) {
                        TokenV::LBrace => p_block_open(its, eof, i + 1, key, None),
                        TokenV::Str(lit) => {
                            let k = next_tok(its, j + 1);
                            if k < its.len() && tok_at(its, k) is LBrace {
                                match bare_text_result(lit, vsp, "block label"@) {
                                    Err(d) => Err(d),
                                    Ok(t) => p_block_open(its, eof, j + 1, key, Some((t, vsp))),
                                }
                            } else {
                                Ok(
                                    (
                                        (
                                            StmtV::Assign(
                                                AssignV { key, value: (ExprV::Str(lit), vsp) },
                                            ),
                                            (ksp.0, vsp.1),
                                        ),
                                        j + 1,
                                    ),
                                )
                            }
                        },
                        _ => match p_expr(its, eof, i + 1) {
                            Err(d) => Err(d),
                            Ok((v, p2)) => Ok(
                                ((StmtV::Assign(AssignV { key, value: v }), (ksp.0, v.1.1)), p2),
                            ),
                        },
                    }
                }
            },
            other => Err(
                perr(
                    ksp.0,
                    ksp.1,
                    "expected identifier at start of statement, found "@ + kind_name(other),
                ),
            ),
        }
    }
}

/// A block body `{ ... }` for the block named `kind` (and `label`),
/// whose `{` is the next token at or after `pos`.
pub open spec fn p_block_open(
    its: Seq<LexItemV>,
    eof: SpanV,
    pos: int,
    kind: NameV,
    label: Option<NameV>,
) -> Result<((StmtV, SpanV), int), DiagV>
    decreases its.len() - pos, 0int,
{
    match p_expect(its, eof, pos, TokenV::LBrace, "'{'"@) {
        Err(d) => Err(d),
        Ok(i) => {
            proof {
                lemma_next_tok(its, pos);
            }
            if pos < 0 || i >= its.len() {
                Err(stalled())
            } else {
                p_block_items(its, eof, i + 1, kind, label, Seq::empty(), span_at(its, i))
            }
        },
    }
}

/// The statements of a block from `pos`, with `stmts` read; `lb` is the
/// span of the opening brace.
pub open spec fn p_block_items(
    its: Seq<LexItemV>,
    eof: SpanV,
    pos: int,
    kind: NameV,
    label: Option<NameV>,
    stmts: Seq<StmtNodeV>,
    lb: SpanV,
) -> Result<((StmtV, SpanV), int), DiagV>
    decreases its.len() - pos, 1int,
{
    let t = next_tok(its, pos);
    let raw = trivia_between(its, pos, t);
    let (stmts2, raw2) = attach(stmts, raw);
    if pos < 0 || t >= its.len() {
        Err(perr(lb.0, lb.1, "unterminated block body, expected '}'"@))
    } else if tok_at(its, t) is RBrace {
        Ok(
            (
                (
                    StmtV::Block(
                        BlockV { kind, label, stmts: stmts2, trailing_trivia: firsts(raw2) },
                    ),
                    (kind.1.0, span_at(its, t).1),
                ),
                t + 1,
            ),
        )
    } else {
        proof {
            lemma_next_tok(its, pos);
        }
        match p_stmt(its, eof, t) {
            Err(d) => Err(d),
            Ok(((st, sp), p2)) => {
                let node = StmtNodeV { leading: firsts(raw2), trailing: None, node: st, span: sp };
                let p3 = skip_comma(its, p2);
                if p3 <= pos || p3 > its.len() {
                    Err(stalled())
                } else {
                    p_block_items(its, eof, p3, kind, label, stmts2.push(node), lb)
                }
            },
        }
    }
}

// ---------------------------------------------------------------------
// Files
// ---------------------------------------------------------------------

/// The statements of a file from `pos`, with `stmts` read.
pub open spec fn p_file(its: Seq<LexItemV>, eof: SpanV, pos: int, stmts: Seq<StmtNodeV>) -> Result<
    FileV,
    DiagV,
>
    decreases its.len() - pos,
{
    let t = next_tok(its, pos);
    let raw = trivia_between(its, pos, t);
    let (stmts2, raw2) = attach(stmts, raw);
    if pos < 0 || t >= its.len() {
        Ok(FileV { stmts: stmts2, trailing_trivia: firsts(raw2) })
    } else {
        match p_stmt(its, eof, t) {
            Err(d) => Err(d),
            Ok(((st, sp), p2)) => {
                let node = StmtNodeV { leading: firsts(raw2), trailing: None, node: st, span: sp };
                if p2 <= pos || p2 > its.len() {
                    Err(stalled())
                } else {
                    p_file(its, eof, p2, stmts2.push(node))
                }
            },
        }
    }
}

/// What `parse_tokens` gives for the items `its`, with `eof` the span
/// reported for a missing token at the end.
pub open spec fn spec_parse_tokens(its: Seq<LexItemV>, eof: SpanV) -> Result<FileV, DiagV> {
    p_file(its, eof, 0, Seq::empty())
}

/// The brace depth after the token `t`.
pub open spec fn depth_after(t: TokenV, depth: nat) -> nat {
    match t {
        TokenV::LBrace => depth + 1,
        TokenV::RBrace => if depth > 0 {
            (depth - 1) as nat
        } else {
            0
        },
        _ => depth,
    }
}

/// Where parsing resumes after a failed statement that started at
/// `first`: the next identifier past `first` at brace depth 0, counting
/// braces from `first` on (or the end of the items).
pub open spec fn sync_from(its: Seq<LexItemV>, pos: int, depth: nat, first: int) -> int
    decreases its.len() - pos,
{
    let k = next_tok(its, pos);
    if pos < 0 || k >= its.len() {
        its.len() as int
    } else if k > first && depth == 0 && tok_at(its, k) is Ident {
        k
    } else {
        proof {
            lemma_next_tok(its, pos);
        }
        sync_from(its, k + 1, depth_after(tok_at(its, k), depth), first)
    }
}

pub proof fn lemma_sync_from(its: Seq<LexItemV>, pos: int, depth: nat, first: int)
    requires
        0 <= first <= pos,
    ensures
        first < sync_from(its, pos, depth, first) <= its.len() || sync_from(its, pos, depth, first)
            == its.len(),
        sync_from(its, pos, depth, first) <= its.len(),
    decreases its.len() - pos,
{
    lemma_next_tok(its, pos);
    let k = next_tok(its, pos);
    if k < its.len() && !(k > first && depth == 0 && tok_at(its, k) is Ident) {
        lemma_sync_from(its, k + 1, depth_after(tok_at(its, k), depth), first);
    }
}

/// The statements of a file from `pos`, skipping failed statements:
/// the file so far (`stmts`) and every diagnostic so far (`diags`).
pub open spec fn p_file_recover(
    its: Seq<LexItemV>,
    eof: SpanV,
    pos: int,
    stmts: Seq<StmtNodeV>,
    diags: Seq<DiagV>,
) -> (FileV, Seq<DiagV>)
    decreases its.len() - pos,
{
    let t = next_tok(its, pos);
    let raw = trivia_between(its, pos, t);
    let (stmts2, raw2) = attach(stmts, raw);
    if pos < 0 || t >= its.len() {
        (FileV { stmts: stmts2, trailing_trivia: firsts(raw2) }, diags)
    } else {
        proof {
            lemma_next_tok(its, pos);
        }
        match p_stmt(its, eof, t) {
            Err(d) => {
                let r = sync_from(its, t, 0, t);
                proof {
                    lemma_sync_from(its, t, 0, t);
                }
                p_file_recover(its, eof, r, stmts2, diags.push(d))
            },
            Ok(((st, sp), p2)) => {
                let node = StmtNodeV { leading: firsts(raw2), trailing: None, node: st, span: sp };
                if p2 <= pos || p2 > its.len() {
                    (FileV { stmts: stmts2, trailing_trivia: Seq::empty() }, diags.push(stalled()))
                } else {
                    p_file_recover(its, eof, p2, stmts2.push(node), diags)
                }
            },
        }
    }
}

/// What `parse_tokens_with_recovery` gives for the items `its`.
pub open spec fn spec_parse_tokens_recover(its: Seq<LexItemV>, eof: SpanV) -> (FileV, Seq<DiagV>) {
    p_file_recover(its, eof, 0, Seq::empty(), Seq::empty())
}


// ---------------------------------------------------------------------
// Progress: every successful parse consumes at least one token
// ---------------------------------------------------------------------

pub proof fn lemma_skip_comma(its: Seq<LexItemV>, p: int)
    requires
        0 <= p <= its.len(),
    ensures
        p <= skip_comma(its, p) <= its.len(),
{
    lemma_next_tok(its, p);
}

pub proof fn lemma_ref_progress(
    its: Seq<LexItemV>,
    eof: SpanV,
    pos: int,
    path: Seq<NameV>,
    start: int,
    end: int,
)
    requires
        0 <= pos <= its.len(),
    ensures
        p_ref(its, eof, pos, path, start, end) matches Ok((e, p)) ==> pos <= p <= its.len(),
    decreases its.len() - pos,
{
    lemma_next_tok(its, pos);
    let i = next_tok(its, pos);
    if i < its.len() && tok_at(its, i) is Dot {
        lemma_next_tok(its, i + 1);
        let j = next_tok(its, i + 1);
        if j < its.len() {
            let sp = span_at(its, j);
            match tok_at(its, j) {
                TokenV::Ident(name) => {
                    lemma_ref_progress(its, eof, j + 1, path.push((name, sp)), start, sp.1);
                },
                TokenV::Str(lit) => {
                    if let Ok(t) = bare_text_result(lit, sp, "ref segment"@) {
                        lemma_ref_progress(its, eof, j + 1, path.push((t, sp)), start, sp.1);
                    }
                },
                _ => {},
            }
        }
    }
}

pub proof fn lemma_expr_progress(its: Seq<LexItemV>, eof: SpanV, pos: int)
    requires
        0 <= pos <= its.len(),
    ensures
        p_expr(its, eof, pos) matches Ok((e, p)) ==> pos < p <= its.len(),
    decreases its.len() - pos, 0int,
{
    lemma_next_tok(its, pos);
    let i = next_tok(its, pos);
    if i < its.len() {
        let sp = span_at(its, i);
        match tok_at(its, i) {
            TokenV::Ident(name) => {
                lemma_ref_progress(its, eof, i + 1, seq![(name, sp)], sp.0, sp.1);
            },
            TokenV::LBracket => {
                lemma_list_progress(its, eof, i + 1, sp.0, Seq::empty());
            },
            TokenV::LBrace => {
                lemma_map_progress(its, eof, i + 1, sp.0, Seq::empty());
            },
            _ => {},
        }
    }
}

pub proof fn lemma_list_progress(
    its: Seq<LexItemV>,
    eof: SpanV,
    pos: int,
    start: int,
    items: Seq<(ExprV, SpanV)>,
)
    requires
        0 <= pos <= its.len(),
    ensures
        p_list(its, eof, pos, start, items) matches Ok((e, p)) ==> pos < p <= its.len(),
    decreases its.len() - pos, 1int,
{
    lemma_next_tok(its, pos);
    let i = next_tok(its, pos);
    if i < its.len() && !(tok_at(its, i) is RBracket) {
        lemma_expr_progress(its, eof, pos);
        if let Ok((e, p2)) = p_expr(its, eof, pos) {
            lemma_skip_comma(its, p2);
            let p3 = skip_comma(its, p2);
            lemma_list_progress(its, eof, p3, start, items.push(e));
        }
    }
}

pub proof fn lemma_map_progress(
    its: Seq<LexItemV>,
    eof: SpanV,
    pos: int,
    start: int,
    entries: Seq<MapEntryV>,
)
    requires
        0 <= pos <= its.len(),
    ensures
        p_map(its, eof, pos, start, entries) matches Ok((e, p)) ==> pos < p <= its.len(),
    decreases its.len() - pos, 1int,
{
    lemma_next_tok(its, pos);
    let i = next_tok(its, pos);
    if i < its.len() && !(tok_at(its, i) is RBrace) {
        if let TokenV::Ident(name) = tok_at(its, i) {
            lemma_expr_progress(its, eof, i + 1);
            if let Ok((v, p2)) = p_expr(its, eof, i + 1) {
                lemma_skip_comma(its, p2);
                let p3 = skip_comma(its, p2);
                lemma_map_progress(
                    its,
                    eof,
                    p3,
                    start,
                    entries.push(MapEntryV { key: (name, span_at(its, i)), value: v }),
                );
            }
        }
    }
}

pub proof fn lemma_stmt_progress(its: Seq<LexItemV>, eof: SpanV, pos: int)
    requires
        0 <= pos <= its.len(),
    ensures
        p_stmt(its, eof, pos) matches Ok((st, p)) ==> pos < p <= its.len(),
    decreases its.len() - pos, 0int,
{
    lemma_next_tok(its, pos);
    let i = next_tok(its, pos);
    if i < its.len() {
        if let TokenV::Ident(name) = tok_at(its, i) {
            let key = (name, span_at(its, i));
            lemma_next_tok(its, i + 1);
            let j = next_tok(its, i + 1);
            if j < its.len() {
                let vsp = span_at(its, j);
                match tok_at(its, j) {
                    TokenV::LBrace => {
                        lemma_block_open_progress(its, eof, i + 1, key, None);
                    },
                    TokenV::Str(lit) => {
                        if let Ok(t) = bare_text_result(lit, vsp, "block label"@) {
                            lemma_block_open_progress(its, eof, j + 1, key, Some((t, vsp)));
                        }
                    },
                    _ => {
                        lemma_expr_progress(its, eof, i + 1);
                    },
                }
            }
        }
    }
}

pub proof fn lemma_block_open_progress(
    its: Seq<LexItemV>,
    eof: SpanV,
    pos: int,
    kind: NameV,
    label: Option<NameV>,
)
    requires
        0 <= pos <= its.len(),
    ensures
        p_block_open(its, eof, pos, kind, label) matches Ok((st, p)) ==> pos < p <= its.len(),
    decreases its.len() - pos, 0int,
{
    lemma_next_tok(its, pos);
    if let Ok(i) = p_expect(its, eof, pos, TokenV::LBrace, "'{'"@) {
        if i < its.len() {
            lemma_block_items_progress(its, eof, i + 1, kind, label, Seq::empty(), span_at(its, i));
        }
    }
}

pub proof fn lemma_block_items_progress(
    its: Seq<LexItemV>,
    eof: SpanV,
    pos: int,
    kind: NameV,
    label: Option<NameV>,
    stmts: Seq<StmtNodeV>,
    lb: SpanV,
)
    requires
        0 <= pos <= its.len(),
    ensures
        p_block_items(its, eof, pos, kind, label, stmts, lb) matches Ok((st, p)) ==> pos < p
            <= its.len(),
    decreases its.len() - pos, 1int,
{
    lemma_next_tok(its, pos);
    let t = next_tok(its, pos);
    if t < its.len() && !(tok_at(its, t) is RBrace) {
        lemma_stmt_progress(its, eof, t);
        let raw = trivia_between(its, pos, t);
        let (stmts2, raw2) = attach(stmts, raw);
        if let Ok(((st, sp), p2)) = p_stmt(its, eof, t) {
            lemma_skip_comma(its, p2);
            let p3 = skip_comma(its, p2);
            let node = StmtNodeV { leading: firsts(raw2), trailing: None, node: st, span: sp };
            lemma_block_items_progress(its, eof, p3, kind, label, stmts2.push(node), lb);
        }
    }
}

// ---------------------------------------------------------------------
// Every parser diagnostic is a parse error
// ---------------------------------------------------------------------

/// Whether `sp` is the span of one of the tokens of `its`, the span
/// `eof`, or the empty span at 0.
pub open spec fn from_items(its: Seq<LexItemV>, eof: SpanV, sp: SpanV) -> bool {
    ||| sp == eof
    ||| sp == (0int, 0int)
    ||| exists|i: int| 0 <= i < its.len() && its[i] is Token && #[trigger] span_at(its, i) == sp
}

proof fn lemma_ref_errors(
    its: Seq<LexItemV>,
    eof: SpanV,
    pos: int,
    path: Seq<NameV>,
    start: int,
    end: int,
)
    requires
        0 <= pos,
    ensures
        p_ref(its, eof, pos, path, start, end) matches Err(d) ==> is_parse_error(d) && from_items(its, eof, d.span),
    decreases its.len() - pos,
{
    lemma_next_tok(its, pos);
    let i = next_tok(its, pos);
    if i < its.len() && tok_at(its, i) is Dot {
        lemma_next_tok(its, i + 1);
        let j = next_tok(its, i + 1);
        if j < its.len() {
            let sp = span_at(its, j);
            match tok_at(its, j) {
                TokenV::Ident(name) => {
                    lemma_ref_errors(its, eof, j + 1, path.push((name, sp)), start, sp.1);
                },
                TokenV::Str(lit) => {
                    if let Ok(t) = bare_text_result(lit, sp, "ref segment"@) {
                        lemma_ref_errors(its, eof, j + 1, path.push((t, sp)), start, sp.1);
                    }
                },
                _ => {},
            }
        }
    }
}

proof fn lemma_expr_errors(its: Seq<LexItemV>, eof: SpanV, pos: int)
    requires
        0 <= pos,
    ensures
        p_expr(its, eof, pos) matches Err(d) ==> is_parse_error(d) && from_items(its, eof, d.span),
    decreases its.len() - pos, 0int,
{
    lemma_next_tok(its, pos);
    let i = next_tok(its, pos);
    if i < its.len() {
        let sp = span_at(its, i);
        match tok_at(its, i) {
            TokenV::Ident(name) => {
                lemma_ref_errors(its, eof, i + 1, seq![(name, sp)], sp.0, sp.1);
            },
            TokenV::LBracket => {
                lemma_list_errors(its, eof, i + 1, sp.0, Seq::empty());
            },
            TokenV::LBrace => {
                lemma_map_errors(its, eof, i + 1, sp.0, Seq::empty());
            },
            _ => {},
        }
    }
}

proof fn lemma_list_errors(
    its: Seq<LexItemV>,
    eof: SpanV,
    pos: int,
    start: int,
    items: Seq<(ExprV, SpanV)>,
)
    requires
        0 <= pos,
    ensures
        p_list(its, eof, pos, start, items) matches Err(d) ==> is_parse_error(d) && from_items(its, eof, d.span),
    decreases its.len() - pos, 1int,
{
    let i = next_tok(its, pos);
    if i < its.len() && !(tok_at(its, i) is RBracket) {
        lemma_expr_errors(its, eof, pos);
        if let Ok((e, p2)) = p_expr(its, eof, pos) {
            let p3 = skip_comma(its, p2);
            if pos < p3 <= its.len() {
                lemma_list_errors(its, eof, p3, start, items.push(e));
            }
        }
    }
}

proof fn lemma_map_errors(
    its: Seq<LexItemV>,
    eof: SpanV,
    pos: int,
    start: int,
    entries: Seq<MapEntryV>,
)
    requires
        0 <= pos,
    ensures
        p_map(its, eof, pos, start, entries) matches Err(d) ==> is_parse_error(d) && from_items(its, eof, d.span),
    decreases its.len() - pos, 1int,
{
    lemma_next_tok(its, pos);
    let i = next_tok(its, pos);
    if i < its.len() && !(tok_at(its, i) is RBrace) {
        if let TokenV::Ident(name) = tok_at(its, i) {
            lemma_expr_errors(its, eof, i + 1);
            if let Ok((v, p2)) = p_expr(its, eof, i + 1) {
                let p3 = skip_comma(its, p2);
                if pos < p3 <= its.len() {
                    lemma_map_errors(
                        its,
                        eof,
                        p3,
                        start,
                        entries.push(MapEntryV { key: (name, span_at(its, i)), value: v }),
                    );
                }
            }
        }
    }
}

proof fn lemma_stmt_errors(its: Seq<LexItemV>, eof: SpanV, pos: int)
    requires
        0 <= pos,
    ensures
        p_stmt(its, eof, pos) matches Err(d) ==> is_parse_error(d) && from_items(its, eof, d.span),
    decreases its.len() - pos, 0int,
{
    lemma_next_tok(its, pos);
    let i = next_tok(its, pos);
    if i < its.len() {
        if let TokenV::Ident(name) = tok_at(its, i) {
            let key = (name, span_at(its, i));
            lemma_next_tok(its, i + 1);
            let j = next_tok(its, i + 1);
            if j < its.len() {
                let vsp = span_at(its, j);
                match tok_at(its, j) {
                    TokenV::LBrace => {
                        lemma_block_open_errors(its, eof, i + 1, key, None);
                    },
                    TokenV::Str(lit) => {
                        if let Ok(t) = bare_text_result(lit, vsp, "block label"@) {
                            lemma_block_open_errors(its, eof, j + 1, key, Some((t, vsp)));
                        }
                    },
                    _ => {
                        lemma_expr_errors(its, eof, i + 1);
                    },
                }
            }
        }
    }
}

proof fn lemma_block_open_errors(
    its: Seq<LexItemV>,
    eof: SpanV,
    pos: int,
    kind: NameV,
    label: Option<NameV>,
)
    requires
        0 <= pos,
    ensures
        p_block_open(its, eof, pos, kind, label) matches Err(d) ==> is_parse_error(d) && from_items(its, eof, d.span),
    decreases its.len() - pos, 0int,
{
    lemma_next_tok(its, pos);
    if let Ok(i) = p_expect(its, eof, pos, TokenV::LBrace, "'{'"@) {
        if i < its.len() {
            lemma_block_items_errors(its, eof, i + 1, kind, label, Seq::empty(), span_at(its, i));
        }
    }
}

proof fn lemma_block_items_errors(
    its: Seq<LexItemV>,
    eof: SpanV,
    pos: int,
    kind: NameV,
    label: Option<NameV>,
    stmts: Seq<StmtNodeV>,
    lb: SpanV,
)
    requires
        0 <= pos,
        from_items(its, eof, lb),
    ensures
        p_block_items(its, eof, pos, kind, label, stmts, lb) matches Err(d) ==> is_parse_error(d) && from_items(its, eof, d.span),
    decreases its.len() - pos, 1int,
{
    lemma_next_tok(its, pos);
    let t = next_tok(its, pos);
    if t < its.len() && !(tok_at(its, t) is RBrace) {
        lemma_stmt_errors(its, eof, t);
        let raw = trivia_between(its, pos, t);
        let (stmts2, raw2) = attach(stmts, raw);
        if let Ok(((st, sp), p2)) = p_stmt(its, eof, t) {
            let p3 = skip_comma(its, p2);
            let node = StmtNodeV { leading: firsts(raw2), trailing: None, node: st, span: sp };
            if pos < p3 <= its.len() {
                lemma_block_items_errors(its, eof, p3, kind, label, stmts2.push(node), lb);
            }
        }
    }
}

/// Every diagnostic of the fail-fast parser is a parse error.
pub proof fn lemma_file_errors(its: Seq<LexItemV>, eof: SpanV, pos: int, stmts: Seq<StmtNodeV>)
    requires
        0 <= pos,
    ensures
        p_file(its, eof, pos, stmts) matches Err(d) ==> is_parse_error(d) && from_items(its, eof, d.span),
    decreases its.len() - pos,
{
    lemma_next_tok(its, pos);
    let t = next_tok(its, pos);
    if t < its.len() {
        lemma_stmt_errors(its, eof, t);
        let raw = trivia_between(its, pos, t);
        let (stmts2, raw2) = attach(stmts, raw);
        if let Ok(((st, sp), p2)) = p_stmt(its, eof, t) {
            let node = StmtNodeV { leading: firsts(raw2), trailing: None, node: st, span: sp };
            if pos < p2 <= its.len() {
                lemma_file_errors(its, eof, p2, stmts2.push(node));
            }
        }
    }
}

/// Every diagnostic of the recovering parser is a parse error.
pub proof fn lemma_file_recover_errors(
    its: Seq<LexItemV>,
    eof: SpanV,
    pos: int,
    stmts: Seq<StmtNodeV>,
    diags: Seq<DiagV>,
)
    requires
        0 <= pos,
        forall|k: int|
            0 <= k < diags.len() ==> is_parse_error(#[trigger] diags[k]) && from_items(
                its,
                eof,
                diags[k].span,
            ),
    ensures
        forall|k: int|
            0 <= k < p_file_recover(its, eof, pos, stmts, diags).1.len() ==> is_parse_error(
                #[trigger] p_file_recover(its, eof, pos, stmts, diags).1[k],
            ) && from_items(its, eof, p_file_recover(its, eof, pos, stmts, diags).1[k].span),
    decreases its.len() - pos,
{
    lemma_next_tok(its, pos);
    let t = next_tok(its, pos);
    if t < its.len() {
        lemma_stmt_errors(its, eof, t);
        let raw = trivia_between(its, pos, t);
        let (stmts2, raw2) = attach(stmts, raw);
        match p_stmt(its, eof, t) {
            Err(d) => {
                lemma_sync_from(its, t, 0, t);
                let r = sync_from(its, t, 0, t);
                assert(forall|k: int|
                    0 <= k < diags.push(d).len() ==> is_parse_error(#[trigger] diags.push(d)[k])
                        && from_items(its, eof, diags.push(d)[k].span));
                lemma_file_recover_errors(its, eof, r, stmts2, diags.push(d));
                assert(p_file_recover(its, eof, pos, stmts, diags) == p_file_recover(
                    its,
                    eof,
                    r,
                    stmts2,
                    diags.push(d),
                ));
            },
            Ok(((st, sp), p2)) => {
                let node = StmtNodeV { leading: firsts(raw2), trailing: None, node: st, span: sp };
                if pos < p2 <= its.len() {
                    lemma_file_recover_errors(its, eof, p2, stmts2.push(node), diags);
                    assert(p_file_recover(its, eof, pos, stmts, diags) == p_file_recover(
                        its,
                        eof,
                        p2,
                        stmts2.push(node),
                        diags,
                    ));
                } else {
                    assert(forall|k: int|
                        0 <= k < diags.push(stalled()).len() ==> is_parse_error(
                            #[trigger] diags.push(stalled())[k],
                        ) && from_items(its, eof, diags.push(stalled())[k].span));
                }
            },
        }
    }
}

// ---------------------------------------------------------------------
// Where recovery resumes
// ---------------------------------------------------------------------

/// The brace depth after the tokens of `its[a..b]`, counted from 0: a
/// `{` opens a level, a `}` closes one (never below 0).
pub open spec fn brace_depth(its: Seq<LexItemV>, a: int, b: int) -> nat
    decreases b - a,
{
    if b <= a {
        0
    } else {
        let d = brace_depth(its, a, b - 1);
        match its[b - 1] {
            LexItemV::Token(TokenV::LBrace, _) => d + 1,
            LexItemV::Token(TokenV::RBrace, _) => if d == 0 {
                0
            } else {
                (d - 1) as nat
            },
            _ => d,
        }
    }
}

/// Whether `its[k]` is an identifier token.
pub open spec fn is_ident_at(its: Seq<LexItemV>, k: int) -> bool {
    its[k] matches LexItemV::Token(TokenV::Ident(_), _)
}

proof fn lemma_sync_resumes(its: Seq<LexItemV>, pos: int, depth: nat, first: int)
    requires
        0 <= first < pos <= its.len(),
        depth == brace_depth(its, first, pos),
        forall|k: int|
            first < k < pos && #[trigger] is_ident_at(its, k) ==> brace_depth(its, first, k) != 0,
    ensures
        ({
            let r = sync_from(its, pos, depth, first);
            &&& pos <= r <= its.len()
            &&& r < its.len() ==> is_ident_at(its, r) && brace_depth(its, first, r) == 0
            &&& forall|k: int|
                first < k < r && #[trigger] is_ident_at(its, k) ==> brace_depth(its, first, k) != 0
        }),
    decreases its.len() - pos,
{
    lemma_next_tok(its, pos);
    let k = next_tok(its, pos);
    assert forall|j: int| pos <= j <= k implies brace_depth(its, first, j) == depth by {
        lemma_depth_over_trivia(its, first, pos, j);
    }
    if k < its.len() {
        let step = depth_after(tok_at(its, k), depth);
        lemma_depth_step(its, first, k);
        if !(k > first && depth == 0 && tok_at(its, k) is Ident) {
            lemma_sync_resumes(its, k + 1, step, first);
        }
    }
}

proof fn lemma_depth_step(its: Seq<LexItemV>, first: int, k: int)
    requires
        first <= k < its.len(),
        its[k] is Token,
    ensures
        brace_depth(its, first, k + 1) == depth_after(tok_at(its, k), brace_depth(its, first, k)),
{
    let d = brace_depth(its, first, k);
    if let LexItemV::Token(tk, sp) = its[k] {
        match tk {
            TokenV::LBrace => {},
            TokenV::RBrace => {},
            _ => {},
        }
    }
}

proof fn lemma_depth_over_trivia(its: Seq<LexItemV>, first: int, pos: int, j: int)
    requires
        first <= pos <= j <= its.len(),
        forall|i: int| pos <= i < j ==> !(#[trigger] its[i] is Token),
    ensures
        brace_depth(its, first, j) == brace_depth(its, first, pos),
    decreases j - pos,
{
    if j > pos {
        lemma_depth_over_trivia(its, first, pos, j - 1);
    }
}

/// After a top-level statement that failed at its first token `t`,
/// recovery resumes at the first identifier after it whose brace depth,
/// counted from `t`, is zero (or at the end): no token inside the failed
/// statement's braces starts a new statement.
pub proof fn law_recovery_resumes_at_depth_zero(its: Seq<LexItemV>, t: int)
    requires
        0 <= t < its.len(),
        its[t] is Token,
    ensures
        ({
            let r = sync_from(its, t, 0, t);
            &&& t < r <= its.len()
            &&& r < its.len() ==> is_ident_at(its, r) && brace_depth(its, t, r) == 0
            &&& forall|k: int|
                t < k < r && #[trigger] is_ident_at(its, k) ==> brace_depth(its, t, k) != 0
        }),
{
    lemma_next_tok(its, t);
    assert(next_tok(its, t) == t);
    let step = depth_after(tok_at(its, t), 0);
    lemma_depth_step(its, t, t);
    lemma_sync_resumes(its, t + 1, step, t);
}

// ---------------------------------------------------------------------
// Commas between items are optional
// ---------------------------------------------------------------------

/// Whether the next token at or after `p` is a comma.
pub open spec fn comma_next(its: Seq<LexItemV>, p: int) -> bool {
    next_tok(its, p) < its.len() && tok_at(its, next_tok(its, p)) is Comma
}

/// Inside a block, a comma right after a statement is passed over: the
/// block reads on after the comma, with that statement kept.
pub proof fn law_block_comma_tolerated(
    its: Seq<LexItemV>,
    eof: SpanV,
    pos: int,
    kind: NameV,
    label: Option<NameV>,
    stmts: Seq<StmtNodeV>,
    lb: SpanV,
)
    requires
        0 <= pos,
        next_tok(its, pos) < its.len(),
        !(tok_at(its, next_tok(its, pos)) is RBrace),
        p_stmt(its, eof, next_tok(its, pos)) matches Ok((x, p2)) && comma_next(its, p2),
    ensures
        ({
            let t = next_tok(its, pos);
            let (stmts2, raw2) = attach(stmts, trivia_between(its, pos, t));
            let ((st, sp), p2) = p_stmt(its, eof, t)->Ok_0;
            let node = StmtNodeV { leading: firsts(raw2), trailing: None, node: st, span: sp };
            p_block_items(its, eof, pos, kind, label, stmts, lb) == p_block_items(
                its,
                eof,
                next_tok(its, p2) + 1,
                kind,
                label,
                stmts2.push(node),
                lb,
            )
        }),
{
    let t = next_tok(its, pos);
    lemma_next_tok(its, pos);
    lemma_stmt_progress(its, eof, t);
    let p2 = p_stmt(its, eof, t)->Ok_0.1;
    lemma_next_tok(its, p2);
}

/// Inside a list, a comma right after an item is passed over.
pub proof fn law_list_comma_tolerated(
    its: Seq<LexItemV>,
    eof: SpanV,
    pos: int,
    start: int,
    items: Seq<(ExprV, SpanV)>,
)
    requires
        0 <= pos,
        next_tok(its, pos) < its.len(),
        !(tok_at(its, next_tok(its, pos)) is RBracket),
        p_expr(its, eof, pos) matches Ok((e, p2)) && comma_next(its, p2),
    ensures
        ({
            let (e, p2) = p_expr(its, eof, pos)->Ok_0;
            p_list(its, eof, pos, start, items) == p_list(
                its,
                eof,
                next_tok(its, p2) + 1,
                start,
                items.push(e),
            )
        }),
{
    lemma_next_tok(its, pos);
    lemma_expr_progress(its, eof, pos);
    let p2 = p_expr(its, eof, pos)->Ok_0.1;
    lemma_next_tok(its, p2);
}

/// Inside a map, a comma right after an entry is passed over.
pub proof fn law_map_comma_tolerated(
    its: Seq<LexItemV>,
    eof: SpanV,
    pos: int,
    start: int,
    entries: Seq<MapEntryV>,
)
    requires
        0 <= pos,
        next_tok(its, pos) < its.len(),
        tok_at(its, next_tok(its, pos)) is Ident,
        p_expr(its, eof, next_tok(its, pos) + 1) matches Ok((v, p2)) && comma_next(its, p2),
    ensures
        ({
            let i = next_tok(its, pos);
            let (v, p2) = p_expr(its, eof, i + 1)->Ok_0;
            p_map(its, eof, pos, start, entries) == p_map(
                its,
                eof,
                next_tok(its, p2) + 1,
                start,
                entries.push(MapEntryV { key: (tok_at(its, i)->Ident_0, span_at(its, i)), value: v }),
            )
        }),
{
    let i = next_tok(its, pos);
    lemma_next_tok(its, pos);
    lemma_expr_progress(its, eof, i + 1);
    let p2 = p_expr(its, eof, i + 1)->Ok_0.1;
    lemma_next_tok(its, p2);
}

} // verus!
