//! Reusable DSL parser for the `standar*` ecosystem.
//!
//! The DSL grammar supports nested blocks, arrays, scalar literals, and
//! interpolated strings. The parser is consumer-agnostic: it produces a
//! generic [`ast::File`] tree; downstream crates lower it into their own
//! typed schemas.
pub mod diag;
pub mod text;
pub mod ast;
pub mod lexer_spec;
pub mod lexer;
pub mod parser_spec;
pub mod parser;
pub mod conversion;
pub mod schema;
pub mod lsp;
pub mod grammar;
pub mod json;
pub mod textmate;
pub mod lang_config;

pub use ast::{File, Stmt};
pub use diag::{Diag, DiagKind, Severity, Span, Spanned};

use ast::{FileV, StmtNode, Trivia};
use diag::{is_parse_error, DiagV, SpanV};
use lexer::{items_v, tokenize};
use lexer_spec::{
    lemma_end_boundary, lemma_next_token_advances, lemma_tokens_count, lemma_tokens_errors, lemma_tokens_spans, span_within,
    spec_next_token, spec_tokenize, tokens_within, LexItemV,
};
use parser::{parse_tokens, parse_tokens_with_recovery};
use parser_spec::{
    attach, firsts, from_items, lemma_file_errors, lemma_file_recover_errors, lemma_next_tok,
    lemma_stmt_progress, lemma_sync_from, next_tok, p_file, p_file_recover, p_stmt,
    span_at, spec_parse_tokens, spec_parse_tokens_recover, sync_from, trivia_between,
};
use vstd::prelude::*;
use vstd::string::StringSliceAdditionalSpecFns;
use vstd::utf8::*;

verus! {

/// The span reported for a token missing at the end of `s`.
pub open spec fn eof_span(s: Seq<u8>) -> SpanV {
    (s.len() as int, s.len() as int)
}

/// What `parse` gives for the source bytes `s`.
pub open spec fn spec_parse(s: Seq<u8>) -> Result<FileV, DiagV> {
    match spec_tokenize(s) {
        Err(d) => Err(d),
        Ok(items) => spec_parse_tokens(items, eof_span(s)),
    }
}

/// What `parse_with_recovery` gives for the source bytes `s`.
pub open spec fn spec_parse_with_recovery(s: Seq<u8>) -> (FileV, Seq<DiagV>) {
    match spec_tokenize(s) {
        Err(d) => (FileV { stmts: Seq::empty(), trailing_trivia: Seq::empty() }, seq![d]),
        Ok(items) => spec_parse_tokens_recover(items, eof_span(s)),
    }
}

/// Whether `r` is what parsing the source bytes `s` gives.
pub open spec fn parse_gives(s: Seq<u8>, r: Result<File, Diag>) -> bool {
    match spec_parse(s) {
        Ok(f) => r matches Ok(x) && x@ == f,
        Err(d) => r matches Err(x) && x@ == d,
    }
}

/// Parse a `.sxb` / `.sxd` source string into an [`ast::File`] tree.
///
/// Errors carry a [`Span`] referring to the offending byte range in `src`.
pub fn parse(src: &str) -> (r: Result<File, Diag>)
    requires
        src.spec_bytes().len() < usize::MAX,
    ensures
        parse_gives(src.spec_bytes(), r),
{
    let tokens = match tokenize(src) {
        Ok(t) => t,
        Err(d) => {
            return Err(d);
        },
    };
    proof {
        lemma_tokens_count(src.spec_bytes(), 0);
    }
    parse_tokens(tokens, src.len()..src.len())
}

/// Parse a source string with error recovery: always gives a (partial)
/// [`File`] plus every diagnostic met on the way.
///
/// A lexer error is fatal: the file is empty and the diagnostic is the
/// only one. A statement that fails to parse is dropped, and parsing
/// resumes at the next identifier at brace depth 0.
pub fn parse_with_recovery(src: &str) -> (r: (File, Vec<Diag>))
    requires
        src.spec_bytes().len() < usize::MAX,
    ensures
        (r.0@, r.1@.map_values(|d: Diag| d@)) == spec_parse_with_recovery(src.spec_bytes()),
{
    let tokens = match tokenize(src) {
        Ok(t) => t,
        Err(diag) => {
            let f = File { stmts: Vec::new(), trailing_trivia: Vec::new() };
            let mut ds: Vec<Diag> = Vec::new();
            ds.push(diag);
            proof {
                assert(f@.stmts =~= Seq::empty());
                assert(f@.trailing_trivia =~= Seq::empty());
                assert(ds@.map_values(|d: Diag| d@) =~= seq![ds@[0]@]);
            }
            return (f, ds);
        },
    };
    proof {
        lemma_tokens_count(src.spec_bytes(), 0);
    }
    parse_tokens_with_recovery(tokens, src.len()..src.len())
}

// ---------------------------------------------------------------------
// Laws
// ---------------------------------------------------------------------

proof fn lemma_recover_agrees(
    its: Seq<lexer_spec::LexItemV>,
    eof: SpanV,
    pos: int,
    stmts: Seq<ast::StmtNodeV>,
    diags: Seq<DiagV>,
)
    requires
        0 <= pos <= its.len(),
    ensures
        p_file_recover(its, eof, pos, stmts, diags).1.len() >= diags.len(),
        p_file(its, eof, pos, stmts) matches Ok(f) ==> p_file_recover(its, eof, pos, stmts, diags)
            == (f, diags),
        p_file(its, eof, pos, stmts) is Err ==> p_file_recover(its, eof, pos, stmts, diags).1.len()
            > diags.len(),
    decreases its.len() - pos,
{
    lemma_next_tok(its, pos);
    let t = next_tok(its, pos);
    let raw = trivia_between(its, pos, t);
    let (stmts2, raw2) = attach(stmts, raw);
    if t < its.len() {
        match p_stmt(its, eof, t) {
            Err(d) => {
                lemma_sync_from(its, t, 0, t);
                let r = sync_from(its, t, 0, t);
                lemma_recover_agrees(its, eof, r, stmts2, diags.push(d));
            },
            Ok(((st, sp), p2)) => {
                lemma_stmt_progress(its, eof, t);
                let node = ast::StmtNodeV {
                    leading: firsts(raw2),
                    trailing: None,
                    node: st,
                    span: sp,
                };
                lemma_recover_agrees(its, eof, p2, stmts2.push(node), diags);
            },
        }
    }
}

/// The recovering parser agrees with `parse`: it reports no diagnostic
/// exactly when `parse` succeeds, and then it gives the same file.
pub proof fn law_recovery_agrees_with_parse(s: Seq<u8>)
    ensures
        (spec_parse_with_recovery(s).1.len() == 0) <==> (spec_parse(s) is Ok),
        spec_parse(s) matches Ok(f) ==> spec_parse_with_recovery(s).0 == f,
{
    if let Ok(items) = spec_tokenize(s) {
        lemma_recover_agrees(items, eof_span(s), 0, Seq::empty(), Seq::empty());
    }
}

/// A lexer error is fatal for the recovering parser: an empty file and
/// that one diagnostic.
pub proof fn law_lexer_error_is_single_fatal_diag(s: Seq<u8>)
    ensures
        spec_tokenize(s) matches Err(d) ==> spec_parse_with_recovery(s).1 == seq![d]
            && spec_parse_with_recovery(s).0.stmts.len() == 0,
{
}

/// `parse` is deterministic: any two outcomes it may give for one text
/// agree on success, and on the file or the diagnostic.
pub proof fn law_parse_is_deterministic(s: Seq<u8>, a: Result<File, Diag>, b: Result<File, Diag>)
    requires
        parse_gives(s, a),
        parse_gives(s, b),
    ensures
        a is Ok <==> b is Ok,
        a matches Ok(x) ==> b matches Ok(y) && x@ == y@,
        a matches Err(x) ==> b matches Err(y) && x@ == y@,
{
}

/// Every diagnostic that parsing reports, fail-fast or with recovery,
/// is an error of the parse kind.
pub proof fn law_diagnostics_are_parse_errors(s: Seq<u8>)
    ensures
        spec_parse(s) matches Err(d) ==> is_parse_error(d),
        forall|k: int|
            0 <= k < spec_parse_with_recovery(s).1.len() ==> is_parse_error(
                #[trigger] spec_parse_with_recovery(s).1[k],
            ),
{
    lemma_tokens_errors(s, 0);
    if let Ok(items) = spec_tokenize(s) {
        lemma_file_errors(items, eof_span(s), 0, Seq::empty());
        lemma_file_recover_errors(items, eof_span(s), 0, Seq::empty(), Seq::empty());
    }
}

proof fn lemma_from_items_within(s: Seq<u8>, its: Seq<LexItemV>, sp: SpanV)
    requires
        valid_utf8(s),
        tokens_within(s, its),
        from_items(its, eof_span(s), sp),
    ensures
        span_within(s, sp),
{
    lemma_end_boundary(s);
    if sp != eof_span(s) && sp != (0int, 0int) {
        let i = choose|i: int| 0 <= i < its.len() && its[i] is Token && #[trigger] span_at(its, i) == sp;
        assert(its[i] matches LexItemV::Token(t, sp2) ==> span_within(s, sp2));
    }
}

/// Every diagnostic that parsing a text reports, fail-fast or with
/// recovery, is a byte range of that text whose ends are character
/// boundaries.
pub proof fn law_diagnostic_spans_within_source(s: Seq<u8>)
    requires
        valid_utf8(s),
    ensures
        spec_parse(s) matches Err(d) ==> span_within(s, d.span),
        forall|k: int|
            0 <= k < spec_parse_with_recovery(s).1.len() ==> span_within(
                s,
                #[trigger] spec_parse_with_recovery(s).1[k].span,
            ),
{
    lemma_end_boundary(s);
    lemma_tokens_spans(s, 0);
    if let Ok(items) = spec_tokenize(s) {
        let eof = eof_span(s);
        lemma_file_errors(items, eof, 0, Seq::empty());
        lemma_file_recover_errors(items, eof, 0, Seq::empty(), Seq::empty());
        if let Err(d) = spec_parse(s) {
            lemma_from_items_within(s, items, d.span);
        }
        let ds = spec_parse_with_recovery(s).1;
        assert forall|k: int| 0 <= k < ds.len() implies span_within(s, #[trigger] ds[k].span) by {
            lemma_from_items_within(s, items, ds[k].span);
        }
    }
}

/// Every token the lexer reads consumes at least one byte and stays in
/// the source, so lexing makes progress and ends.
pub proof fn law_every_token_consumes_input(s: Seq<u8>, start: int)
    requires
        0 <= start < s.len(),
    ensures
        spec_next_token(s, start) matches Ok((t, e)) ==> start < e <= s.len(),
{
    lemma_next_token_advances(s, start);
}

} // verus!
