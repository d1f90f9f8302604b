//! Editor diagnostics: what the language server publishes for a document.
use crate::{law_diagnostic_spans_within_source, spec_parse};
use crate::parse;
use crate::conversion::{
    clamp, lemma_count_newlines_mono, span_to_range, spec_position, PositionRange,
};
use crate::diag::{kind_text, Diag, DiagV, Severity, SpanV};
use crate::lexer_spec::count_newlines;
use crate::schema::{schema_diags, Schema};
use vstd::prelude::*;
use vstd::string::StringSliceAdditionalSpecFns;
use vstd::utf8::*;

verus! {

/// Source label attached to every emitted diagnostic.
pub const DIAGNOSTIC_SOURCE: &'static str = "standarx-dsl";

/// How serious an editor diagnostic is.
#[derive(Debug, Clone, Copy, PartialEq, Eq, Structural)]
pub enum DiagnosticSeverity {
    Error,
    Warning,
    Information,
}

/// An editor diagnostic: where, how serious, from whom, and what.
#[derive(Debug, Clone)]
pub struct LspDiagnostic {
    pub range: PositionRange,
    pub severity: Option<DiagnosticSeverity>,
    pub source: Option<String>,
    pub message: String,
}

/// Whether both ends of `span`, clamped to the text `s`, fall on
/// character boundaries.
pub open spec fn on_boundaries(s: Seq<u8>, span: SpanV) -> bool {
    &&& is_char_boundary(s, clamp(span.0, s.len() as int))
    &&& is_char_boundary(s, clamp(span.1, s.len() as int))
}

/// Whether `span` can be placed in the text `s`: both ends, clamped, on
/// character boundaries, with line numbers that fit in a `u32`.
pub open spec fn span_fits(s: Seq<u8>, span: SpanV) -> bool {
    &&& on_boundaries(s, span)
    &&& count_newlines(s, 0, clamp(span.0, s.len() as int)) <= u32::MAX
    &&& count_newlines(s, 0, clamp(span.1, s.len() as int)) <= u32::MAX
}

/// Whether the line numbers of the text `s` fit in a `u32`.
pub open spec fn lines_fit(s: Seq<u8>) -> bool {
    count_newlines(s, 0, s.len() as int) <= u32::MAX
}

/// The mathematical form of an [`LspDiagnostic`].
pub struct LspDiagnosticV {
    pub start: (int, int),
    pub end: (int, int),
    pub severity: Option<DiagnosticSeverity>,
    pub source: Option<Seq<char>>,
    pub message: Seq<char>,
}

impl View for LspDiagnostic {
    type V = LspDiagnosticV;

    open spec fn view(&self) -> LspDiagnosticV {
        LspDiagnosticV {
            start: (self.range.start.line as int, self.range.start.character as int),
            end: (self.range.end.line as int, self.range.end.character as int),
            severity: self.severity,
            source: match self.source {
                Some(x) => Some(x@),
                None => None,
            },
            message: self.message@,
        }
    }
}

/// The editor severity of a diagnostic severity.
pub open spec fn lsp_severity(s: Severity) -> DiagnosticSeverity {
    match s {
        Severity::Error => DiagnosticSeverity::Error,
        Severity::Warning => DiagnosticSeverity::Warning,
    }
}

/// The editor diagnostic for `d` in the text `s`.
pub open spec fn spec_diag_to_lsp(s: Seq<u8>, d: DiagV) -> LspDiagnosticV {
    LspDiagnosticV {
        start: spec_position(s, d.span.0),
        end: spec_position(s, d.span.1),
        severity: Some(lsp_severity(d.severity)),
        source: Some(DIAGNOSTIC_SOURCE@),
        message: kind_text(d.kind),
    }
}

/// Line counts up to any offset are bounded by the count for the whole
/// text.
pub proof fn lemma_lines_fit(s: Seq<u8>, offset: int)
    requires
        lines_fit(s),
    ensures
        count_newlines(s, 0, clamp(offset, s.len() as int)) <= u32::MAX,
{
    if offset >= 0 {
        lemma_count_newlines_mono(s, clamp(offset, s.len() as int), s.len() as int);
    }
}

/// Convert a diagnostic into an editor diagnostic anchored at its span.
pub fn diag_to_lsp(src: &str, diag: &Diag) -> (r: LspDiagnostic)
    requires
        span_fits(src.spec_bytes(), diag@.span),
    ensures
        r@ == spec_diag_to_lsp(src.spec_bytes(), diag@),
{
    let range = span_to_range(src, &diag.span);
    let severity = match diag.severity {
        Severity::Error => DiagnosticSeverity::Error,
        Severity::Warning => DiagnosticSeverity::Warning,
    };
    LspDiagnostic {
        range,
        severity: Some(severity),
        source: Some(DIAGNOSTIC_SOURCE.to_owned()),
        message: diag.kind.to_string(),
    }
}

/// The views of a sequence of editor diagnostics.
pub open spec fn lsp_views(v: Seq<LspDiagnostic>) -> Seq<LspDiagnosticV> {
    v.map_values(|x: LspDiagnostic| x@)
}

/// The views of a sequence of diagnostics.
pub open spec fn diag_views(v: Seq<Diag>) -> Seq<DiagV> {
    v.map_values(|x: Diag| x@)
}

/// The editor diagnostics for `ds` in the text `s`, in order.
pub open spec fn spec_diags_to_lsp(s: Seq<u8>, ds: Seq<DiagV>) -> Seq<LspDiagnosticV> {
    ds.map_values(|d: DiagV| spec_diag_to_lsp(s, d))
}

/// Convert each of `diags`, in order, into an editor diagnostic.
pub fn diags_to_lsp(src: &str, diags: &[Diag]) -> (r: Vec<LspDiagnostic>)
    requires
        forall|i: int|
            0 <= i < diags@.len() ==> span_fits(src.spec_bytes(), #[trigger] diags@[i]@.span),
    ensures
        lsp_views(r@) == spec_diags_to_lsp(src.spec_bytes(), diag_views(diags@)),
{
    let ghost s = src.spec_bytes();
    let mut out: Vec<LspDiagnostic> = Vec::new();
    let mut i: usize = 0;
    while i < diags.len()
        invariant
            s == src.spec_bytes(),
            forall|k: int| 0 <= k < diags@.len() ==> span_fits(s, #[trigger] diags@[k]@.span),
            i <= diags@.len(),
            lsp_views(out@) == spec_diags_to_lsp(s, diag_views(diags@.subrange(0, i as int))),
        decreases diags.len() - i,
    {
        let d = diag_to_lsp(src, &diags[i]);
        let ghost prev = out@;
        let ghost head = diags@.subrange(0, i as int);
        proof {
            assert(diags@.subrange(0, i + 1) =~= head.push(diags@[i as int]));
            assert(diag_views(head.push(diags@[i as int])) =~= diag_views(head).push(
                diags@[i as int]@,
            ));
        }
        out.push(d);
        proof {
            assert(lsp_views(out@) =~= lsp_views(prev).push(d@));
            assert(lsp_views(out@) =~= spec_diags_to_lsp(s, diag_views(diags@.subrange(0, i + 1))));
        }
        i += 1;
    }
    proof {
        assert(diags@.subrange(0, i as int) =~= diags@);
    }
    out
}

proof fn lemma_views_concat(s: Seq<u8>, a: Seq<Diag>, b: Seq<Diag>)
    ensures
        spec_diags_to_lsp(s, diag_views(a + b)) =~= spec_diags_to_lsp(s, diag_views(a))
            + spec_diags_to_lsp(s, diag_views(b)),
{
    assert(diag_views(a + b) =~= diag_views(a) + diag_views(b));
}

/// Parse `src`, run every schema's `validate` on the tree, and turn the
/// resulting diagnostics into editor diagnostics: the parse error alone
/// when parsing fails, else the schemas' diagnostics concatenated in
/// registration order.
pub fn collect_diagnostics<S: Schema + ?Sized>(src: &str, schemas: &[Box<S>]) -> (r: Vec<
    LspDiagnostic,
>)
    requires
        src.spec_bytes().len() < usize::MAX,
        lines_fit(src.spec_bytes()),
    ensures
        match spec_parse(src.spec_bytes()) {
            Err(d) => lsp_views(r@) == seq![spec_diag_to_lsp(src.spec_bytes(), d)],
            Ok(f) => lsp_views(r@) == spec_diags_to_lsp(
                src.spec_bytes(),
                schema_diags(schemas@, f, src.spec_bytes()),
            ),
        },
{
    let ghost s = src.spec_bytes();
    let mut out: Vec<LspDiagnostic> = Vec::new();
    match parse(src) {
        Ok(file) => {
            let ghost mut all: Seq<Diag> = Seq::empty();
            let mut i: usize = 0;
            while i < schemas.len()
                invariant
                    s == src.spec_bytes(),
                    lines_fit(s),
                    i <= schemas@.len(),
                    lsp_views(out@) == spec_diags_to_lsp(s, diag_views(all)),
                    diag_views(all) == schema_diags(schemas@.subrange(0, i as int), file@, s),
                decreases schemas.len() - i,
            {
                let ds = schemas[i].validate(&file, src);
                proof {
                    assert forall|k: int| 0 <= k < ds@.len() implies span_fits(
                        s,
                        #[trigger] ds@[k]@.span,
                    ) by {
                        lemma_lines_fit(s, ds@[k]@.span.0);
                        lemma_lines_fit(s, ds@[k]@.span.1);
                    }
                }
                let mut lsp = diags_to_lsp(src, ds.as_slice());
                proof {
                    lemma_views_concat(s, all, ds@);
                    assert(lsp_views(out@ + lsp@) =~= lsp_views(out@) + lsp_views(lsp@));
                    assert(diag_views(all + ds@) =~= diag_views(all) + diag_views(ds@));
                    assert(schemas@.subrange(0, i + 1).drop_last() =~= schemas@.subrange(
                        0,
                        i as int,
                    ));
                    all = all + ds@;
                }
                out.append(&mut lsp);
                i += 1;
            }
            assert(schemas@.subrange(0, i as int) =~= schemas@);
        },
        Err(d) => {
            proof {
                encode_utf8_valid_utf8(src@);
                law_diagnostic_spans_within_source(s);
                lemma_lines_fit(s, d@.span.0);
                lemma_lines_fit(s, d@.span.1);
            }
            let x = diag_to_lsp(src, &d);
            out.push(x);
            assert(lsp_views(out@) =~= seq![spec_diag_to_lsp(s, d@)]);
        },
    }
    out
}

} // verus!
