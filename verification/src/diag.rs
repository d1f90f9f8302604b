//! Diagnostic primitives: spans, severities, error type.
use std::ops::Range;
use vstd::prelude::*;

verus! {

/// A byte range inside the source text.
pub type Span = Range<usize>;

/// `Range`'s derived `Clone` copies both ends.
pub assume_specification<Idx: Clone>[ <Range<Idx> as Clone>::clone ](r: &Range<Idx>) -> (res: Range<Idx>)
    ensures
        cloned::<Idx>(r.start, res.start),
        cloned::<Idx>(r.end, res.end),
;

/// The mathematical form of a span: its two ends as integers.
pub type SpanV = (int, int);

/// The integer ends of a span.
pub open spec fn span_v(s: Span) -> SpanV {
    (s.start as int, s.end as int)
}

/// A value together with the source span it came from.
#[derive(Debug, Clone, PartialEq, Eq)]
pub struct Spanned<T> {
    pub node: T,
    pub span: Span,
}

impl<T> Spanned<T> {
    pub fn new(node: T, span: Span) -> (r: Self)
        ensures
            r.node == node,
            r.span == span,
    {
        Spanned { node, span }
    }

    /// Transform the node, keeping the span.
    pub fn map<U, F: FnOnce(T) -> U>(self, f: F) -> (r: Spanned<U>)
        requires
            f.requires((self.node,)),
        ensures
            f.ensures((self.node,), r.node),
            r.span == self.span,
    {
        let Spanned { node, span } = self;
        Spanned { node: f(node), span }
    }

    /// Borrow the node, copying the span.
    pub fn as_ref(&self) -> (r: Spanned<&T>)
        ensures
            *r.node == self.node,
            r.span == self.span,
    {
        Spanned { node: &self.node, span: self.span.start..self.span.end }
    }
}

#[derive(Debug, Clone, Copy, PartialEq, Eq, Structural)]
#[non_exhaustive]
pub enum Severity {
    Error,
    Warning,
}

#[derive(Debug, Clone)]
#[non_exhaustive]
pub enum DiagKind {
    Parse(String),
    Schema(String),
}

/// The mathematical form of a [`DiagKind`].
pub enum DiagKindV {
    Parse(Seq<char>),
    Schema(Seq<char>),
}

impl View for DiagKind {
    type V = DiagKindV;

    open spec fn view(&self) -> DiagKindV {
        match self {
            DiagKind::Parse(m) => DiagKindV::Parse(m@),
            DiagKind::Schema(m) => DiagKindV::Schema(m@),
        }
    }
}

/// The text that `to_string` renders for a diagnostic kind.
pub open spec fn kind_text(k: DiagKindV) -> Seq<char> {
    match k {
        DiagKindV::Parse(m) => "parse error: "@ + m,
        DiagKindV::Schema(m) => "schema error: "@ + m,
    }
}

impl DiagKind {
    /// Renders `parse error: <msg>` or `schema error: <msg>`.
    pub fn to_string(&self) -> (r: String)
        ensures
            r@ == kind_text(self@),
    {
        match self {
            DiagKind::Parse(m) => {
                let mut s = "parse error: ".to_owned();
                s.append(m.as_str());
                s
            },
            DiagKind::Schema(m) => {
                let mut s = "schema error: ".to_owned();
                s.append(m.as_str());
                s
            },
        }
    }
}

#[derive(Debug, Clone)]
#[non_exhaustive]
pub struct Diag {
    pub kind: DiagKind,
    pub span: Span,
    pub severity: Severity,
}

/// The mathematical form of a [`Diag`].
pub struct DiagV {
    pub kind: DiagKindV,
    pub span: SpanV,
    pub severity: Severity,
}

impl View for Diag {
    type V = DiagV;

    open spec fn view(&self) -> DiagV {
        DiagV { kind: self.kind@, span: span_v(self.span), severity: self.severity }
    }
}

/// A parse error at `start..end` carrying `msg`.
pub open spec fn perr(start: int, end: int, msg: Seq<char>) -> DiagV {
    DiagV { kind: DiagKindV::Parse(msg), span: (start, end), severity: Severity::Error }
}

/// Whether `d` is an error of the parse kind, as every diagnostic of the
/// lexer and the parser is.
pub open spec fn is_parse_error(d: DiagV) -> bool {
    d.severity == Severity::Error && d.kind is Parse
}

impl Diag {
    pub fn parse(span: Span, msg: &str) -> (r: Self)
        ensures
            r@ == perr(span.start as int, span.end as int, msg@),
    {
        Diag { kind: DiagKind::Parse(msg.to_owned()), span, severity: Severity::Error }
    }

    pub fn schema(span: Span, msg: &str) -> (r: Self)
        ensures
            r@ == (DiagV {
                kind: DiagKindV::Schema(msg@),
                span: span_v(span),
                severity: Severity::Error,
            }),
    {
        Diag { kind: DiagKind::Schema(msg.to_owned()), span, severity: Severity::Error }
    }

    pub fn schema_warn(span: Span, msg: &str) -> (r: Self)
        ensures
            r@ == (DiagV {
                kind: DiagKindV::Schema(msg@),
                span: span_v(span),
                severity: Severity::Warning,
            }),
    {
        Diag { kind: DiagKind::Schema(msg.to_owned()), span, severity: Severity::Warning }
    }

    pub fn is_error(&self) -> (r: bool)
        ensures
            r == (self.severity == Severity::Error),
    {
        matches!(self.severity, Severity::Error)
    }

    /// The rendered message: the kind's text, without span or severity.
    pub fn to_string(&self) -> (r: String)
        ensures
            r@ == kind_text(self.kind@),
    {
        self.kind.to_string()
    }
}

} // verus!
