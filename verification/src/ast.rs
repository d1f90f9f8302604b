//! The syntax tree produced by the parser, with its mathematical views.
use crate::diag::{span_v, Diag, DiagV, Span, SpanV, Spanned, perr};
use vstd::prelude::*;

verus! {

#[derive(Debug, PartialEq)]
pub struct File {
    pub stmts: Vec<StmtNode>,
    pub trailing_trivia: Vec<Trivia>,
}

#[derive(Debug, PartialEq)]
pub struct StmtNode {
    pub leading: Vec<Trivia>,
    pub trailing: Option<Trivia>,
    pub node: Stmt,
    pub span: Span,
}

#[derive(Debug, Clone, PartialEq)]
pub enum TriviaKind {
    LineComment(String),
    BlockComment(String),
    BlankLine,
}

#[derive(Debug, Clone, PartialEq)]
pub struct Trivia {
    pub kind: TriviaKind,
    pub span: Span,
}

#[derive(Debug, PartialEq)]
pub enum Stmt {
    Assign(Assign),
    Block(Block),
}

#[derive(Debug, PartialEq)]
pub struct Assign {
    pub key: Spanned<Ident>,
    pub value: Spanned<Expr>,
}

#[derive(Debug, PartialEq)]
pub struct Block {
    pub kind: Spanned<Ident>,
    pub label: Option<Spanned<String>>,
    pub stmts: Vec<StmtNode>,
    pub trailing_trivia: Vec<Trivia>,
}

#[derive(Debug, Clone, PartialEq, Eq, Hash)]
pub struct Ident(pub String);

impl Ident {
    pub fn as_str(&self) -> (r: &str)
        ensures
            r@ == self.0@,
    {
        self.0.as_str()
    }
}

/// A value expression. A float literal keeps its decimal source text
/// (for example `-1.25`), exactly as it was written.
#[derive(Debug, PartialEq)]
pub enum Expr {
    Int(i64),
    Float(String),
    Bool(bool),
    Null,
    String(StringLit),
    Ref(Ref),
    List(Vec<Spanned<Expr>>),
    Mapping(Vec<MapEntry>),
}

#[derive(Debug, Clone, PartialEq)]
pub struct Ref {
    pub path: Vec<Spanned<Ident>>,
}

#[derive(Debug, PartialEq)]
pub struct MapEntry {
    pub key: Spanned<Ident>,
    pub value: Spanned<Expr>,
}

#[derive(Debug, Clone, PartialEq)]
pub struct StringLit {
    pub parts: Vec<StringPart>,
    pub multiline: bool,
    /// true for `` `...` `` and `` ```...``` `` (interpolation allowed),
    /// false for plain `"..."` (literal, no `${}` substitution).
    pub template: bool,
}

#[derive(Debug, Clone, PartialEq)]
pub enum StringPart {
    Lit(String),
    Interp(Spanned<InterpExpr>),
}

/// Expression body legal inside a `${...}` interpolation segment:
/// scalars and references only. A float keeps its decimal source text.
#[derive(Debug, Clone, PartialEq)]
pub enum InterpExpr {
    Ref(Ref),
    Int(i64),
    Float(String),
    Bool(bool),
    Null,
    String(String),
}

// ---------------------------------------------------------------------
// Mathematical views
// ---------------------------------------------------------------------

/// An identifier or a label with its span.
pub type NameV = (Seq<char>, SpanV);

pub enum TriviaKindV {
    LineComment(Seq<char>),
    BlockComment(Seq<char>),
    BlankLine,
}

pub struct TriviaV {
    pub kind: TriviaKindV,
    pub span: SpanV,
}

pub struct RefV {
    pub path: Seq<NameV>,
}

pub enum InterpExprV {
    Ref(RefV),
    Int(i64),
    Float(Seq<char>),
    Bool(bool),
    Null,
    Str(Seq<char>),
}

pub enum StringPartV {
    Lit(Seq<char>),
    Interp(InterpExprV, SpanV),
}

pub struct StringLitV {
    pub parts: Seq<StringPartV>,
    pub multiline: bool,
    pub template: bool,
}

pub enum ExprV {
    Int(i64),
    Float(Seq<char>),
    Bool(bool),
    Null,
    Str(StringLitV),
    Ref(RefV),
    List(Seq<(ExprV, SpanV)>),
    Mapping(Seq<MapEntryV>),
}

pub struct MapEntryV {
    pub key: NameV,
    pub value: (ExprV, SpanV),
}

pub struct AssignV {
    pub key: NameV,
    pub value: (ExprV, SpanV),
}

pub struct BlockV {
    pub kind: NameV,
    pub label: Option<NameV>,
    pub stmts: Seq<StmtNodeV>,
    pub trailing_trivia: Seq<TriviaV>,
}

pub enum StmtV {
    Assign(AssignV),
    Block(BlockV),
}

pub struct StmtNodeV {
    pub leading: Seq<TriviaV>,
    pub trailing: Option<TriviaV>,
    pub node: StmtV,
    pub span: SpanV,
}

pub struct FileV {
    pub stmts: Seq<StmtNodeV>,
    pub trailing_trivia: Seq<TriviaV>,
}

pub open spec fn name_v(x: Spanned<Ident>) -> NameV {
    (x.node.0@, span_v(x.span))
}

pub open spec fn names_v(xs: Seq<Spanned<Ident>>) -> Seq<NameV> {
    xs.map_values(|x: Spanned<Ident>| name_v(x))
}

pub open spec fn parts_v(xs: Seq<StringPart>) -> Seq<StringPartV> {
    xs.map_values(|p: StringPart| p@)
}

pub open spec fn trivias_v(xs: Seq<Trivia>) -> Seq<TriviaV> {
    xs.map_values(|x: Trivia| x@)
}

impl View for TriviaKind {
    type V = TriviaKindV;

    open spec fn view(&self) -> TriviaKindV {
        match self {
            TriviaKind::LineComment(s) => TriviaKindV::LineComment(s@),
            TriviaKind::BlockComment(s) => TriviaKindV::BlockComment(s@),
            TriviaKind::BlankLine => TriviaKindV::BlankLine,
        }
    }
}

impl View for Trivia {
    type V = TriviaV;

    open spec fn view(&self) -> TriviaV {
        TriviaV { kind: self.kind@, span: span_v(self.span) }
    }
}

impl View for Ref {
    type V = RefV;

    open spec fn view(&self) -> RefV {
        RefV { path: names_v(self.path@) }
    }
}

impl View for InterpExpr {
    type V = InterpExprV;

    open spec fn view(&self) -> InterpExprV {
        match self {
            InterpExpr::Ref(r) => InterpExprV::Ref(r@),
            InterpExpr::Int(v) => InterpExprV::Int(*v),
            InterpExpr::Float(t) => InterpExprV::Float(t@),
            InterpExpr::Bool(b) => InterpExprV::Bool(*b),
            InterpExpr::Null => InterpExprV::Null,
            InterpExpr::String(s) => InterpExprV::Str(s@),
        }
    }
}

impl View for StringPart {
    type V = StringPartV;

    open spec fn view(&self) -> StringPartV {
        match self {
            StringPart::Lit(s) => StringPartV::Lit(s@),
            StringPart::Interp(x) => StringPartV::Interp(x.node@, span_v(x.span)),
        }
    }
}

impl View for StringLit {
    type V = StringLitV;

    open spec fn view(&self) -> StringLitV {
        StringLitV {
            parts: parts_v(self.parts@),
            multiline: self.multiline,
            template: self.template,
        }
    }
}

impl Expr {
    pub open spec fn view_expr(&self) -> ExprV
        decreases self,
    {
        match self {
            Expr::Int(v) => ExprV::Int(*v),
            Expr::Float(t) => ExprV::Float(t@),
            Expr::Bool(b) => ExprV::Bool(*b),
            Expr::Null => ExprV::Null,
            Expr::String(s) => ExprV::Str(s@),
            Expr::Ref(r) => ExprV::Ref(r@),
            Expr::List(items) => ExprV::List(
                Seq::new(
                    items@.len(),
                    |i: int|
                        if 0 <= i < items@.len() {
                            (items@[i].node.view_expr(), span_v(items@[i].span))
                        } else {
                            (ExprV::Null, (0, 0))
                        },
                ),
            ),
            Expr::Mapping(entries) => ExprV::Mapping(
                Seq::new(
                    entries@.len(),
                    |i: int|
                        if 0 <= i < entries@.len() {
                            MapEntryV {
                                key: name_v(entries@[i].key),
                                value: (
                                    entries@[i].value.node.view_expr(),
                                    span_v(entries@[i].value.span),
                                ),
                            }
                        } else {
                            MapEntryV { key: (Seq::empty(), (0, 0)), value: (ExprV::Null, (0, 0)) }
                        },
                ),
            ),
        }
    }
}

impl View for Expr {
    type V = ExprV;

    open spec fn view(&self) -> ExprV {
        self.view_expr()
    }
}

/// An expression with its span.
pub open spec fn sexpr_v(e: Spanned<Expr>) -> (ExprV, SpanV) {
    (e.node@, span_v(e.span))
}

impl StmtNode {
    pub open spec fn view_node(&self) -> StmtNodeV
        decreases self,
    {
        StmtNodeV {
            leading: trivias_v(self.leading@),
            trailing: match self.trailing {
                Some(t) => Some(t@),
                None => None,
            },
            node: self.node.view_stmt(),
            span: span_v(self.span),
        }
    }
}

impl Stmt {
    pub open spec fn view_stmt(&self) -> StmtV
        decreases self,
    {
        match self {
            Stmt::Assign(a) => StmtV::Assign(
                AssignV { key: name_v(a.key), value: sexpr_v(a.value) },
            ),
            Stmt::Block(b) => StmtV::Block(
                BlockV {
                    kind: name_v(b.kind),
                    label: match b.label {
                        Some(l) => Some((l.node@, span_v(l.span))),
                        None => None,
                    },
                    stmts: Seq::new(
                        b.stmts@.len(),
                        |i: int|
                            if 0 <= i < b.stmts@.len() {
                                b.stmts@[i].view_node()
                            } else {
                                StmtNodeV {
                                    leading: Seq::empty(),
                                    trailing: None,
                                    node: StmtV::Assign(
                                        AssignV {
                                            key: (Seq::empty(), (0, 0)),
                                            value: (ExprV::Null, (0, 0)),
                                        },
                                    ),
                                    span: (0, 0),
                                }
                            },
                    ),
                    trailing_trivia: trivias_v(b.trailing_trivia@),
                },
            ),
        }
    }
}

impl View for StmtNode {
    type V = StmtNodeV;

    open spec fn view(&self) -> StmtNodeV {
        self.view_node()
    }
}

impl View for Stmt {
    type V = StmtV;

    open spec fn view(&self) -> StmtV {
        self.view_stmt()
    }
}

pub open spec fn stmt_nodes_v(xs: Seq<StmtNode>) -> Seq<StmtNodeV> {
    xs.map_values(|x: StmtNode| x@)
}

impl View for File {
    type V = FileV;

    open spec fn view(&self) -> FileV {
        FileV {
            stmts: stmt_nodes_v(self.stmts@),
            trailing_trivia: trivias_v(self.trailing_trivia@),
        }
    }
}

// ---------------------------------------------------------------------
// Bare text of a string literal
// ---------------------------------------------------------------------

/// Whether any part of the literal is an interpolation.
pub open spec fn has_interp(parts: Seq<StringPartV>) -> bool {
    exists|i: int| 0 <= i < parts.len() && parts[i] is Interp
}

/// The text of the first part of a literal (empty when it has none).
pub open spec fn first_text(parts: Seq<StringPartV>) -> Seq<char> {
    if parts.len() == 0 {
        Seq::empty()
    } else {
        match parts[0] {
            StringPartV::Lit(s) => s,
            StringPartV::Interp(..) => Seq::empty(),
        }
    }
}

/// The text of a literal part (an interpolation has none).
pub open spec fn part_text(p: StringPartV) -> Seq<char> {
    match p {
        StringPartV::Lit(s) => s,
        StringPartV::Interp(..) => Seq::empty(),
    }
}

/// The texts of the literal parts, joined in order.
pub open spec fn lit_text(parts: Seq<StringPartV>) -> Seq<char>
    decreases parts.len(),
{
    if parts.len() == 0 {
        Seq::empty()
    } else {
        lit_text(parts.drop_last()) + part_text(parts.last())
    }
}

/// What `try_into_bare_text` gives for a literal in the position named
/// `context`.
pub open spec fn bare_text_result(lit: StringLitV, span: SpanV, context: Seq<char>) -> Result<
    Seq<char>,
    DiagV,
> {
    if lit.multiline {
        Err(perr(span.0, span.1, context + " cannot be a multi-line string"@))
    } else if has_interp(lit.parts) {
        Err(perr(span.0, span.1, context + " cannot contain interpolation"@))
    } else {
        Ok(lit_text(lit.parts))
    }
}

/// `prefix + suffix` as a fresh string.
pub(crate) fn join2(prefix: &str, suffix: &str) -> (r: String)
    ensures
        r@ == prefix@ + suffix@,
{
    let mut s = prefix.to_owned();
    s.append(suffix);
    s
}

impl StringLit {
    /// Decode this string literal as a single-line, non-interpolated text
    /// payload, the shape required for bare-name positions (reference
    /// path segments, block labels). `context` names the position in
    /// the diagnostic.
    pub fn try_into_bare_text(self, span: Span, context: &str) -> (r: Result<String, Diag>)
        ensures
            match bare_text_result(self@, span_v(span), context@) {
                Ok(t) => r matches Ok(s) && s@ == t,
                Err(d) => r matches Err(e) && e@ == d,
            },
    {
        if self.multiline {
            let msg = join2(context, " cannot be a multi-line string");
            return Err(Diag::parse(span, msg.as_str()));
        }
        let n = self.parts.len();
        let mut text = String::new();
        let mut i: usize = 0;
        while i < n
            invariant
                n == self.parts@.len(),
                0 <= i <= n,
                !self.multiline,
                forall|j: int| 0 <= j < i ==> !(self@.parts[j] is Interp),
                text@ == lit_text(self@.parts.subrange(0, i as int)),
            decreases n - i,
        {
            proof {
                assert(self@.parts.subrange(0, i + 1).drop_last() =~= self@.parts.subrange(
                    0,
                    i as int,
                ));
            }
            match &self.parts[i] {
                StringPart::Interp(_) => {
                    assert(self@.parts[i as int] is Interp);
                    assert(has_interp(self@.parts));
                    let msg = join2(context, " cannot contain interpolation");
                    return Err(Diag::parse(span, msg.as_str()));
                },
                StringPart::Lit(t) => {
                    text.append(t.as_str());
                },
            }
            i += 1;
        }
        proof {
            assert(self@.parts.subrange(0, n as int) =~= self@.parts);
        }
        Ok(text)
    }
}

// ---------------------------------------------------------------------
// Copies with a known view
// ---------------------------------------------------------------------

impl Trivia {
    pub fn dup(&self) -> (r: Trivia)
        ensures
            r@ == self@,
    {
        let kind = match &self.kind {
            TriviaKind::LineComment(s) => TriviaKind::LineComment(s.clone()),
            TriviaKind::BlockComment(s) => TriviaKind::BlockComment(s.clone()),
            TriviaKind::BlankLine => TriviaKind::BlankLine,
        };
        Trivia { kind, span: self.span.start..self.span.end }
    }
}

pub fn dup_name(x: &Spanned<Ident>) -> (r: Spanned<Ident>)
    ensures
        name_v(r) == name_v(*x),
{
    Spanned { node: Ident(x.node.0.clone()), span: x.span.start..x.span.end }
}

impl Ref {
    pub fn dup(&self) -> (r: Ref)
        ensures
            r@ == self@,
    {
        let mut path: Vec<Spanned<Ident>> = Vec::new();
        let n = self.path.len();
        let mut i: usize = 0;
        while i < n
            invariant
                n == self.path@.len(),
                0 <= i <= n,
                path@.len() == i,
                forall|j: int| 0 <= j < i ==> name_v(#[trigger] path@[j]) == name_v(self.path@[j]),
            decreases n - i,
        {
            path.push(dup_name(&self.path[i]));
            i += 1;
        }
        let r = Ref { path };
        assert(r@.path =~= self@.path);
        r
    }
}

impl InterpExpr {
    pub fn dup(&self) -> (r: InterpExpr)
        ensures
            r@ == self@,
    {
        match self {
            InterpExpr::Ref(x) => InterpExpr::Ref(x.dup()),
            InterpExpr::Int(v) => InterpExpr::Int(*v),
            InterpExpr::Float(t) => InterpExpr::Float(t.clone()),
            InterpExpr::Bool(b) => InterpExpr::Bool(*b),
            InterpExpr::Null => InterpExpr::Null,
            InterpExpr::String(s) => InterpExpr::String(s.clone()),
        }
    }
}

impl StringPart {
    pub fn dup(&self) -> (r: StringPart)
        ensures
            r@ == self@,
    {
        match self {
            StringPart::Lit(s) => StringPart::Lit(s.clone()),
            StringPart::Interp(x) => StringPart::Interp(
                Spanned { node: x.node.dup(), span: x.span.start..x.span.end },
            ),
        }
    }
}

impl StringLit {
    pub fn dup(&self) -> (r: StringLit)
        ensures
            r@ == self@,
    {
        let mut parts: Vec<StringPart> = Vec::new();
        let n = self.parts.len();
        let mut i: usize = 0;
        while i < n
            invariant
                n == self.parts@.len(),
                0 <= i <= n,
                parts@.len() == i,
                forall|j: int| 0 <= j < i ==> (#[trigger] parts@[j])@ == self.parts@[j]@,
            decreases n - i,
        {
            parts.push(self.parts[i].dup());
            i += 1;
        }
        let r = StringLit { parts, multiline: self.multiline, template: self.template };
        assert(r@.parts =~= self@.parts);
        r
    }
}

impl Clone for Expr {
    fn clone(&self) -> (r: Self)
        ensures
            r@ == self@,
        decreases self,
    {
        match self {
            Expr::Int(v) => Expr::Int(*v),
            Expr::Float(t) => Expr::Float(t.clone()),
            Expr::Bool(b) => Expr::Bool(*b),
            Expr::Null => Expr::Null,
            Expr::String(s) => Expr::String(s.dup()),
            Expr::Ref(x) => Expr::Ref(x.dup()),
            Expr::List(items) => {
                let mut out: Vec<Spanned<Expr>> = Vec::new();
                let mut i: usize = 0;
                while i < items.len()
                    invariant
                        *self == Expr::List(*items),
                        i <= items@.len(),
                        out@.len() == i,
                        forall|j: int| 0 <= j < i ==> sexpr_v(#[trigger] out@[j]) == sexpr_v(items@[j]),
                    decreases items.len() - i,
                {
                    proof {
                        assert(decreases_to!(*self => (*self)->List_0));
                        assert(decreases_to!(*items => items@));
                        assert(decreases_to!(items@ => items@[i as int]));
                        assert(decreases_to!(items@[i as int] => items@[i as int].node));
                    }
                    let e = items[i].node.clone();
                    out.push(Spanned { node: e, span: items[i].span.start..items[i].span.end });
                    i += 1;
                }
                let r = Expr::List(out);
                proof {
                    assert(r@ == self@) by {
                        if let ExprV::List(a) = r@ {
                            if let ExprV::List(b) = self@ {
                                assert(a =~= b);
                            }
                        }
                    }
                }
                r
            },
            Expr::Mapping(entries) => {
                let mut out: Vec<MapEntry> = Vec::new();
                let mut i: usize = 0;
                while i < entries.len()
                    invariant
                        *self == Expr::Mapping(*entries),
                        i <= entries@.len(),
                        out@.len() == i,
                        forall|j: int|
                            0 <= j < i ==> name_v(#[trigger] out@[j].key) == name_v(entries@[j].key)
                                && sexpr_v(out@[j].value) == sexpr_v(entries@[j].value),
                    decreases entries.len() - i,
                {
                    proof {
                        assert(decreases_to!(*self => (*self)->Mapping_0));
                        assert(decreases_to!(*entries => entries@));
                        assert(decreases_to!(entries@ => entries@[i as int]));
                        assert(decreases_to!(entries@[i as int] => entries@[i as int].value));
                        assert(decreases_to!(entries@[i as int].value => entries@[i as int].value.node));
                    }
                    let v = entries[i].value.node.clone();
                    let span = entries[i].value.span.start..entries[i].value.span.end;
                    out.push(MapEntry { key: dup_name(&entries[i].key), value: Spanned { node: v, span } });
                    i += 1;
                }
                let r = Expr::Mapping(out);
                proof {
                    assert(r@ == self@) by {
                        if let ExprV::Mapping(a) = r@ {
                            if let ExprV::Mapping(b) = self@ {
                                assert(a =~= b);
                            }
                        }
                    }
                }
                r
            },
        }
    }
}

/// A copy of a block, seen as a statement.
fn clone_block(b: &Block) -> (r: Block)
    ensures
        Stmt::Block(r)@ == Stmt::Block(*b)@,
    decreases b,
{
    let mut stmts: Vec<StmtNode> = Vec::new();
    let mut i: usize = 0;
    while i < b.stmts.len()
        invariant
            i <= b.stmts@.len(),
            stmts@.len() == i,
            forall|j: int| 0 <= j < i ==> (#[trigger] stmts@[j]).view_node() == b.stmts@[j].view_node(),
        decreases b.stmts.len() - i,
    {
        proof {
            assert(decreases_to!(*b => b.stmts));
            assert(decreases_to!(b.stmts => b.stmts@));
            assert(decreases_to!(b.stmts@ => b.stmts@[i as int]));
        }
        stmts.push(clone_node(&b.stmts[i]));
        i += 1;
    }
    let mut trailing_trivia: Vec<Trivia> = Vec::new();
    let mut k: usize = 0;
    while k < b.trailing_trivia.len()
        invariant
            k <= b.trailing_trivia@.len(),
            trailing_trivia@.len() == k,
            forall|j: int| 0 <= j < k ==> (#[trigger] trailing_trivia@[j])@ == b.trailing_trivia@[j]@,
        decreases b.trailing_trivia.len() - k,
    {
        trailing_trivia.push(b.trailing_trivia[k].dup());
        k += 1;
    }
    let label = match &b.label {
        Some(l) => Some(Spanned { node: l.node.clone(), span: l.span.start..l.span.end }),
        None => None,
    };
    let r = Block { kind: dup_name(&b.kind), label, stmts, trailing_trivia };
    proof {
        if let StmtV::Block(x) = Stmt::Block(r)@ {
            if let StmtV::Block(y) = Stmt::Block(*b)@ {
                assert(x.stmts =~= y.stmts);
                assert(x.trailing_trivia =~= y.trailing_trivia);
            }
        }
    }
    r
}

/// A copy of a statement.
fn clone_stmt(st: &Stmt) -> (r: Stmt)
    ensures
        r@ == st@,
    decreases st,
{
    match st {
        Stmt::Assign(a) => Stmt::Assign(
            Assign {
                key: dup_name(&a.key),
                value: Spanned { node: a.value.node.clone(), span: a.value.span.start..a.value.span.end },
            },
        ),
        Stmt::Block(b) => {
            proof {
                assert(decreases_to!(*st => (*st)->Block_0));
            }
            Stmt::Block(clone_block(b))
        },
    }
}

/// A copy of a statement node.
fn clone_node(n: &StmtNode) -> (r: StmtNode)
    ensures
        r.view_node() == n.view_node(),
    decreases n,
{
    let mut leading: Vec<Trivia> = Vec::new();
    let mut k: usize = 0;
    while k < n.leading.len()
        invariant
            k <= n.leading@.len(),
            leading@.len() == k,
            forall|j: int| 0 <= j < k ==> (#[trigger] leading@[j])@ == n.leading@[j]@,
        decreases n.leading.len() - k,
    {
        leading.push(n.leading[k].dup());
        k += 1;
    }
    let trailing = match &n.trailing {
        Some(t) => Some(t.dup()),
        None => None,
    };
    let node = clone_stmt(&n.node);
    let r = StmtNode { leading, trailing, node, span: n.span.start..n.span.end };
    assert(trivias_v(r.leading@) =~= trivias_v(n.leading@));
    r
}

impl Clone for Stmt {
    fn clone(&self) -> (r: Self)
        ensures
            r@ == self@,
    {
        clone_stmt(self)
    }
}

impl Clone for StmtNode {
    fn clone(&self) -> (r: Self)
        ensures
            r@ == self@,
    {
        clone_node(self)
    }
}

impl Clone for Block {
    fn clone(&self) -> (r: Self)
        ensures
            Stmt::Block(r)@ == Stmt::Block(*self)@,
    {
        clone_block(self)
    }
}

impl Clone for Assign {
    fn clone(&self) -> (r: Self)
        ensures
            name_v(r.key) == name_v(self.key),
            sexpr_v(r.value) == sexpr_v(self.value),
    {
        Assign {
            key: dup_name(&self.key),
            value: Spanned {
                node: self.value.node.clone(),
                span: self.value.span.start..self.value.span.end,
            },
        }
    }
}

impl Clone for MapEntry {
    fn clone(&self) -> (r: Self)
        ensures
            name_v(r.key) == name_v(self.key),
            sexpr_v(r.value) == sexpr_v(self.value),
    {
        MapEntry {
            key: dup_name(&self.key),
            value: Spanned {
                node: self.value.node.clone(),
                span: self.value.span.start..self.value.span.end,
            },
        }
    }
}

impl Clone for File {
    fn clone(&self) -> (r: Self)
        ensures
            r@ == self@,
    {
        let mut stmts: Vec<StmtNode> = Vec::new();
        let mut i: usize = 0;
        while i < self.stmts.len()
            invariant
                i <= self.stmts@.len(),
                stmts@.len() == i,
                forall|j: int| 0 <= j < i ==> (#[trigger] stmts@[j])@ == self.stmts@[j]@,
            decreases self.stmts.len() - i,
        {
            stmts.push(clone_node(&self.stmts[i]));
            i += 1;
        }
        let mut trailing_trivia: Vec<Trivia> = Vec::new();
        let mut k: usize = 0;
        while k < self.trailing_trivia.len()
            invariant
                k <= self.trailing_trivia@.len(),
                trailing_trivia@.len() == k,
                forall|j: int|
                    0 <= j < k ==> (#[trigger] trailing_trivia@[j])@ == self.trailing_trivia@[j]@,
            decreases self.trailing_trivia.len() - k,
        {
            trailing_trivia.push(self.trailing_trivia[k].dup());
            k += 1;
        }
        let r = File { stmts, trailing_trivia };
        assert(r@.stmts =~= self@.stmts);
        assert(r@.trailing_trivia =~= self@.trailing_trivia);
        r
    }
}

} // verus!
