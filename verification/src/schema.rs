//! Extension point for schema-aware diagnostics.
//!
//! The parser reports syntactic errors out of the box. Downstream
//! consumers implement [`Schema`] to layer semantic checks (valid keys per
//! block kind, ref resolution, type matching) on the parsed
//! [`File`] tree. Several schemas can be combined: their diagnostics are
//! concatenated in registration order.
use crate::ast::{File, FileV};
use crate::diag::{Diag, DiagV};
use crate::lsp::{diag_views, on_boundaries};
use vstd::prelude::*;
use vstd::string::StringSliceAdditionalSpecFns;

verus! {

/// The bytes of a source text, as the verifier sees them.
pub type SourceBytes = Seq<u8>;

/// A sequence of diagnostics, as the verifier sees them.
pub type DiagSeq = Seq<DiagV>;

/// Schema-driven semantic validator over a parsed file.
///
/// Implementations run after parsing succeeds and return additional
/// diagnostics, errors or warnings (see [`Diag::schema`] and
/// [`Diag::schema_warn`]). Each returned span must start and end on a
/// character boundary of `src` (or at or past its end), so that it can be
/// placed in the editor; that is what an implementation promises.
/// `validated` names what `validate` gives, so `validate` must give the
/// same diagnostics for the same file and text; an implementation outside
/// the verifier gives `validated` any body, since it is never run.
pub trait Schema: Send + Sync {
    /// The diagnostics this schema gives for a parsed file and the bytes
    /// of its source text: what `validate` returns, as the verifier sees
    /// it. Only the verifier reads it; compiled code never calls it.
    spec fn validated(&self, file: FileV, src: SourceBytes) -> DiagSeq;

    /// Validate the parsed file; `src` is its raw source text.
    fn validate(&self, file: &File, src: &str) -> (r: Vec<Diag>)
        ensures
            diag_views(r@) == self.validated(file@, src.spec_bytes()),
            forall|i: int|
                0 <= i < r.len() ==> on_boundaries(src.spec_bytes(), #[trigger] r@[i]@.span),
    ;
}

/// The diagnostics of `schemas`, run in order on the file `f` of the text
/// `s`, concatenated.
pub open spec fn schema_diags<S: Schema + ?Sized>(schemas: Seq<Box<S>>, f: FileV, s: Seq<u8>) -> Seq<
    DiagV,
>
    decreases schemas.len(),
{
    if schemas.len() == 0 {
        Seq::empty()
    } else {
        schema_diags(schemas.drop_last(), f, s) + schemas.last().validated(f, s)
    }
}

} // verus!
