//! Checking a grouped score for diagnostics: every document- and
//! measure-level diagnostic, and whether any of them is an error.

use crate::ast::grouped::{MultiPartMeasure, Score};
use crate::compiler::types::{clone_diagnostics, diagnostics_view};
use crate::error::{Diagnostic, DiagnosticView};
use vstd::prelude::*;

verus! {

/// Outcome of checking a score for diagnostics.
pub struct CheckOutcome {
    /// `true` when there is no error (warnings are allowed).
    pub ok: bool,
    pub diagnostics: Vec<Diagnostic>,
}

/// The diagnostics of the first `n` measures, in order.
pub open spec fn measure_diagnostics(ms: Seq<MultiPartMeasure>, n: int) -> Seq<DiagnosticView>
    decreases n,
{
    if n <= 0 {
        Seq::empty()
    } else {
        measure_diagnostics(ms, n - 1) + diagnostics_view(ms[n - 1].diagnostics@)
    }
}

/// Every diagnostic of the score: the document's, then each measure's.
pub open spec fn score_diagnostics(score: Score) -> Seq<DiagnosticView> {
    diagnostics_view(score.document_diagnostics@) + measure_diagnostics(
        score.measures@,
        score.measures@.len() as int,
    )
}

pub fn collect_measure_diagnostics(score: &Score) -> (v: Vec<Diagnostic>)
    ensures
        diagnostics_view(v@) == score_diagnostics(*score),
{
    let mut out = clone_diagnostics(&score.document_diagnostics);
    let ghost d0 = diagnostics_view(out@);
    for i in 0..score.measures.len()
        invariant
            diagnostics_view(out@) == d0 + measure_diagnostics(score.measures@, i as int),
            d0 == diagnostics_view(score.document_diagnostics@),
    {
        let mut more = clone_diagnostics(&score.measures[i].diagnostics);
        let ghost o0 = out@;
        let ghost m0 = more@;
        out.append(&mut more);
        assert(diagnostics_view(out@) =~= diagnostics_view(o0) + diagnostics_view(m0));
        assert(measure_diagnostics(score.measures@, i + 1) == measure_diagnostics(score.measures@, i as int)
            + diagnostics_view(score.measures@[i as int].diagnostics@));
    }
    out
}

/// Checks a grouped score: all its diagnostics, and whether none of them is
/// an error.
pub fn check(score: &Score) -> (r: CheckOutcome)
    ensures
        diagnostics_view(r.diagnostics@) == score_diagnostics(*score),
        r.ok == forall|i: int| 0 <= i < r.diagnostics@.len() ==> !(#[trigger] r.diagnostics@[i] is Error),
        r.ok == forall|i: int|
            0 <= i < score_diagnostics(*score).len() ==> !(#[trigger] score_diagnostics(*score)[i]).is_error,
{
    let diagnostics = collect_measure_diagnostics(score);
    let mut ok = true;
    for i in 0..diagnostics.len()
        invariant
            ok == forall|k: int| 0 <= k < i ==> !(#[trigger] diagnostics@[k] is Error),
    {
        if diagnostics[i].is_error() {
            ok = false;
        }
    }
    proof {
        let dv = diagnostics_view(diagnostics@);
        assert(dv == score_diagnostics(*score));
        if ok {
            assert forall|k: int| 0 <= k < dv.len() implies !(#[trigger] dv[k]).is_error by {
                assert(!(diagnostics@[k] is Error));
            }
        } else {
            let k = choose|k: int| 0 <= k < diagnostics@.len() && #[trigger] diagnostics@[k] is Error;
            assert(dv[k].is_error);
        }
    }
    CheckOutcome { ok, diagnostics }
}

} // verus!
