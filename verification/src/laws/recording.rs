//! What reports hold: every finding, in its list and in its order.
use vstd::prelude::*;
use crate::findings::{Finding, Tally};
use crate::laws::bodies::{
    has_known_size, is_packed, law_known_sizes_are_estimated,
    law_size_is_exact_where_nothing_is_wasted,
};
use crate::laws::constructs::refused_by;
use crate::mir_api::{LocalDecl, Ty};
use crate::rules;
use crate::types::ty_findings;
use crate::vc::id_stem;
use crate::text::decimal;
use crate::walk::{local_findings, Scope};

verus! {

/// How many of the first `n` of `fs` are of the kind that `of` tells.
pub open spec fn how_many(fs: Seq<Finding>, of: spec_fn(Finding) -> bool, n: nat) -> nat
    decreases n,
{
    if n == 0 || n > fs.len() {
        0
    } else {
        how_many(fs, of, (n - 1) as nat) + if of(fs[n - 1]) {
            1nat
        } else {
            0nat
        }
    }
}

/// Whether a finding is a violation.
pub open spec fn of_violations() -> spec_fn(Finding) -> bool {
    |f: Finding| f is Violation
}

/// Whether a finding is a note.
pub open spec fn of_notes() -> spec_fn(Finding) -> bool {
    |f: Finding| f is Note
}

/// Whether a finding is an obligation.
pub open spec fn of_obligations() -> spec_fn(Finding) -> bool {
    |f: Finding| f is Obligation
}

/// A report holds every finding that was recorded, each once: a violation with its rule, place and
/// detail, a note with its kind, place and message, an obligation with its kind, place and
/// hypotheses under an id of its own. Each stands behind those of its list that came before it, and
/// what the report held stays.
pub proof fn law_reports_hold_every_finding(t: Tally, fs: Seq<Finding>, i: int)
    ensures
        ({
            let r = t.record(fs);
            &&& r.errors.len() == t.errors.len() + how_many(fs, of_violations(), fs.len())
            &&& r.notes.len() == t.notes.len() + how_many(fs, of_notes(), fs.len())
            &&& r.obligations.len() == t.obligations.len() + how_many(
                fs,
                of_obligations(),
                fs.len(),
            )
            &&& t.errors.is_prefix_of(r.errors)
            &&& t.notes.is_prefix_of(r.notes)
            &&& t.obligations.is_prefix_of(r.obligations)
            &&& 0 <= i < fs.len() ==> match fs[i] {
                Finding::Violation { rule, span, detail } => {
                    let k = t.errors.len() + how_many(fs, of_violations(), i as nat);
                    k < r.errors.len() && r.errors[k as int].rule == rule && r.errors[k as int].span
                        == span && r.errors[k as int].detail == detail
                },
                Finding::Note { kind, span, message } => {
                    let k = t.notes.len() + how_many(fs, of_notes(), i as nat);
                    k < r.notes.len() && r.notes[k as int].kind == kind && r.notes[k as int].span
                        == span && r.notes[k as int].message == message
                },
                Finding::Obligation { span, kind, assumptions } => {
                    let k = t.obligations.len() + how_many(fs, of_obligations(), i as nat);
                    k < r.obligations.len() && r.obligations[k as int].kind == kind
                        && r.obligations[k as int].span == span
                        && r.obligations[k as int].assumptions == assumptions
                        && r.obligations[k as int].id == id_stem(kind) + decimal(k)
                },
            }
        }),
    decreases fs.len(),
{
    let r = t.record(fs);
    if fs.len() == 0 {
        assert(r.errors.subrange(0, t.errors.len() as int) =~= t.errors);
        assert(r.notes.subrange(0, t.notes.len() as int) =~= t.notes);
        assert(r.obligations.subrange(0, t.obligations.len() as int) =~= t.obligations);
    } else {
        let short = fs.drop_last();
        let before = t.record(short);
        law_reports_hold_every_finding(t, short, i);
        lemma_shorter(fs, of_violations(), short.len());
        lemma_shorter(fs, of_notes(), short.len());
        lemma_shorter(fs, of_obligations(), short.len());
        if 0 <= i < short.len() {
            assert(short[i] == fs[i]);
            lemma_shorter(fs, of_violations(), i as nat);
            lemma_shorter(fs, of_notes(), i as nat);
            lemma_shorter(fs, of_obligations(), i as nat);
        }
        assert(fs[fs.len() - 1] == fs.last());
        assert(r.errors.subrange(0, t.errors.len() as int) =~= before.errors.subrange(
            0,
            t.errors.len() as int,
        ));
        assert(r.notes.subrange(0, t.notes.len() as int) =~= before.notes.subrange(
            0,
            t.notes.len() as int,
        ));
        assert(r.obligations.subrange(0, t.obligations.len() as int)
            =~= before.obligations.subrange(0, t.obligations.len() as int));
    }
}

proof fn lemma_shorter(fs: Seq<Finding>, of: spec_fn(Finding) -> bool, n: nat)
    requires
        n < fs.len(),
    ensures
        how_many(fs.drop_last(), of, n) == how_many(fs, of, n),
    decreases n,
{
    if n > 0 {
        lemma_shorter(fs, of, (n - 1) as nat);
        assert(fs.drop_last()[n - 1] == fs[n - 1]);
    }
}

/// A local whose size can be told is refused for its size just if it takes more than the limit, in
/// a layout that wastes nothing, with pointers of the target's width.
pub proof fn law_oversized_locals_are_refused(
    sc: Scope,
    local: LocalDecl,
    layout: spec_fn(Ty) -> nat,
)
    requires
        is_packed(
            layout,
            (sc.settings.config.subset.target_pointer_width / 8) as nat,
        ),
        has_known_size(local.ty),
        layout(local.ty) < u64::MAX,
    ensures
        layout(local.ty) > sc.settings.config.subset.stack_allocation_limit_bytes ==> refused_by(
            local_findings(sc, local),
            rules::PB020,
        ),
        layout(local.ty) <= sc.settings.config.subset.stack_allocation_limit_bytes
            ==> local_findings(sc, local) == ty_findings(local.ty, local.span),
{
    let ptr = (sc.settings.config.subset.target_pointer_width / 8) as nat;
    law_known_sizes_are_estimated(local.ty, ptr);
    law_size_is_exact_where_nothing_is_wasted(local.ty, layout, ptr);
    let fs = local_findings(sc, local);
    let own = ty_findings(local.ty, local.span);
    if layout(local.ty) > sc.settings.config.subset.stack_allocation_limit_bytes {
        assert(fs[own.len() as int] matches Finding::Violation { rule, .. } && rule
            == rules::PB020);
    } else {
        assert(fs =~= own);
    }
}

} // verus!
