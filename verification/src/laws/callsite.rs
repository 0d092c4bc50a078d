//! What holds of the solver problems of calls.
use vstd::prelude::*;
use crate::callsite::{
    actual, assertions, bind, bound_declarations, bound_ty, caller_side, callsite_problem, goal,
    goals, hypotheses, hypothesis, linked_symbols, links, put_refs, put_symbol, symbol_declarations,
    BindingView, BoundView, CallView, CalleeSpec, SymbolView,
};
use crate::clauses::{judged_all, kept, refused, ClauseView, SiteView};
use crate::findings::{obligation, Finding};
use crate::locals::{bare_local, sole_index, writes};
use crate::mir_api::{Body, ConstOperand, Operand, Span};
use crate::postcondition::negation;
use crate::predicate::{pair_of, predicate_of};
use crate::text::{listed, opt_view};
use crate::vc::KindView;
use crate::walk::{precondition_findings, Scope};

verus! {

// ---------------------------------------------------------------------------
// Nothing is dropped in silence.
// ---------------------------------------------------------------------------

/// A call of a function that has preconditions is proved or reported: it leaves an obligation with
/// a solver problem and its consistency check, or a coverage gap.
pub proof fn law_precondition_calls_are_never_accepted_unproved(
    sc: Scope,
    c: ConstOperand,
    args: Seq<Operand>,
    span: Span,
    block: int,
)
    requires
        c.path is Some,
        listed(sc.settings.precondition_fns, c.path->0@),
    ensures
        ({
            let fs = precondition_findings(sc, c, args, span, block);
            fs.len() > 0 && match fs[0] {
                Finding::Obligation { kind, .. } => match kind {
                    KindView::CallSitePrecondition {
                        callee_path,
                        discharge_smt,
                        consistency_smt,
                    } => callee_path == c.path->0@ && discharge_smt is Some && consistency_smt
                        is Some,
                    _ => false,
                },
                Finding::Note { kind, .. } => kind
                    == crate::diagnostic::AuditNoteKind::CoverageGap,
                _ => false,
            }
        }),
{
}

/// The goals of a call are as many as the callee has preconditions.
proof fn lemma_goal_count(c: CallView, spec: CalleeSpec, raws: Seq<String>)
    ensures
        goals(c, spec, raws) matches Some((terms, _)) ==> terms.len() == raws.len(),
    decreases raws.len(),
{
    if raws.len() > 0 {
        lemma_goal_count(c, spec, raws.drop_last());
    }
}

/// The problem of a call speaks of every precondition of the callee: there is a goal for each, in
/// order, or there is no problem at all. What is proved is never weaker than what the callee
/// assumes.
pub proof fn law_no_goal_is_dropped(c: CallView, preconditions: Seq<String>, spec: CalleeSpec)
    requires
        callsite_problem(c, preconditions, spec) is Some,
    ensures
        spec.preconditions@.len() > 0,
        goals(c, spec, spec.preconditions@) is Some,
        (goals(c, spec, spec.preconditions@)->0).0.len() == spec.preconditions@.len(),
        forall|i: int|
            0 <= i < spec.preconditions@.len() ==> pair_of(
                (#[trigger] spec.preconditions@[i])@,
            ) is Ok || predicate_of(spec.preconditions@[i]@) is Ok,
{
    lemma_goal_count(c, spec, spec.preconditions@);
    lemma_goals_are_clauses(c, spec, spec.preconditions@);
}

proof fn lemma_goals_are_clauses(c: CallView, spec: CalleeSpec, raws: Seq<String>)
    requires
        goals(c, spec, raws) is Some,
    ensures
        forall|i: int|
            0 <= i < raws.len() ==> pair_of((#[trigger] raws[i])@) is Ok || predicate_of(
                raws[i]@,
            ) is Ok,
    decreases raws.len(),
{
    if raws.len() > 0 {
        lemma_goals_are_clauses(c, spec, raws.drop_last());
        assert forall|i: int| 0 <= i < raws.len() implies pair_of((#[trigger] raws[i])@) is Ok
            || predicate_of(raws[i]@) is Ok by {
            if i < raws.len() - 1 {
                assert(raws[i] == raws.drop_last()[i]);
            }
        }
    }
}

/// Each precondition of the caller is used as a hypothesis or gives rise to a note.
pub proof fn law_caller_clauses_are_used_or_noted(body: Body, raws: Seq<String>)
    ensures
        hypotheses(body, raws).terms.len() + hypotheses(body, raws).notes.len() == raws.len(),
    decreases raws.len(),
{
    if raws.len() > 0 {
        law_caller_clauses_are_used_or_noted(body, raws.drop_last());
    }
}

/// Each precondition at a site is kept as a hypothesis or refused with a reason.
pub proof fn law_clauses_are_kept_or_refused(site: SiteView, raws: Seq<String>)
    ensures
        kept(judged_all(site, raws)).len() + refused(judged_all(site, raws)).len() == raws.len(),
{
    lemma_kept_or_refused(judged_all(site, raws));
}

proof fn lemma_kept_or_refused(clauses: Seq<ClauseView>)
    ensures
        kept(clauses).len() + refused(clauses).len() == clauses.len(),
    decreases clauses.len(),
{
    if clauses.len() > 0 {
        lemma_kept_or_refused(clauses.drop_last());
    }
}

// ---------------------------------------------------------------------------
// Hypotheses.
// ---------------------------------------------------------------------------

/// The problem of a call and its consistency check share all declarations and hypotheses: they
/// differ in the goal alone.
pub proof fn law_call_problems_share_hypotheses(
    c: CallView,
    preconditions: Seq<String>,
    spec: CalleeSpec,
)
    requires
        callsite_problem(c, preconditions, spec) is Some,
    ensures
        exists|given: Seq<char>, terms: Seq<Seq<char>>|
            {
                let p = callsite_problem(c, preconditions, spec)->0;
                &&& p.discharge == #[trigger] (given + "(assert "@) + #[trigger] negation(terms)
                    + ")\n(check-sat)\n"@
                &&& p.consistency == given + "(check-sat)\n"@
            },
{
    let (terms, bound) = goals(c, spec, spec.preconditions@)->0;
    let side = caller_side(c.body, preconditions, bound);
    let given = "(set-logic QF_BV)\n"@ + (symbol_declarations(side.symbols)->0) + (
    bound_declarations(bound)->0) + assertions(side.terms) + links(bound);
    let p = callsite_problem(c, preconditions, spec)->0;
    assert(p.discharge == (given + "(assert "@) + negation(terms) + ")\n(check-sat)\n"@);
    assert(p.consistency == given + "(check-sat)\n"@);
}

/// A parameter that the body ever stores to is never passed on as its entry value.
pub proof fn law_changed_parameters_are_not_entry_values(c: CallView, op: Operand, ty: Seq<char>)
    requires
        bare_local(op) is Some,
        writes(c.body.blocks@, (bare_local(op)->0).0),
    ensures
        actual(c, op, ty) matches Some(b) ==> !(b is CallerArg),
{
}

// ---------------------------------------------------------------------------
// Declared symbols.
// ---------------------------------------------------------------------------

/// Whether the parameters of `symbols` ascend, so that none is declared twice.
pub open spec fn ascending(symbols: Seq<SymbolView>) -> bool {
    forall|i: int, j: int|
        0 <= i < j < symbols.len() ==> (#[trigger] symbols[i]).idx < (#[trigger] symbols[j]).idx
}

/// Whether the parameter `idx` is among `symbols`.
pub open spec fn declares(symbols: Seq<SymbolView>, idx: nat) -> bool {
    exists|i: int| 0 <= i < symbols.len() && (#[trigger] symbols[i]).idx == idx
}

/// Putting a parameter in its place keeps the order, adds that parameter and loses none.
pub proof fn law_symbols_stay_in_order(
    symbols: Seq<SymbolView>,
    idx: nat,
    ty: Seq<char>,
    replace: bool,
)
    requires
        ascending(symbols),
    ensures
        ascending(put_symbol(symbols, idx, ty, replace)),
        forall|x: nat| #[trigger]
            declares(put_symbol(symbols, idx, ty, replace), x) <==> declares(symbols, x) || x
                == idx,
    decreases symbols.len(),
{
    let after = put_symbol(symbols, idx, ty, replace);
    if symbols.len() == 0 || symbols.last().idx < idx {
        assert(after == symbols.push(SymbolView { idx, ty }));
        assert forall|x: nat| #[trigger] declares(after, x) <==> declares(symbols, x) || x
            == idx by {
            if declares(symbols, x) {
                let i = choose|i: int| 0 <= i < symbols.len() && (#[trigger] symbols[i]).idx == x;
                assert(after[i].idx == x);
            }
            if x == idx {
                assert(after[symbols.len() as int].idx == x);
            }
            if declares(after, x) {
                let i = choose|i: int| 0 <= i < after.len() && (#[trigger] after[i]).idx == x;
                if i < symbols.len() {
                    assert(symbols[i].idx == x);
                }
            }
        }
        assert forall|i: int, j: int| 0 <= i < j < after.len() implies (#[trigger] after[i]).idx < (
        #[trigger] after[j]).idx by {
            if j == symbols.len() && i < symbols.len() - 1 {
                assert(symbols[i].idx < symbols[symbols.len() - 1].idx);
            }
        }
    } else if symbols.last().idx == idx {
        assert forall|x: nat| #[trigger] declares(after, x) <==> declares(symbols, x) || x
            == idx by {
            assert(after.len() == symbols.len());
            assert(forall|i: int| 0 <= i < after.len() ==> after[i].idx == symbols[i].idx);
            assert(symbols[symbols.len() - 1].idx == idx);
            if declares(symbols, x) {
                let i = choose|i: int| 0 <= i < symbols.len() && (#[trigger] symbols[i]).idx == x;
                assert(after[i].idx == x);
            }
            if declares(after, x) {
                let i = choose|i: int| 0 <= i < after.len() && (#[trigger] after[i]).idx == x;
                assert(symbols[i].idx == x);
            }
            if x == idx {
                assert(after[symbols.len() - 1].idx == x);
            }
        }
        assert(forall|i: int| 0 <= i < after.len() ==> (#[trigger] after[i]).idx == symbols[i].idx);
    } else {
        let short = symbols.drop_last();
        let inner = put_symbol(short, idx, ty, replace);
        assert(ascending(short)) by {
            assert forall|i: int, j: int| 0 <= i < j < short.len() implies (
            #[trigger] short[i]).idx < (#[trigger] short[j]).idx by {
                assert(symbols[i].idx < symbols[j].idx);
            }
        }
        law_symbols_stay_in_order(short, idx, ty, replace);
        assert(after == inner.push(symbols.last()));
        assert forall|i: int, j: int| 0 <= i < j < after.len() implies (#[trigger] after[i]).idx < (
        #[trigger] after[j]).idx by {
            if j == inner.len() {
                assert(declares(inner, inner[i].idx));
                if inner[i].idx != idx {
                    assert(declares(short, inner[i].idx));
                    let k = choose|k: int|
                        0 <= k < short.len() && (#[trigger] short[k]).idx == inner[i].idx;
                    assert(symbols[k].idx < symbols[symbols.len() - 1].idx);
                }
            } else {
                assert(inner[i].idx < inner[j].idx);
            }
        }
        assert forall|x: nat| #[trigger] declares(after, x) <==> declares(symbols, x) || x
            == idx by {
            if declares(after, x) {
                let i = choose|i: int| 0 <= i < after.len() && (#[trigger] after[i]).idx == x;
                if i < inner.len() {
                    assert(inner[i].idx == x);
                    assert(declares(inner, x));
                    if x != idx {
                        let k = choose|k: int|
                            0 <= k < short.len() && (#[trigger] short[k]).idx == x;
                        assert(symbols[k].idx == x);
                    }
                } else {
                    assert(symbols[symbols.len() - 1].idx == x);
                }
            }
            if declares(symbols, x) {
                let i = choose|i: int| 0 <= i < symbols.len() && (#[trigger] symbols[i]).idx == x;
                if i < short.len() {
                    assert(short[i].idx == x);
                    assert(declares(inner, x));
                    let k = choose|k: int| 0 <= k < inner.len() && (#[trigger] inner[k]).idx == x;
                    assert(after[k].idx == x);
                } else {
                    assert(after[inner.len() as int].idx == x);
                }
            }
            if x == idx {
                assert(declares(inner, x));
                let k = choose|k: int| 0 <= k < inner.len() && (#[trigger] inner[k]).idx == x;
                assert(after[k].idx == x);
            }
        }
    }
}

proof fn lemma_put_refs(symbols: Seq<SymbolView>, refs: Seq<nat>, ty: Seq<char>)
    requires
        ascending(symbols),
    ensures
        ascending(put_refs(symbols, refs, ty)),
        forall|x: nat| #[trigger]
            declares(put_refs(symbols, refs, ty), x) <==> declares(symbols, x) || refs.contains(x),
    decreases refs.len(),
{
    if refs.len() > 0 {
        let short = refs.drop_last();
        lemma_put_refs(symbols, short, ty);
        law_symbols_stay_in_order(put_refs(symbols, short, ty), refs.last(), ty, false);
        assert forall|x: nat| #[trigger] declares(put_refs(symbols, refs, ty), x) <==> declares(
            symbols,
            x,
        ) || refs.contains(x) by {
            assert(declares(put_refs(symbols, short, ty), x) <==> declares(symbols, x)
                || short.contains(x));
            if short.contains(x) {
                let i = choose|i: int| 0 <= i < short.len() && short[i] == x;
                assert(refs[i] == x);
            }
            if refs.contains(x) && x != refs.last() {
                let i = choose|i: int| 0 <= i < refs.len() && refs[i] == x;
                assert(short[i] == x);
            }
            if x == refs.last() {
                assert(refs[refs.len() - 1] == x);
            }
        }
    }
}

/// Whether the parameter `idx` of the caller stands in what `b` is.
pub open spec fn mentions_param(b: BoundView, idx: nat) -> bool {
    match b.binding {
        BindingView::Constant(_) => false,
        BindingView::CallerArg(i) => i == idx,
        BindingView::Expr { refs, .. } => refs.contains(idx),
    }
}

/// The parameters of the caller that the links of a call speak of are declared, in ascending order,
/// and no others are on their account.
pub proof fn law_links_are_declared(bound: Seq<BoundView>)
    ensures
        ascending(linked_symbols(bound)),
        forall|idx: nat| #[trigger]
            declares(linked_symbols(bound), idx) <==> exists|i: int|
                0 <= i < bound.len() && mentions_param(#[trigger] bound[i], idx),
    decreases bound.len(),
{
    let after = linked_symbols(bound);
    if bound.len() == 0 {
        assert(forall|idx: nat| !declares(after, idx));
    } else {
        let short = bound.drop_last();
        let last = bound.last();
        let before = linked_symbols(short);
        law_links_are_declared(short);
        match last.binding {
            BindingView::Constant(_) => {},
            BindingView::CallerArg(i) => {
                law_symbols_stay_in_order(before, i, last.ty, true);
            },
            BindingView::Expr { refs, .. } => {
                lemma_put_refs(before, refs, last.ty);
            },
        }
        assert forall|idx: nat| #[trigger] declares(after, idx) <==> exists|i: int|
            0 <= i < bound.len() && mentions_param(#[trigger] bound[i], idx) by {
            assert(declares(after, idx) <==> declares(before, idx) || mentions_param(last, idx));
            if declares(before, idx) {
                let i = choose|i: int|
                    0 <= i < short.len() && mentions_param(#[trigger] short[i], idx);
                assert(mentions_param(bound[i], idx));
            }
            if mentions_param(last, idx) {
                assert(mentions_param(bound[bound.len() - 1], idx));
            }
            if exists|i: int| 0 <= i < bound.len() && mentions_param(#[trigger] bound[i], idx) {
                let i = choose|i: int|
                    0 <= i < bound.len() && mentions_param(#[trigger] bound[i], idx);
                if i < short.len() {
                    assert(mentions_param(short[i], idx));
                }
            }
        }
    }
}

/// What is known of a callee does not decide whether a call of it has to be proved: a path that is
/// not listed as having preconditions leaves nothing, whatever is known of it.
pub proof fn law_specs_do_not_widen_the_trigger(
    sc: Scope,
    c: ConstOperand,
    args: Seq<Operand>,
    span: Span,
    block: int,
)
    requires
        c.path is None || !listed(sc.settings.precondition_fns, c.path->0@),
    ensures
        precondition_findings(sc, c, args, span, block).len() == 0,
{
}

// ---------------------------------------------------------------------------
// Bound parameters.
// ---------------------------------------------------------------------------

/// Whether each bound parameter is the one parameter of the callee with its name, at its type, and
/// none is bound twice.
pub open spec fn bound_once(spec: CalleeSpec, bound: Seq<BoundView>) -> bool {
    &&& forall|i: int| 0 <= i < bound.len() ==> names_param(spec, #[trigger] bound[i])
    &&& forall|i: int, j: int|
        0 <= i < j < bound.len() ==> (#[trigger] bound[i]).name != (#[trigger] bound[j]).name
}

/// Whether `b` is the one parameter of the callee with its name, at its type.
pub open spec fn names_param(spec: CalleeSpec, b: BoundView) -> bool {
    match sole_index(spec.arg_names@, b.name) {
        Some(k) => k < spec.arg_ty_names@.len() && opt_view(spec.arg_ty_names@[k]) == Some(b.ty),
        None => false,
    }
}

proof fn lemma_unbound_name(bound: Seq<BoundView>, name: Seq<char>, i: int)
    requires
        bound_ty(bound, name) is None,
        0 <= i < bound.len(),
    ensures
        bound[i].name != name,
    decreases bound.len(),
{
    if i < bound.len() - 1 {
        lemma_unbound_name(bound.drop_last(), name, i);
    }
}

/// Binding an identifier binds the one parameter with that name, once: it is added where it was not
/// bound, and nothing changes where it was. A name that is empty, unknown or held by two parameters
/// is not bound.
pub proof fn law_parameters_are_bound_once(
    c: CallView,
    spec: CalleeSpec,
    ident: Seq<char>,
    bound: Seq<BoundView>,
)
    requires
        bound_once(spec, bound),
        bind(c, spec, ident, bound) is Some,
    ensures
        ({
            let (ty, after) = bind(c, spec, ident, bound)->0;
            &&& ident.len() > 0
            &&& bound_once(spec, after)
            &&& exists|i: int|
                0 <= i < after.len() && (#[trigger] after[i]).name == ident && after[i].ty == ty
            &&& match bound_ty(bound, ident) {
                Some(_) => after == bound,
                None => after.len() == bound.len() + 1 && after.drop_last() == bound,
            }
        }),
{
    let (ty, after) = bind(c, spec, ident, bound)->0;
    match bound_ty(bound, ident) {
        Some(found) => {
            lemma_bound_entry(bound, ident);
        },
        None => {
            assert(after.drop_last() =~= bound);
            assert(after[bound.len() as int].name == ident);
            assert forall|i: int, j: int| 0 <= i < j < after.len() implies (
            #[trigger] after[i]).name != (#[trigger] after[j]).name by {
                if j == bound.len() {
                    lemma_unbound_name(bound, ident, i);
                }
            }
        },
    }
}

proof fn lemma_bound_entry(bound: Seq<BoundView>, name: Seq<char>)
    requires
        bound_ty(bound, name) is Some,
    ensures
        exists|i: int|
            0 <= i < bound.len() && (#[trigger] bound[i]).name == name && bound[i].ty == bound_ty(
                bound,
                name,
            )->0,
    decreases bound.len(),
{
    let short = bound.drop_last();
    if bound_ty(short, name) is Some {
        lemma_bound_entry(short, name);
        let i = choose|i: int|
            0 <= i < short.len() && (#[trigger] short[i]).name == name && short[i].ty == bound_ty(
                short,
                name,
            )->0;
        assert(bound[i] == short[i]);
    } else {
        assert(bound[bound.len() - 1].name == name);
    }
}

} // verus!
