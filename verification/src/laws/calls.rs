//! What a call problem says, and what a refuted one proves of the call.
use vstd::prelude::*;
use crate::callsite::{
    actual, assertions, bind, bound_declarations, bound_ty, caller_param, caller_side,
    callsite_problem, goal, goals, hypotheses, hypothesis, link, linked_symbols, links, put_refs,
    put_symbol, put_symbols, set_symbols, symbol_declarations, BindingView, BoundView, CallView,
    CalleeSpec, SymbolView,
};
use crate::capture::{entry_symbol, mentions, referenced};
use crate::laws::assumptions::{
    clause_true, lemma_entry_symbol_flat, lemma_ident_is_symbol, lemma_info_width,
    lemma_pair_formula, lemma_pin_formula, lemma_predicate_formula, pair_formula, predicate_formula,
    Values,
};
use crate::laws::callsite::{ascending, declares, law_symbols_stay_in_order};
use crate::laws::capture::{
    edge, is_walk, law_operations_mention_their_operands, law_references_are_in_order,
    lemma_decimal_is_symbol, lemma_no_mentions, lemma_symbol_mentions,
};
use crate::laws::clauses::{
    law_clauses_speak_of_identifiers, law_stripping_undoes_asserting, lemma_literal_flat,
};
use crate::laws::meaning::{
    entered_at, held, law_captured_arguments_denote_what_is_passed, steps, steps_all,
    symbols_of_type, travels,
};
use crate::laws::results::{each_holds, lemma_wider};
use crate::laws::runs::{leaves, State};
use crate::laws::scripts::{
    accepted, assertion_holds, assertion_sorted, assertion_text, assertions_text, clause_formula,
    declared_at, declared_text, is_model, lemma_assertions_concat, lemma_clause_formula,
    lemma_declared_concat, lemma_negated_goals, lemma_one_assertion, reads_as, refuted, script_text,
    texts_of, Assertion, Script, WideFormula,
};
use crate::laws::solver::{
    bv_sorted, bv_text, bv_value, formula_holds, formula_sorted, formula_text, is_function_name,
    is_hex_digit, is_pattern, is_symbol, is_width, lemma_relation_names, pattern_of, value_of, Bv,
    Formula,
};
use crate::locals::{
    bare_local, block_writes, local_int_name, sole_at, sole_index, statement_target,
    terminator_target, writes,
};
use crate::mir_api::{BasicBlockData, Body, Statement};
use crate::postcondition::negation;
use crate::predicate::{asserted, int_info, literal_text, pair_of, predicate_of, Comparison};
use crate::text::{decimal, opt_view};

verus! {

/// The width of a type with an encoding.
pub open spec fn bits_of(ty: Seq<char>) -> nat {
    (int_info(ty)->0).1 as nat
}

/// Whether a type with an encoding is signed.
pub open spec fn signed_of(ty: Seq<char>) -> bool {
    (int_info(ty)->0).0
}

// ---------------------------------------------------------------------------
// Bound parameters.
// ---------------------------------------------------------------------------

/// Whether a bound parameter is the one parameter of the callee with its name, at its type, and is
/// bound to the argument at its position.
pub open spec fn comes_from(c: CallView, spec: CalleeSpec, b: BoundView) -> bool {
    exists|i: int|
        {
            &&& #[trigger] sole_at(spec.arg_names@, b.name, i)
            &&& i < spec.arg_ty_names@.len()
            &&& opt_view(spec.arg_ty_names@[i]) == Some(b.ty)
            &&& i < c.args.len()
            &&& actual(c, c.args[i], b.ty) == Some(b.binding)
        }
}

/// Whether bound parameters come from the call, each once and under a symbol.
pub open spec fn bound_well(c: CallView, spec: CalleeSpec, bound: Seq<BoundView>) -> bool {
    &&& forall|k: int|
        0 <= k < bound.len() ==> comes_from(c, spec, #[trigger] bound[k]) && is_symbol(
            bound[k].name,
        )
    &&& forall|i: int, j: int|
        0 <= i < j < bound.len() ==> (#[trigger] bound[i]).name != (#[trigger] bound[j]).name
}

/// Whether the parameter `name` is bound at the type `ty`.
pub open spec fn has(bound: Seq<BoundView>, name: Seq<char>, ty: Seq<char>) -> bool {
    exists|k: int| 0 <= k < bound.len() && (#[trigger] bound[k]).name == name && bound[k].ty == ty
}

/// The names of the parameters that are bound at the type `ty`.
pub open spec fn names_at(bound: Seq<BoundView>, ty: Seq<char>) -> Set<Seq<char>> {
    Set::new(|n: Seq<char>| has(bound, n, ty))
}

pub proof fn lemma_bound_ty(bound: Seq<BoundView>, name: Seq<char>)
    ensures
        bound_ty(bound, name) matches Some(ty) ==> has(bound, name, ty),
        bound_ty(bound, name) is None ==> forall|k: int|
            0 <= k < bound.len() ==> (#[trigger] bound[k]).name != name,
    decreases bound.len(),
{
    if bound.len() > 0 {
        let short = bound.drop_last();
        lemma_bound_ty(short, name);
        if let Some(ty) = bound_ty(short, name) {
            let k = choose|k: int|
                0 <= k < short.len() && (#[trigger] short[k]).name == name && short[k].ty == ty;
            assert(bound[k].name == name && bound[k].ty == ty);
        } else if bound.last().name == name {
            assert(bound[bound.len() - 1].name == name);
        } else {
            assert forall|k: int| 0 <= k < bound.len() implies (#[trigger] bound[k]).name
                != name by {
                if k < short.len() {
                    assert(short[k].name != name);
                }
            }
        }
    }
}

pub proof fn lemma_bind(c: CallView, spec: CalleeSpec, ident: Seq<char>, bound: Seq<BoundView>)
    requires
        bound_well(c, spec, bound),
        is_symbol(ident),
        bind(c, spec, ident, bound) is Some,
    ensures
        ({
            let (ty, after) = bind(c, spec, ident, bound)->0;
            &&& bound_well(c, spec, after)
            &&& has(after, ident, ty)
            &&& bound.is_prefix_of(after)
        }),
{
    let (ty, after) = bind(c, spec, ident, bound)->0;
    lemma_bound_ty(bound, ident);
    if bound_ty(bound, ident) is None {
        let i = sole_index(spec.arg_names@, ident)->0;
        assert(sole_at(spec.arg_names@, ident, i));
        let b = after.last();
        assert(b.name == ident && b.ty == ty);
        assert(sole_at(spec.arg_names@, b.name, i));
        assert(comes_from(c, spec, b));
        assert(after[bound.len() as int] == b);
        assert forall|k: int| 0 <= k < after.len() implies comes_from(c, spec, #[trigger] after[k])
            && is_symbol(after[k].name) by {
            if k < bound.len() {
                assert(after[k] == bound[k]);
            }
        }
        assert forall|i: int, j: int| 0 <= i < j < after.len() implies (#[trigger] after[i]).name
            != (#[trigger] after[j]).name by {
            assert(after[i] == bound[i]);
            if j < bound.len() {
                assert(after[j] == bound[j]);
            }
        }
        assert(after.subrange(0, bound.len() as int) =~= bound);
    } else {
        assert(after.subrange(0, bound.len() as int) =~= bound);
    }
}

proof fn lemma_longer(bound: Seq<BoundView>, after: Seq<BoundView>, ty: Seq<char>)
    requires
        bound.is_prefix_of(after),
    ensures
        forall|n: Seq<char>| #[trigger]
            names_at(bound, ty).contains(n) ==> names_at(after, ty).contains(n),
{
    assert forall|n: Seq<char>| #[trigger] names_at(bound, ty).contains(n) implies names_at(
        after,
        ty,
    ).contains(n) by {
        let k = choose|k: int|
            0 <= k < bound.len() && (#[trigger] bound[k]).name == n && bound[k].ty == ty;
        assert(after.subrange(0, bound.len() as int)[k] == after[k]);
        assert(after[k].name == n && after[k].ty == ty);
    }
}

// ---------------------------------------------------------------------------
// Goals.
// ---------------------------------------------------------------------------

/// The type at which a precondition of a callee is read: that of the parameter on its left side.
pub open spec fn clause_ty(spec: CalleeSpec, raw: Seq<char>) -> Seq<char> {
    let name = match pair_of(raw) {
        Ok(p) => p.lhs,
        Err(_) => (predicate_of(raw)->Ok_0).var,
    };
    opt_view(spec.arg_ty_names@[sole_index(spec.arg_names@, name)->0])->0
}

/// The formula of a precondition of a callee.
pub open spec fn goal_formula(spec: CalleeSpec, raw: Seq<char>) -> WideFormula {
    let ty = clause_ty(spec, raw);
    (clause_formula(raw, signed_of(ty), bits_of(ty)), bits_of(ty))
}

/// The formulas of the preconditions of a callee.
pub open spec fn goal_formulas(spec: CalleeSpec, raws: Seq<String>) -> Seq<WideFormula> {
    raws.map_values(|raw: String| goal_formula(spec, raw@))
}

/// Whether the formula of a precondition is over bound parameters and says what the precondition
/// does.
#[verifier::opaque]
pub open spec fn is_goal(spec: CalleeSpec, bound: Seq<BoundView>, raw: Seq<char>) -> bool {
    let ty = clause_ty(spec, raw);
    let f = goal_formula(spec, raw);
    &&& int_info(ty) is Some
    &&& is_width(f.1)
    &&& formula_sorted(f.0, names_at(bound, ty), f.1)
    &&& forall|val: Values, env: Values| #[trigger]
        reads_as(names_at(bound, ty), signed_of(ty), f.1, val, env) ==> (formula_holds(
            f.0,
            val,
            f.1,
        ) <==> clause_true(raw, env))
}

proof fn lemma_formula_wider(
    f: Formula,
    some: Set<Seq<char>>,
    more: Set<Seq<char>>,
    bits: nat,
)
    requires
        formula_sorted(f, some, bits),
        forall|n: Seq<char>| #[trigger] some.contains(n) ==> more.contains(n),
    ensures
        formula_sorted(f, more, bits),
{
    match f {
        Formula::Related(_, a, b) => {
            lemma_wider(a, some, more, bits);
            lemma_wider(b, some, more, bits);
        },
        Formula::Not(_, a, b) => {
            lemma_wider(a, some, more, bits);
            lemma_wider(b, some, more, bits);
        },
    }
}

proof fn lemma_goal_stays(
    spec: CalleeSpec,
    bound: Seq<BoundView>,
    after: Seq<BoundView>,
    raw: Seq<char>,
)
    requires
        is_goal(spec, bound, raw),
        bound.is_prefix_of(after),
    ensures
        is_goal(spec, after, raw),
{
    reveal(is_goal);
    let ty = clause_ty(spec, raw);
    let f = goal_formula(spec, raw);
    lemma_longer(bound, after, ty);
    lemma_formula_wider(f.0, names_at(bound, ty), names_at(after, ty), f.1);
    assert forall|val: Values, env: Values| #[trigger]
        reads_as(names_at(after, ty), signed_of(ty), f.1, val, env) implies (formula_holds(
        f.0,
        val,
        f.1,
    ) <==> clause_true(raw, env)) by {
        assert(reads_as(names_at(bound, ty), signed_of(ty), f.1, val, env));
    }
}

pub proof fn lemma_name_ty(
    c: CallView,
    spec: CalleeSpec,
    bound: Seq<BoundView>,
    name: Seq<char>,
    ty: Seq<char>,
)
    requires
        bound_well(c, spec, bound),
        has(bound, name, ty),
    ensures
        opt_view(spec.arg_ty_names@[sole_index(spec.arg_names@, name)->0]) == Some(ty),
{
    let k = choose|k: int|
        0 <= k < bound.len() && (#[trigger] bound[k]).name == name && bound[k].ty == ty;
    assert(comes_from(c, spec, bound[k]));
    let i = choose|i: int|
        {
            &&& #[trigger] sole_at(spec.arg_names@, bound[k].name, i)
            &&& i < spec.arg_ty_names@.len()
            &&& opt_view(spec.arg_ty_names@[i]) == Some(bound[k].ty)
            &&& i < c.args.len()
            &&& actual(c, c.args[i], bound[k].ty) == Some(bound[k].binding)
        };
    crate::laws::assumptions::lemma_sole_index(spec.arg_names@, name, i);
}

pub proof fn lemma_goal(c: CallView, spec: CalleeSpec, raw: Seq<char>, bound: Seq<BoundView>)
    requires
        bound_well(c, spec, bound),
        goal(c, spec, raw, bound) is Some,
    ensures
        ({
            let (t, after) = goal(c, spec, raw, bound)->0;
            &&& bound_well(c, spec, after)
            &&& bound.is_prefix_of(after)
            &&& t == formula_text(goal_formula(spec, raw).0)
            &&& is_goal(spec, after, raw)
        }),
{
    reveal(is_goal);
    law_clauses_speak_of_identifiers(raw);
    let (t, after) = goal(c, spec, raw, bound)->0;
    match pair_of(raw) {
        Ok(p) => {
            lemma_ident_is_symbol(p.lhs);
            lemma_ident_is_symbol(p.rhs);
            lemma_bind(c, spec, p.lhs, bound);
            let (ty, once) = bind(c, spec, p.lhs, bound)->0;
            lemma_bind(c, spec, p.rhs, once);
            lemma_longer(once, after, ty);
            assert(names_at(once, ty).contains(p.lhs));
            assert(names_at(after, ty).contains(p.lhs));
            assert(names_at(after, ty).contains(p.rhs));
            assert(bound.is_prefix_of(after)) by {
                assert(after.subrange(0, bound.len() as int) =~= once.subrange(
                    0,
                    bound.len() as int,
                ));
            }
            lemma_name_ty(c, spec, after, p.lhs, ty);
            assert(int_info(ty) is Some);
            lemma_info_width(ty);
            let known = seq![p.lhs, p.rhs];
            assert(known[0] == p.lhs && known[1] == p.rhs);
            lemma_clause_formula(raw, known, names_at(after, ty), ty, signed_of(ty), bits_of(ty));
        },
        Err(_) => {
            let p = predicate_of(raw)->Ok_0;
            lemma_ident_is_symbol(p.var);
            lemma_bind(c, spec, p.var, bound);
            let (ty, _) = bind(c, spec, p.var, bound)->0;
            assert(names_at(after, ty).contains(p.var));
            lemma_name_ty(c, spec, after, p.var, ty);
            assert(int_info(ty) is Some);
            lemma_info_width(ty);
            let known = seq![p.var];
            assert(known[0] == p.var);
            lemma_clause_formula(raw, known, names_at(after, ty), ty, signed_of(ty), bits_of(ty));
        },
    }
}

pub proof fn lemma_goals(c: CallView, spec: CalleeSpec, raws: Seq<String>)
    requires
        goals(c, spec, raws) is Some,
    ensures
        ({
            let (terms, bound) = goals(c, spec, raws)->0;
            &&& bound_well(c, spec, bound)
            &&& terms == texts_of(goal_formulas(spec, raws))
            &&& forall|i: int|
                0 <= i < raws.len() ==> is_goal(spec, bound, (#[trigger] raws[i])@)
        }),
    decreases raws.len(),
{
    let (terms, bound) = goals(c, spec, raws)->0;
    if raws.len() == 0 {
        assert(terms =~= texts_of(goal_formulas(spec, raws)));
    } else {
        let before = raws.drop_last();
        lemma_goals(c, spec, before);
        let (_, once) = goals(c, spec, before)->0;
        lemma_goal(c, spec, raws.last()@, once);
        assert(texts_of(goal_formulas(spec, raws)) =~= texts_of(goal_formulas(spec, before)).push(
            formula_text(goal_formula(spec, raws.last()@).0),
        ));
        assert forall|i: int| 0 <= i < raws.len() implies is_goal(
            spec,
            bound,
            (#[trigger] raws[i])@,
        ) by {
            if i < before.len() {
                assert(before[i] == raws[i]);
                lemma_goal_stays(spec, once, bound, raws[i]@);
            }
        }
    }
}

// ---------------------------------------------------------------------------
// Entry symbols.
// ---------------------------------------------------------------------------

/// Whether a symbol is that of a parameter of the caller, at the type of the parameter.
pub open spec fn symbol_well(body: Body, s: SymbolView) -> bool {
    s.idx < body.arg_names@.len() && local_int_name(body, s.idx as int + 1) == Some(s.ty)
}

/// Whether symbols are those of parameters of the caller, each once.
pub open spec fn symbols_well(body: Body, symbols: Seq<SymbolView>) -> bool {
    ascending(symbols) && forall|k: int|
        0 <= k < symbols.len() ==> symbol_well(body, #[trigger] symbols[k])
}

proof fn lemma_put_symbol(
    body: Body,
    symbols: Seq<SymbolView>,
    idx: nat,
    ty: Seq<char>,
    replace: bool,
)
    requires
        symbols_well(body, symbols),
        symbol_well(body, SymbolView { idx, ty }),
    ensures
        symbols_well(body, put_symbol(symbols, idx, ty, replace)),
        forall|x: nat| #[trigger]
            declares(put_symbol(symbols, idx, ty, replace), x) <==> declares(symbols, x) || x
                == idx,
{
    law_symbols_stay_in_order(symbols, idx, ty, replace);
    lemma_put_items(body, symbols, idx, ty, replace);
}

proof fn lemma_put_items(
    body: Body,
    symbols: Seq<SymbolView>,
    idx: nat,
    ty: Seq<char>,
    replace: bool,
)
    requires
        forall|k: int| 0 <= k < symbols.len() ==> symbol_well(body, #[trigger] symbols[k]),
        symbol_well(body, SymbolView { idx, ty }),
    ensures
        ({
            let all = put_symbol(symbols, idx, ty, replace);
            forall|k: int| 0 <= k < all.len() ==> symbol_well(body, #[trigger] all[k])
        }),
    decreases symbols.len(),
{
    let all = put_symbol(symbols, idx, ty, replace);
    if symbols.len() > 0 && symbols.last().idx > idx {
        lemma_put_items(body, symbols.drop_last(), idx, ty, replace);
        let before = put_symbol(symbols.drop_last(), idx, ty, replace);
        assert forall|k: int| 0 <= k < all.len() implies symbol_well(body, #[trigger] all[k]) by {
            if k < before.len() {
                assert(all[k] == before[k]);
            } else {
                assert(all[k] == symbols[symbols.len() - 1]);
            }
        }
    } else {
        assert forall|k: int| 0 <= k < all.len() implies symbol_well(body, #[trigger] all[k]) by {
            if k < symbols.len() && all[k] != (SymbolView { idx, ty }) {
                assert(all[k] == symbols[k]);
            }
        }
    }
}

proof fn lemma_put_refs_well(
    body: Body,
    symbols: Seq<SymbolView>,
    refs: Seq<nat>,
    ty: Seq<char>,
)
    requires
        symbols_well(body, symbols),
        forall|k: int|
            0 <= k < refs.len() ==> symbol_well(body, SymbolView { idx: #[trigger] refs[k], ty }),
    ensures
        symbols_well(body, put_refs(symbols, refs, ty)),
        forall|x: nat| #[trigger]
            declares(put_refs(symbols, refs, ty), x) <==> declares(symbols, x) || refs.contains(x),
    decreases refs.len(),
{
    if refs.len() > 0 {
        let short = refs.drop_last();
        assert forall|k: int| 0 <= k < short.len() implies symbol_well(
            body,
            SymbolView { idx: #[trigger] short[k], ty },
        ) by {
            assert(short[k] == refs[k]);
        }
        lemma_put_refs_well(body, symbols, short, ty);
        assert(symbol_well(body, SymbolView { idx: refs[refs.len() - 1], ty }));
        lemma_put_symbol(body, put_refs(symbols, short, ty), refs.last(), ty, false);
        assert forall|x: nat| refs.contains(x) <==> short.contains(x) || x == refs.last() by {
            if refs.contains(x) {
                let k = choose|k: int| 0 <= k < refs.len() && refs[k] == x;
                if k < short.len() {
                    assert(short[k] == x);
                }
            }
            if short.contains(x) {
                let k = choose|k: int| 0 <= k < short.len() && short[k] == x;
                assert(refs[k] == x);
            }
            assert(refs[refs.len() - 1] == refs.last());
        }
    }
}

proof fn lemma_set_symbols_well(body: Body, symbols: Seq<SymbolView>, more: Seq<SymbolView>)
    requires
        symbols_well(body, symbols),
        forall|k: int| 0 <= k < more.len() ==> symbol_well(body, #[trigger] more[k]),
    ensures
        symbols_well(body, set_symbols(symbols, more)),
        symbols_well(body, put_symbols(symbols, more)),
        forall|x: nat| #[trigger]
            declares(set_symbols(symbols, more), x) <==> declares(symbols, x) || declares(more, x),
        forall|x: nat| #[trigger]
            declares(put_symbols(symbols, more), x) <==> declares(symbols, x) || declares(more, x),
    decreases more.len(),
{
    if more.len() > 0 {
        let short = more.drop_last();
        let last = more.last();
        assert(symbol_well(body, more[more.len() - 1]));
        lemma_set_symbols_well(body, symbols, short);
        lemma_put_symbol(body, set_symbols(symbols, short), last.idx, last.ty, true);
        lemma_put_symbol(body, put_symbols(symbols, short), last.idx, last.ty, false);
        assert forall|x: nat| declares(more, x) <==> declares(short, x) || x == last.idx by {
            if declares(more, x) {
                let k = choose|k: int| 0 <= k < more.len() && (#[trigger] more[k]).idx == x;
                if k < short.len() {
                    assert(short[k].idx == x);
                }
            }
            if declares(short, x) {
                let k = choose|k: int| 0 <= k < short.len() && (#[trigger] short[k]).idx == x;
                assert(more[k].idx == x);
            }
            assert(more[more.len() - 1].idx == last.idx);
        }
    }
}

/// The entry symbols of the type `ty` among `symbols`.
pub open spec fn symbols_at(symbols: Seq<SymbolView>, ty: Seq<char>) -> Set<Seq<char>> {
    Set::new(
        |n: Seq<char>|
            exists|k: int|
                {
                    &&& 0 <= k < symbols.len()
                    &&& n == entry_symbol((#[trigger] symbols[k]).idx)
                    &&& symbols[k].ty == ty
                },
    )
}

/// A symbol that is declared is declared at the type of its parameter.
proof fn lemma_symbol_at(body: Body, symbols: Seq<SymbolView>, idx: nat, ty: Seq<char>)
    requires
        symbols_well(body, symbols),
        declares(symbols, idx),
        local_int_name(body, idx as int + 1) == Some(ty),
    ensures
        symbols_at(symbols, ty).contains(entry_symbol(idx)),
{
    let k = choose|k: int| 0 <= k < symbols.len() && (#[trigger] symbols[k]).idx == idx;
    assert(symbol_well(body, symbols[k]));
}

// ---------------------------------------------------------------------------
// The caller's preconditions.
// ---------------------------------------------------------------------------

/// Whether `env` gives, for each parameter of the caller with an encodable type that can be told by
/// its name, the value whose pattern `val` gives for its entry symbol.
pub open spec fn enters(body: Body, val: Values, env: Values) -> bool {
    forall|i: nat|
        i < body.arg_names@.len() && (local_int_name(body, i as int + 1) matches Some(ty)
            && int_info(ty) is Some) ==> {
            let ty = local_int_name(body, i as int + 1)->0;
            &&& is_pattern(val(#[trigger] entry_symbol(i)), bits_of(ty))
            &&& sole_at(body.arg_names@, body.arg_names@[i as int]@, i as int) ==> env(
                body.arg_names@[i as int]@,
            ) == value_of(val(entry_symbol(i)), signed_of(ty), bits_of(ty))
        }
}

/// The type and the formula of a precondition of the caller that is used.
pub open spec fn hypothesis_formula(body: Body, raw: Seq<char>) -> WideFormula {
    match pair_of(raw) {
        Ok(p) => {
            let (i, ty) = caller_param(body, p.lhs)->0;
            let (j, _) = caller_param(body, p.rhs)->0;
            (pair_formula(p.op, signed_of(ty), entry_symbol(i), entry_symbol(j)), bits_of(ty))
        },
        Err(_) => {
            let p = predicate_of(raw)->Ok_0;
            let (i, ty) = caller_param(body, p.var)->0;
            (
                predicate_formula(p.op, signed_of(ty), bits_of(ty), entry_symbol(i), p.literal),
                bits_of(ty),
            )
        },
    }
}

/// Whether a formula is over the symbols `symbols` of one type.
pub open spec fn over_symbols(symbols: Seq<SymbolView>, f: WideFormula) -> bool {
    exists|ty: Seq<char>|
        {
            &&& int_info(ty) is Some
            &&& bits_of(ty) == f.1
            &&& formula_sorted(f.0, #[trigger] symbols_at(symbols, ty), f.1)
        }
}

/// Whether the formula of a precondition of the caller is over the symbols `symbols` and says what
/// the precondition does.
#[verifier::opaque]
pub open spec fn is_hypothesis(body: Body, symbols: Seq<SymbolView>, raw: Seq<char>) -> bool {
    let f = hypothesis_formula(body, raw);
    &&& over_symbols(symbols, f)
    &&& forall|val: Values, env: Values| #[trigger]
        enters(body, val, env) ==> (formula_holds(f.0, val, f.1) <==> clause_true(raw, env))
}

proof fn lemma_caller_param(body: Body, ident: Seq<char>)
    requires
        caller_param(body, ident) is Some,
    ensures
        ({
            let (i, ty) = caller_param(body, ident)->0;
            &&& sole_at(body.arg_names@, ident, i as int)
            &&& local_int_name(body, i as int + 1) == Some(ty)
        }),
{
    let i = sole_index(body.arg_names@, ident)->0;
    assert(sole_at(body.arg_names@, ident, i));
}

proof fn lemma_hypothesis(body: Body, raw: Seq<char>)
    requires
        hypothesis(body, raw) is Use,
    ensures
        hypothesis(body, raw)->term == formula_text(hypothesis_formula(body, raw).0),
        is_hypothesis(body, hypothesis(body, raw)->symbols, raw),
        forall|k: int|
            0 <= k < (hypothesis(body, raw)->symbols).len() ==> symbol_well(
                body,
                #[trigger] (hypothesis(body, raw)->symbols)[k],
            ),
{
    reveal(is_hypothesis);
    let symbols = hypothesis(body, raw)->symbols;
    match pair_of(raw) {
        Ok(p) => {
            lemma_caller_param(body, p.lhs);
            lemma_caller_param(body, p.rhs);
            let (i, ty) = caller_param(body, p.lhs)->0;
            let (j, _) = caller_param(body, p.rhs)->0;
            assert(int_info(ty) is Some);
            lemma_info_width(ty);
            let a = entry_symbol(i);
            let b = entry_symbol(j);
            lemma_decimal_is_symbol(i);
            lemma_decimal_is_symbol(j);
            lemma_entry_symbol_flat(i);
            lemma_entry_symbol_flat(j);
            law_stripping_undoes_asserting(p.op, signed_of(ty), a, b);
            let declared = symbols_at(symbols, ty);
            assert(symbols[0].idx == i && symbols[1].idx == j);
            assert(declared.contains(a) && declared.contains(b));
            lemma_pair_formula(p.op, a, b, ty, signed_of(ty), bits_of(ty), declared);
            let f = hypothesis_formula(body, raw);
            assert forall|val: Values, env: Values| #[trigger] enters(body, val, env) implies (
            formula_holds(f.0, val, f.1) <==> clause_true(raw, env)) by {
                assert(is_pattern(val(entry_symbol(i)), bits_of(ty)));
                assert(is_pattern(val(entry_symbol(j)), bits_of(ty)));
            }
        },
        Err(_) => {
            let p = predicate_of(raw)->Ok_0;
            lemma_caller_param(body, p.var);
            let (i, ty) = caller_param(body, p.var)->0;
            assert(int_info(ty) is Some);
            lemma_info_width(ty);
            let a = entry_symbol(i);
            lemma_decimal_is_symbol(i);
            lemma_entry_symbol_flat(i);
            lemma_literal_flat(p.literal, (int_info(ty)->0).1);
            law_stripping_undoes_asserting(
                p.op,
                signed_of(ty),
                a,
                literal_text(p.literal, (int_info(ty)->0).1),
            );
            let declared = symbols_at(symbols, ty);
            assert(symbols[0].idx == i);
            assert(declared.contains(a));
            lemma_predicate_formula(p, a, ty, signed_of(ty), bits_of(ty), declared);
            let f = hypothesis_formula(body, raw);
            assert forall|val: Values, env: Values| #[trigger] enters(body, val, env) implies (
            formula_holds(f.0, val, f.1) <==> clause_true(raw, env)) by {
                assert(is_pattern(val(entry_symbol(i)), bits_of(ty)));
            }
        },
    }
}

/// The formulas of the preconditions of the caller that are used.
pub open spec fn hypothesis_formulas(body: Body, raws: Seq<String>) -> Seq<WideFormula>
    decreases raws.len(),
{
    if raws.len() == 0 {
        seq![]
    } else {
        let before = hypothesis_formulas(body, raws.drop_last());
        if hypothesis(body, raws.last()@) is Use {
            before.push(hypothesis_formula(body, raws.last()@))
        } else {
            before
        }
    }
}

/// Whether the preconditions of the caller that are used are true.
pub open spec fn used_clauses_true(body: Body, raws: Seq<String>, env: Values) -> bool {
    forall|i: int|
        0 <= i < raws.len() && hypothesis(body, (#[trigger] raws[i])@) is Use ==> clause_true(
            raws[i]@,
            env,
        )
}

proof fn lemma_hypothesis_stays(
    body: Body,
    some: Seq<SymbolView>,
    more: Seq<SymbolView>,
    raw: Seq<char>,
)
    requires
        is_hypothesis(body, some, raw),
        forall|k: int| 0 <= k < some.len() ==> symbol_well(body, #[trigger] some[k]),
        symbols_well(body, more),
        forall|x: nat| #[trigger] declares(some, x) ==> declares(more, x),
    ensures
        is_hypothesis(body, more, raw),
{
    reveal(is_hypothesis);
    let f = hypothesis_formula(body, raw);
    let ty = choose|ty: Seq<char>|
        {
            &&& int_info(ty) is Some
            &&& bits_of(ty) == f.1
            &&& formula_sorted(f.0, #[trigger] symbols_at(some, ty), f.1)
        };
    assert forall|n: Seq<char>| #[trigger] symbols_at(some, ty).contains(n) implies symbols_at(
        more,
        ty,
    ).contains(n) by {
        let k = choose|k: int|
            {
                &&& 0 <= k < some.len()
                &&& n == entry_symbol((#[trigger] some[k]).idx)
                &&& some[k].ty == ty
            };
        assert(symbol_well(body, some[k]));
        assert(declares(some, some[k].idx));
        lemma_symbol_at(body, more, some[k].idx, ty);
    }
    lemma_formula_wider(f.0, symbols_at(some, ty), symbols_at(more, ty), f.1);
}

/// What the preconditions of the caller give at a call.
proof fn lemma_hypotheses(body: Body, raws: Seq<String>)
    ensures
        symbols_well(body, hypotheses(body, raws).symbols),
        hypotheses(body, raws).terms == texts_of(hypothesis_formulas(body, raws)),
        forall|i: int|
            0 <= i < raws.len() && hypothesis(body, (#[trigger] raws[i])@) is Use ==> is_hypothesis(
                body,
                hypotheses(body, raws).symbols,
                raws[i]@,
            ),
    decreases raws.len(),
{
    let h = hypotheses(body, raws);
    if raws.len() == 0 {
        assert(h.terms =~= texts_of(hypothesis_formulas(body, raws)));
    } else {
        let before = raws.drop_last();
        lemma_hypotheses(body, before);
        let b = hypotheses(body, before);
        let raw = raws.last()@;
        if hypothesis(body, raw) is Use {
            lemma_hypothesis(body, raw);
            let own = hypothesis(body, raw)->symbols;
            lemma_set_symbols_well(body, b.symbols, own);
            lemma_hypothesis_stays(body, own, h.symbols, raw);
            assert(texts_of(hypothesis_formulas(body, raws)) =~= texts_of(
                hypothesis_formulas(body, before),
            ).push(formula_text(hypothesis_formula(body, raw).0)));
            assert forall|i: int|
                0 <= i < raws.len() && hypothesis(
                    body,
                    (#[trigger] raws[i])@,
                ) is Use implies is_hypothesis(body, h.symbols, raws[i]@) by {
                if i < before.len() {
                    assert(before[i] == raws[i]);
                    lemma_hypothesis_stays(body, b.symbols, h.symbols, raws[i]@);
                }
            }
        } else {
            assert forall|i: int|
                0 <= i < raws.len() && hypothesis(
                    body,
                    (#[trigger] raws[i])@,
                ) is Use implies is_hypothesis(body, h.symbols, raws[i]@) by {
                assert(before[i] == raws[i]);
            }
        }
    }
}

/// The formulas of the used preconditions are true just if the preconditions are, and each is well
/// sorted.
proof fn lemma_hypotheses_true(body: Body, raws: Seq<String>, symbols: Seq<SymbolView>)
    requires
        forall|i: int|
            0 <= i < raws.len() && hypothesis(body, (#[trigger] raws[i])@) is Use ==> is_hypothesis(
                body,
                symbols,
                raws[i]@,
            ),
    ensures
        ({
            let fs = hypothesis_formulas(body, raws);
            &&& forall|val: Values, env: Values| #[trigger]
                enters(body, val, env) ==> (used_clauses_true(body, raws, env) <==> forall|i: int|
                    0 <= i < fs.len() ==> formula_holds((#[trigger] fs[i]).0, val, fs[i].1))
            &&& forall|i: int| 0 <= i < fs.len() ==> over_symbols(symbols, #[trigger] fs[i])
        }),
    decreases raws.len(),
{
    reveal(is_hypothesis);
    if raws.len() > 0 {
        let before = raws.drop_last();
        let raw = raws.last()@;
        let fs = hypothesis_formulas(body, raws);
        let gs = hypothesis_formulas(body, before);
        assert forall|i: int|
            0 <= i < before.len() && hypothesis(
                body,
                (#[trigger] before[i])@,
            ) is Use implies is_hypothesis(body, symbols, before[i]@) by {
            assert(before[i] == raws[i]);
        }
        lemma_hypotheses_true(body, before, symbols);
        assert(raws[raws.len() - 1]@ == raw);
        assert forall|val: Values, env: Values| #[trigger] enters(body, val, env) implies (
        used_clauses_true(body, raws, env) <==> forall|i: int|
            0 <= i < fs.len() ==> formula_holds((#[trigger] fs[i]).0, val, fs[i].1)) by {
            if used_clauses_true(body, raws, env) {
                assert forall|i: int|
                    0 <= i < before.len() && hypothesis(
                        body,
                        (#[trigger] before[i])@,
                    ) is Use implies clause_true(before[i]@, env) by {
                    assert(before[i] == raws[i]);
                }
                assert(used_clauses_true(body, before, env));
                assert forall|i: int| 0 <= i < fs.len() implies formula_holds(
                    (#[trigger] fs[i]).0,
                    val,
                    fs[i].1,
                ) by {
                    if i < gs.len() {
                        assert(fs[i] == gs[i]);
                    }
                }
            }
            if forall|i: int|
                0 <= i < fs.len() ==> formula_holds((#[trigger] fs[i]).0, val, fs[i].1) {
                assert forall|i: int| 0 <= i < gs.len() implies formula_holds(
                    (#[trigger] gs[i]).0,
                    val,
                    gs[i].1,
                ) by {
                    assert(fs[i] == gs[i]);
                }
                assert(used_clauses_true(body, before, env));
                assert forall|i: int|
                    0 <= i < raws.len() && hypothesis(
                        body,
                        (#[trigger] raws[i])@,
                    ) is Use implies clause_true(raws[i]@, env) by {
                    if i < before.len() {
                        assert(before[i] == raws[i]);
                    } else {
                        assert(formula_holds(fs[gs.len() as int].0, val, fs[gs.len() as int].1));
                    }
                }
            }
        }
        assert forall|i: int| 0 <= i < fs.len() implies over_symbols(symbols, #[trigger] fs[i]) by {
            if i < gs.len() {
                assert(fs[i] == gs[i]);
            }
        }
    }
}

// ---------------------------------------------------------------------------
// Links.
// ---------------------------------------------------------------------------

/// Whether `e` is a term of what the parameter `b` is bound to, where it is bound to a captured
/// one.
pub open spec fn is_reading(body: Body, b: BoundView, e: Bv) -> bool {
    b.binding matches BindingView::Expr { smt, .. } ==> bv_text(e) == smt && bv_sorted(
        e,
        symbols_of_type(body, b.ty),
        bits_of(b.ty),
    )
}

/// Whether `es` are terms of what the parameters are bound to.
pub open spec fn are_readings(body: Body, bound: Seq<BoundView>, es: Seq<Bv>) -> bool {
    es.len() == bound.len() && forall|k: int|
        0 <= k < bound.len() ==> is_reading(body, #[trigger] bound[k], es[k])
}

/// The pattern that a parameter is bound to, where `val` gives the patterns of the entry symbols.
pub open spec fn bound_pattern(b: BoundView, e: Bv, val: Values) -> int {
    match b.binding {
        BindingView::Constant(v) => pattern_of(v, bits_of(b.ty)),
        BindingView::CallerArg(i) => val(entry_symbol(i)),
        BindingView::Expr { .. } => bv_value(e, val, bits_of(b.ty)),
    }
}

/// The formula of what a parameter is bound to.
pub open spec fn link_formula(b: BoundView, e: Bv) -> WideFormula {
    (
        match b.binding {
            BindingView::Constant(v) => predicate_formula(
                Comparison::Eq,
                signed_of(b.ty),
                bits_of(b.ty),
                b.name,
                v,
            ),
            BindingView::CallerArg(i) => Formula::Related(
                "="@,
                Bv::Symbol(b.name),
                Bv::Symbol(entry_symbol(i)),
            ),
            BindingView::Expr { .. } => Formula::Related("="@, Bv::Symbol(b.name), e),
        },
        bits_of(b.ty),
    )
}

/// The formulas of what the parameters are bound to.
pub open spec fn link_formulas(bound: Seq<BoundView>, es: Seq<Bv>) -> Seq<WideFormula>
    decreases bound.len(),
{
    if bound.len() == 0 {
        seq![]
    } else {
        link_formulas(bound.drop_last(), es).push(
            link_formula(bound.last(), es[bound.len() - 1]),
        )
    }
}

proof fn lemma_equation_text(a: Seq<char>, t: Seq<char>)
    ensures
        "(assert (= "@ + a + " "@ + t + "))\n"@ == "(assert "@ + ("("@ + "="@ + " "@ + a + " "@ + t
            + ")"@) + ")\n"@,
{
    reveal_strlit("(assert (= ");
    reveal_strlit("(assert ");
    reveal_strlit("(");
    reveal_strlit("=");
    reveal_strlit(" ");
    reveal_strlit(")");
    reveal_strlit(")\n");
    reveal_strlit("))\n");
    assert("(assert (= "@ + a + " "@ + t + "))\n"@ =~= "(assert "@ + ("("@ + "="@ + " "@ + a + " "@
        + t + ")"@) + ")\n"@);
}

proof fn lemma_link(body: Body, b: BoundView, e: Bv, declared: Set<Seq<char>>)
    requires
        is_reading(body, b, e),
        is_symbol(b.name),
        int_info(b.ty) is Some,
        declared.contains(b.name),
        b.binding matches BindingView::CallerArg(i) ==> declared.contains(entry_symbol(i)),
        b.binding is Expr ==> bv_sorted(e, declared, bits_of(b.ty)),
    ensures
        link(b) == assertion_text(Assertion::Holds(link_formula(b, e))),
        formula_sorted(link_formula(b, e).0, declared, bits_of(b.ty)),
        forall|val: Values| #[trigger]
            formula_holds(link_formula(b, e).0, val, bits_of(b.ty)) <==> val(b.name)
                == bound_pattern(b, e, val),
{
    lemma_info_width(b.ty);
    lemma_relation_names();
    match b.binding {
        BindingView::Constant(v) => {
            lemma_pin_formula(b.name, v, b.ty, signed_of(b.ty), bits_of(b.ty), declared);
            let t = formula_text(link_formula(b, e).0);
            reveal_strlit(")");
            reveal_strlit("\n");
            reveal_strlit(")\n");
            assert("(assert "@ + t + ")"@ + "\n"@ =~= "(assert "@ + t + ")\n"@);
        },
        BindingView::CallerArg(i) => {
            lemma_decimal_is_symbol(i);
            lemma_equation_text(b.name, entry_symbol(i));
        },
        BindingView::Expr { smt, .. } => {
            lemma_equation_text(b.name, smt);
        },
    }
}

/// The entry symbols that are mentioned in a text.
pub open spec fn mentioned(t: Seq<char>) -> Set<Seq<char>> {
    Set::new(
        |n: Seq<char>|
            exists|i: nat| mentions(t, 0).contains(i) && n == #[trigger] entry_symbol(i),
    )
}

proof fn lemma_function_name_plain(name: Seq<char>)
    requires
        is_function_name(name),
    ensures
        forall|k: int| 0 <= k < name.len() ==> #[trigger] name[k] != '_',
{
    reveal_strlit("bvadd");
    reveal_strlit("bvsub");
    reveal_strlit("bvmul");
    reveal_strlit("bvudiv");
    reveal_strlit("bvurem");
    reveal_strlit("bvsdiv");
    reveal_strlit("bvsrem");
    reveal_strlit("bvshl");
    reveal_strlit("bvlshr");
    reveal_strlit("bvashr");
}

/// A term over entry symbols mentions just its own.
proof fn lemma_reading(body: Body, ty: Seq<char>, e: Bv, bits: nat)
    requires
        bv_sorted(e, symbols_of_type(body, ty), bits),
    ensures
        bv_sorted(e, mentioned(bv_text(e)), bits),
        forall|n: nat| #[trigger]
            mentions(bv_text(e), 0).contains(n) ==> symbol_well(body, SymbolView { idx: n, ty }),
    decreases e,
{
    let text = bv_text(e);
    match e {
        Bv::Symbol(s) => {
            let i = choose|i: nat|
                {
                    &&& i < body.arg_names@.len()
                    &&& local_int_name(body, i as int + 1) == Some(ty)
                    &&& s == #[trigger] entry_symbol(i)
                };
            assert(body.arg_names.len() == body.arg_names@.len());
            lemma_symbol_mentions(i as usize);
            assert(mentions(text, 0)[0] == i);
            assert(mentions(text, 0).contains(i));
        },
        Bv::Literal(d) => {
            reveal_strlit("#x");
            assert forall|k: int| 0 <= k < text.len() implies #[trigger] text[k] != '_' by {
                if k >= 2 {
                    assert(is_hex_digit(d[k - 2]));
                }
            }
            lemma_no_mentions(text, 0);
        },
        Bv::Apply(name, a, b) => {
            lemma_reading(body, ty, *a, bits);
            lemma_reading(body, ty, *b, bits);
            lemma_function_name_plain(name);
            let ta = bv_text(*a);
            let tb = bv_text(*b);
            law_operations_mention_their_operands(name, ta, tb);
            let ma = mentions(ta, 0);
            let mb = mentions(tb, 0);
            assert(mentions(text, 0) == ma + mb);
            assert forall|n: nat| #[trigger] (ma + mb).contains(n) <==> ma.contains(n)
                || mb.contains(n) by {
                if ma.contains(n) {
                    let k = choose|k: int| 0 <= k < ma.len() && ma[k] == n;
                    assert((ma + mb)[k] == n);
                }
                if mb.contains(n) {
                    let k = choose|k: int| 0 <= k < mb.len() && mb[k] == n;
                    assert((ma + mb)[ma.len() + k] == n);
                }
            }
            assert forall|s: Seq<char>| #[trigger] mentioned(ta).contains(s) implies mentioned(
                text,
            ).contains(s) by {
                let i = choose|i: nat|
                    mentions(ta, 0).contains(i) && s == #[trigger] entry_symbol(i);
                assert((ma + mb).contains(i));
            }
            assert forall|s: Seq<char>| #[trigger] mentioned(tb).contains(s) implies mentioned(
                text,
            ).contains(s) by {
                let i = choose|i: nat|
                    mentions(tb, 0).contains(i) && s == #[trigger] entry_symbol(i);
                assert((ma + mb).contains(i));
            }
            lemma_wider(*a, mentioned(ta), mentioned(text), bits);
            lemma_wider(*b, mentioned(tb), mentioned(text), bits);
        },
    }
}

/// Whether what a parameter is bound to is over declared symbols.
pub open spec fn link_declared(symbols: Seq<SymbolView>, b: BoundView, e: Bv) -> bool {
    match b.binding {
        BindingView::Constant(_) => true,
        BindingView::CallerArg(i) => symbols_at(symbols, b.ty).contains(entry_symbol(i)),
        BindingView::Expr { .. } => bv_sorted(e, symbols_at(symbols, b.ty), bits_of(b.ty)),
    }
}

/// What a bound parameter is bound to is over entry symbols of its own type.
proof fn lemma_binding_well(c: CallView, spec: CalleeSpec, b: BoundView, e: Bv)
    requires
        comes_from(c, spec, b),
        is_reading(c.body, b, e),
    ensures
        b.binding matches BindingView::CallerArg(i) ==> symbol_well(
            c.body,
            SymbolView { idx: i, ty: b.ty },
        ),
        b.binding matches BindingView::Expr { smt, refs } ==> refs == referenced(smt) && forall|
            k: int,
        |
            0 <= k < refs.len() ==> symbol_well(
                c.body,
                SymbolView { idx: #[trigger] refs[k], ty: b.ty },
            ),
{
    if let BindingView::Expr { smt, refs } = b.binding {
        lemma_reading(c.body, b.ty, e, bits_of(b.ty));
        law_references_are_in_order(smt);
        assert forall|k: int| 0 <= k < refs.len() implies symbol_well(
            c.body,
            SymbolView { idx: #[trigger] refs[k], ty: b.ty },
        ) by {
            assert(refs.contains(refs[k]));
            assert(mentions(smt, 0).contains(refs[k]));
        }
    }
}

proof fn lemma_linked(c: CallView, spec: CalleeSpec, bound: Seq<BoundView>, es: Seq<Bv>)
    requires
        forall|k: int| 0 <= k < bound.len() ==> comes_from(c, spec, #[trigger] bound[k]),
        es.len() >= bound.len(),
        forall|k: int| 0 <= k < bound.len() ==> is_reading(c.body, #[trigger] bound[k], es[k]),
    ensures
        symbols_well(c.body, linked_symbols(bound)),
        forall|k: int, x: nat|
            0 <= k < bound.len() && #[trigger] crate::laws::callsite::mentions_param(bound[k], x)
                ==> declares(linked_symbols(bound), x),
    decreases bound.len(),
{
    if bound.len() > 0 {
        let short = bound.drop_last();
        let last = bound.last();
        assert forall|k: int| 0 <= k < short.len() implies comes_from(
            c,
            spec,
            #[trigger] short[k],
        ) by {
            assert(short[k] == bound[k]);
        }
        assert forall|k: int| 0 <= k < short.len() implies is_reading(
            c.body,
            #[trigger] short[k],
            es[k],
        ) by {
            assert(short[k] == bound[k]);
        }
        lemma_linked(c, spec, short, es);
        assert(comes_from(c, spec, bound[bound.len() - 1]));
        lemma_binding_well(c, spec, last, es[bound.len() - 1]);
        let before = linked_symbols(short);
        match last.binding {
            BindingView::Constant(_) => {},
            BindingView::CallerArg(i) => {
                lemma_put_symbol(c.body, before, i, last.ty, true);
            },
            BindingView::Expr { refs, .. } => {
                lemma_put_refs_well(c.body, before, refs, last.ty);
            },
        }
        assert forall|k: int, x: nat|
            0 <= k < bound.len() && #[trigger] crate::laws::callsite::mentions_param(
                bound[k],
                x,
            ) implies declares(linked_symbols(bound), x) by {
            if k < short.len() {
                assert(crate::laws::callsite::mentions_param(short[k], x));
            }
        }
    }
}

/// What a parameter is bound to is over the symbols that the problem declares.
proof fn lemma_link_declared(
    c: CallView,
    spec: CalleeSpec,
    symbols: Seq<SymbolView>,
    b: BoundView,
    e: Bv,
)
    requires
        comes_from(c, spec, b),
        is_reading(c.body, b, e),
        symbols_well(c.body, symbols),
        forall|x: nat|
            #[trigger] crate::laws::callsite::mentions_param(b, x) ==> declares(symbols, x),
    ensures
        link_declared(symbols, b, e),
{
    lemma_binding_well(c, spec, b, e);
    match b.binding {
        BindingView::Constant(_) => {},
        BindingView::CallerArg(i) => {
            assert(crate::laws::callsite::mentions_param(b, i));
            lemma_symbol_at(c.body, symbols, i, b.ty);
        },
        BindingView::Expr { smt, refs } => {
            lemma_reading(c.body, b.ty, e, bits_of(b.ty));
            law_references_are_in_order(smt);
            assert forall|n: Seq<char>| #[trigger] mentioned(smt).contains(n) implies symbols_at(
                symbols,
                b.ty,
            ).contains(n) by {
                let i = choose|i: nat|
                    mentions(smt, 0).contains(i) && n == #[trigger] entry_symbol(i);
                assert(referenced(smt).contains(i));
                assert(crate::laws::callsite::mentions_param(b, i));
                assert(symbol_well(c.body, SymbolView { idx: i, ty: b.ty }));
                lemma_symbol_at(c.body, symbols, i, b.ty);
            }
            lemma_wider(e, mentioned(smt), symbols_at(symbols, b.ty), bits_of(b.ty));
        },
    }
}

// ---------------------------------------------------------------------------
// The problem.
// ---------------------------------------------------------------------------

/// The declarations of entry symbols.
pub open spec fn symbols_declared(symbols: Seq<SymbolView>) -> Seq<(Seq<char>, nat)> {
    symbols.map_values(|s: SymbolView| (entry_symbol(s.idx), bits_of(s.ty)))
}

/// The declarations of bound parameters.
pub open spec fn params_declared(bound: Seq<BoundView>) -> Seq<(Seq<char>, nat)> {
    bound.map_values(|b: BoundView| (b.name, bits_of(b.ty)))
}

/// The formulas of the preconditions of the caller that a problem holds: none unless a bound
/// parameter is linked to a parameter of the caller.
pub open spec fn caller_formulas(
    body: Body,
    preconditions: Seq<String>,
    bound: Seq<BoundView>,
) -> Seq<WideFormula> {
    if linked_symbols(bound).len() == 0 {
        seq![]
    } else {
        hypothesis_formulas(body, preconditions)
    }
}

/// What a call problem assumes, where `es` are terms of what the parameters are bound to.
pub open spec fn call_hypotheses(
    c: CallView,
    preconditions: Seq<String>,
    spec: CalleeSpec,
    es: Seq<Bv>,
) -> Script {
    let bound = (goals(c, spec, spec.preconditions@)->0).1;
    Script {
        declared: symbols_declared(caller_side(c.body, preconditions, bound).symbols)
            + params_declared(bound),
        asserted: each_holds(caller_formulas(c.body, preconditions, bound)) + each_holds(
            link_formulas(bound, es),
        ),
    }
}

/// The problem of a call, where `es` are terms of what the parameters are bound to.
pub open spec fn call_script(
    c: CallView,
    preconditions: Seq<String>,
    spec: CalleeSpec,
    es: Seq<Bv>,
) -> Script {
    let given = call_hypotheses(c, preconditions, spec, es);
    Script {
        declared: given.declared,
        asserted: given.asserted + seq![
            Assertion::NotAll(goal_formulas(spec, spec.preconditions@)),
        ],
    }
}

proof fn lemma_symbol_declarations(symbols: Seq<SymbolView>)
    requires
        symbol_declarations(symbols) is Some,
    ensures
        symbol_declarations(symbols) == Some(declared_text(symbols_declared(symbols))),
        forall|k: int| 0 <= k < symbols.len() ==> int_info((#[trigger] symbols[k]).ty) is Some,
    decreases symbols.len(),
{
    if symbols.len() > 0 {
        let short = symbols.drop_last();
        lemma_symbol_declarations(short);
        assert(symbols_declared(symbols).drop_last() =~= symbols_declared(short));
        assert forall|k: int| 0 <= k < symbols.len() implies int_info((#[trigger] symbols[k]).ty)
            is Some by {
            if k < short.len() {
                assert(short[k] == symbols[k]);
            }
        }
    }
}

proof fn lemma_param_declarations(bound: Seq<BoundView>)
    requires
        bound_declarations(bound) is Some,
    ensures
        bound_declarations(bound) == Some(declared_text(params_declared(bound))),
        forall|k: int| 0 <= k < bound.len() ==> int_info((#[trigger] bound[k]).ty) is Some,
    decreases bound.len(),
{
    if bound.len() > 0 {
        let short = bound.drop_last();
        lemma_param_declarations(short);
        assert(params_declared(bound).drop_last() =~= params_declared(short));
        assert forall|k: int| 0 <= k < bound.len() implies int_info((#[trigger] bound[k]).ty)
            is Some by {
            if k < short.len() {
                assert(short[k] == bound[k]);
            }
        }
    }
}

proof fn lemma_assertions(fs: Seq<WideFormula>)
    ensures
        assertions(texts_of(fs)) == assertions_text(each_holds(fs)),
    decreases fs.len(),
{
    if fs.len() > 0 {
        let short = fs.drop_last();
        lemma_assertions(short);
        assert(texts_of(fs).drop_last() =~= texts_of(short));
        assert(each_holds(fs).drop_last() =~= each_holds(short));
        assert(each_holds(fs).last() == Assertion::Holds(fs.last()));
    }
}

proof fn lemma_link_items(bound: Seq<BoundView>, es: Seq<Bv>)
    requires
        es.len() >= bound.len(),
    ensures
        link_formulas(bound, es).len() == bound.len(),
        forall|k: int|
            0 <= k < bound.len() ==> #[trigger] link_formulas(bound, es)[k] == link_formula(
                bound[k],
                es[k],
            ),
    decreases bound.len(),
{
    if bound.len() > 0 {
        let short = bound.drop_last();
        lemma_link_items(short, es);
        assert forall|k: int| 0 <= k < bound.len() implies #[trigger] link_formulas(bound, es)[k]
            == link_formula(bound[k], es[k]) by {
            if k < short.len() {
                assert(link_formulas(short, es)[k] == link_formula(short[k], es[k]));
            }
        }
    }
}

proof fn lemma_links(body: Body, bound: Seq<BoundView>, es: Seq<Bv>)
    requires
        es.len() >= bound.len(),
        forall|k: int|
            0 <= k < bound.len() ==> is_reading(body, #[trigger] bound[k], es[k]) && is_symbol(
                bound[k].name,
            ) && int_info(bound[k].ty) is Some,
    ensures
        links(bound) == assertions_text(each_holds(link_formulas(bound, es))),
    decreases bound.len(),
{
    if bound.len() > 0 {
        let short = bound.drop_last();
        let e = es[bound.len() - 1];
        let b = bound[bound.len() - 1];
        assert forall|k: int| 0 <= k < short.len() implies is_reading(
            body,
            #[trigger] short[k],
            es[k],
        ) && is_symbol(short[k].name) && int_info(short[k].ty) is Some by {
            assert(short[k] == bound[k]);
        }
        lemma_links(body, short, es);
        assert(is_reading(body, b, e));
        lemma_link_text(body, b, e);
        let all = each_holds(link_formulas(bound, es));
        assert(all.drop_last() =~= each_holds(link_formulas(short, es)));
        assert(all.last() == Assertion::Holds(link_formula(b, e)));
    }
}

proof fn lemma_link_text(body: Body, b: BoundView, e: Bv)
    requires
        is_reading(body, b, e),
        is_symbol(b.name),
        int_info(b.ty) is Some,
    ensures
        link(b) == assertion_text(Assertion::Holds(link_formula(b, e))),
{
    let some = symbols_of_type(body, b.ty);
    let more = if let BindingView::CallerArg(i) = b.binding {
        some.insert(b.name).insert(entry_symbol(i))
    } else {
        some.insert(b.name)
    };
    if b.binding is Expr {
        lemma_wider(e, some, more, bits_of(b.ty));
    }
    lemma_link(body, b, e, more);
}

/// A problem is its parts one after the other.
proof fn lemma_assembled(
    symbols: Seq<char>,
    params: Seq<char>,
    assumed: Seq<char>,
    linked: Seq<char>,
    denied: Seq<char>,
)
    ensures
        "(set-logic QF_BV)\n"@ + symbols + params + assumed + linked + "(check-sat)\n"@
            == "(set-logic QF_BV)\n"@ + (symbols + params) + (assumed + linked)
            + "(check-sat)\n"@,
        "(set-logic QF_BV)\n"@ + symbols + params + assumed + linked + "(assert "@ + denied
            + ")\n(check-sat)\n"@ == "(set-logic QF_BV)\n"@ + (symbols + params) + ((assumed
            + linked) + ("(assert "@ + denied + ")\n"@)) + "(check-sat)\n"@,
{
    reveal_strlit(")\n");
    reveal_strlit("(check-sat)\n");
    reveal_strlit(")\n(check-sat)\n");
    assert(")\n"@ + "(check-sat)\n"@ =~= ")\n(check-sat)\n"@);
    let a = "(set-logic QF_BV)\n"@;
    let q = "(assert "@;
    let z = "(check-sat)\n"@;
    assert(a + symbols + params + assumed + linked + z =~= a + (symbols + params) + (assumed
        + linked) + z);
    assert(a + symbols + params + assumed + linked + q + denied + (")\n"@ + z) =~= a + (symbols
        + params) + ((assumed + linked) + (q + denied + ")\n"@)) + z);
}

/// What is known of the parts of a call problem.
proof fn lemma_parts(c: CallView, preconditions: Seq<String>, spec: CalleeSpec, es: Seq<Bv>)
    requires
        callsite_problem(c, preconditions, spec) is Some,
        are_readings(c.body, (goals(c, spec, spec.preconditions@)->0).1, es),
    ensures
        ({
            let (terms, bound) = goals(c, spec, spec.preconditions@)->0;
            let side = caller_side(c.body, preconditions, bound);
            let hs = caller_formulas(c.body, preconditions, bound);
            &&& bound_well(c, spec, bound)
            &&& terms == texts_of(goal_formulas(spec, spec.preconditions@))
            &&& symbols_well(c.body, side.symbols)
            &&& symbol_declarations(side.symbols) is Some
            &&& bound_declarations(bound) is Some
            &&& side.terms == texts_of(hs)
            &&& forall|k: int| 0 <= k < hs.len() ==> over_symbols(side.symbols, #[trigger] hs[k])
            &&& forall|k: int|
                0 <= k < bound.len() ==> link_declared(side.symbols, #[trigger] bound[k], es[k])
            &&& forall|val: Values, env: Values| #[trigger]
                enters(c.body, val, env) ==> ((forall|k: int|
                    0 <= k < hs.len() ==> formula_holds((#[trigger] hs[k]).0, val, hs[k].1)) <==> (
                linked_symbols(bound).len() == 0 || used_clauses_true(
                    c.body,
                    preconditions,
                    env,
                )))
        }),
{
    let (terms, bound) = goals(c, spec, spec.preconditions@)->0;
    let side = caller_side(c.body, preconditions, bound);
    let linked = linked_symbols(bound);
    let hs = caller_formulas(c.body, preconditions, bound);
    lemma_goals(c, spec, spec.preconditions@);
    lemma_linked(c, spec, bound, es);
    if linked.len() == 0 {
        assert(side.terms =~= texts_of(hs));
        assert(side.symbols == linked || side.symbols =~= linked);
    } else {
        let brought = hypotheses(c.body, preconditions);
        lemma_hypotheses(c.body, preconditions);
        lemma_set_symbols_well(c.body, linked, brought.symbols);
        assert forall|i: int|
            0 <= i < preconditions.len() && hypothesis(
                c.body,
                (#[trigger] preconditions[i])@,
            ) is Use implies is_hypothesis(c.body, side.symbols, preconditions[i]@) by {
            lemma_hypothesis_stays(
                c.body,
                brought.symbols,
                side.symbols,
                preconditions[i]@,
            );
        }
        lemma_hypotheses_true(c.body, preconditions, side.symbols);
    }
    assert forall|k: int| 0 <= k < bound.len() implies link_declared(
        side.symbols,
        #[trigger] bound[k],
        es[k],
    ) by {
        lemma_link_declared(c, spec, side.symbols, bound[k], es[k]);
    }
}

proof fn lemma_call_text(c: CallView, preconditions: Seq<String>, spec: CalleeSpec, es: Seq<Bv>)
    requires
        callsite_problem(c, preconditions, spec) is Some,
        are_readings(c.body, (goals(c, spec, spec.preconditions@)->0).1, es),
    ensures
        (callsite_problem(c, preconditions, spec)->0).discharge == script_text(
            call_script(c, preconditions, spec, es),
        ),
        (callsite_problem(c, preconditions, spec)->0).consistency == script_text(
            call_hypotheses(c, preconditions, spec, es),
        ),
{
    let (terms, bound) = goals(c, spec, spec.preconditions@)->0;
    let side = caller_side(c.body, preconditions, bound);
    let hs = caller_formulas(c.body, preconditions, bound);
    let ls = link_formulas(bound, es);
    let gs = goal_formulas(spec, spec.preconditions@);
    lemma_parts(c, preconditions, spec, es);
    lemma_symbol_declarations(side.symbols);
    lemma_param_declarations(bound);
    lemma_declared_concat(symbols_declared(side.symbols), params_declared(bound));
    lemma_assertions(hs);
    lemma_links(c.body, bound, es);
    lemma_assertions_concat(each_holds(hs), each_holds(ls));
    lemma_assertions_concat(each_holds(hs) + each_holds(ls), seq![Assertion::NotAll(gs)]);
    lemma_one_assertion(Assertion::NotAll(gs));
    lemma_negated_goals(gs);
    lemma_assembled(
        declared_text(symbols_declared(side.symbols)),
        declared_text(params_declared(bound)),
        assertions(side.terms),
        links(bound),
        negation(terms),
    );
}

/// Whether no parameter that a precondition of the callee can speak of has the name of an entry
/// symbol.
pub open spec fn apart_from_symbols(spec: CalleeSpec) -> bool {
    forall|k: int, i: nat|
        0 <= k < spec.arg_names@.len() ==> (#[trigger] spec.arg_names@[k])@
            != #[trigger] entry_symbol(i)
}

proof fn lemma_entry_symbols_differ(i: nat, j: nat)
    requires
        entry_symbol(i) == entry_symbol(j),
    ensures
        i == j,
{
    reveal_strlit("__pb_caller_arg");
    assert(entry_symbol(i).skip(15) =~= decimal(i));
    assert(entry_symbol(j).skip(15) =~= decimal(j));
    crate::laws::reports::law_decimal_read_back(i);
    crate::laws::reports::law_decimal_read_back(j);
}

proof fn lemma_declared_sets(symbols: Seq<SymbolView>, bound: Seq<BoundView>, ty: Seq<char>)
    ensures
        ({
            let d = declared_at(symbols_declared(symbols) + params_declared(bound), bits_of(ty));
            &&& forall|n: Seq<char>| #[trigger]
                symbols_at(symbols, ty).contains(n) ==> d.contains(n)
            &&& forall|n: Seq<char>| #[trigger] names_at(bound, ty).contains(n) ==> d.contains(n)
        }),
{
    let a = symbols_declared(symbols);
    let b = params_declared(bound);
    let d = declared_at(a + b, bits_of(ty));
    assert forall|n: Seq<char>| #[trigger] symbols_at(symbols, ty).contains(n) implies d.contains(
        n,
    ) by {
        let k = choose|k: int|
            {
                &&& 0 <= k < symbols.len()
                &&& n == entry_symbol((#[trigger] symbols[k]).idx)
                &&& symbols[k].ty == ty
            };
        assert((a + b)[k] == (n, bits_of(ty)));
    }
    assert forall|n: Seq<char>| #[trigger] names_at(bound, ty).contains(n) implies d.contains(
        n,
    ) by {
        let k = choose|k: int|
            0 <= k < bound.len() && (#[trigger] bound[k]).name == n && bound[k].ty == ty;
        assert((a + b)[a.len() + k] == (n, bits_of(ty)));
    }
}

proof fn lemma_declared_apart(
    c: CallView,
    spec: CalleeSpec,
    symbols: Seq<SymbolView>,
    bound: Seq<BoundView>,
)
    requires
        bound_well(c, spec, bound),
        symbols_well(c.body, symbols),
        apart_from_symbols(spec),
    ensures
        ({
            let d = symbols_declared(symbols) + params_declared(bound);
            &&& forall|i: int| 0 <= i < d.len() ==> is_symbol((#[trigger] d[i]).0)
            &&& forall|i: int, j: int|
                0 <= i < j < d.len() ==> (#[trigger] d[i]).0 != (#[trigger] d[j]).0
        }),
{
    let a = symbols_declared(symbols);
    let b = params_declared(bound);
    let d = a + b;
    assert forall|i: int| 0 <= i < d.len() implies is_symbol((#[trigger] d[i]).0) by {
        if i < a.len() {
            lemma_decimal_is_symbol(symbols[i].idx);
        } else {
            assert(is_symbol(bound[i - a.len()].name));
        }
    }
    assert forall|i: int, j: int| 0 <= i < j < d.len() implies (#[trigger] d[i]).0 != (
    #[trigger] d[j]).0 by {
        if j < a.len() {
            assert(symbols[i].idx < symbols[j].idx);
            if d[i].0 == d[j].0 {
                lemma_entry_symbols_differ(symbols[i].idx, symbols[j].idx);
            }
        } else {
            let q = bound[j - a.len()];
            if i < a.len() {
                assert(comes_from(c, spec, q));
                let k = choose|k: int|
                    {
                        &&& #[trigger] sole_at(spec.arg_names@, q.name, k)
                        &&& k < spec.arg_ty_names@.len()
                        &&& opt_view(spec.arg_ty_names@[k]) == Some(q.ty)
                        &&& k < c.args.len()
                        &&& actual(c, c.args[k], q.ty) == Some(q.binding)
                    };
                assert(spec.arg_names@[k]@ != entry_symbol(symbols[i].idx));
            } else {
                assert(bound[i - a.len()].name != q.name);
            }
        }
    }
}

proof fn lemma_call_accepted(
    c: CallView,
    preconditions: Seq<String>,
    spec: CalleeSpec,
    es: Seq<Bv>,
)
    requires
        callsite_problem(c, preconditions, spec) is Some,
        are_readings(c.body, (goals(c, spec, spec.preconditions@)->0).1, es),
        apart_from_symbols(spec),
    ensures
        accepted(call_script(c, preconditions, spec, es)),
        accepted(call_hypotheses(c, preconditions, spec, es)),
{
    let (terms, bound) = goals(c, spec, spec.preconditions@)->0;
    let side = caller_side(c.body, preconditions, bound);
    let hs = caller_formulas(c.body, preconditions, bound);
    let ls = link_formulas(bound, es);
    let gs = goal_formulas(spec, spec.preconditions@);
    let s = call_script(c, preconditions, spec, es);
    let given = call_hypotheses(c, preconditions, spec, es);
    lemma_parts(c, preconditions, spec, es);
    lemma_goals(c, spec, spec.preconditions@);
    lemma_param_declarations(bound);
    lemma_declared_apart(c, spec, side.symbols, bound);
    lemma_link_items(bound, es);
    assert forall|i: int| 0 <= i < s.asserted.len() implies assertion_sorted(
        #[trigger] s.asserted[i],
        s.declared,
    ) by {
        if i < hs.len() {
            let f = hs[i];
            assert(s.asserted[i] == Assertion::Holds(f));
            assert(over_symbols(side.symbols, f));
            let ty = choose|ty: Seq<char>|
                {
                    &&& int_info(ty) is Some
                    &&& bits_of(ty) == f.1
                    &&& formula_sorted(f.0, #[trigger] symbols_at(side.symbols, ty), f.1)
                };
            lemma_declared_sets(side.symbols, bound, ty);
            lemma_formula_wider(
                f.0,
                symbols_at(side.symbols, ty),
                declared_at(s.declared, f.1),
                f.1,
            );
        } else if i < hs.len() + ls.len() {
            let k = i - hs.len();
            let b = bound[k];
            assert(ls[k] == link_formula(b, es[k]));
            assert(s.asserted[i] == Assertion::Holds(ls[k]));
            let d = declared_at(s.declared, bits_of(b.ty));
            lemma_declared_sets(side.symbols, bound, b.ty);
            assert(names_at(bound, b.ty).contains(b.name));
            assert(link_declared(side.symbols, b, es[k]));
            if b.binding is Expr {
                lemma_wider(es[k], symbols_at(side.symbols, b.ty), d, bits_of(b.ty));
            }
            assert(is_reading(c.body, b, es[k]));
            lemma_link(c.body, b, es[k], d);
        } else {
            assert(s.asserted[i] == Assertion::NotAll(gs));
            assert forall|k: int| 0 <= k < gs.len() implies formula_sorted(
                (#[trigger] gs[k]).0,
                declared_at(s.declared, gs[k].1),
                gs[k].1,
            ) by {
                let raw = spec.preconditions@[k]@;
                reveal(is_goal);
                assert(is_goal(spec, bound, raw));
                let ty = clause_ty(spec, raw);
                lemma_declared_sets(side.symbols, bound, ty);
                lemma_formula_wider(
                    gs[k].0,
                    names_at(bound, ty),
                    declared_at(s.declared, gs[k].1),
                    gs[k].1,
                );
            }
        }
    }
    assert forall|i: int| 0 <= i < given.asserted.len() implies assertion_sorted(
        #[trigger] given.asserted[i],
        given.declared,
    ) by {
        assert(given.asserted[i] == s.asserted[i]);
    }
}

/// Whether `env` gives the values of the patterns that `val` gives for the bound parameters.
pub open spec fn receives(bound: Seq<BoundView>, val: Values, env: Values) -> bool {
    forall|k: int|
        0 <= k < bound.len() ==> is_pattern(
            val((#[trigger] bound[k]).name),
            bits_of(bound[k].ty),
        ) && env(bound[k].name) == value_of(
            val(bound[k].name),
            signed_of(bound[k].ty),
            bits_of(bound[k].ty),
        )
}

/// Whether each bound parameter has the pattern that it is bound to.
pub open spec fn links_true(bound: Seq<BoundView>, es: Seq<Bv>, val: Values) -> bool {
    forall|k: int|
        0 <= k < bound.len() ==> val((#[trigger] bound[k]).name) == bound_pattern(
            bound[k],
            es[k],
            val,
        )
}

/// Whether what a call problem assumes is true: the preconditions of the caller that are used,
/// where a bound parameter is linked to one of the caller, and the links.
pub open spec fn call_assumptions_true(
    c: CallView,
    preconditions: Seq<String>,
    bound: Seq<BoundView>,
    es: Seq<Bv>,
    val: Values,
    env: Values,
) -> bool {
    &&& linked_symbols(bound).len() == 0 || used_clauses_true(c.body, preconditions, env)
    &&& links_true(bound, es, val)
}

proof fn lemma_given_models(
    c: CallView,
    preconditions: Seq<String>,
    spec: CalleeSpec,
    es: Seq<Bv>,
    val: Values,
    entry: Values,
    passed: Values,
)
    requires
        callsite_problem(c, preconditions, spec) is Some,
        are_readings(c.body, (goals(c, spec, spec.preconditions@)->0).1, es),
        enters(c.body, val, entry),
        receives((goals(c, spec, spec.preconditions@)->0).1, val, passed),
    ensures
        is_model(call_hypotheses(c, preconditions, spec, es), val) <==> call_assumptions_true(
            c,
            preconditions,
            (goals(c, spec, spec.preconditions@)->0).1,
            es,
            val,
            entry,
        ),
{
    let (terms, bound) = goals(c, spec, spec.preconditions@)->0;
    let side = caller_side(c.body, preconditions, bound);
    let hs = caller_formulas(c.body, preconditions, bound);
    let ls = link_formulas(bound, es);
    let s = call_hypotheses(c, preconditions, spec, es);
    let a = symbols_declared(side.symbols);
    lemma_parts(c, preconditions, spec, es);
    lemma_symbol_declarations(side.symbols);
    lemma_param_declarations(bound);
    lemma_link_items(bound, es);
    assert forall|i: int| 0 <= i < s.declared.len() implies is_pattern(
        val((#[trigger] s.declared[i]).0),
        s.declared[i].1,
    ) by {
        if i < a.len() {
            let q = side.symbols[i];
            assert(symbol_well(c.body, q));
            assert(s.declared[i] == (entry_symbol(q.idx), bits_of(q.ty)));
        } else {
            let b = bound[i - a.len()];
            assert(s.declared[i] == (b.name, bits_of(b.ty)));
        }
    }
    assert forall|k: int| 0 <= k < bound.len() implies (formula_holds(
        (#[trigger] ls[k]).0,
        val,
        ls[k].1,
    ) <==> val(bound[k].name) == bound_pattern(bound[k], es[k], val)) by {
        let b = bound[k];
        let d = declared_at(s.declared, bits_of(b.ty));
        lemma_declared_sets(side.symbols, bound, b.ty);
        assert(names_at(bound, b.ty).contains(b.name));
        assert(link_declared(side.symbols, b, es[k]));
        if b.binding is Expr {
            lemma_wider(es[k], symbols_at(side.symbols, b.ty), d, bits_of(b.ty));
        }
        assert(is_reading(c.body, b, es[k]));
        lemma_link(c.body, b, es[k], d);
        assert(ls[k] == link_formula(b, es[k]));
    }
    let holding = forall|i: int|
        0 <= i < hs.len() ==> formula_holds((#[trigger] hs[i]).0, val, hs[i].1);
    if is_model(s, val) {
        assert forall|i: int| 0 <= i < hs.len() implies formula_holds(
            (#[trigger] hs[i]).0,
            val,
            hs[i].1,
        ) by {
            assert(s.asserted[i] == Assertion::Holds(hs[i]));
            assert(assertion_holds(s.asserted[i], val));
        }
        assert forall|k: int| 0 <= k < bound.len() implies val((#[trigger] bound[k]).name)
            == bound_pattern(bound[k], es[k], val) by {
            assert(s.asserted[hs.len() + k] == Assertion::Holds(ls[k]));
            assert(assertion_holds(s.asserted[hs.len() + k], val));
        }
    }
    if holding && links_true(bound, es, val) {
        assert forall|i: int| 0 <= i < s.asserted.len() implies assertion_holds(
            #[trigger] s.asserted[i],
            val,
        ) by {
            if i < hs.len() {
                assert(s.asserted[i] == Assertion::Holds(hs[i]));
            } else {
                let k = i - hs.len();
                assert(s.asserted[i] == Assertion::Holds(ls[k]));
                assert(val(bound[k].name) == bound_pattern(bound[k], es[k], val));
            }
        }
    }
}

proof fn lemma_goal_true(
    c: CallView,
    spec: CalleeSpec,
    bound: Seq<BoundView>,
    raw: Seq<char>,
    val: Values,
    passed: Values,
)
    requires
        is_goal(spec, bound, raw),
        receives(bound, val, passed),
    ensures
        clause_true(raw, passed) <==> formula_holds(
            goal_formula(spec, raw).0,
            val,
            goal_formula(spec, raw).1,
        ),
{
    reveal(is_goal);
    let ty = clause_ty(spec, raw);
    assert(reads_as(names_at(bound, ty), signed_of(ty), bits_of(ty), val, passed)) by {
        assert forall|n: Seq<char>| #[trigger] names_at(bound, ty).contains(n) implies is_pattern(
            val(n),
            bits_of(ty),
        ) && passed(n) == value_of(val(n), signed_of(ty), bits_of(ty)) by {
            let k = choose|k: int|
                0 <= k < bound.len() && (#[trigger] bound[k]).name == n && bound[k].ty == ty;
            assert(bound[k].name == n);
        }
    }
}

proof fn lemma_one_fails(fs: Seq<WideFormula>, val: Values, i: int)
    requires
        0 <= i < fs.len(),
        !formula_holds(fs[i].0, val, fs[i].1),
    ensures
        assertion_holds(Assertion::NotAll(fs), val),
{
    assert(!formula_holds((fs[i]).0, val, fs[i].1));
    assert(exists|k: int|
        0 <= k < fs.len() && !formula_holds((#[trigger] fs[k]).0, val, fs[k].1));
    let a = Assertion::NotAll(fs);
    assert(a->NotAll_0 == fs);
}

proof fn lemma_denied(
    c: CallView,
    spec: CalleeSpec,
    val: Values,
    passed: Values,
)
    requires
        goals(c, spec, spec.preconditions@) is Some,
        receives((goals(c, spec, spec.preconditions@)->0).1, val, passed),
    ensures
        assertion_holds(Assertion::NotAll(goal_formulas(spec, spec.preconditions@)), val)
            <==> exists|i: int|
            0 <= i < spec.preconditions@.len() && !clause_true(
                (#[trigger] spec.preconditions@[i])@,
                passed,
            ),
{
    let raws = spec.preconditions@;
    let bound = (goals(c, spec, raws)->0).1;
    let gs = goal_formulas(spec, raws);
    lemma_goals(c, spec, raws);
    let denied = Assertion::NotAll(gs);
    assert forall|i: int| 0 <= i < raws.len() implies (clause_true(
        (#[trigger] raws[i])@,
        passed,
    ) <==> formula_holds(gs[i].0, val, gs[i].1)) by {
        lemma_goal_true(c, spec, bound, raws[i]@, val, passed);
        assert(gs[i] == goal_formula(spec, raws[i]@));
    }
    assert(gs.len() == raws.len());
    if assertion_holds(denied, val) {
        let i = choose|i: int|
            0 <= i < gs.len() && !formula_holds((#[trigger] gs[i]).0, val, gs[i].1);
        assert(!clause_true(raws[i]@, passed));
    }
    if exists|i: int| 0 <= i < raws.len() && !clause_true((#[trigger] raws[i])@, passed) {
        let i = choose|i: int| 0 <= i < raws.len() && !clause_true((#[trigger] raws[i])@, passed);
        lemma_one_fails(gs, val, i);
    }
}

/// What a call problem says. Let `es` be terms of what the parameters of the callee are bound to.
/// Then its two texts are those of scripts which the solver accepts. The models of the one for
/// consistency are just the patterns of which the used preconditions of the caller and the links
/// are true; those of the one for discharge are the same of which, besides, not all preconditions
/// of the callee are true.
pub proof fn law_call_problems_say_what_they_should(
    c: CallView,
    preconditions: Seq<String>,
    spec: CalleeSpec,
    es: Seq<Bv>,
)
    requires
        callsite_problem(c, preconditions, spec) is Some,
        are_readings(c.body, (goals(c, spec, spec.preconditions@)->0).1, es),
        apart_from_symbols(spec),
    ensures
        ({
            let problem = callsite_problem(c, preconditions, spec)->0;
            let bound = (goals(c, spec, spec.preconditions@)->0).1;
            let given = call_hypotheses(c, preconditions, spec, es);
            let whole = call_script(c, preconditions, spec, es);
            &&& problem.discharge == script_text(whole)
            &&& problem.consistency == script_text(given)
            &&& accepted(whole)
            &&& accepted(given)
            &&& forall|val: Values, entry: Values, passed: Values| #[trigger]
                enters(c.body, val, entry) && #[trigger] receives(bound, val, passed) ==> {
                    &&& is_model(given, val) <==> call_assumptions_true(
                        c,
                        preconditions,
                        bound,
                        es,
                        val,
                        entry,
                    )
                    &&& is_model(whole, val) <==> is_model(given, val) && exists|i: int|
                        0 <= i < spec.preconditions@.len() && !clause_true(
                            (#[trigger] spec.preconditions@[i])@,
                            passed,
                        )
                }
        }),
{
    let bound = (goals(c, spec, spec.preconditions@)->0).1;
    let given = call_hypotheses(c, preconditions, spec, es);
    let whole = call_script(c, preconditions, spec, es);
    let last = Assertion::NotAll(goal_formulas(spec, spec.preconditions@));
    lemma_call_text(c, preconditions, spec, es);
    lemma_call_accepted(c, preconditions, spec, es);
    assert forall|val: Values, entry: Values, passed: Values| #[trigger]
        enters(c.body, val, entry) && #[trigger] receives(bound, val, passed) implies {
        &&& is_model(given, val) <==> call_assumptions_true(
            c,
            preconditions,
            bound,
            es,
            val,
            entry,
        )
        &&& is_model(whole, val) <==> is_model(given, val) && exists|i: int|
            0 <= i < spec.preconditions@.len() && !clause_true(
                (#[trigger] spec.preconditions@[i])@,
                passed,
            )
    } by {
        lemma_given_models(c, preconditions, spec, es, val, entry, passed);
        lemma_denied(c, spec, val, passed);
        let n = given.asserted.len() as int;
        assert(whole.asserted[n] == last);
        if is_model(whole, val) {
            assert(assertion_holds(whole.asserted[n], val));
            assert forall|i: int| 0 <= i < n implies assertion_holds(
                #[trigger] given.asserted[i],
                val,
            ) by {
                assert(whole.asserted[i] == given.asserted[i]);
            }
        }
        if is_model(given, val) && assertion_holds(last, val) {
            assert forall|i: int| 0 <= i < whole.asserted.len() implies assertion_holds(
                #[trigger] whole.asserted[i],
                val,
            ) by {
                if i < n {
                    assert(whole.asserted[i] == given.asserted[i]);
                }
            }
        }
    }
}

// ---------------------------------------------------------------------------
// Runs.
// ---------------------------------------------------------------------------

proof fn lemma_steps_keep(
    block: BasicBlockData,
    stmts: Seq<Statement>,
    s: State,
    t: State,
    signed: bool,
    bits: nat,
    l: u32,
)
    requires
        steps_all(stmts, s, t, signed, bits),
        !block_writes(block, l),
        stmts.len() <= block.statements@.len(),
        forall|i: int| 0 <= i < stmts.len() ==> #[trigger] stmts[i] == block.statements@[i],
    ensures
        t(l) == s(l),
    decreases stmts.len(),
{
    if stmts.len() > 0 {
        let m = choose|m: State|
            steps_all(stmts.drop_last(), s, m, signed, bits) && #[trigger] steps(
                stmts.last(),
                m,
                t,
                signed,
                bits,
            );
        let short = stmts.drop_last();
        assert forall|i: int| 0 <= i < short.len() implies #[trigger] short[i]
            == block.statements@[i] by {
            assert(stmts[i] == block.statements@[i]);
        }
        lemma_steps_keep(block, short, s, m, signed, bits, l);
        let last = block.statements@[stmts.len() - 1];
        assert(stmts[stmts.len() - 1] == last);
        assert(statement_target(last) != Some(l));
        assert(t(l) == m(l));
    }
}

proof fn lemma_travel_keeps(
    body: Body,
    p: Seq<int>,
    s: State,
    t: State,
    signed: bool,
    bits: nat,
    l: u32,
)
    requires
        travels(body, p, s, t, signed, bits),
        forall|i: int| 0 <= i < p.len() ==> 0 <= #[trigger] p[i] < body.blocks@.len(),
        !writes(body.blocks@, l),
    ensures
        t(l) == s(l),
    decreases p.len(),
{
    if p.len() > 0 {
        let (m, n) = choose|m: State, n: State|
            {
                &&& travels(body, p.drop_last(), s, m, signed, bits)
                &&& #[trigger] leaves(body, p.drop_last(), m, n)
                &&& #[trigger] steps_all(
                    body.blocks@[p.last()].statements@,
                    n,
                    t,
                    signed,
                    bits,
                )
            };
        let q = p.drop_last();
        assert forall|i: int| 0 <= i < q.len() implies 0 <= #[trigger] q[i]
            < body.blocks@.len() by {
            assert(q[i] == p[i]);
        }
        lemma_travel_keeps(body, q, s, m, signed, bits, l);
        if q.len() > 0 {
            let before = body.blocks@[q.last()];
            assert(q.last() == p[q.len() - 1]);
            assert(!block_writes(before, l));
            assert(terminator_target(before.terminator.kind) != Some(l));
        }
        assert(n(l) == m(l));
        let block = body.blocks@[p.last()];
        assert(p.last() == p[p.len() - 1]);
        assert(!block_writes(block, l));
        lemma_steps_keep(block, block.statements@, n, t, signed, bits, l);
    }
}

/// A state for each integer type: what the locals hold, as it is seen at that type.
pub type States = spec_fn(Seq<char>) -> State;

/// Whether a run goes along `p` from the states `s` to the states `t`, at every type.
pub open spec fn run_along(body: Body, p: Seq<int>, s: States, t: States) -> bool {
    forall|ty: Seq<char>|
        int_info(ty) is Some ==> travels(
            body,
            p,
            #[trigger] s(ty),
            t(ty),
            signed_of(ty),
            bits_of(ty),
        )
}

/// Whether `val` gives for each entry symbol what the caller was passed, which is a pattern of its
/// type.
pub open spec fn entered(body: Body, s: States, val: Values) -> bool {
    forall|ty: Seq<char>|
        int_info(ty) is Some ==> entered_at(body, ty, #[trigger] s(ty), val, bits_of(ty))
}

/// Whether `val` gives for each parameter of the callee that can be told by its name the pattern of
/// the argument that the call passes for it, and `env` its value.
pub open spec fn passes(
    c: CallView,
    spec: CalleeSpec,
    t: States,
    val: Values,
    env: Values,
) -> bool {
    forall|i: int|
        {
            &&& 0 <= i < spec.arg_names@.len()
            &&& sole_at(spec.arg_names@, spec.arg_names@[i]@, i)
            &&& i < c.args.len()
            &&& i < spec.arg_ty_names@.len()
            &&& opt_view(#[trigger] spec.arg_ty_names@[i]) is Some
            &&& int_info(opt_view(spec.arg_ty_names@[i])->0) is Some
        } ==> {
            let ty = opt_view(spec.arg_ty_names@[i])->0;
            let name = spec.arg_names@[i]@;
            &&& held(c.args[i], t(ty), bits_of(ty)) matches Some(x) ==> val(name) == x
            &&& env(name) == value_of(val(name), signed_of(ty), bits_of(ty))
        }
}

/// What a parameter is bound to is what the call passes, in every run, along every way from the
/// entry to the call: there is a term of it whose value is the pattern of the argument.
proof fn lemma_binding_denotes(
    c: CallView,
    spec: CalleeSpec,
    b: BoundView,
    i: int,
    p: Seq<int>,
    s: States,
    t: States,
    val: Values,
) -> (e: Bv)
    requires
        0 <= i < c.args.len(),
        actual(c, c.args[i], b.ty) == Some(b.binding),
        int_info(b.ty) is Some,
        is_walk(c.body.blocks@, p),
        p.last() == c.block,
        0 <= c.block < c.body.blocks@.len(),
        run_along(c.body, p, s, t),
        entered(c.body, s, val),
    ensures
        is_reading(c.body, b, e),
        held(c.args[i], t(b.ty), bits_of(b.ty)) == Some(bound_pattern(b, e, val)),
        is_pattern(bound_pattern(b, e, val), bits_of(b.ty)),
{
    let op = c.args[i];
    let bits = bits_of(b.ty);
    lemma_info_width(b.ty);
    assert(travels(c.body, p, s(b.ty), t(b.ty), signed_of(b.ty), bits));
    assert(entered_at(c.body, b.ty, s(b.ty), val, bits));
    match b.binding {
        BindingView::Constant(v) => {
            vstd::arithmetic::power2::lemma_pow2_pos(bits);
            Bv::Symbol(b.name)
        },
        BindingView::CallerArg(k) => {
            let l = (bare_local(op)->0).0;
            let blocks = c.body.blocks@;
            assert forall|j: int| 0 <= j < p.len() implies 0 <= #[trigger] p[j] < blocks.len() by {
                if j < p.len() - 1 {
                    assert(edge(blocks, p[j], p[j + 1]));
                }
            }
            lemma_travel_keeps(c.body, p, s(b.ty), t(b.ty), signed_of(b.ty), bits, l);
            assert((k + 1) as u32 == l);
            assert(val(entry_symbol(k)) == s(b.ty)(l));
            Bv::Symbol(b.name)
        },
        BindingView::Expr { smt, .. } => {
            law_captured_arguments_denote_what_is_passed(
                c.body,
                op,
                c.block,
                b.ty,
                p,
                s(b.ty),
                t(b.ty),
                val,
                signed_of(b.ty),
                bits,
            );
            let v = t(b.ty)((bare_local(op)->0).0);
            let e = choose|e: Bv|
                {
                    &&& #[trigger] bv_text(e) == smt
                    &&& bv_sorted(e, symbols_of_type(c.body, b.ty), bits)
                    &&& bv_value(e, val, bits) == v
                };
            e
        },
    }
}

/// The terms of what the parameters are bound to.
proof fn lemma_bindings_denote(
    c: CallView,
    spec: CalleeSpec,
    bound: Seq<BoundView>,
    p: Seq<int>,
    s: States,
    t: States,
    val: Values,
    passed: Values,
) -> (es: Seq<Bv>)
    requires
        forall|k: int|
            0 <= k < bound.len() ==> comes_from(c, spec, #[trigger] bound[k]) && int_info(
                bound[k].ty,
            ) is Some,
        is_walk(c.body.blocks@, p),
        p.last() == c.block,
        0 <= c.block < c.body.blocks@.len(),
        run_along(c.body, p, s, t),
        entered(c.body, s, val),
        passes(c, spec, t, val, passed),
    ensures
        are_readings(c.body, bound, es),
        links_true(bound, es, val),
        receives(bound, val, passed),
    decreases bound.len(),
{
    if bound.len() == 0 {
        Seq::empty()
    } else {
        let short = bound.drop_last();
        let b = bound[bound.len() - 1];
        assert forall|k: int| 0 <= k < short.len() implies comes_from(
            c,
            spec,
            #[trigger] short[k],
        ) && int_info(short[k].ty) is Some by {
            assert(short[k] == bound[k]);
        }
        let before = lemma_bindings_denote(c, spec, short, p, s, t, val, passed);
        assert(comes_from(c, spec, b));
        let i = choose|i: int|
            {
                &&& #[trigger] sole_at(spec.arg_names@, b.name, i)
                &&& i < spec.arg_ty_names@.len()
                &&& opt_view(spec.arg_ty_names@[i]) == Some(b.ty)
                &&& i < c.args.len()
                &&& actual(c, c.args[i], b.ty) == Some(b.binding)
            };
        let e = lemma_binding_denotes(c, spec, b, i, p, s, t, val);
        assert(opt_view(spec.arg_ty_names@[i]) == Some(b.ty));
        let es = before.push(e);
        assert forall|k: int| 0 <= k < bound.len() implies is_reading(
            c.body,
            #[trigger] bound[k],
            es[k],
        ) by {
            if k < short.len() {
                assert(short[k] == bound[k]);
                assert(es[k] == before[k]);
            }
        }
        assert forall|k: int| 0 <= k < bound.len() implies val((#[trigger] bound[k]).name)
            == bound_pattern(bound[k], es[k], val) by {
            if k < short.len() {
                assert(short[k] == bound[k]);
                assert(es[k] == before[k]);
            }
        }
        assert forall|k: int| 0 <= k < bound.len() implies is_pattern(
            val((#[trigger] bound[k]).name),
            bits_of(bound[k].ty),
        ) && passed(bound[k].name) == value_of(
            val(bound[k].name),
            signed_of(bound[k].ty),
            bits_of(bound[k].ty),
        ) by {
            if k < short.len() {
                assert(short[k] == bound[k]);
            }
        }
        es
    }
}

/// A refuted call problem proves that the call meets the preconditions of its callee: in every run,
/// along every way from the entry to the call, if the preconditions of the caller are true of what
/// it was passed, then those of the callee are true of what the call passes.
pub proof fn law_discharged_calls_meet_their_preconditions(
    c: CallView,
    preconditions: Seq<String>,
    spec: CalleeSpec,
    p: Seq<int>,
    s: States,
    t: States,
    val: Values,
    entry: Values,
    passed: Values,
)
    requires
        callsite_problem(c, preconditions, spec) is Some,
        refuted((callsite_problem(c, preconditions, spec)->0).discharge),
        apart_from_symbols(spec),
        is_walk(c.body.blocks@, p),
        p.last() == c.block,
        0 <= c.block < c.body.blocks@.len(),
        run_along(c.body, p, s, t),
        entered(c.body, s, val),
        enters(c.body, val, entry),
        passes(c, spec, t, val, passed),
        forall|i: int|
            0 <= i < preconditions.len() ==> clause_true((#[trigger] preconditions[i])@, entry),
    ensures
        forall|i: int|
            0 <= i < spec.preconditions@.len() ==> clause_true(
                (#[trigger] spec.preconditions@[i])@,
                passed,
            ),
{
    let bound = (goals(c, spec, spec.preconditions@)->0).1;
    lemma_goals(c, spec, spec.preconditions@);
    lemma_param_declarations(bound);
    let es = lemma_bindings_denote(c, spec, bound, p, s, t, val, passed);
    law_call_problems_say_what_they_should(c, preconditions, spec, es);
    let whole = call_script(c, preconditions, spec, es);
    let given = call_hypotheses(c, preconditions, spec, es);
    assert(call_assumptions_true(c, preconditions, bound, es, val, entry));
    assert(is_model(given, val));
    assert(!is_model(whole, val));
}

/// The hypotheses of a call problem are true at the call, so the problem for their consistency is
/// not refuted where a run reaches the call with the preconditions of the caller true.
pub proof fn law_reached_calls_are_consistent(
    c: CallView,
    preconditions: Seq<String>,
    spec: CalleeSpec,
    p: Seq<int>,
    s: States,
    t: States,
    val: Values,
    entry: Values,
    passed: Values,
)
    requires
        callsite_problem(c, preconditions, spec) is Some,
        apart_from_symbols(spec),
        is_walk(c.body.blocks@, p),
        p.last() == c.block,
        0 <= c.block < c.body.blocks@.len(),
        run_along(c.body, p, s, t),
        entered(c.body, s, val),
        enters(c.body, val, entry),
        passes(c, spec, t, val, passed),
        forall|i: int|
            0 <= i < preconditions.len() ==> clause_true((#[trigger] preconditions[i])@, entry),
    ensures
        !refuted((callsite_problem(c, preconditions, spec)->0).consistency),
{
    let bound = (goals(c, spec, spec.preconditions@)->0).1;
    lemma_goals(c, spec, spec.preconditions@);
    lemma_param_declarations(bound);
    let es = lemma_bindings_denote(c, spec, bound, p, s, t, val, passed);
    law_call_problems_say_what_they_should(c, preconditions, spec, es);
    let given = call_hypotheses(c, preconditions, spec, es);
    assert(call_assumptions_true(c, preconditions, bound, es, val, entry));
    assert(is_model(given, val));
    assert(script_text(given) == (callsite_problem(c, preconditions, spec)->0).consistency);
}

} // verus!
