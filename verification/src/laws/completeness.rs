//! What can be said is said: clauses that can be translated become hypotheses and goals.
use vstd::prelude::*;
use crate::callsite::{actual, bind, bound_ty, goal, goals, BoundView, CallView, CalleeSpec};
use crate::clauses::{index_names, judged_all, kept, ClauseView, SiteView};
use crate::laws::assumptions::{
    asserts_just, hypotheses_of, index_symbols, is_pointer_width, lemma_ident_is_symbol,
    lemma_info_width, lemma_kept_has, lemma_operand_arg, lemma_operand_symbols, lemma_pair_formula,
    lemma_pin_formula, lemma_predicate_formula, lemma_range_is_value, lemma_sole_index,
    operand_symbols, pair_formula, predicate_formula, reads_parameter, Values,
};
use crate::laws::calls::{bound_well, lemma_bind, lemma_bound_ty, lemma_goals, lemma_name_ty};
use crate::laws::clauses::{
    law_clause_forms_exclude_each_other, law_clauses_have_terms, law_clauses_speak_of_identifiers,
};
use crate::laws::solver::{
    compares, formula_holds, formula_sorted, formula_text, is_pattern, is_value, is_width,
    pattern_of, value_of, Formula,
};
use crate::locals::{operand_arg, operand_int_name, sole_at};
use crate::mir_api::{BinOp, Operand, Span};
use crate::predicate::{int_info, pair_of, predicate_of, Comparison};
use crate::text::{begins, opt_view};
use crate::walk::{
    constant_pin, constant_value, index_findings, index_ty, negation_findings, operand_pins,
    overflow_findings, Scope,
};

verus! {

/// A bound on the amount of a shift is a hypothesis also where the amount has a type of its own, if
/// that is unsigned and no wider than the shifted type: it is true of just the patterns whose
/// values keep the bound.
pub proof fn law_bounds_on_amounts_are_assumed(
    sc: Scope,
    binop: BinOp,
    lhs: Operand,
    rhs: Operand,
    span: Span,
    left: Seq<char>,
    right: Seq<char>,
    signed: bool,
    bits: nat,
    width: u32,
    k: int,
    i: int,
)
    requires
        binop == BinOp::Shl || binop == BinOp::Shr,
        operand_int_name(sc.body, lhs) == Some(left),
        operand_int_name(sc.body, rhs) == Some(right),
        is_width(bits),
        int_info(left) == Some((signed, bits as u32)),
        int_info(right) == Some((false, width)),
        width <= bits,
        0 <= k < sc.settings.preconditions.len(),
        predicate_of(sc.settings.preconditions[k]@) matches Ok(p) && is_value(
            p.literal,
            signed,
            bits,
        ) && 0 <= i < sc.body.arg_names@.len() && sc.body.arg_names@[i]@ == p.var,
        reads_parameter(rhs, i),
        forall|j: int|
            0 <= j < sc.body.arg_names@.len() && reads_parameter(lhs, j) ==> (
            #[trigger] sc.body.arg_names@[j])@ != sc.body.arg_names@[i]@,
    ensures
        ({
            let p = predicate_of(sc.settings.preconditions[k]@)->Ok_0;
            let given = hypotheses_of(overflow_findings(sc, binop, lhs, rhs, span));
            exists|n: int|
                0 <= n < given.len() && asserts_just(
                    #[trigger] given[n],
                    operand_symbols(),
                    "rhs"@,
                    |x: int| compares(p.op, value_of(x, signed, bits), p.literal),
                    bits,
                )
        }),
{
    let raw = sc.settings.preconditions[k]@;
    let p = predicate_of(raw)->Ok_0;
    let mixed = left != right;
    let given = hypotheses_of(overflow_findings(sc, binop, lhs, rhs, span));
    let site = SiteView::Arithmetic {
        lhs_arg: operand_arg(sc.body, lhs),
        rhs_arg: operand_arg(sc.body, rhs),
        ty: left,
    };
    let clauses = judged_all(site, sc.settings.preconditions);
    lemma_operand_symbols();
    law_clauses_speak_of_identifiers(raw);
    lemma_range_is_value(p.literal, signed, bits as u32);
    lemma_predicate_formula(p, "rhs"@, left, signed, bits, operand_symbols());
    let f = predicate_formula(p.op, signed, bits, "rhs"@, p.literal);
    let a = "(assert "@ + formula_text(f) + ")"@;
    if operand_arg(sc.body, lhs) is Some {
        lemma_operand_arg(sc.body, lhs, operand_arg(sc.body, lhs)->0);
    }
    assert(clauses[k] == ClauseView::Keep(a));
    lemma_kept_has(clauses, k, a);
    let pins = operand_pins(lhs, rhs, left, mixed);
    assert(given == pins + kept(clauses));
    let j = choose|j: int| 0 <= j < kept(clauses).len() && kept(clauses)[j] == a;
    assert(given[pins.len() + j] == a);
    let truth = |x: int| compares(p.op, value_of(x, signed, bits), p.literal);
    assert(asserts_just(given[pins.len() + j], operand_symbols(), "rhs"@, truth, bits));
}

/// What is known of the operand of a negation is a hypothesis: that a constant is its value, and a
/// bound on a parameter by a value of its type.
pub proof fn law_negated_operands_are_assumed(
    sc: Scope,
    op: Operand,
    span: Span,
    ty: Seq<char>,
    bits: nat,
    k: int,
    i: int,
)
    requires
        operand_int_name(sc.body, op) == Some(ty),
        begins(ty, "i"),
        is_width(bits),
        int_info(ty) == Some((true, bits as u32)),
    ensures
        ({
            let given = hypotheses_of(negation_findings(sc, op, span));
            &&& (op matches Operand::Constant(c) && c.value is Some) ==> exists|n: int|
                0 <= n < given.len() && asserts_just(
                    #[trigger] given[n],
                    operand_symbols(),
                    "lhs"@,
                    |x: int| x == pattern_of((op->Constant_0).value->0 as int, bits),
                    bits,
                )
            &&& 0 <= k < sc.settings.preconditions.len() && (predicate_of(
                sc.settings.preconditions[k]@,
            ) matches Ok(p) && is_value(p.literal, true, bits) && 0 <= i < sc.body.arg_names@.len()
                && sc.body.arg_names@[i]@ == p.var) && reads_parameter(op, i) ==> exists|n: int|
                0 <= n < given.len() && asserts_just(
                    #[trigger] given[n],
                    operand_symbols(),
                    "lhs"@,
                    |x: int|
                        compares(
                            (predicate_of(sc.settings.preconditions[k]@)->Ok_0).op,
                            value_of(x, true, bits),
                            (predicate_of(sc.settings.preconditions[k]@)->Ok_0).literal,
                        ),
                    bits,
                )
        }),
{
    let given = hypotheses_of(negation_findings(sc, op, span));
    let site = SiteView::Negation { arg: operand_arg(sc.body, op), ty };
    let clauses = judged_all(site, sc.settings.preconditions);
    let pins = constant_pin("lhs", op, ty);
    lemma_operand_symbols();
    assert(given == pins + kept(clauses));
    if constant_value(op) is Some {
        let v = constant_value(op)->0 as int;
        lemma_pin_formula("lhs"@, v, ty, true, bits, operand_symbols());
        let f = predicate_formula(Comparison::Eq, true, bits, "lhs"@, v);
        assert(given[0] == "(assert "@ + formula_text(f) + ")"@);
    }
    if 0 <= k < sc.settings.preconditions.len() && (predicate_of(
        sc.settings.preconditions[k]@,
    ) matches Ok(p) && is_value(p.literal, true, bits) && 0 <= i < sc.body.arg_names@.len()
        && sc.body.arg_names@[i]@ == p.var) && reads_parameter(op, i) {
        let raw = sc.settings.preconditions[k]@;
        let p = predicate_of(raw)->Ok_0;
        law_clauses_speak_of_identifiers(raw);
        lemma_range_is_value(p.literal, true, bits as u32);
        lemma_predicate_formula(p, "lhs"@, ty, true, bits, operand_symbols());
        let f = predicate_formula(p.op, true, bits, "lhs"@, p.literal);
        let a = "(assert "@ + formula_text(f) + ")"@;
        assert(clauses[k] == ClauseView::Keep(a));
        lemma_kept_has(clauses, k, a);
        let j = choose|j: int| 0 <= j < kept(clauses).len() && kept(clauses)[j] == a;
        assert(given[pins.len() + j] == a);
    }
}

/// Whether `text` asserts a formula over `declared` that is true just if two symbols compare.
pub open spec fn asserts_comparison(
    text: Seq<char>,
    declared: Set<Seq<char>>,
    op: Comparison,
    a: Seq<char>,
    b: Seq<char>,
    bits: nat,
) -> bool {
    exists|f: Formula|
        {
            &&& text == "(assert "@ + #[trigger] formula_text(f) + ")"@
            &&& formula_sorted(f, declared, bits)
            &&& forall|val: Values|
                is_pattern(val(a), bits) && is_pattern(val(b), bits) ==> (#[trigger] formula_holds(
                    f,
                    val,
                    bits,
                ) <==> compares(op, val(a), val(b)))
        }
}

/// A clause over two of the names of an index is a hypothesis that is true just if the numbers
/// compare.
pub proof fn law_comparisons_at_indices_are_assumed(
    sc: Scope,
    source: Option<Seq<char>>,
    span: Span,
    k: int,
)
    requires
        is_pointer_width(sc.settings.config.subset.target_pointer_width),
        0 <= k < sc.settings.preconditions.len(),
        pair_of(sc.settings.preconditions[k]@) matches Ok(p) && index_symbols(source).contains(
            p.lhs,
        ) && index_symbols(source).contains(p.rhs),
    ensures
        ({
            let p = pair_of(sc.settings.preconditions[k]@)->Ok_0;
            let given = hypotheses_of(index_findings(sc, source, span));
            exists|n: int|
                0 <= n < given.len() && asserts_comparison(
                    #[trigger] given[n],
                    index_symbols(source),
                    p.op,
                    p.lhs,
                    p.rhs,
                    sc.settings.config.subset.target_pointer_width as nat,
                )
        }),
{
    let width = sc.settings.config.subset.target_pointer_width;
    let bits = width as nat;
    let ty = index_ty(width);
    let raw = sc.settings.preconditions[k]@;
    let p = pair_of(raw)->Ok_0;
    let given = hypotheses_of(index_findings(sc, source, span));
    let site = SiteView::Index { source, ty };
    let clauses = judged_all(site, sc.settings.preconditions);
    let names = index_symbols(source);
    reveal_strlit("u8");
    reveal_strlit("u16");
    reveal_strlit("u32");
    reveal_strlit("u64");
    assert("u32"@[1] != "u16"@[1]);
    assert("u64"@[1] != "u16"@[1]);
    assert("u64"@[1] != "u32"@[1]);
    assert("u16"@.len() != "u8"@.len());
    assert("u32"@.len() != "u8"@.len());
    assert("u64"@.len() != "u8"@.len());
    assert(int_info(ty) == Some((false, bits as u32)));
    law_clauses_speak_of_identifiers(raw);
    lemma_ident_is_symbol(p.lhs);
    lemma_ident_is_symbol(p.rhs);
    let n = index_names(source);
    assert forall|s: Seq<char>| #[trigger] names.contains(s) implies n.contains(s) by {
        assert(n[0] == "idx"@ && n[1] == "len"@);
        if let Some(name) = source {
            assert(n[2] == name);
        }
    }
    lemma_pair_formula(p.op, p.lhs, p.rhs, ty, false, bits, names);
    let f = pair_formula(p.op, false, p.lhs, p.rhs);
    let a = "(assert "@ + formula_text(f) + ")"@;
    assert(clauses[k] == ClauseView::Keep(a));
    lemma_kept_has(clauses, k, a);
    assert(given =~= kept(clauses));
    let j = choose|j: int| 0 <= j < kept(clauses).len() && kept(clauses)[j] == a;
    assert(given[j] == a);
}

// ---------------------------------------------------------------------------
// Calls.
// ---------------------------------------------------------------------------

/// Whether the parameter `name` of a callee can be told by its name, has the encodable type `ty`,
/// and is passed an argument that is known.
pub open spec fn is_known(c: CallView, spec: CalleeSpec, name: Seq<char>, ty: Seq<char>) -> bool {
    int_info(ty) is Some && exists|i: int|
        {
            &&& #[trigger] sole_at(spec.arg_names@, name, i)
            &&& i < spec.arg_ty_names@.len()
            &&& opt_view(spec.arg_ty_names@[i]) == Some(ty)
            &&& i < c.args.len()
            &&& actual(c, c.args[i], ty) is Some
        }
}

/// Whether a precondition of a callee is a clause over known parameters, with an integer of the
/// parameter's type or between two parameters of one type.
pub open spec fn is_provable(c: CallView, spec: CalleeSpec, raw: Seq<char>) -> bool {
    ||| (pair_of(raw) matches Ok(p) && exists|ty: Seq<char>| #[trigger]
        is_known(c, spec, p.lhs, ty) && is_known(c, spec, p.rhs, ty))
    ||| (predicate_of(raw) matches Ok(p) && exists|ty: Seq<char>| #[trigger]
        is_known(c, spec, p.var, ty) && is_value(
            p.literal,
            (int_info(ty)->0).0,
            (int_info(ty)->0).1 as nat,
        ))
}

proof fn lemma_known_binds(
    c: CallView,
    spec: CalleeSpec,
    name: Seq<char>,
    ty: Seq<char>,
    bound: Seq<BoundView>,
)
    requires
        is_known(c, spec, name, ty),
        name.len() > 0,
        bound_well(c, spec, bound),
    ensures
        bind(c, spec, name, bound) matches Some((found, _)) && found == ty,
{
    let i = choose|i: int|
        {
            &&& #[trigger] sole_at(spec.arg_names@, name, i)
            &&& i < spec.arg_ty_names@.len()
            &&& opt_view(spec.arg_ty_names@[i]) == Some(ty)
            &&& i < c.args.len()
            &&& actual(c, c.args[i], ty) is Some
        };
    lemma_sole_index(spec.arg_names@, name, i);
    lemma_bound_ty(bound, name);
    if let Some(found) = bound_ty(bound, name) {
        lemma_name_ty(c, spec, bound, name, found);
    }
}

proof fn lemma_provable_goal(
    c: CallView,
    spec: CalleeSpec,
    raw: Seq<char>,
    bound: Seq<BoundView>,
)
    requires
        is_provable(c, spec, raw),
        bound_well(c, spec, bound),
    ensures
        goal(c, spec, raw, bound) is Some,
{
    law_clauses_speak_of_identifiers(raw);
    law_clause_forms_exclude_each_other(raw);
    match pair_of(raw) {
        Ok(p) => {
            let ty = choose|ty: Seq<char>| #[trigger]
                is_known(c, spec, p.lhs, ty) && is_known(c, spec, p.rhs, ty);
            lemma_ident_is_symbol(p.lhs);
            lemma_known_binds(c, spec, p.lhs, ty, bound);
            lemma_bind(c, spec, p.lhs, bound);
            let (_, once) = bind(c, spec, p.lhs, bound)->0;
            lemma_known_binds(c, spec, p.rhs, ty, once);
            law_clauses_have_terms(raw, ty);
        },
        Err(_) => {
            let p = predicate_of(raw)->Ok_0;
            let ty = choose|ty: Seq<char>| #[trigger]
                is_known(c, spec, p.var, ty) && is_value(
                    p.literal,
                    (int_info(ty)->0).0,
                    (int_info(ty)->0).1 as nat,
                );
            lemma_info_width(ty);
            lemma_range_is_value(p.literal, (int_info(ty)->0).0, (int_info(ty)->0).1);
            lemma_known_binds(c, spec, p.var, ty, bound);
            law_clauses_have_terms(raw, ty);
        },
    }
}

/// The preconditions of a callee are all goals where each is a clause over parameters that are
/// passed known arguments.
pub proof fn law_clauses_over_known_arguments_are_goals(
    c: CallView,
    spec: CalleeSpec,
    raws: Seq<String>,
)
    requires
        forall|i: int| 0 <= i < raws.len() ==> is_provable(c, spec, (#[trigger] raws[i])@),
    ensures
        goals(c, spec, raws) is Some,
    decreases raws.len(),
{
    if raws.len() > 0 {
        let before = raws.drop_last();
        assert forall|i: int| 0 <= i < before.len() implies is_provable(
            c,
            spec,
            (#[trigger] before[i])@,
        ) by {
            assert(before[i] == raws[i]);
        }
        law_clauses_over_known_arguments_are_goals(c, spec, before);
        lemma_goals(c, spec, before);
        let (_, bound) = goals(c, spec, before)->0;
        assert(is_provable(c, spec, raws[raws.len() - 1]@));
        lemma_provable_goal(c, spec, raws.last()@, bound);
    }
}

} // verus!
