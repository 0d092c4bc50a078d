//! Hypotheses against values: a hypothesis is, to the solver, a formula that is true just if what
//! it was made from is true of the values that its names stand for.
use vstd::prelude::*;
use vstd::arithmetic::power2::lemma2_to64;
use crate::callsite::{caller_param, hypothesis};
use crate::capture::entry_symbol;
use crate::clauses::{index_names, judged, judged_all, kept, ClauseView, SiteView};
use crate::findings::Finding;
use crate::laws::capture::lemma_decimal_is_symbol;
use crate::laws::clauses::{
    is_flat, is_ident, law_clause_forms_exclude_each_other, law_clauses_speak_of_identifiers,
    law_stripping_undoes_asserting, lemma_literal_flat,
};
use crate::laws::meaning::symbols_of_type;
use crate::laws::reports::lemma_decimal_digits;
use crate::laws::solver::{
    bv_text, bv_value, compares, comparison_formula, formula_holds, formula_sorted, formula_text,
    is_pattern, is_symbol, is_value, is_width, law_comparisons_mean_the_operators,
    lemma_literal_term, lemma_relation_names, lemma_value_of_pattern, literal_digits, pattern_of,
    value_of, Bv, Formula,
};
use crate::locals::{local_int_name, operand_arg, operand_int_name, sole_at, sole_index};
use crate::mir_api::{BinOp, Body, Operand, Span};
use crate::predicate::{
    asserted, assertion_check, comparison_term, fits, in_range, int_info, literal_text,
    pair_assertion, pair_of, pin, predicate_assertion, predicate_of, Comparison, PairView,
    PredicateView,
};
use crate::text::decimal;
use crate::walk::{
    constant_pin, constant_value, index_findings, index_ty, negation_findings, operand_pins,
    overflow_findings, Scope,
};

verus! {

/// The values that names stand for.
pub type Values = spec_fn(Seq<char>) -> int;

/// Whether a clause is true, where `env` gives the values of its names. Of a text that is no
/// clause nothing is known.
pub open spec fn clause_true(raw: Seq<char>, env: Values) -> bool {
    match pair_of(raw) {
        Ok(p) => compares(p.op, env(p.lhs), env(p.rhs)),
        Err(_) => match predicate_of(raw) {
            Ok(p) => compares(p.op, env(p.var), p.literal),
            Err(_) => true,
        },
    }
}

/// A type with an encoding has one of four widths.
pub proof fn lemma_info_width(ty: Seq<char>)
    requires
        int_info(ty) is Some,
    ensures
        is_width((int_info(ty)->0).1 as nat),
{
}

/// The values of a type, in terms of powers of two.
pub proof fn lemma_range_is_value(v: int, signed: bool, bits: u32)
    requires
        is_width(bits as nat),
    ensures
        in_range(v, signed, bits) <==> is_value(v, signed, bits as nat),
{
    lemma2_to64();
}

/// The formula of a clause over two symbols.
pub open spec fn pair_formula(op: Comparison, signed: bool, a: Seq<char>, b: Seq<char>) -> Formula {
    comparison_formula(op, signed, Bv::Symbol(a), Bv::Symbol(b))
}

/// The formula of a clause with an integer.
pub open spec fn predicate_formula(
    op: Comparison,
    signed: bool,
    bits: nat,
    a: Seq<char>,
    v: int,
) -> Formula {
    comparison_formula(op, signed, Bv::Symbol(a), Bv::Literal(literal_digits(v, bits)))
}

/// What a clause over two symbols is written as, and when it is true.
pub proof fn lemma_pair_formula(
    op: Comparison,
    a: Seq<char>,
    b: Seq<char>,
    ty: Seq<char>,
    signed: bool,
    bits: nat,
    declared: Set<Seq<char>>,
)
    requires
        is_width(bits),
        int_info(ty) == Some((signed, bits as u32)),
        is_symbol(a),
        is_symbol(b),
        declared.contains(a),
        declared.contains(b),
    ensures
        pair_assertion(PairView { lhs: a, op, rhs: b }, ty) == Ok::<
            _,
            crate::predicate::PredicateError,
        >(asserted(formula_text(pair_formula(op, signed, a, b)))),
        formula_text(pair_formula(op, signed, a, b)) == comparison_term(op, signed, a, b),
        formula_sorted(pair_formula(op, signed, a, b), declared, bits),
        forall|val: Values|
            is_pattern(val(a), bits) && is_pattern(val(b), bits) ==> (#[trigger] formula_holds(
                pair_formula(op, signed, a, b),
                val,
                bits,
            ) <==> compares(
                op,
                value_of(val(a), signed, bits),
                value_of(val(b), signed, bits),
            )),
{
    let f = pair_formula(op, signed, a, b);
    let zero: Values = |s: Seq<char>| 0int;
    vstd::arithmetic::power2::lemma_pow2_pos(bits);
    law_comparisons_mean_the_operators(op, signed, bits, Bv::Symbol(a), Bv::Symbol(b), zero);
    assert forall|val: Values|
        is_pattern(val(a), bits) && is_pattern(val(b), bits) implies (#[trigger] formula_holds(
        f,
        val,
        bits,
    ) <==> compares(op, value_of(val(a), signed, bits), value_of(val(b), signed, bits))) by {
        law_comparisons_mean_the_operators(op, signed, bits, Bv::Symbol(a), Bv::Symbol(b), val);
    }
}

/// What a clause with an integer is written as, and when it is true.
pub proof fn lemma_predicate_formula(
    p: PredicateView,
    a: Seq<char>,
    ty: Seq<char>,
    signed: bool,
    bits: nat,
    declared: Set<Seq<char>>,
)
    requires
        is_width(bits),
        int_info(ty) == Some((signed, bits as u32)),
        is_symbol(a),
        declared.contains(a),
        fits(p.literal, ty),
    ensures
        predicate_assertion(p, a, ty) == Ok::<_, crate::predicate::PredicateError>(
            asserted(formula_text(predicate_formula(p.op, signed, bits, a, p.literal))),
        ),
        formula_text(predicate_formula(p.op, signed, bits, a, p.literal)) == comparison_term(
            p.op,
            signed,
            a,
            literal_text(p.literal, bits as u32),
        ),
        formula_sorted(predicate_formula(p.op, signed, bits, a, p.literal), declared, bits),
        forall|val: Values|
            is_pattern(val(a), bits) ==> (#[trigger] formula_holds(
                predicate_formula(p.op, signed, bits, a, p.literal),
                val,
                bits,
            ) <==> compares(p.op, value_of(val(a), signed, bits), p.literal)),
{
    let f = predicate_formula(p.op, signed, bits, a, p.literal);
    let zero: Values = |s: Seq<char>| 0int;
    let e = Bv::Literal(literal_digits(p.literal, bits));
    vstd::arithmetic::power2::lemma_pow2_pos(bits);
    lemma_literal_term(p.literal, bits, declared);
    lemma_range_is_value(p.literal, signed, bits as u32);
    lemma_value_of_pattern(p.literal, signed, bits);
    assert(bv_value(e, zero, bits) == pattern_of(p.literal, bits));
    law_comparisons_mean_the_operators(p.op, signed, bits, Bv::Symbol(a), e, zero);
    assert forall|val: Values| is_pattern(val(a), bits) implies (#[trigger] formula_holds(
        f,
        val,
        bits,
    ) <==> compares(p.op, value_of(val(a), signed, bits), p.literal)) by {
        assert(bv_value(e, val, bits) == pattern_of(p.literal, bits));
        law_comparisons_mean_the_operators(p.op, signed, bits, Bv::Symbol(a), e, val);
    }
}

/// The assertion that a symbol is an integer, and when it is true.
pub proof fn lemma_pin_formula(
    a: Seq<char>,
    v: int,
    ty: Seq<char>,
    signed: bool,
    bits: nat,
    declared: Set<Seq<char>>,
)
    requires
        is_width(bits),
        int_info(ty) == Some((signed, bits as u32)),
        is_symbol(a),
        declared.contains(a),
    ensures
        pin(a, v, ty) == Some(
            asserted(formula_text(predicate_formula(Comparison::Eq, signed, bits, a, v))),
        ),
        formula_sorted(predicate_formula(Comparison::Eq, signed, bits, a, v), declared, bits),
        forall|val: Values| #[trigger]
            formula_holds(predicate_formula(Comparison::Eq, signed, bits, a, v), val, bits) <==> (
            val(a) == pattern_of(v, bits)),
{
    lemma_relation_names();
    lemma_literal_term(v, bits, declared);
    let e = Bv::Literal(literal_digits(v, bits));
    let lit = bv_text(e);
    assert(forall|val: Values| #[trigger] bv_value(e, val, bits) == pattern_of(v, bits));
    reveal_strlit("(assert (= ");
    reveal_strlit("(assert ");
    reveal_strlit("(");
    reveal_strlit("=");
    reveal_strlit(" ");
    reveal_strlit(")");
    reveal_strlit("))");
    assert("(assert (= "@ + a + " "@ + lit + "))"@ =~= "(assert "@ + ("("@ + "="@ + " "@ + a + " "@
        + lit + ")"@) + ")"@);
    assert forall|val: Values| #[trigger]
        formula_holds(
            predicate_formula(Comparison::Eq, signed, bits, a, v),
            val,
            bits,
        ) <==> (val(a) == pattern_of(v, bits)) by {
        assert(bv_value(e, val, bits) == pattern_of(v, bits));
    }
}

/// An identifier can be written as a symbol.
pub proof fn lemma_ident_is_symbol(s: Seq<char>)
    requires
        is_ident(s),
    ensures
        is_symbol(s),
{
    assert forall|i: int| 0 <= i < s.len() implies #[trigger] s[i] != '(' && s[i] != ')' && s[i]
        != ' ' && s[i] != '#' by {
        assert(crate::text::in_class(s[i], crate::text::CharClass::Ident));
    }
}

/// An entry symbol has no parenthesis and starts no quotation.
pub proof fn lemma_entry_symbol_flat(i: nat)
    ensures
        is_flat(entry_symbol(i)),
{
    let s = entry_symbol(i);
    let d = decimal(i);
    lemma_decimal_digits(i);
    reveal_strlit("__pb_caller_arg");
    assert forall|k: int| 0 <= k < s.len() implies #[trigger] s[k] != '(' && s[k] != ')'
        && !crate::predicate::is_quote(s[k]) by {
        if k >= 15 {
            assert(s[k] == d[k - 15]);
        }
    }
}

/// The position of a name that is there once.
pub proof fn lemma_sole_index(names: Seq<String>, t: Seq<char>, i: int)
    requires
        sole_at(names, t, i),
    ensures
        sole_index(names, t) == Some(i),
{
    let j = sole_index(names, t)->0;
    assert(sole_at(names, t, j));
    if i != j {
        assert(names[i]@ != t);
    }
}

// ---------------------------------------------------------------------------
// The caller's preconditions at a call.
// ---------------------------------------------------------------------------

/// Whether `env` gives, for each parameter of the type `ty` that can be told by its name, the
/// value whose pattern `val` gives for its entry symbol.
pub open spec fn enters_with(
    body: Body,
    ty: Seq<char>,
    signed: bool,
    bits: nat,
    val: Values,
    env: Values,
) -> bool {
    forall|i: nat|
        i < body.arg_names@.len() && local_int_name(body, i as int + 1) == Some(ty) ==> is_pattern(
            val(#[trigger] entry_symbol(i)),
            bits,
        ) && (sole_at(body.arg_names@, body.arg_names@[i as int]@, i as int) ==> env(
            body.arg_names@[i as int]@,
        ) == value_of(val(entry_symbol(i)), signed, bits))
}

/// Whether `f` is a formula over the entry symbols of parameters of the type `ty` that is true just
/// if the clause `raw` is true of what the caller was passed.
pub open spec fn formula_of_clause(body: Body, raw: Seq<char>, ty: Seq<char>, f: Formula) -> bool {
    match int_info(ty) {
        None => false,
        Some((signed, bits)) => {
            &&& formula_sorted(f, symbols_of_type(body, ty), bits as nat)
            &&& forall|val: Values, env: Values| #[trigger]
                enters_with(body, ty, signed, bits as nat, val, env) ==> (formula_holds(
                    f,
                    val,
                    bits as nat,
                ) <==> clause_true(raw, env))
        },
    }
}

proof fn lemma_caller_param(body: Body, ident: Seq<char>)
    requires
        caller_param(body, ident) is Some,
    ensures
        ({
            let (i, ty) = caller_param(body, ident)->0;
            &&& sole_at(body.arg_names@, ident, i as int)
            &&& local_int_name(body, i as int + 1) == Some(ty)
        }),
{
    let i = sole_index(body.arg_names@, ident)->0;
    assert(sole_at(body.arg_names@, ident, i));
}

/// A precondition of the caller that is used at a call is a formula over entry symbols which is
/// true of the patterns that the caller was passed just if the clause is true of the values of the
/// parameters that it names: the left side for the left one, the right side for the right one.
pub proof fn law_hypotheses_hold_just_if_the_clauses_do(body: Body, raw: Seq<char>)
    requires
        hypothesis(body, raw) is Use,
    ensures
        exists|ty: Seq<char>, f: Formula|
            {
                &&& hypothesis(body, raw)->term == formula_text(f)
                &&& #[trigger] formula_of_clause(body, raw, ty, f)
            },
{
    law_clauses_speak_of_identifiers(raw);
    match pair_of(raw) {
        Ok(p) => {
            lemma_caller_param(body, p.lhs);
            lemma_caller_param(body, p.rhs);
            let (i, ty) = caller_param(body, p.lhs)->0;
            let (j, _) = caller_param(body, p.rhs)->0;
            assert(int_info(ty) is Some);
            let (signed, bits) = int_info(ty)->0;
            lemma_info_width(ty);
            let a = entry_symbol(i);
            let b = entry_symbol(j);
            lemma_decimal_is_symbol(i);
            lemma_decimal_is_symbol(j);
            lemma_entry_symbol_flat(i);
            lemma_entry_symbol_flat(j);
            let declared = symbols_of_type(body, ty);
            lemma_pair_formula(p.op, a, b, ty, signed, bits as nat, declared);
            law_stripping_undoes_asserting(p.op, signed, a, b);
            let f = pair_formula(p.op, signed, a, b);
            assert forall|val: Values, env: Values| #[trigger]
                enters_with(body, ty, signed, bits as nat, val, env) implies (formula_holds(
                f,
                val,
                bits as nat,
            ) <==> clause_true(raw, env)) by {
                assert(is_pattern(val(entry_symbol(i)), bits as nat));
                assert(is_pattern(val(entry_symbol(j)), bits as nat));
            }
            assert(formula_of_clause(body, raw, ty, f));
        },
        Err(_) => {
            let p = predicate_of(raw)->Ok_0;
            lemma_caller_param(body, p.var);
            let (i, ty) = caller_param(body, p.var)->0;
            assert(int_info(ty) is Some);
            let (signed, bits) = int_info(ty)->0;
            lemma_info_width(ty);
            let a = entry_symbol(i);
            lemma_decimal_is_symbol(i);
            lemma_entry_symbol_flat(i);
            lemma_literal_flat(p.literal, bits);
            let declared = symbols_of_type(body, ty);
            lemma_predicate_formula(p, a, ty, signed, bits as nat, declared);
            law_stripping_undoes_asserting(p.op, signed, a, literal_text(p.literal, bits));
            let f = predicate_formula(p.op, signed, bits as nat, a, p.literal);
            assert forall|val: Values, env: Values| #[trigger]
                enters_with(body, ty, signed, bits as nat, val, env) implies (formula_holds(
                f,
                val,
                bits as nat,
            ) <==> clause_true(raw, env)) by {
                assert(is_pattern(val(entry_symbol(i)), bits as nat));
            }
            assert(formula_of_clause(body, raw, ty, f));
        },
    }
}

/// A precondition of the caller over two parameters of one type with an encoding, each told by its
/// name, is used.
pub proof fn law_clauses_over_parameters_are_used(body: Body, raw: Seq<char>, i: int, j: int)
    requires
        pair_of(raw) matches Ok(p) && sole_at(body.arg_names@, p.lhs, i) && sole_at(
            body.arg_names@,
            p.rhs,
            j,
        ),
        local_int_name(body, i + 1) matches Some(ty) && int_info(ty) is Some,
        local_int_name(body, i + 1) == local_int_name(body, j + 1),
    ensures
        hypothesis(body, raw) is Use,
{
    law_clauses_speak_of_identifiers(raw);
    let p = pair_of(raw)->Ok_0;
    lemma_sole_index(body.arg_names@, p.lhs, i);
    lemma_sole_index(body.arg_names@, p.rhs, j);
    let ty = local_int_name(body, i + 1)->0;
    let (signed, _) = int_info(ty)->0;
    lemma_entry_symbol_flat(i as nat);
    lemma_entry_symbol_flat(j as nat);
    law_stripping_undoes_asserting(
        p.op,
        signed,
        entry_symbol(i as nat),
        entry_symbol(j as nat),
    );
}

/// A precondition of the caller that compares a parameter, told by its name, with a value of its
/// type is used.
pub proof fn law_bounds_on_parameters_are_used(body: Body, raw: Seq<char>, i: int)
    requires
        predicate_of(raw) matches Ok(p) && sole_at(body.arg_names@, p.var, i),
        local_int_name(body, i + 1) matches Some(ty) && int_info(ty) matches Some(info) && is_value(
            (predicate_of(raw)->Ok_0).literal,
            info.0,
            info.1 as nat,
        ),
    ensures
        hypothesis(body, raw) is Use,
{
    law_clauses_speak_of_identifiers(raw);
    law_clause_forms_exclude_each_other(raw);
    let p = predicate_of(raw)->Ok_0;
    lemma_sole_index(body.arg_names@, p.var, i);
    let ty = local_int_name(body, i + 1)->0;
    let (signed, bits) = int_info(ty)->0;
    lemma_info_width(ty);
    lemma_range_is_value(p.literal, signed, bits);
    lemma_entry_symbol_flat(i as nat);
    lemma_literal_flat(p.literal, bits);
    law_stripping_undoes_asserting(
        p.op,
        signed,
        entry_symbol(i as nat),
        literal_text(p.literal, bits),
    );
}

// ---------------------------------------------------------------------------
// Arithmetic.
// ---------------------------------------------------------------------------

/// The symbols that stand for the operands of an operation.
pub open spec fn operand_symbols() -> Set<Seq<char>> {
    set!["lhs"@, "rhs"@]
}

/// Whether `text` asserts a formula over `declared` that is true, where `val` gives the patterns of
/// the symbols.
pub open spec fn asserts_truth(
    text: Seq<char>,
    declared: Set<Seq<char>>,
    val: Values,
    bits: nat,
) -> bool {
    exists|f: Formula|
        {
            &&& text == "(assert "@ + #[trigger] formula_text(f) + ")"@
            &&& formula_sorted(f, declared, bits)
            &&& formula_holds(f, val, bits)
        }
}

/// Whether `text` asserts a formula over `declared` that is true of just those patterns of the
/// symbol `a` of which `truth` holds.
pub open spec fn asserts_just(
    text: Seq<char>,
    declared: Set<Seq<char>>,
    a: Seq<char>,
    truth: spec_fn(int) -> bool,
    bits: nat,
) -> bool {
    exists|f: Formula|
        {
            &&& text == "(assert "@ + #[trigger] formula_text(f) + ")"@
            &&& formula_sorted(f, declared, bits)
            &&& forall|val: Values|
                is_pattern(val(a), bits) ==> (#[trigger] formula_holds(f, val, bits) <==> truth(
                    val(a),
                ))
        }
}

/// Whether an operand reads the parameter `i` as a whole.
pub open spec fn reads_parameter(op: Operand, i: int) -> bool {
    match op {
        Operand::Copy(p) => p.projection@.len() == 0 && p.local.0 == i + 1,
        Operand::Move(p) => p.projection@.len() == 0 && p.local.0 == i + 1,
        Operand::Constant(_) => false,
    }
}

/// Whether an operand can give the value `v` at the type with this signedness and width, where
/// `env` gives the values of the named parameters: a constant gives its value, and a parameter its
/// own.
pub open spec fn gives(
    body: Body,
    op: Operand,
    v: int,
    env: Values,
    info: Option<(bool, u32)>,
) -> bool {
    &&& info matches Some((signed, bits)) ==> is_value(v, signed, bits as nat)
    &&& (op matches Operand::Constant(c) && c.value is Some) ==> v == (op->Constant_0).value->0
    &&& forall|i: int|
        0 <= i < body.arg_names@.len() && reads_parameter(op, i) && body.arg_names@[i]@.len() > 0
            ==> env(#[trigger] body.arg_names@[i]@) == v
}

/// The hypotheses of an obligation that comes first among `fs`.
pub open spec fn hypotheses_of(fs: Seq<Finding>) -> Seq<Seq<char>> {
    if fs.len() > 0 && fs[0] is Obligation {
        fs[0]->assumptions
    } else {
        seq![]
    }
}

/// Whether `text` is a precondition that is written out as an assertion.
pub open spec fn written_out(raws: Seq<String>, text: Seq<char>) -> bool {
    exists|k: int| 0 <= k < raws.len() && (#[trigger] raws[k])@ == text && assertion_check(text)
        is Ok
}

pub proof fn lemma_operand_symbols()
    ensures
        is_symbol("lhs"@),
        is_symbol("rhs"@),
        operand_symbols().contains("lhs"@),
        operand_symbols().contains("rhs"@),
{
    reveal_strlit("lhs");
    reveal_strlit("rhs");
}

/// A pin is true of a symbol that stands for the pinned integer.
proof fn lemma_pin_true(
    a: Seq<char>,
    v: int,
    ty: Seq<char>,
    signed: bool,
    bits: nat,
    val: Values,
)
    requires
        is_width(bits),
        int_info(ty) == Some((signed, bits as u32)),
        is_symbol(a),
        operand_symbols().contains(a),
        val(a) == pattern_of(v, bits),
    ensures
        pin(a, v, ty) is Some,
        asserts_truth(pin(a, v, ty)->0, operand_symbols(), val, bits),
{
    lemma_pin_formula(a, v, ty, signed, bits, operand_symbols());
    let f = predicate_formula(Comparison::Eq, signed, bits, a, v);
    assert(formula_holds(f, val, bits));
    assert(pin(a, v, ty)->0 == "(assert "@ + formula_text(f) + ")"@);
}

/// A translated bound is true of a symbol that stands for a value of which the bound is true.
proof fn lemma_bound_true(
    p: PredicateView,
    a: Seq<char>,
    v: int,
    ty: Seq<char>,
    signed: bool,
    bits: nat,
    val: Values,
)
    requires
        is_width(bits),
        int_info(ty) == Some((signed, bits as u32)),
        is_symbol(a),
        operand_symbols().contains(a),
        is_value(v, signed, bits),
        val(a) == pattern_of(v, bits),
        compares(p.op, v, p.literal),
        predicate_assertion(p, a, ty) is Ok,
    ensures
        asserts_truth(predicate_assertion(p, a, ty)->Ok_0, operand_symbols(), val, bits),
{
    lemma_predicate_formula(p, a, ty, signed, bits, operand_symbols());
    lemma_value_of_pattern(v, signed, bits);
    let f = predicate_formula(p.op, signed, bits, a, p.literal);
    assert(formula_holds(f, val, bits));
    assert(predicate_assertion(p, a, ty)->Ok_0 == "(assert "@ + formula_text(f) + ")"@);
}

/// What is kept of clauses was kept of one of them.
proof fn lemma_kept_from(clauses: Seq<ClauseView>, i: int)
    requires
        0 <= i < kept(clauses).len(),
    ensures
        exists|k: int|
            0 <= k < clauses.len() && #[trigger] clauses[k] == ClauseView::Keep(kept(clauses)[i]),
    decreases clauses.len(),
{
    if clauses.len() > 0 {
        let before = clauses.drop_last();
        match clauses.last() {
            ClauseView::Keep(s) => {
                if i < kept(before).len() {
                    lemma_kept_from(before, i);
                    let k = choose|k: int|
                        0 <= k < before.len() && #[trigger] before[k] == ClauseView::Keep(
                            kept(before)[i],
                        );
                    assert(clauses[k] == ClauseView::Keep(kept(clauses)[i]));
                } else {
                    assert(clauses[clauses.len() - 1] == ClauseView::Keep(kept(clauses)[i]));
                }
            },
            ClauseView::Refuse(_) => {
                lemma_kept_from(before, i);
                let k = choose|k: int|
                    0 <= k < before.len() && #[trigger] before[k] == ClauseView::Keep(
                        kept(before)[i],
                    );
                assert(clauses[k] == ClauseView::Keep(kept(clauses)[i]));
            },
        }
    }
}

/// A clause that is kept is among what is kept.
pub proof fn lemma_kept_has(clauses: Seq<ClauseView>, k: int, s: Seq<char>)
    requires
        0 <= k < clauses.len(),
        clauses[k] == ClauseView::Keep(s),
    ensures
        kept(clauses).contains(s),
    decreases clauses.len(),
{
    let before = clauses.drop_last();
    if k < before.len() {
        lemma_kept_has(before, k, s);
        let j = choose|j: int| 0 <= j < kept(before).len() && kept(before)[j] == s;
        assert(kept(clauses)[j] == s);
    } else {
        assert(kept(clauses)[kept(clauses).len() - 1] == s);
    }
}

pub proof fn lemma_operand_arg(body: Body, op: Operand, name: Seq<char>)
    requires
        operand_arg(body, op) == Some(name),
    ensures
        exists|i: int|
            {
                &&& 0 <= i < body.arg_names@.len()
                &&& reads_parameter(op, i)
                &&& name.len() > 0
                &&& (#[trigger] body.arg_names@[i])@ == name
            },
{
    match op {
        Operand::Copy(p) => {
            assert(body.arg_names@[p.local.0 - 1]@ == name);
        },
        Operand::Move(p) => {
            assert(body.arg_names@[p.local.0 - 1]@ == name);
        },
        Operand::Constant(_) => {},
    }
}

/// The hypotheses of an arithmetic obligation are true of the operation. Let `lhs` stand for the
/// value that the left operand gives and `rhs` for that of the right one, where it is a value of
/// the type of the left one; otherwise `rhs` may be anything. If the preconditions are true of the
/// parameters, then every hypothesis is true that is not a precondition written out as an
/// assertion. So one on `lhs` comes from the left operand alone, and one on `rhs` from the right
/// operand alone. Left out are shifts of a signed value by an amount of the unsigned type of the
/// same width that is no value of the signed type.
pub proof fn law_arithmetic_hypotheses_are_true(
    sc: Scope,
    binop: BinOp,
    lhs: Operand,
    rhs: Operand,
    span: Span,
    left: Seq<char>,
    right: Seq<char>,
    signed: bool,
    bits: nat,
    x: int,
    y: int,
    env: Values,
    val: Values,
)
    requires
        operand_int_name(sc.body, lhs) == Some(left),
        operand_int_name(sc.body, rhs) == Some(right),
        is_width(bits),
        int_info(left) == Some((signed, bits as u32)),
        gives(sc.body, lhs, x, env, int_info(left)),
        gives(sc.body, rhs, y, env, int_info(right)),
        signed && int_info(right) == Some((false, bits as u32)) ==> is_value(y, signed, bits),
        val("lhs"@) == pattern_of(x, bits),
        is_value(y, signed, bits) ==> val("rhs"@) == pattern_of(y, bits),
        forall|k: int|
            0 <= k < sc.settings.preconditions.len() ==> clause_true(
                (#[trigger] sc.settings.preconditions[k])@,
                env,
            ),
    ensures
        ({
            let given = hypotheses_of(overflow_findings(sc, binop, lhs, rhs, span));
            forall|i: int|
                0 <= i < given.len() ==> asserts_truth(
                    #[trigger] given[i],
                    operand_symbols(),
                    val,
                    bits,
                ) || written_out(sc.settings.preconditions, given[i])
        }),
{
    let fs = overflow_findings(sc, binop, lhs, rhs, span);
    let given = hypotheses_of(fs);
    let mixed = left != right;
    let pins = operand_pins(lhs, rhs, left, mixed);
    let lhs_arg = operand_arg(sc.body, lhs);
    let rhs_arg = if mixed && !crate::walk::models_amount(right, left) {
        None
    } else {
        operand_arg(sc.body, rhs)
    };
    let site = SiteView::Arithmetic { lhs_arg, rhs_arg, ty: left };
    let clauses = judged_all(site, sc.settings.preconditions);
    lemma_operand_symbols();
    lemma2_to64();
    assert forall|i: int| 0 <= i < given.len() implies asserts_truth(
        #[trigger] given[i],
        operand_symbols(),
        val,
        bits,
    ) || written_out(sc.settings.preconditions, given[i]) by {
        assert(given == pins + kept(clauses));
        if i < pins.len() {
            if constant_value(lhs) is Some {
                lemma_pin_true("lhs"@, x, left, signed, bits, val);
            }
            if constant_value(rhs) is Some && (!mixed || fits(y, left)) {
                lemma_range_is_value(y, signed, bits as u32);
                lemma_pin_true("rhs"@, y, left, signed, bits, val);
            }
        } else {
            lemma_kept_from(clauses, i - pins.len());
            let k = choose|k: int|
                0 <= k < clauses.len() && #[trigger] clauses[k] == ClauseView::Keep(
                    kept(clauses)[i - pins.len()],
                );
            let raw = sc.settings.preconditions[k]@;
            assert(clauses[k] == judged(site, raw));
            assert(clause_true(raw, env));
            law_clause_forms_exclude_each_other(raw);
            if let Ok(p) = predicate_of(raw) {
                if lhs_arg == Some(p.var) {
                    lemma_operand_arg(sc.body, lhs, p.var);
                    lemma_bound_true(p, "lhs"@, x, left, signed, bits, val);
                } else if rhs_arg == Some(p.var) {
                    lemma_operand_arg(sc.body, rhs, p.var);
                    assert(is_value(y, signed, bits));
                    lemma_bound_true(p, "rhs"@, y, left, signed, bits, val);
                }
            }
        }
    }
}

/// A constant operand is its value in the obligation: there is a hypothesis that is true of just
/// that pattern. The amount of a shift is left out where it is no value of the shifted type.
pub proof fn law_constant_operands_are_assumed(
    sc: Scope,
    binop: BinOp,
    lhs: Operand,
    rhs: Operand,
    span: Span,
    left: Seq<char>,
    signed: bool,
    bits: nat,
)
    requires
        operand_int_name(sc.body, lhs) == Some(left),
        operand_int_name(sc.body, rhs) is Some,
        is_width(bits),
        int_info(left) == Some((signed, bits as u32)),
        overflow_findings(sc, binop, lhs, rhs, span).len() > 0,
        overflow_findings(sc, binop, lhs, rhs, span)[0] is Obligation,
    ensures
        ({
            let given = hypotheses_of(overflow_findings(sc, binop, lhs, rhs, span));
            &&& (lhs matches Operand::Constant(c) && c.value is Some) ==> exists|i: int|
                0 <= i < given.len() && asserts_just(
                    #[trigger] given[i],
                    operand_symbols(),
                    "lhs"@,
                    |x: int| x == pattern_of((lhs->Constant_0).value->0 as int, bits),
                    bits,
                )
            &&& (rhs matches Operand::Constant(c) && c.value is Some && is_value(
                c.value->0 as int,
                signed,
                bits,
            )) ==> exists|i: int|
                0 <= i < given.len() && asserts_just(
                    #[trigger] given[i],
                    operand_symbols(),
                    "rhs"@,
                    |x: int| x == pattern_of((rhs->Constant_0).value->0 as int, bits),
                    bits,
                )
        }),
{
    let given = hypotheses_of(overflow_findings(sc, binop, lhs, rhs, span));
    let mixed = operand_int_name(sc.body, rhs) != Some(left);
    let pins = operand_pins(lhs, rhs, left, mixed);
    lemma_operand_symbols();
    if constant_value(lhs) is Some {
        let v = constant_value(lhs)->0 as int;
        lemma_pin_formula("lhs"@, v, left, signed, bits, operand_symbols());
        let f = predicate_formula(Comparison::Eq, signed, bits, "lhs"@, v);
        assert(constant_pin("lhs", lhs, left)[0] == pin("lhs"@, v, left)->0);
        assert(given[0] == "(assert "@ + formula_text(f) + ")"@);
    }
    if constant_value(rhs) is Some && is_value(constant_value(rhs)->0 as int, signed, bits) {
        let v = constant_value(rhs)->0 as int;
        lemma_range_is_value(v, signed, bits as u32);
        lemma_pin_formula("rhs"@, v, left, signed, bits, operand_symbols());
        let f = predicate_formula(Comparison::Eq, signed, bits, "rhs"@, v);
        let k = constant_pin("lhs", lhs, left).len() as int;
        assert(constant_pin("rhs", rhs, left)[0] == pin("rhs"@, v, left)->0);
        assert(given[k] == "(assert "@ + formula_text(f) + ")"@);
    }
}

/// A bound on an operand's parameter by a value of its type is a hypothesis that is true of just
/// the patterns whose values keep the bound. The left operand comes first where both are the same
/// parameter.
pub proof fn law_bounds_on_operands_are_assumed(
    sc: Scope,
    binop: BinOp,
    lhs: Operand,
    rhs: Operand,
    span: Span,
    ty: Seq<char>,
    signed: bool,
    bits: nat,
    k: int,
    i: int,
)
    requires
        operand_int_name(sc.body, lhs) == Some(ty),
        operand_int_name(sc.body, rhs) == Some(ty),
        is_width(bits),
        int_info(ty) == Some((signed, bits as u32)),
        overflow_findings(sc, binop, lhs, rhs, span).len() > 0,
        overflow_findings(sc, binop, lhs, rhs, span)[0] is Obligation,
        0 <= k < sc.settings.preconditions.len(),
        predicate_of(sc.settings.preconditions[k]@) matches Ok(p) && is_value(
            p.literal,
            signed,
            bits,
        ) && 0 <= i < sc.body.arg_names@.len() && sc.body.arg_names@[i]@ == p.var,
        reads_parameter(lhs, i) || (reads_parameter(rhs, i) && forall|j: int|
            0 <= j < sc.body.arg_names@.len() && reads_parameter(lhs, j) ==> (
            #[trigger] sc.body.arg_names@[j])@ != sc.body.arg_names@[i]@),
    ensures
        ({
            let p = predicate_of(sc.settings.preconditions[k]@)->Ok_0;
            let given = hypotheses_of(overflow_findings(sc, binop, lhs, rhs, span));
            exists|n: int|
                0 <= n < given.len() && asserts_just(
                    #[trigger] given[n],
                    operand_symbols(),
                    if reads_parameter(lhs, i) {
                        "lhs"@
                    } else {
                        "rhs"@
                    },
                    |x: int| compares(p.op, value_of(x, signed, bits), p.literal),
                    bits,
                )
        }),
{
    let raw = sc.settings.preconditions[k]@;
    let p = predicate_of(raw)->Ok_0;
    let given = hypotheses_of(overflow_findings(sc, binop, lhs, rhs, span));
    let site = SiteView::Arithmetic {
        lhs_arg: operand_arg(sc.body, lhs),
        rhs_arg: operand_arg(sc.body, rhs),
        ty,
    };
    let clauses = judged_all(site, sc.settings.preconditions);
    let label = if reads_parameter(lhs, i) {
        "lhs"@
    } else {
        "rhs"@
    };
    lemma_operand_symbols();
    law_clauses_speak_of_identifiers(raw);
    lemma_range_is_value(p.literal, signed, bits as u32);
    lemma_predicate_formula(p, label, ty, signed, bits, operand_symbols());
    let f = predicate_formula(p.op, signed, bits, label, p.literal);
    let a = "(assert "@ + formula_text(f) + ")"@;
    if !reads_parameter(lhs, i) && operand_arg(sc.body, lhs) is Some {
        lemma_operand_arg(sc.body, lhs, operand_arg(sc.body, lhs)->0);
    }
    assert(clauses[k] == ClauseView::Keep(a));
    lemma_kept_has(clauses, k, a);
    let pins = operand_pins(lhs, rhs, ty, false);
    assert(given == pins + kept(clauses));
    let j = choose|j: int| 0 <= j < kept(clauses).len() && kept(clauses)[j] == a;
    assert(given[pins.len() + j] == a);
    let truth = |x: int| compares(p.op, value_of(x, signed, bits), p.literal);
    assert(asserts_just(given[pins.len() + j], operand_symbols(), label, truth, bits));
}

/// The hypotheses of a negation are true of it, where `lhs` stands for the value of the operand.
pub proof fn law_negation_hypotheses_are_true(
    sc: Scope,
    op: Operand,
    span: Span,
    ty: Seq<char>,
    signed: bool,
    bits: nat,
    x: int,
    env: Values,
    val: Values,
)
    requires
        operand_int_name(sc.body, op) == Some(ty),
        is_width(bits),
        int_info(ty) == Some((signed, bits as u32)),
        gives(sc.body, op, x, env, int_info(ty)),
        val("lhs"@) == pattern_of(x, bits),
        forall|k: int|
            0 <= k < sc.settings.preconditions.len() ==> clause_true(
                (#[trigger] sc.settings.preconditions[k])@,
                env,
            ),
    ensures
        ({
            let given = hypotheses_of(negation_findings(sc, op, span));
            forall|i: int|
                0 <= i < given.len() ==> asserts_truth(
                    #[trigger] given[i],
                    operand_symbols(),
                    val,
                    bits,
                ) || written_out(sc.settings.preconditions, given[i])
        }),
{
    let given = hypotheses_of(negation_findings(sc, op, span));
    let pins = constant_pin("lhs", op, ty);
    let arg = operand_arg(sc.body, op);
    let site = SiteView::Negation { arg, ty };
    let clauses = judged_all(site, sc.settings.preconditions);
    lemma_operand_symbols();
    assert forall|i: int| 0 <= i < given.len() implies asserts_truth(
        #[trigger] given[i],
        operand_symbols(),
        val,
        bits,
    ) || written_out(sc.settings.preconditions, given[i]) by {
        assert(given == pins + kept(clauses));
        if i < pins.len() {
            lemma_pin_true("lhs"@, x, ty, signed, bits, val);
        } else {
            lemma_kept_from(clauses, i - pins.len());
            let k = choose|k: int|
                0 <= k < clauses.len() && #[trigger] clauses[k] == ClauseView::Keep(
                    kept(clauses)[i - pins.len()],
                );
            let raw = sc.settings.preconditions[k]@;
            assert(clauses[k] == judged(site, raw));
            assert(clause_true(raw, env));
            law_clause_forms_exclude_each_other(raw);
            if let Ok(p) = predicate_of(raw) {
                if arg == Some(p.var) {
                    lemma_operand_arg(sc.body, op, p.var);
                    lemma_bound_true(p, "lhs"@, x, ty, signed, bits, val);
                }
            }
        }
    }
}

// ---------------------------------------------------------------------------
// Indices.
// ---------------------------------------------------------------------------

/// The names that a hypothesis on an index may have: the index, the length, and the parameter that
/// the index is.
pub open spec fn index_symbols(source: Option<Seq<char>>) -> Set<Seq<char>> {
    match source {
        Some(name) => set!["idx"@, "len"@, name],
        None => set!["idx"@, "len"@],
    }
}

/// Whether a target has a pointer width that an index type can have.
pub open spec fn is_pointer_width(width: u16) -> bool {
    width == 16 || width == 32 || width == 64
}

/// The hypotheses of an index obligation are true of the index. Let the names stand for unsigned
/// numbers of the target's pointer width. If the preconditions are true of them, then every
/// hypothesis is true that is not a precondition written out as an assertion.
pub proof fn law_index_hypotheses_are_true(
    sc: Scope,
    source: Option<Seq<char>>,
    span: Span,
    val: Values,
)
    requires
        is_pointer_width(sc.settings.config.subset.target_pointer_width),
        forall|s: Seq<char>| #[trigger]
            index_symbols(source).contains(s) ==> is_pattern(
                val(s),
                sc.settings.config.subset.target_pointer_width as nat,
            ),
        forall|k: int|
            0 <= k < sc.settings.preconditions.len() ==> clause_true(
                (#[trigger] sc.settings.preconditions[k])@,
                val,
            ),
    ensures
        ({
            let bits = sc.settings.config.subset.target_pointer_width as nat;
            let given = hypotheses_of(index_findings(sc, source, span));
            forall|i: int|
                0 <= i < given.len() ==> asserts_truth(
                    #[trigger] given[i],
                    index_symbols(source),
                    val,
                    bits,
                ) || written_out(sc.settings.preconditions, given[i])
        }),
{
    let width = sc.settings.config.subset.target_pointer_width;
    let bits = width as nat;
    let ty = index_ty(width);
    let given = hypotheses_of(index_findings(sc, source, span));
    let site = SiteView::Index { source, ty };
    let clauses = judged_all(site, sc.settings.preconditions);
    let names = index_symbols(source);
    reveal_strlit("u8");
    reveal_strlit("u16");
    reveal_strlit("u32");
    reveal_strlit("u64");
    assert("u32"@[1] != "u16"@[1]);
    assert("u64"@[1] != "u16"@[1]);
    assert("u64"@[1] != "u32"@[1]);
    assert("u16"@.len() != "u8"@.len());
    assert("u32"@.len() != "u8"@.len());
    assert("u64"@.len() != "u8"@.len());
    assert(int_info(ty) == Some((false, bits as u32)));
    assert forall|i: int| 0 <= i < given.len() implies asserts_truth(
        #[trigger] given[i],
        names,
        val,
        bits,
    ) || written_out(sc.settings.preconditions, given[i]) by {
        assert(given =~= kept(clauses));
        lemma_kept_from(clauses, i);
        let k = choose|k: int|
            0 <= k < clauses.len() && #[trigger] clauses[k] == ClauseView::Keep(kept(clauses)[i]);
        let raw = sc.settings.preconditions[k]@;
        assert(clauses[k] == judged(site, raw));
        assert(clause_true(raw, val));
        law_clauses_speak_of_identifiers(raw);
        law_clause_forms_exclude_each_other(raw);
        assert forall|s: Seq<char>| #[trigger]
            index_names(source).contains(s) implies names.contains(s) by {
            let n = index_names(source);
            let j = choose|j: int| 0 <= j < n.len() && n[j] == s;
            assert(n[j] == s);
        }
        if let Ok(p) = pair_of(raw) {
            lemma_ident_is_symbol(p.lhs);
            lemma_ident_is_symbol(p.rhs);
            assert(names.contains(p.lhs) && names.contains(p.rhs));
            lemma_pair_formula(p.op, p.lhs, p.rhs, ty, false, bits, names);
            let f = pair_formula(p.op, false, p.lhs, p.rhs);
            assert(formula_holds(f, val, bits));
            assert(given[i] == "(assert "@ + formula_text(f) + ")"@);
        } else if let Ok(p) = predicate_of(raw) {
            if index_names(source).contains(p.var) {
                lemma_ident_is_symbol(p.var);
                lemma_predicate_formula(p, p.var, ty, false, bits, names);
                let f = predicate_formula(p.op, false, bits, p.var, p.literal);
                assert(formula_holds(f, val, bits));
                assert(given[i] == "(assert "@ + formula_text(f) + ")"@);
            }
        }
    }
}

} // verus!
