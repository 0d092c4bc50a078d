//! Whole problems as the solver reads them: what they declare, what they assert, and when they are
//! refuted.
use vstd::prelude::*;
use crate::laws::assumptions::{
    clause_true, lemma_ident_is_symbol, lemma_pair_formula, lemma_predicate_formula, pair_formula,
    predicate_formula, Values,
};
use crate::laws::clauses::{
    law_clauses_speak_of_identifiers, law_stripping_undoes_asserting, lemma_ident_flat,
    lemma_literal_flat,
};
use crate::laws::solver::{
    formula_holds, formula_sorted, formula_text, is_pattern, is_symbol, is_width, value_of, Formula,
};
use crate::postcondition::{clause_assertion, clause_term, declarations, line, negation};
use crate::predicate::{asserted, int_info, literal_text, pair_of, predicate_of};
use crate::text::{decimal, ends, joined};

verus! {

/// A formula, with the width of its terms.
pub type WideFormula = (Formula, nat);

/// An assertion of a problem: a formula, or that formulas do not all hold.
pub enum Assertion {
    Holds(WideFormula),
    NotAll(Seq<WideFormula>),
}

/// A problem: the symbols that it declares, with their widths, and what it asserts.
pub struct Script {
    pub declared: Seq<(Seq<char>, nat)>,
    pub asserted: Seq<Assertion>,
}

/// How formulas are written one after the other.
pub open spec fn formulas_text(fs: Seq<WideFormula>) -> Seq<char>
    decreases fs.len(),
{
    if fs.len() == 0 {
        ""@
    } else if fs.len() == 1 {
        formula_text(fs[0].0)
    } else {
        formulas_text(fs.drop_last()) + " "@ + formula_text(fs.last().0)
    }
}

/// How an assertion is written.
pub open spec fn assertion_text(a: Assertion) -> Seq<char> {
    match a {
        Assertion::Holds(f) => "(assert "@ + formula_text(f.0) + ")\n"@,
        Assertion::NotAll(fs) => if fs.len() == 1 {
            "(assert (not "@ + formula_text(fs[0].0) + "))\n"@
        } else {
            "(assert (not (and "@ + formulas_text(fs) + ")))\n"@
        },
    }
}

/// How assertions are written.
pub open spec fn assertions_text(v: Seq<Assertion>) -> Seq<char>
    decreases v.len(),
{
    if v.len() == 0 {
        ""@
    } else {
        assertions_text(v.drop_last()) + assertion_text(v.last())
    }
}

/// How declarations are written.
pub open spec fn declared_text(d: Seq<(Seq<char>, nat)>) -> Seq<char>
    decreases d.len(),
{
    if d.len() == 0 {
        ""@
    } else {
        declared_text(d.drop_last()) + ("(declare-const "@ + d.last().0 + " (_ BitVec "@ + decimal(
            d.last().1,
        ) + "))\n"@)
    }
}

/// How a problem is written.
pub open spec fn script_text(s: Script) -> Seq<char> {
    "(set-logic QF_BV)\n"@ + declared_text(s.declared) + assertions_text(s.asserted)
        + "(check-sat)\n"@
}

/// The symbols that are declared with the width `bits`.
pub open spec fn declared_at(d: Seq<(Seq<char>, nat)>, bits: nat) -> Set<Seq<char>> {
    Set::new(|n: Seq<char>| d.contains((n, bits)))
}

/// Whether an assertion is made of terms of one width each, over declared symbols.
pub open spec fn assertion_sorted(a: Assertion, d: Seq<(Seq<char>, nat)>) -> bool {
    match a {
        Assertion::Holds(f) => formula_sorted(f.0, declared_at(d, f.1), f.1),
        Assertion::NotAll(fs) => forall|i: int|
            0 <= i < fs.len() ==> formula_sorted(
                (#[trigger] fs[i]).0,
                declared_at(d, fs[i].1),
                fs[i].1,
            ),
    }
}

/// Whether a problem is one that the solver accepts: no symbol is declared twice, and every
/// assertion is well sorted.
pub open spec fn accepted(s: Script) -> bool {
    &&& forall|i: int| 0 <= i < s.declared.len() ==> is_symbol((#[trigger] s.declared[i]).0)
    &&& forall|i: int, j: int|
        0 <= i < j < s.declared.len() ==> (#[trigger] s.declared[i]).0 != (
        #[trigger] s.declared[j]).0
    &&& forall|i: int|
        0 <= i < s.asserted.len() ==> assertion_sorted(#[trigger] s.asserted[i], s.declared)
}

/// Whether an assertion is true, where `val` gives the patterns of the symbols.
pub open spec fn assertion_holds(a: Assertion, val: Values) -> bool {
    match a {
        Assertion::Holds(f) => formula_holds(f.0, val, f.1),
        Assertion::NotAll(fs) => exists|i: int|
            0 <= i < fs.len() && !formula_holds((#[trigger] fs[i]).0, val, fs[i].1),
    }
}

/// Whether `val` is a model of a problem: each symbol has a pattern of its width, and every
/// assertion is true.
pub open spec fn is_model(s: Script, val: Values) -> bool {
    &&& forall|i: int|
        0 <= i < s.declared.len() ==> is_pattern(val((#[trigger] s.declared[i]).0), s.declared[i].1)
    &&& forall|i: int| 0 <= i < s.asserted.len() ==> assertion_holds(#[trigger] s.asserted[i], val)
}

/// Whether the solver can answer that the problem `text` has no model.
pub open spec fn refuted(text: Seq<char>) -> bool {
    forall|s: Script, val: Values|
        accepted(s) && text == #[trigger] script_text(s) ==> !#[trigger] is_model(s, val)
}

// ---------------------------------------------------------------------------
// Clauses over names.
// ---------------------------------------------------------------------------

/// The formula of a clause over names that are symbols themselves.
pub open spec fn clause_formula(raw: Seq<char>, signed: bool, bits: nat) -> Formula {
    match pair_of(raw) {
        Ok(p) => pair_formula(p.op, signed, p.lhs, p.rhs),
        Err(_) => {
            let p = predicate_of(raw)->Ok_0;
            predicate_formula(p.op, signed, bits, p.var, p.literal)
        },
    }
}

/// Whether `env` gives the values of the patterns that `val` gives, for the names `names`.
pub open spec fn reads_as(
    names: Set<Seq<char>>,
    signed: bool,
    bits: nat,
    val: Values,
    env: Values,
) -> bool {
    forall|n: Seq<char>| #[trigger]
        names.contains(n) ==> is_pattern(val(n), bits) && env(n) == value_of(val(n), signed, bits)
}

/// A clause over known names is written as its formula, which is true just if the clause is.
pub proof fn lemma_clause_formula(
    raw: Seq<char>,
    known: Seq<Seq<char>>,
    names: Set<Seq<char>>,
    ty: Seq<char>,
    signed: bool,
    bits: nat,
)
    requires
        clause_assertion(raw, known, ty) is Some,
        forall|n: Seq<char>| #[trigger] known.contains(n) ==> names.contains(n),
        is_width(bits),
        int_info(ty) == Some((signed, bits as u32)),
    ensures
        clause_assertion(raw, known, ty) == Some(
            asserted(formula_text(clause_formula(raw, signed, bits))),
        ),
        clause_term(raw, known, ty) == Some(formula_text(clause_formula(raw, signed, bits))),
        formula_sorted(clause_formula(raw, signed, bits), names, bits),
        forall|val: Values, env: Values| #[trigger]
            reads_as(names, signed, bits, val, env) ==> (formula_holds(
                clause_formula(raw, signed, bits),
                val,
                bits,
            ) <==> clause_true(raw, env)),
{
    law_clauses_speak_of_identifiers(raw);
    let f = clause_formula(raw, signed, bits);
    match pair_of(raw) {
        Ok(p) => {
            lemma_ident_is_symbol(p.lhs);
            lemma_ident_is_symbol(p.rhs);
            lemma_ident_flat(p.lhs);
            lemma_ident_flat(p.rhs);
            assert(names.contains(p.lhs) && names.contains(p.rhs));
            lemma_pair_formula(p.op, p.lhs, p.rhs, ty, signed, bits, names);
            law_stripping_undoes_asserting(p.op, signed, p.lhs, p.rhs);
            assert forall|val: Values, env: Values| #[trigger]
                reads_as(names, signed, bits, val, env) implies (formula_holds(f, val, bits)
                <==> clause_true(raw, env)) by {
                assert(is_pattern(val(p.lhs), bits) && is_pattern(val(p.rhs), bits));
            }
        },
        Err(_) => {
            let p = predicate_of(raw)->Ok_0;
            lemma_ident_is_symbol(p.var);
            lemma_ident_flat(p.var);
            lemma_literal_flat(p.literal, bits as u32);
            assert(names.contains(p.var));
            lemma_predicate_formula(p, p.var, ty, signed, bits, names);
            law_stripping_undoes_asserting(
                p.op,
                signed,
                p.var,
                literal_text(p.literal, bits as u32),
            );
            assert forall|val: Values, env: Values| #[trigger]
                reads_as(names, signed, bits, val, env) implies (formula_holds(f, val, bits)
                <==> clause_true(raw, env)) by {
                assert(is_pattern(val(p.var), bits));
            }
        },
    }
}

// ---------------------------------------------------------------------------
// Texts of parts.
// ---------------------------------------------------------------------------

/// An assertion as a line.
pub proof fn lemma_assertion_line(f: WideFormula)
    ensures
        line(asserted(formula_text(f.0))) == assertion_text(Assertion::Holds(f)),
{
    reveal_strlit(")");
    reveal_strlit("\n");
    reveal_strlit(")\n");
    let a = asserted(formula_text(f.0));
    assert(a.last() == ')');
    assert(!ends(a, "\n")) by {
        if ends(a, "\n") {
            assert(a.subrange(a.len() - 1, a.len() as int)[0] == a.last());
        }
    }
    assert(a + "\n"@ =~= "(assert "@ + formula_text(f.0) + ")\n"@);
}

/// The texts of formulas.
pub open spec fn texts_of(fs: Seq<WideFormula>) -> Seq<Seq<char>> {
    fs.map_values(|f: WideFormula| formula_text(f.0))
}

/// Formulas with spaces between them.
pub proof fn lemma_joined_formulas(fs: Seq<WideFormula>)
    ensures
        joined(texts_of(fs), " "@) == formulas_text(fs),
    decreases fs.len(),
{
    reveal_strlit("");
    if fs.len() == 0 {
        assert(joined(texts_of(fs), " "@) =~= ""@);
    } else if fs.len() > 1 {
        lemma_joined_formulas(fs.drop_last());
        assert(texts_of(fs).drop_last() =~= texts_of(fs.drop_last()));
    }
}

/// The negation of a conjunction as an assertion.
pub proof fn lemma_negated_goals(fs: Seq<WideFormula>)
    ensures
        "(assert "@ + negation(texts_of(fs)) + ")\n"@ == assertion_text(Assertion::NotAll(fs)),
{
    lemma_joined_formulas(fs);
    reveal_strlit("(assert ");
    reveal_strlit("(not ");
    reveal_strlit("(not (and ");
    reveal_strlit("(assert (not ");
    reveal_strlit("(assert (not (and ");
    reveal_strlit(")");
    reveal_strlit("))");
    reveal_strlit(")\n");
    reveal_strlit("))\n");
    reveal_strlit(")))\n");
    if fs.len() == 1 {
        let t = formula_text(fs[0].0);
        assert(texts_of(fs)[0] == t);
        assert("(assert "@ + ("(not "@ + t + ")"@) + ")\n"@ =~= "(assert (not "@ + t + "))\n"@);
    } else {
        let t = formulas_text(fs);
        assert("(assert "@ + ("(not (and "@ + t + "))"@) + ")\n"@ =~= "(assert (not (and "@ + t
            + ")))\n"@);
    }
}

/// Declarations one after the other.
pub proof fn lemma_declared_concat(a: Seq<(Seq<char>, nat)>, b: Seq<(Seq<char>, nat)>)
    ensures
        declared_text(a + b) == declared_text(a) + declared_text(b),
    decreases b.len(),
{
    reveal_strlit("");
    if b.len() == 0 {
        assert(a + b =~= a);
        assert(declared_text(a) + ""@ =~= declared_text(a));
    } else {
        lemma_declared_concat(a, b.drop_last());
        assert((a + b).drop_last() =~= a + b.drop_last());
        let last = "(declare-const "@ + b.last().0 + " (_ BitVec "@ + decimal(b.last().1)
            + "))\n"@;
        assert(declared_text(a) + declared_text(b.drop_last()) + last =~= declared_text(a) + (
        declared_text(b.drop_last()) + last));
    }
}

/// Assertions one after the other.
pub proof fn lemma_assertions_concat(a: Seq<Assertion>, b: Seq<Assertion>)
    ensures
        assertions_text(a + b) == assertions_text(a) + assertions_text(b),
    decreases b.len(),
{
    reveal_strlit("");
    if b.len() == 0 {
        assert(a + b =~= a);
        assert(assertions_text(a) + ""@ =~= assertions_text(a));
    } else {
        lemma_assertions_concat(a, b.drop_last());
        assert((a + b).drop_last() =~= a + b.drop_last());
        let last = assertion_text(b.last());
        assert(assertions_text(a) + assertions_text(b.drop_last()) + last =~= assertions_text(a) + (
        assertions_text(b.drop_last()) + last));
    }
}

/// One assertion.
pub proof fn lemma_one_assertion(a: Assertion)
    ensures
        assertions_text(seq![a]) == assertion_text(a),
{
    reveal_strlit("");
    reveal_with_fuel(assertions_text, 2);
    assert(seq![a].drop_last() =~= Seq::empty());
    assert(""@ + assertion_text(a) =~= assertion_text(a));
}

} // verus!
