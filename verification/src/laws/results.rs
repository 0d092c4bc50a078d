//! What a refuted postcondition problem proves of the body.
use vstd::prelude::*;
use crate::capture::body_effect;
use crate::laws::assumptions::{clause_true, Values};
use crate::laws::capture::is_walk;
use crate::laws::meaning::{law_captured_returns_denote_what_is_returned, names_of_type, travels};
use crate::laws::runs::State;
use crate::laws::scripts::{
    accepted, assertion_holds, assertion_sorted, assertion_text, assertions_text, clause_formula,
    declared_at, declared_text, is_model, lemma_assertion_line, lemma_assertions_concat,
    lemma_clause_formula, lemma_negated_goals, lemma_one_assertion, reads_as, refuted, script_text,
    texts_of, Assertion, Script, WideFormula,
};
use crate::laws::solver::{
    bv_sorted, bv_text, bv_value, formula_holds, formula_sorted, formula_text, is_pattern,
    is_symbol, is_width, lemma_pattern_of_value, lemma_relation_names, pattern_of, value_of, Bv,
    Formula,
};
use crate::locals::{local_int_name, primitive_int_name};
use crate::mir_api::Body;
use crate::postcondition::{
    all_assertions, all_terms, declarations, ensures_problem, lines, negation, typed_args,
};
use crate::predicate::int_info;
use crate::text::listed;

verus! {

/// The formulas of clauses at one type.
pub open spec fn clause_formulas(raws: Seq<String>, signed: bool, bits: nat) -> Seq<WideFormula> {
    raws.map_values(|raw: String| (clause_formula(raw@, signed, bits), bits))
}

/// The assertions that formulas hold.
pub open spec fn each_holds(fs: Seq<WideFormula>) -> Seq<Assertion> {
    fs.map_values(|f: WideFormula| Assertion::Holds(f))
}

/// Names, each with the width `bits`.
pub open spec fn at_width(names: Seq<Seq<char>>, bits: nat) -> Seq<(Seq<char>, nat)> {
    names.map_values(|n: Seq<char>| (n, bits))
}

/// The formula that the result is the value of the term `e`.
pub open spec fn result_is(e: Bv) -> Formula {
    Formula::Related("="@, Bv::Symbol("result"@), e)
}

/// The problem of the postconditions, where `e` is the term of the returned value.
pub open spec fn postcondition_script(
    body: Body,
    preconditions: Seq<String>,
    postconditions: Seq<String>,
    ty: Seq<char>,
    signed: bool,
    bits: nat,
    e: Bv,
) -> Script {
    Script {
        declared: at_width(
            seq!["result"@] + typed_args(body, ty, body.arg_names@.len()),
            bits,
        ),
        asserted: each_holds(clause_formulas(preconditions, signed, bits)) + seq![
            Assertion::Holds((result_is(e), bits)),
        ] + seq![Assertion::NotAll(clause_formulas(postconditions, signed, bits))],
    }
}

proof fn lemma_declarations(names: Seq<Seq<char>>, bits: u32)
    ensures
        declarations(names, bits) == declared_text(at_width(names, bits as nat)),
    decreases names.len(),
{
    if names.len() > 0 {
        lemma_declarations(names.drop_last(), bits);
        assert(at_width(names, bits as nat).drop_last() =~= at_width(
            names.drop_last(),
            bits as nat,
        ));
    }
}

proof fn lemma_assumed(
    raws: Seq<String>,
    known: Seq<Seq<char>>,
    names: Set<Seq<char>>,
    ty: Seq<char>,
    signed: bool,
    bits: nat,
)
    requires
        all_assertions(raws, known, ty) is Ok,
        forall|n: Seq<char>| #[trigger] known.contains(n) ==> names.contains(n),
        is_width(bits),
        int_info(ty) == Some((signed, bits as u32)),
    ensures
        lines(all_assertions(raws, known, ty)->Ok_0) == assertions_text(
            each_holds(clause_formulas(raws, signed, bits)),
        ),
        forall|i: int|
            0 <= i < raws.len() ==> formula_sorted(
                #[trigger] clause_formula(raws[i]@, signed, bits),
                names,
                bits,
            ),
        forall|val: Values, env: Values, i: int| #[trigger]
            reads_as(names, signed, bits, val, env) && 0 <= i < raws.len() ==> (formula_holds(
                #[trigger] clause_formula(raws[i]@, signed, bits),
                val,
                bits,
            ) <==> clause_true(raws[i]@, env)),
    decreases raws.len(),
{
    if raws.len() > 0 {
        let before = raws.drop_last();
        let raw = raws.last()@;
        lemma_assumed(before, known, names, ty, signed, bits);
        lemma_clause_formula(raw, known, names, ty, signed, bits);
        let f = (clause_formula(raw, signed, bits), bits);
        lemma_assertion_line(f);
        let all = each_holds(clause_formulas(raws, signed, bits));
        assert(all.drop_last() =~= each_holds(clause_formulas(before, signed, bits)));
        assert(all.last() == Assertion::Holds(f));
        let v = all_assertions(raws, known, ty)->Ok_0;
        assert(v.drop_last() =~= all_assertions(before, known, ty)->Ok_0);
        assert forall|i: int| 0 <= i < raws.len() implies formula_sorted(
            #[trigger] clause_formula(raws[i]@, signed, bits),
            names,
            bits,
        ) by {
            if i < before.len() {
                assert(before[i] == raws[i]);
            }
        }
        assert forall|val: Values, env: Values, i: int| #[trigger]
            reads_as(names, signed, bits, val, env) && 0 <= i < raws.len() implies (formula_holds(
            #[trigger] clause_formula(raws[i]@, signed, bits),
            val,
            bits,
        ) <==> clause_true(raws[i]@, env)) by {
            if i < before.len() {
                assert(before[i] == raws[i]);
            }
        }
    }
}

proof fn lemma_aims(
    raws: Seq<String>,
    known: Seq<Seq<char>>,
    names: Set<Seq<char>>,
    ty: Seq<char>,
    signed: bool,
    bits: nat,
)
    requires
        all_terms(raws, known, ty) is Ok,
        forall|n: Seq<char>| #[trigger] known.contains(n) ==> names.contains(n),
        is_width(bits),
        int_info(ty) == Some((signed, bits as u32)),
    ensures
        all_terms(raws, known, ty)->Ok_0 == texts_of(clause_formulas(raws, signed, bits)),
        forall|i: int|
            0 <= i < raws.len() ==> formula_sorted(
                #[trigger] clause_formula(raws[i]@, signed, bits),
                names,
                bits,
            ),
        forall|val: Values, env: Values, i: int| #[trigger]
            reads_as(names, signed, bits, val, env) && 0 <= i < raws.len() ==> (formula_holds(
                #[trigger] clause_formula(raws[i]@, signed, bits),
                val,
                bits,
            ) <==> clause_true(raws[i]@, env)),
    decreases raws.len(),
{
    if raws.len() == 0 {
        assert(texts_of(clause_formulas(raws, signed, bits)) =~= Seq::empty());
    } else {
        let before = raws.drop_last();
        let raw = raws.last()@;
        lemma_aims(before, known, names, ty, signed, bits);
        assert(crate::postcondition::clause_assertion(raw, known, ty) is Some);
        lemma_clause_formula(raw, known, names, ty, signed, bits);
        let v = all_terms(raws, known, ty)->Ok_0;
        let all = texts_of(clause_formulas(raws, signed, bits));
        assert(all =~= texts_of(clause_formulas(before, signed, bits)).push(
            formula_text(clause_formula(raw, signed, bits)),
        ));
        assert forall|i: int| 0 <= i < raws.len() implies formula_sorted(
            #[trigger] clause_formula(raws[i]@, signed, bits),
            names,
            bits,
        ) by {
            if i < before.len() {
                assert(before[i] == raws[i]);
            }
        }
        assert forall|val: Values, env: Values, i: int| #[trigger]
            reads_as(names, signed, bits, val, env) && 0 <= i < raws.len() implies (formula_holds(
            #[trigger] clause_formula(raws[i]@, signed, bits),
            val,
            bits,
        ) <==> clause_true(raws[i]@, env)) by {
            if i < before.len() {
                assert(before[i] == raws[i]);
            }
        }
    }
}

/// The parameters that a problem declares are those of the type, by their names.
proof fn lemma_typed_args(body: Body, ty: Seq<char>, n: nat)
    requires
        n <= body.arg_names@.len(),
    ensures
        forall|name: Seq<char>| #[trigger]
            typed_args(body, ty, n).contains(name) <==> exists|i: int|
                {
                    &&& 0 <= i < n
                    &&& (#[trigger] body.arg_names@[i])@ == name
                    &&& name.len() > 0
                    &&& local_int_name(body, i + 1) == Some(ty)
                },
    decreases n,
{
    let all = typed_args(body, ty, n);
    if n > 0 {
        let before = typed_args(body, ty, (n - 1) as nat);
        lemma_typed_args(body, ty, (n - 1) as nat);
        assert forall|name: Seq<char>| #[trigger] all.contains(name) <==> exists|i: int|
            {
                &&& 0 <= i < n
                &&& (#[trigger] body.arg_names@[i])@ == name
                &&& name.len() > 0
                &&& local_int_name(body, i + 1) == Some(ty)
            } by {
            if all.contains(name) {
                let k = choose|k: int| 0 <= k < all.len() && all[k] == name;
                if k < before.len() {
                    assert(before[k] == name);
                    assert(before.contains(name));
                    let i = choose|i: int|
                        {
                            &&& 0 <= i < n - 1
                            &&& (#[trigger] body.arg_names@[i])@ == name
                            &&& name.len() > 0
                            &&& local_int_name(body, i + 1) == Some(ty)
                        };
                    assert(body.arg_names@[i]@ == name);
                } else {
                    assert(body.arg_names@[n - 1]@ == name);
                }
            }
            if exists|i: int|
                {
                    &&& 0 <= i < n
                    &&& (#[trigger] body.arg_names@[i])@ == name
                    &&& name.len() > 0
                    &&& local_int_name(body, i + 1) == Some(ty)
                } {
                let i = choose|i: int|
                    {
                        &&& 0 <= i < n
                        &&& (#[trigger] body.arg_names@[i])@ == name
                        &&& name.len() > 0
                        &&& local_int_name(body, i + 1) == Some(ty)
                    };
                if i < n - 1 {
                    assert(before.contains(name)) by {
                        assert(body.arg_names@[i]@ == name);
                    }
                    let k = choose|k: int| 0 <= k < before.len() && before[k] == name;
                    assert(all[k] == name);
                } else {
                    assert(all[all.len() - 1] == name);
                }
            }
        }
    }
}

/// The names of the parameters of a type that a problem declares do not repeat.
proof fn lemma_typed_args_distinct(body: Body, ty: Seq<char>, n: nat)
    requires
        n <= body.arg_names@.len(),
        named_apart(body),
    ensures
        typed_args(body, ty, n).no_duplicates(),
    decreases n,
{
    if n > 0 {
        let before = typed_args(body, ty, (n - 1) as nat);
        lemma_typed_args_distinct(body, ty, (n - 1) as nat);
        lemma_typed_args(body, ty, (n - 1) as nat);
        let all = typed_args(body, ty, n);
        if all.len() > before.len() {
            let name = body.arg_names@[n - 1]@;
            if before.contains(name) {
                let i = choose|i: int|
                    {
                        &&& 0 <= i < n - 1
                        &&& (#[trigger] body.arg_names@[i])@ == name
                        &&& name.len() > 0
                        &&& local_int_name(body, i + 1) == Some(ty)
                    };
                assert(body.arg_names@[i]@ != body.arg_names@[n - 1]@);
            }
            assert forall|i: int, j: int|
                0 <= i < all.len() && 0 <= j < all.len() && i != j implies all[i] != all[j] by {
                if i < before.len() {
                    assert(all[i] == before[i]);
                    assert(before.contains(all[i]));
                }
                if j < before.len() {
                    assert(all[j] == before[j]);
                    assert(before.contains(all[j]));
                }
            }
        }
    }
}

/// Whether the named parameters of a body have symbols for names, and each its own.
pub open spec fn named_apart(body: Body) -> bool {
    &&& forall|i: int|
        0 <= i < body.arg_names@.len() && (#[trigger] body.arg_names@[i])@.len() > 0 ==> is_symbol(
            body.arg_names@[i]@,
        )
    &&& forall|i: int, j: int|
        0 <= i < j < body.arg_names@.len() && (#[trigger] body.arg_names@[i])@.len() > 0 ==> (
        #[trigger] body.arg_names@[j])@ != body.arg_names@[i]@
}

/// The names that a postcondition problem can speak of.
pub open spec fn result_and_parameters(body: Body, ty: Seq<char>) -> Set<Seq<char>> {
    names_of_type(body, ty).insert("result"@)
}

/// The names that a problem declares are those that it can speak of.
proof fn lemma_known_names(body: Body, ty: Seq<char>)
    ensures
        ({
            let args = typed_args(body, ty, body.arg_names@.len());
            let known = seq!["result"@] + args;
            &&& forall|n: Seq<char>| #[trigger]
                args.contains(n) ==> result_and_parameters(body, ty).contains(n)
            &&& forall|n: Seq<char>| #[trigger]
                known.contains(n) <==> result_and_parameters(body, ty).contains(n)
        }),
{
    let args = typed_args(body, ty, body.arg_names@.len());
    let known = seq!["result"@] + args;
    let names = result_and_parameters(body, ty);
    lemma_typed_args(body, ty, body.arg_names@.len());
    assert forall|n: Seq<char>| #[trigger] known.contains(n) <==> names.contains(n) by {
        if known.contains(n) {
            let k = choose|k: int| 0 <= k < known.len() && known[k] == n;
            if k > 0 {
                assert(args[k - 1] == n);
                assert(args.contains(n));
            }
        }
        if names.contains(n) {
            if n == "result"@ {
                assert(known[0] == n);
            } else {
                assert(args.contains(n));
                let k = choose|k: int| 0 <= k < args.len() && args[k] == n;
                assert(known[k + 1] == n);
            }
        }
    }
}

/// The assertion of what the result is.
proof fn lemma_result_line(e: Bv)
    ensures
        forall|bits: nat|
            #[trigger] assertion_text(Assertion::Holds((result_is(e), bits)))
                == "(assert (= result "@ + bv_text(e) + "))\n"@,
{
    reveal_strlit("result");
    reveal_strlit("(assert ");
    reveal_strlit("(");
    reveal_strlit("=");
    reveal_strlit(" ");
    reveal_strlit(")");
    reveal_strlit(")\n");
    reveal_strlit("(assert (= result ");
    reveal_strlit("))\n");
    let t = bv_text(e);
    assert("(assert "@ + ("("@ + "="@ + " "@ + "result"@ + " "@ + t + ")"@) + ")\n"@
        =~= "(assert (= result "@ + t + "))\n"@);
}

/// A problem is its parts one after the other.
proof fn lemma_assembled(
    declared: Seq<char>,
    assumed: Seq<char>,
    effect: Seq<char>,
    denied: Seq<char>,
)
    ensures
        "(set-logic QF_BV)\n"@ + declared + assumed + "(assert (= result "@ + effect + "))\n"@
            + "(assert "@ + denied + ")\n(check-sat)\n"@ == "(set-logic QF_BV)\n"@ + declared + (
        assumed + ("(assert (= result "@ + effect + "))\n"@) + ("(assert "@ + denied + ")\n"@))
            + "(check-sat)\n"@,
{
    reveal_strlit(")\n");
    reveal_strlit("(check-sat)\n");
    reveal_strlit(")\n(check-sat)\n");
    assert(")\n"@ + "(check-sat)\n"@ =~= ")\n(check-sat)\n"@);
    let a = "(set-logic QF_BV)\n"@;
    let r = "(assert (= result "@;
    let q = "(assert "@;
    assert(a + declared + assumed + r + effect + "))\n"@ + q + denied + (")\n"@
        + "(check-sat)\n"@) =~= a + declared + (assumed + (r + effect + "))\n"@) + (q + denied
        + ")\n"@)) + "(check-sat)\n"@);
}

/// The text of a postcondition problem.
proof fn lemma_script_text(
    body: Body,
    preconditions: Seq<String>,
    postconditions: Seq<String>,
    ty: Seq<char>,
    signed: bool,
    bits: nat,
    e: Bv,
)
    requires
        ensures_problem(body, preconditions, postconditions, Some(ty)).discharge is Some,
        is_width(bits),
        int_info(ty) == Some((signed, bits as u32)),
        named_apart(body),
        bv_text(e) == body_effect(body)->0,
        bv_sorted(e, names_of_type(body, ty), bits),
    ensures
        ({
            let s = postcondition_script(
                body,
                preconditions,
                postconditions,
                ty,
                signed,
                bits,
                e,
            );
            ensures_problem(body, preconditions, postconditions, Some(ty)).discharge == Some(
                script_text(s),
            )
        }),
{
    let args = typed_args(body, ty, body.arg_names@.len());
    let known = seq!["result"@] + args;
    let names = result_and_parameters(body, ty);
    let s = postcondition_script(body, preconditions, postconditions, ty, signed, bits, e);
    let pre = clause_formulas(preconditions, signed, bits);
    let post = clause_formulas(postconditions, signed, bits);
    let first = each_holds(pre);
    let middle = Assertion::Holds((result_is(e), bits));
    let last = Assertion::NotAll(post);
    let assumed = all_assertions(preconditions, args, ty)->Ok_0;
    let aims = all_terms(postconditions, known, ty)->Ok_0;
    let effect = body_effect(body)->0;
    lemma_known_names(body, ty);
    lemma_assumed(preconditions, args, names, ty, signed, bits);
    lemma_aims(postconditions, known, names, ty, signed, bits);
    lemma_declarations(known, bits as u32);
    lemma_assertions_concat(first + seq![middle], seq![last]);
    lemma_assertions_concat(first, seq![middle]);
    lemma_one_assertion(middle);
    lemma_one_assertion(last);
    lemma_negated_goals(post);
    assert(post.len() == postconditions.len());
    lemma_result_line(e);
    lemma_assembled(
        declared_text(s.declared),
        assertions_text(first),
        effect,
        negation(aims),
    );
}

/// A postcondition problem is well sorted.
proof fn lemma_script_accepted(
    body: Body,
    preconditions: Seq<String>,
    postconditions: Seq<String>,
    ty: Seq<char>,
    signed: bool,
    bits: nat,
    e: Bv,
)
    requires
        ensures_problem(body, preconditions, postconditions, Some(ty)).discharge is Some,
        is_width(bits),
        int_info(ty) == Some((signed, bits as u32)),
        named_apart(body),
        bv_text(e) == body_effect(body)->0,
        bv_sorted(e, names_of_type(body, ty), bits),
    ensures
        ({
            let s = postcondition_script(
                body,
                preconditions,
                postconditions,
                ty,
                signed,
                bits,
                e,
            );
            accepted(s)
        }),
{
    let args = typed_args(body, ty, body.arg_names@.len());
    let known = seq!["result"@] + args;
    let names = result_and_parameters(body, ty);
    let s = postcondition_script(body, preconditions, postconditions, ty, signed, bits, e);
    let pre = clause_formulas(preconditions, signed, bits);
    let post = clause_formulas(postconditions, signed, bits);
    let first = each_holds(pre);
    let middle = Assertion::Holds((result_is(e), bits));
    let last = Assertion::NotAll(post);
    lemma_known_names(body, ty);
    lemma_assumed(preconditions, args, names, ty, signed, bits);
    lemma_aims(postconditions, known, names, ty, signed, bits);
    lemma_typed_args(body, ty, body.arg_names@.len());
    lemma_typed_args_distinct(body, ty, body.arg_names@.len());
    reveal_strlit("result");
    assert(is_symbol("result"@));
    assert(declared_at(s.declared, bits) =~= names) by {
        assert forall|n: Seq<char>| declared_at(s.declared, bits).contains(n) <==> names.contains(
            n,
        ) by {
            if s.declared.contains((n, bits)) {
                let k = choose|k: int| 0 <= k < s.declared.len() && s.declared[k] == (n, bits);
                assert(known[k] == n);
                assert(known.contains(n));
            }
            if names.contains(n) {
                assert(known.contains(n));
                let k = choose|k: int| 0 <= k < known.len() && known[k] == n;
                assert(s.declared[k] == (n, bits));
            }
        }
    }
    assert forall|i: int| 0 <= i < s.declared.len() implies is_symbol(
        (#[trigger] s.declared[i]).0,
    ) by {
        assert(s.declared[i].0 == known[i]);
        if i > 0 {
            assert(known[i] == args[i - 1]);
            assert(args.contains(args[i - 1]));
        }
    }
    assert forall|i: int, j: int| 0 <= i < j < s.declared.len() implies (#[trigger] s.declared[i]).0
        != (#[trigger] s.declared[j]).0 by {
        assert(s.declared[i].0 == known[i]);
        assert(s.declared[j].0 == known[j]);
        assert(known[j] == args[j - 1]);
        assert(args.contains(args[j - 1]));
        if i == 0 {
            let k = choose|k: int|
                {
                    &&& 0 <= k < body.arg_names@.len()
                    &&& (#[trigger] body.arg_names@[k])@ == args[j - 1]
                    &&& args[j - 1].len() > 0
                    &&& local_int_name(body, k + 1) == Some(ty)
                };
            assert(!listed(body.arg_names@, "result"@));
            assert(body.arg_names@[k]@ != "result"@);
        }
    }
    lemma_wider(e, names_of_type(body, ty), names, bits);
    assert forall|i: int| 0 <= i < s.asserted.len() implies assertion_sorted(
        #[trigger] s.asserted[i],
        s.declared,
    ) by {
        if i < first.len() {
            assert(s.asserted[i] == Assertion::Holds(pre[i]));
            assert(pre[i].0 == clause_formula(preconditions[i]@, signed, bits));
        } else if i == first.len() {
            assert(s.asserted[i] == middle);
        } else {
            assert(s.asserted[i] == last);
            assert forall|k: int| 0 <= k < post.len() implies formula_sorted(
                (#[trigger] post[k]).0,
                declared_at(s.declared, post[k].1),
                post[k].1,
            ) by {
                assert(post[k].0 == clause_formula(postconditions[k]@, signed, bits));
            }
        }
    }
}

/// The models of a postcondition problem.
proof fn lemma_script_models(
    body: Body,
    preconditions: Seq<String>,
    postconditions: Seq<String>,
    ty: Seq<char>,
    signed: bool,
    bits: nat,
    e: Bv,
)
    requires
        ensures_problem(body, preconditions, postconditions, Some(ty)).discharge is Some,
        is_width(bits),
        int_info(ty) == Some((signed, bits as u32)),
        named_apart(body),
        bv_text(e) == body_effect(body)->0,
        bv_sorted(e, names_of_type(body, ty), bits),
    ensures
        ({
            let s = postcondition_script(
                body,
                preconditions,
                postconditions,
                ty,
                signed,
                bits,
                e,
            );
            forall|val: Values, env: Values| #[trigger]
                reads_as(result_and_parameters(body, ty), signed, bits, val, env) ==> (is_model(
                    s,
                    val,
                ) <==> {
                    &&& forall|i: int|
                        0 <= i < preconditions.len() ==> clause_true(
                            (#[trigger] preconditions[i])@,
                            env,
                        )
                    &&& val("result"@) == bv_value(e, val, bits)
                    &&& exists|i: int|
                        0 <= i < postconditions.len() && !clause_true(
                            (#[trigger] postconditions[i])@,
                            env,
                        )
                })
        }),
{
    let args = typed_args(body, ty, body.arg_names@.len());
    let known = seq!["result"@] + args;
    let names = result_and_parameters(body, ty);
    let s = postcondition_script(body, preconditions, postconditions, ty, signed, bits, e);
    let pre = clause_formulas(preconditions, signed, bits);
    let post = clause_formulas(postconditions, signed, bits);
    let first = each_holds(pre);
    let middle = Assertion::Holds((result_is(e), bits));
    let last = Assertion::NotAll(post);
    lemma_known_names(body, ty);
    lemma_assumed(preconditions, args, names, ty, signed, bits);
    lemma_aims(postconditions, known, names, ty, signed, bits);
    lemma_relation_names();
    assert forall|val: Values, env: Values| #[trigger]
        reads_as(names, signed, bits, val, env) implies (is_model(s, val) <==> {
        &&& forall|i: int|
            0 <= i < preconditions.len() ==> clause_true((#[trigger] preconditions[i])@, env)
        &&& val("result"@) == bv_value(e, val, bits)
        &&& exists|i: int|
            0 <= i < postconditions.len() && !clause_true((#[trigger] postconditions[i])@, env)
    }) by {
        assert forall|i: int| 0 <= i < preconditions.len() implies (clause_true(
            (#[trigger] preconditions[i])@,
            env,
        ) <==> assertion_holds(s.asserted[i], val)) by {
            assert(s.asserted[i] == Assertion::Holds(pre[i]));
            assert(pre[i].0 == clause_formula(preconditions[i]@, signed, bits));
        }
        assert(s.asserted[first.len() as int] == middle);
        assert(assertion_holds(middle, val) <==> val("result"@) == bv_value(e, val, bits));
        assert(s.asserted[first.len() as int + 1] == last);
        assert(assertion_holds(last, val) <==> exists|i: int|
            0 <= i < postconditions.len() && !clause_true(
                (#[trigger] postconditions[i])@,
                env,
            )) by {
            assert forall|i: int| 0 <= i < postconditions.len() implies (clause_true(
                (#[trigger] postconditions[i])@,
                env,
            ) <==> formula_holds(post[i].0, val, post[i].1)) by {
                assert(post[i].0 == clause_formula(postconditions[i]@, signed, bits));
            }
            if assertion_holds(last, val) {
                let i = choose|i: int|
                    0 <= i < post.len() && !formula_holds((#[trigger] post[i]).0, val, post[i].1);
                assert(!clause_true(postconditions[i]@, env));
            }
            if exists|i: int|
                0 <= i < postconditions.len() && !clause_true(
                    (#[trigger] postconditions[i])@,
                    env,
                ) {
                let i = choose|i: int|
                    0 <= i < postconditions.len() && !clause_true(
                        (#[trigger] postconditions[i])@,
                        env,
                    );
                assert(!formula_holds(post[i].0, val, post[i].1));
            }
        }
        assert forall|i: int| 0 <= i < s.declared.len() implies is_pattern(
            val((#[trigger] s.declared[i]).0),
            s.declared[i].1,
        ) by {
            assert(s.declared[i] == (known[i], bits));
            assert(known.contains(known[i]));
            assert(names.contains(known[i]));
        }
        if is_model(s, val) {
            assert forall|i: int| 0 <= i < preconditions.len() implies clause_true(
                (#[trigger] preconditions[i])@,
                env,
            ) by {
                assert(assertion_holds(s.asserted[i], val));
            }
            assert(assertion_holds(s.asserted[first.len() as int], val));
            assert(assertion_holds(s.asserted[first.len() as int + 1], val));
        }
        if (forall|i: int|
            0 <= i < preconditions.len() ==> clause_true((#[trigger] preconditions[i])@, env))
            && assertion_holds(middle, val) && assertion_holds(last, val) {
            assert forall|i: int| 0 <= i < s.asserted.len() implies assertion_holds(
                #[trigger] s.asserted[i],
                val,
            ) by {
                if i < first.len() {
                    assert(clause_true(preconditions[i]@, env));
                }
            }
        }
    }
}

/// What a postcondition problem says. Let `e` be a term of the captured return value. Then the text
/// of the problem is that of a script which the solver accepts, and whose models are just the
/// patterns of the result and of the parameters of the return type of which the preconditions are
/// true, whose result is the value of `e`, and of which not all postconditions are true.
pub proof fn law_postcondition_problems_say_what_they_should(
    body: Body,
    preconditions: Seq<String>,
    postconditions: Seq<String>,
    ty: Seq<char>,
    signed: bool,
    bits: nat,
    e: Bv,
)
    requires
        ensures_problem(body, preconditions, postconditions, Some(ty)).discharge is Some,
        is_width(bits),
        int_info(ty) == Some((signed, bits as u32)),
        named_apart(body),
        bv_text(e) == body_effect(body)->0,
        bv_sorted(e, names_of_type(body, ty), bits),
    ensures
        ({
            let s = postcondition_script(
                body,
                preconditions,
                postconditions,
                ty,
                signed,
                bits,
                e,
            );
            &&& ensures_problem(body, preconditions, postconditions, Some(ty)).discharge == Some(
                script_text(s),
            )
            &&& accepted(s)
            &&& forall|val: Values, env: Values| #[trigger]
                reads_as(result_and_parameters(body, ty), signed, bits, val, env) ==> (is_model(
                    s,
                    val,
                ) <==> {
                    &&& forall|i: int|
                        0 <= i < preconditions.len() ==> clause_true(
                            (#[trigger] preconditions[i])@,
                            env,
                        )
                    &&& val("result"@) == bv_value(e, val, bits)
                    &&& exists|i: int|
                        0 <= i < postconditions.len() && !clause_true(
                            (#[trigger] postconditions[i])@,
                            env,
                        )
                })
        }),
{
    lemma_script_text(
        body,
        preconditions,
        postconditions,
        ty,
        signed,
        bits,
        e,
    );
    lemma_script_accepted(
        body,
        preconditions,
        postconditions,
        ty,
        signed,
        bits,
        e,
    );
    lemma_script_models(
        body,
        preconditions,
        postconditions,
        ty,
        signed,
        bits,
        e,
    );
}

/// A term over some symbols is one over more of them.
pub proof fn lemma_wider(e: Bv, some: Set<Seq<char>>, more: Set<Seq<char>>, bits: nat)
    requires
        bv_sorted(e, some, bits),
        forall|n: Seq<char>| #[trigger] some.contains(n) ==> more.contains(n),
    ensures
        bv_sorted(e, more, bits),
    decreases e,
{
    if let Bv::Apply(_, a, b) = e {
        lemma_wider(*a, some, more, bits);
        lemma_wider(*b, some, more, bits);
    }
}

/// A refuted postcondition problem proves the postconditions: in every run, along every way from
/// the entry to a return, if the preconditions are true of the arguments then the postconditions
/// are true of the arguments and of what is returned.
pub proof fn law_discharged_postconditions_hold(
    body: Body,
    preconditions: Seq<String>,
    postconditions: Seq<String>,
    ty: Seq<char>,
    signed: bool,
    bits: nat,
    p: Seq<int>,
    s: State,
    t: State,
    env: Values,
)
    requires
        primitive_int_name(body.return_ty) == Some(ty),
        is_width(bits),
        int_info(ty) == Some((signed, bits as u32)),
        ensures_problem(body, preconditions, postconditions, Some(ty)).discharge is Some,
        refuted(ensures_problem(body, preconditions, postconditions, Some(ty)).discharge->0),
        named_apart(body),
        is_walk(body.blocks@, p),
        0 <= p.last() < body.blocks@.len(),
        body.blocks@[p.last()].terminator.kind is Return,
        travels(body, p, s, t, signed, bits),
        forall|i: int|
            0 <= i < body.arg_names@.len() && (#[trigger] body.arg_names@[i])@.len() > 0
                && local_int_name(body, i + 1) == Some(ty) ==> is_pattern(s((i + 1) as u32), bits)
                && env(body.arg_names@[i]@) == value_of(s((i + 1) as u32), signed, bits),
        env("result"@) == value_of(t(0), signed, bits),
        forall|i: int|
            0 <= i < preconditions.len() ==> clause_true((#[trigger] preconditions[i])@, env),
    ensures
        forall|i: int|
            0 <= i < postconditions.len() ==> clause_true((#[trigger] postconditions[i])@, env),
{
    let val: Values = |n: Seq<char>|
        if n == "result"@ {
            t(0)
        } else {
            pattern_of(env(n), bits)
        };
    assert(!listed(body.arg_names@, "result"@));
    assert forall|i: int|
        0 <= i < body.arg_names@.len() && (#[trigger] body.arg_names@[i])@.len() > 0
            && local_int_name(body, i + 1) == Some(ty) implies is_symbol(body.arg_names@[i]@)
        && is_pattern(s((i + 1) as u32), bits) && val(body.arg_names@[i]@) == s(
        (i + 1) as u32,
    ) by {
        lemma_pattern_of_value(s((i + 1) as u32), signed, bits);
        assert(body.arg_names@[i]@ != "result"@);
    }
    law_captured_returns_denote_what_is_returned(body, p, s, t, val, signed, bits);
    let names = names_of_type(body, ty);
    let effect = body_effect(body)->0;
    let e = choose|e: Bv|
        {
            &&& #[trigger] bv_text(e) == effect
            &&& bv_sorted(e, names, bits)
            &&& bv_value(e, val, bits) == t(0)
        };
    law_postcondition_problems_say_what_they_should(
        body,
        preconditions,
        postconditions,
        ty,
        signed,
        bits,
        e,
    );
    let script = postcondition_script(
        body,
        preconditions,
        postconditions,
        ty,
        signed,
        bits,
        e,
    );
    assert(reads_as(result_and_parameters(body, ty), signed, bits, val, env)) by {
        assert forall|n: Seq<char>| #[trigger]
            result_and_parameters(body, ty).contains(n) implies is_pattern(val(n), bits) && env(n)
            == value_of(val(n), signed, bits) by {
            if n != "result"@ {
                assert(names.contains(n));
                let i = choose|i: int|
                    {
                        &&& 0 <= i < body.arg_names@.len()
                        &&& (#[trigger] body.arg_names@[i])@ == n
                        &&& n.len() > 0
                        &&& local_int_name(body, i + 1) == Some(ty)
                    };
                assert(body.arg_names@[i]@ == n);
            }
        }
    }
    assert(!is_model(script, val));
}

} // verus!
