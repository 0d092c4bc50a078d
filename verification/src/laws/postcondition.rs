//! What holds of the solver problems of postconditions.
use vstd::prelude::*;
use crate::capture::{body_effect, entry_names};
use crate::locals::{arg_name, local_int_name};
use crate::mir_api::Body;
use crate::postcondition::{
    all_assertions, all_terms, clause_assertion, ensures_hypotheses, ensures_problem, negation,
    typed_args,
};
use crate::predicate::{pair_of, predicate_of};
use crate::text::listed;

verus! {

/// Whether the clause `raw` speaks of the identifier `name`.
pub open spec fn speaks_of(raw: Seq<char>, name: Seq<char>) -> bool {
    (pair_of(raw) matches Ok(p) && (p.lhs == name || p.rhs == name)) || (predicate_of(
        raw,
    ) matches Ok(p) && p.var == name)
}

proof fn lemma_typed_args_are_args(body: Body, ty: Seq<char>, n: nat, name: Seq<char>)
    requires
        n <= body.arg_names@.len(),
        typed_args(body, ty, n).contains(name),
    ensures
        listed(body.arg_names@, name),
    decreases n,
{
    if n > 0 {
        let before = typed_args(body, ty, (n - 1) as nat);
        let all = typed_args(body, ty, n);
        let i = choose|i: int| 0 <= i < all.len() && all[i] == name;
        if i < before.len() {
            assert(before[i] == name);
            lemma_typed_args_are_args(body, ty, (n - 1) as nat, name);
        } else {
            assert(body.arg_names@[n - 1]@ == name);
        }
    }
}

proof fn lemma_refused_stays_refused(
    raws: Seq<String>,
    known: Seq<Seq<char>>,
    ty: Seq<char>,
    i: int,
)
    requires
        0 <= i < raws.len(),
        clause_assertion(raws[i]@, known, ty) is None,
    ensures
        all_assertions(raws, known, ty) is Err,
    decreases raws.len(),
{
    if i < raws.len() - 1 {
        lemma_refused_stays_refused(raws.drop_last(), known, ty, i);
    }
}

/// A precondition never speaks of the output: where one does, there is no solver problem, so that
/// no postcondition is proved from a hypothesis on its own subject.
pub proof fn law_the_output_is_no_hypothesis(
    body: Body,
    preconditions: Seq<String>,
    postconditions: Seq<String>,
    ret_ty: Option<Seq<char>>,
    i: int,
)
    requires
        0 <= i < preconditions.len(),
        speaks_of(preconditions[i]@, "result"@),
    ensures
        ensures_problem(body, preconditions, postconditions, ret_ty).discharge is None,
{
    if let Some(ty) = ret_ty {
        if !listed(body.arg_names@, "result"@) {
            let args = typed_args(body, ty, body.arg_names@.len());
            if args.contains("result"@) {
                lemma_typed_args_are_args(body, ty, body.arg_names@.len(), "result"@);
            }
            crate::laws::clauses::law_clause_forms_exclude_each_other(preconditions[i]@);
            assert(clause_assertion(preconditions[i]@, args, ty) is None);
            lemma_refused_stays_refused(preconditions, args, ty, i);
        }
    }
}

proof fn lemma_all_lengths(raws: Seq<String>, known: Seq<Seq<char>>, ty: Seq<char>)
    ensures
        all_assertions(raws, known, ty) matches Ok(v) ==> v.len() == raws.len(),
        all_terms(raws, known, ty) matches Ok(v) ==> v.len() == raws.len(),
    decreases raws.len(),
{
    if raws.len() > 0 {
        lemma_all_lengths(raws.drop_last(), known, ty);
    }
}

/// The problem of postconditions speaks of every clause: each postcondition is a goal and each
/// precondition a hypothesis, in order, or there is no problem at all. The consistency check has
/// the same declarations and hypotheses as the problem, and is there just if there are
/// preconditions.
pub proof fn law_postcondition_problems_are_complete(
    body: Body,
    preconditions: Seq<String>,
    postconditions: Seq<String>,
    ty: Seq<char>,
)
    requires
        ensures_problem(body, preconditions, postconditions, Some(ty)).discharge is Some,
    ensures
        ({
            let problem = ensures_problem(body, preconditions, postconditions, Some(ty));
            let args = typed_args(body, ty, body.arg_names@.len());
            let assumed = all_assertions(preconditions, args, ty);
            let aims = all_terms(postconditions, seq!["result"@] + args, ty);
            let bits = (crate::predicate::int_info(ty)->0).1;
            let given = ensures_hypotheses(args, bits, assumed->Ok_0, body_effect(body)->0);
            &&& assumed is Ok
            &&& assumed->Ok_0.len() == preconditions.len()
            &&& aims is Ok
            &&& aims->Ok_0.len() == postconditions.len()
            &&& postconditions.len() > 0
            &&& problem.discharge == Some(
                given + "(assert "@ + negation(aims->Ok_0) + ")\n(check-sat)\n"@,
            )
            &&& problem.consistency == if preconditions.len() == 0 {
                None
            } else {
                Some(given + "(check-sat)\n"@)
            }
        }),
{
    let args = typed_args(body, ty, body.arg_names@.len());
    lemma_all_lengths(preconditions, args, ty);
    lemma_all_lengths(postconditions, seq!["result"@] + args, ty);
}

/// The names that a captured return value can start from are the parameters that its problem
/// declares.
pub proof fn law_captured_names_are_declared(body: Body, ty: Seq<char>, l: u32)
    ensures
        entry_names(body, ty).whole.contains_key(l) ==> typed_args(
            body,
            ty,
            body.arg_names@.len(),
        ).contains(entry_names(body, ty).whole[l]),
{
    if entry_names(body, ty).whole.contains_key(l) {
        lemma_typed_arg_listed(body, ty, body.arg_names@.len(), l as nat);
    }
}

proof fn lemma_typed_arg_listed(body: Body, ty: Seq<char>, n: nat, l: nat)
    requires
        1 <= l <= n <= body.arg_names@.len(),
        arg_name(body, l as int) is Some,
        local_int_name(body, l as int) == Some(ty),
    ensures
        typed_args(body, ty, n).contains(arg_name(body, l as int)->0),
    decreases n,
{
    let all = typed_args(body, ty, n);
    let name = arg_name(body, l as int)->0;
    if l == n {
        assert(all.last() == name);
    } else {
        lemma_typed_arg_listed(body, ty, (n - 1) as nat, l);
        let before = typed_args(body, ty, (n - 1) as nat);
        let i = choose|i: int| 0 <= i < before.len() && before[i] == name;
        assert(all[i] == name);
    }
}

} // verus!
