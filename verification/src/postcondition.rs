//! The solver problem for a body's postconditions.
use vstd::prelude::*;
use crate::capture::body_effect;
use crate::locals::{arg_name, local_int_name, local_primitive_int_name};
use crate::messages::{
    EFFECT_UNKNOWN, POSTCONDITION_HEAD, POSTCONDITION_TAIL, PRECONDITION_HEAD, PRECONDITION_TAIL,
    RESULT_SHADOWED, RETURN_NOT_INTEGER, RETURN_UNSUPPORTED_HEAD, RETURN_UNSUPPORTED_TAIL,
};
use crate::mir_api::Body;
use crate::predicate::{
    ident_vs_ident_to_smt_assertion, int_info, int_type_info, pair_assertion, pair_of,
    parse_ident_vs_ident_predicate, parse_predicate, predicate_assertion, predicate_of,
    predicate_to_smt_assertion, strip_assert, stripped,
};
use crate::text::{
    cat3, cat5, debug_rendering, decimal, decimal_text, ends, ends_with, is_among, is_listed, join,
    joined, listed, opt_is, opt_view, quoted, views,
};

verus! {

// ---------------------------------------------------------------------------
// Parts of solver problems.
// ---------------------------------------------------------------------------

/// The declaration of `name` as a bit-vector.
pub open spec fn declaration(name: Seq<char>, bits: u32) -> Seq<char> {
    "(declare-const "@ + name + " (_ BitVec "@ + decimal(bits as nat) + "))\n"@
}

/// Writes the declaration of `name` as a bit-vector.
pub fn declare(name: &str, bits: u32) -> (r: String)
    ensures
        r@ == declaration(name@, bits),
{
    cat5("(declare-const ", name, " (_ BitVec ", decimal_text(bits as u128).as_str(), "))\n")
}

/// The negation of the conjunction of `terms`.
pub open spec fn negation(terms: Seq<Seq<char>>) -> Seq<char> {
    if terms.len() == 1 {
        "(not "@ + terms[0] + ")"@
    } else {
        "(not (and "@ + joined(terms, " "@) + "))"@
    }
}

/// Writes the negation of the conjunction of `terms`.
pub fn negate(terms: &Vec<String>) -> (r: String)
    ensures
        r@ == negation(views(terms@)),
{
    if terms.len() == 1 {
        cat3("(not ", terms[0].as_str(), ")")
    } else {
        cat3("(not (and ", join(terms, " ").as_str(), "))")
    }
}

/// `s` as a line.
pub open spec fn line(s: Seq<char>) -> Seq<char> {
    if ends(s, "\n") {
        s
    } else {
        s + "\n"@
    }
}

/// The lines of `v`, one after the other.
pub open spec fn lines(v: Seq<Seq<char>>) -> Seq<char>
    decreases v.len(),
{
    if v.len() == 0 {
        ""@
    } else {
        lines(v.drop_last()) + line(v.last())
    }
}

// ---------------------------------------------------------------------------
// Clauses over known names.
// ---------------------------------------------------------------------------

/// The assertion of a clause at type `ty` whose identifiers are all in `known`.
pub open spec fn clause_assertion(raw: Seq<char>, known: Seq<Seq<char>>, ty: Seq<char>) -> Option<
    Seq<char>,
> {
    match pair_of(raw) {
        Ok(p) => if known.contains(p.lhs) && known.contains(p.rhs) {
            pair_assertion(p, ty).ok()
        } else {
            None
        },
        Err(_) => match predicate_of(raw) {
            Ok(p) => if known.contains(p.var) {
                predicate_assertion(p, p.var, ty).ok()
            } else {
                None
            },
            Err(_) => None,
        },
    }
}

/// The term of a clause at type `ty` whose identifiers are all in `known`.
pub open spec fn clause_term(raw: Seq<char>, known: Seq<Seq<char>>, ty: Seq<char>) -> Option<
    Seq<char>,
> {
    match clause_assertion(raw, known, ty) {
        Some(a) => stripped(a),
        None => None,
    }
}

/// The assertions of all of `raws`, or the first of `raws` that has none.
pub open spec fn all_assertions(
    raws: Seq<String>,
    known: Seq<Seq<char>>,
    ty: Seq<char>,
) -> Result<Seq<Seq<char>>, Seq<char>>
    decreases raws.len(),
{
    if raws.len() == 0 {
        Ok(seq![])
    } else {
        match all_assertions(raws.drop_last(), known, ty) {
            Err(e) => Err(e),
            Ok(v) => match clause_assertion(raws.last()@, known, ty) {
                Some(a) => Ok(v.push(a)),
                None => Err(raws.last()@),
            },
        }
    }
}

/// The terms of all of `raws`, or the first of `raws` that has none.
pub open spec fn all_terms(raws: Seq<String>, known: Seq<Seq<char>>, ty: Seq<char>) -> Result<
    Seq<Seq<char>>,
    Seq<char>,
>
    decreases raws.len(),
{
    if raws.len() == 0 {
        Ok(seq![])
    } else {
        match all_terms(raws.drop_last(), known, ty) {
            Err(e) => Err(e),
            Ok(v) => match clause_term(raws.last()@, known, ty) {
                Some(t) => Ok(v.push(t)),
                None => Err(raws.last()@),
            },
        }
    }
}

/// The named parameters of type `ty` among the first `n`, in order.
pub open spec fn typed_args(body: Body, ty: Seq<char>, n: nat) -> Seq<Seq<char>>
    decreases n,
{
    if n == 0 {
        seq![]
    } else {
        let before = typed_args(body, ty, (n - 1) as nat);
        if arg_name(body, n as int) is Some && local_int_name(body, n as int) == Some(ty) {
            before.push(arg_name(body, n as int)->0)
        } else {
            before
        }
    }
}

/// The declarations of `names` as bit-vectors of one width.
pub open spec fn declarations(names: Seq<Seq<char>>, bits: u32) -> Seq<char>
    decreases names.len(),
{
    if names.len() == 0 {
        ""@
    } else {
        declarations(names.drop_last(), bits) + declaration(names.last(), bits)
    }
}

// ---------------------------------------------------------------------------
// The problem.
// ---------------------------------------------------------------------------

/// The problems for a body's postconditions, or why there are none.
pub struct EnsuresView {
    /// Unsatisfiable exactly if the postconditions follow.
    pub discharge: Option<Seq<char>>,
    /// Unsatisfiable exactly if the hypotheses contradict each other.
    pub consistency: Option<Seq<char>>,
    pub pending: Option<Seq<char>>,
}

/// No problem, for the reason `why`.
pub open spec fn pending(why: Seq<char>) -> EnsuresView {
    EnsuresView { discharge: None, consistency: None, pending: Some(why) }
}

/// The hypotheses: the declarations of `result` and of `args`, the preconditions `assumed`, and
/// that `result` is `effect`.
pub open spec fn ensures_hypotheses(
    args: Seq<Seq<char>>,
    bits: u32,
    assumed: Seq<Seq<char>>,
    effect: Seq<char>,
) -> Seq<char> {
    "(set-logic QF_BV)\n"@ + declarations(seq!["result"@] + args, bits) + lines(assumed)
        + "(assert (= result "@ + effect + "))\n"@
}

/// The problem for a body's postconditions. The preconditions may speak of the parameters of the
/// return type, the postconditions of `result` too. There is none unless every clause of both
/// kinds is translated and the returned value is captured.
pub open spec fn ensures_problem(
    body: Body,
    preconditions: Seq<String>,
    postconditions: Seq<String>,
    ret_ty: Option<Seq<char>>,
) -> EnsuresView {
    match ret_ty {
        None => pending(RETURN_NOT_INTEGER@),
        Some(ty) => match int_info(ty) {
            None => pending(RETURN_UNSUPPORTED_HEAD@ + ty + RETURN_UNSUPPORTED_TAIL@),
            Some((_, bits)) => match body_effect(body) {
                None => pending(EFFECT_UNKNOWN@),
                Some(effect) => if listed(body.arg_names@, "result"@) {
                    pending(RESULT_SHADOWED@)
                } else {
                    let args = typed_args(body, ty, body.arg_names@.len());
                    match all_assertions(preconditions, args, ty) {
                        Err(raw) => pending(
                            PRECONDITION_HEAD@ + debug_rendering(raw) + PRECONDITION_TAIL@,
                        ),
                        Ok(assumed) => match all_terms(
                            postconditions,
                            seq!["result"@] + args,
                            ty,
                        ) {
                            Err(raw) => pending(
                                POSTCONDITION_HEAD@ + debug_rendering(raw) + POSTCONDITION_TAIL@,
                            ),
                            Ok(goals) => if goals.len() == 0 {
                                EnsuresView { discharge: None, consistency: None, pending: None }
                            } else {
                                let hypotheses = ensures_hypotheses(args, bits, assumed, effect);
                                EnsuresView {
                                    discharge: Some(
                                        hypotheses + "(assert "@ + negation(goals)
                                            + ")\n(check-sat)\n"@,
                                    ),
                                    consistency: if assumed.len() == 0 {
                                        None
                                    } else {
                                        Some(hypotheses + "(check-sat)\n"@)
                                    },
                                    pending: None,
                                }
                            },
                        },
                    }
                },
            },
        },
    }
}

// ---------------------------------------------------------------------------
// Execution.
// ---------------------------------------------------------------------------

/// Translates a clause whose identifiers are all in `known`.
pub fn translate_spec_to_assert(raw: &str, known: &Vec<String>, ty: &str) -> (r: Option<String>)
    ensures
        opt_view(r) == clause_assertion(raw@, views(known@), ty@),
{
    if let Ok(p) = parse_ident_vs_ident_predicate(raw) {
        if is_among(known, p.lhs.as_str()) && is_among(known, p.rhs.as_str()) {
            return match ident_vs_ident_to_smt_assertion(&p, ty) {
                Ok(s) => Some(s),
                Err(_) => None,
            };
        }
        return None;
    }
    if let Ok(p) = parse_predicate(raw) {
        if is_among(known, p.var.as_str()) {
            return match predicate_to_smt_assertion(&p, p.var.as_str(), ty) {
                Ok(s) => Some(s),
                Err(_) => None,
            };
        }
    }
    None
}

/// Translates a clause whose identifiers are all in `known` to a term.
pub fn translate_spec_to_term(raw: &str, known: &Vec<String>, ty: &str) -> (r: Option<String>)
    ensures
        opt_view(r) == clause_term(raw@, views(known@), ty@),
{
    match translate_spec_to_assert(raw, known, ty) {
        Some(a) => strip_assert(a.as_str()),
        None => None,
    }
}

/// A list of texts, or the text that has no translation.
spec fn texts_view(r: Result<Vec<String>, String>) -> Result<Seq<Seq<char>>, Seq<char>> {
    match r {
        Ok(v) => Ok(views(v@)),
        Err(s) => Err(s@),
    }
}

/// Once a clause has no translation, no longer list has one.
proof fn lemma_first_failure(raws: Seq<String>, known: Seq<Seq<char>>, ty: Seq<char>, n: int)
    requires
        0 <= n <= raws.len(),
    ensures
        all_assertions(raws.take(n), known, ty) is Err ==> all_assertions(raws, known, ty)
            == all_assertions(raws.take(n), known, ty),
        all_terms(raws.take(n), known, ty) is Err ==> all_terms(raws, known, ty) == all_terms(
            raws.take(n),
            known,
            ty,
        ),
    decreases raws.len() - n,
{
    if n < raws.len() {
        lemma_first_failure(raws, known, ty, n + 1);
        assert(raws.take(n + 1).drop_last() =~= raws.take(n));
    } else {
        assert(raws.take(n) =~= raws);
    }
}

fn assert_all(raws: &Vec<String>, known: &Vec<String>, ty: &str) -> (r: Result<
    Vec<String>,
    String,
>)
    ensures
        texts_view(r) == all_assertions(raws@, views(known@), ty@),
{
    let mut done: Vec<String> = Vec::new();
    let mut i: usize = 0;
    assert(raws@.take(0) =~= Seq::empty());
    assert(views(done@) =~= Seq::empty());
    while i < raws.len()
        invariant
            i <= raws@.len(),
            all_assertions(raws@.take(i as int), views(known@), ty@) == Ok::<
                Seq<Seq<char>>,
                Seq<char>,
            >(views(done@)),
        decreases raws@.len() - i,
    {
        proof {
            assert(raws@.take(i + 1).drop_last() =~= raws@.take(i as int));
            assert(raws@.take(i + 1).last() == raws@[i as int]);
        }
        let ghost before = views(done@);
        match translate_spec_to_assert(raws[i].as_str(), known, ty) {
            Some(a) => {
                done.push(a);
                assert(views(done@) =~= before.push(a@));
            },
            None => {
                proof {
                    lemma_first_failure(raws@, views(known@), ty@, i + 1);
                }
                return Err(raws[i].clone());
            },
        }
        i += 1;
    }
    assert(raws@.take(i as int) =~= raws@);
    Ok(done)
}

fn term_all(raws: &Vec<String>, known: &Vec<String>, ty: &str) -> (r: Result<Vec<String>, String>)
    ensures
        texts_view(r) == all_terms(raws@, views(known@), ty@),
{
    let mut done: Vec<String> = Vec::new();
    let mut i: usize = 0;
    assert(raws@.take(0) =~= Seq::empty());
    assert(views(done@) =~= Seq::empty());
    while i < raws.len()
        invariant
            i <= raws@.len(),
            all_terms(raws@.take(i as int), views(known@), ty@) == Ok::<
                Seq<Seq<char>>,
                Seq<char>,
            >(views(done@)),
        decreases raws@.len() - i,
    {
        proof {
            assert(raws@.take(i + 1).drop_last() =~= raws@.take(i as int));
            assert(raws@.take(i + 1).last() == raws@[i as int]);
        }
        let ghost before = views(done@);
        match translate_spec_to_term(raws[i].as_str(), known, ty) {
            Some(t) => {
                done.push(t);
                assert(views(done@) =~= before.push(t@));
            },
            None => {
                proof {
                    lemma_first_failure(raws@, views(known@), ty@, i + 1);
                }
                return Err(raws[i].clone());
            },
        }
        i += 1;
    }
    assert(raws@.take(i as int) =~= raws@);
    Ok(done)
}

/// The name of the parameter `i`, if it has one and is of type `ty`.
fn typed_arg(body: &Body, i: usize, ty: &str) -> (r: Option<String>)
    requires
        i < body.arg_names@.len(),
    ensures
        opt_view(r) == (if arg_name(*body, i + 1) is Some && local_int_name(*body, i + 1) == Some(
            ty@,
        ) {
            arg_name(*body, i + 1)
        } else {
            None
        }),
{
    let count: usize = body.arg_names.len();
    assert(i < count);
    let name = &body.arg_names[i];
    if name.as_str().is_empty() {
        return None;
    }
    if opt_is(&local_primitive_int_name(body, i + 1), ty) {
        Some(name.clone())
    } else {
        None
    }
}

fn typed_arg_names(body: &Body, ty: &str) -> (r: Vec<String>)
    ensures
        views(r@) == typed_args(*body, ty@, body.arg_names@.len()),
{
    let mut r: Vec<String> = Vec::new();
    let mut i: usize = 0;
    while i < body.arg_names.len()
        invariant
            i <= body.arg_names@.len(),
            views(r@) =~= typed_args(*body, ty@, i as nat),
        decreases body.arg_names@.len() - i,
    {
        if let Some(name) = typed_arg(body, i, ty) {
            r.push(name);
        }
        i += 1;
    }
    r
}

fn declare_all(names: &Vec<String>, bits: u32) -> (r: String)
    ensures
        r@ == declarations(views(names@), bits),
{
    let mut r = "".to_owned();
    let mut i: usize = 0;
    assert(views(names@).take(0) =~= Seq::empty());
    while i < names.len()
        invariant
            i <= names@.len(),
            r@ == declarations(views(names@).take(i as int), bits),
        decreases names@.len() - i,
    {
        proof {
            assert(views(names@).take(i + 1).drop_last() =~= views(names@).take(i as int));
            assert(views(names@).take(i + 1).last() == names@[i as int]@);
        }
        r.append(declare(names[i].as_str(), bits).as_str());
        i += 1;
    }
    assert(views(names@).take(i as int) =~= views(names@));
    r
}

fn line_all(v: &Vec<String>) -> (r: String)
    ensures
        r@ == lines(views(v@)),
{
    let mut r = "".to_owned();
    let mut i: usize = 0;
    assert(views(v@).take(0) =~= Seq::empty());
    while i < v.len()
        invariant
            i <= v@.len(),
            r@ == lines(views(v@).take(i as int)),
        decreases v@.len() - i,
    {
        proof {
            assert(views(v@).take(i + 1).drop_last() =~= views(v@).take(i as int));
            assert(views(v@).take(i + 1).last() == v@[i as int]@);
        }
        r.append(v[i].as_str());
        if !ends_with(v[i].as_str(), "\n") {
            r.append("\n");
            assert(r@ =~= lines(views(v@).take(i + 1)));
        }
        i += 1;
    }
    assert(views(v@).take(i as int) =~= views(v@));
    r
}

/// The problems for a body's postconditions, or why there are none.
pub struct EnsuresProblem {
    pub discharge: Option<String>,
    pub consistency: Option<String>,
    pub pending: Option<String>,
}

impl View for EnsuresProblem {
    type V = EnsuresView;

    open spec fn view(&self) -> EnsuresView {
        EnsuresView {
            discharge: opt_view(self.discharge),
            consistency: opt_view(self.consistency),
            pending: opt_view(self.pending),
        }
    }
}

fn no_problem(why: String) -> (r: EnsuresProblem)
    ensures
        r@ == pending(why@),
{
    EnsuresProblem { discharge: None, consistency: None, pending: Some(why) }
}

/// Builds the problems for the postconditions of `body`, which returns `effect` at type `ret_ty`.
pub fn build_ensures_smt(
    body: &Body,
    effect: &Option<String>,
    preconditions: &Vec<String>,
    postconditions: &Vec<String>,
    ret_ty: &Option<String>,
) -> (r: EnsuresProblem)
    requires
        opt_view(*effect) == body_effect(*body),
    ensures
        r@ == ensures_problem(*body, preconditions@, postconditions@, opt_view(*ret_ty)),
{
    let ty = match ret_ty {
        Some(ty) => ty.as_str(),
        None => return no_problem(RETURN_NOT_INTEGER.to_owned()),
    };
    let bits: u32 = match int_type_info(ty) {
        Some((_, bits)) => bits,
        None => return no_problem(cat3(RETURN_UNSUPPORTED_HEAD, ty, RETURN_UNSUPPORTED_TAIL)),
    };
    let effect = match effect {
        Some(effect) => effect.as_str(),
        None => return no_problem(EFFECT_UNKNOWN.to_owned()),
    };
    if is_listed(&body.arg_names, "result") {
        return no_problem(RESULT_SHADOWED.to_owned());
    }
    let args = typed_arg_names(body, ty);
    let mut names: Vec<String> = Vec::new();
    names.push("result".to_owned());
    let mut i: usize = 0;
    assert(views(names@) =~= seq!["result"@] + views(args@).take(0));
    while i < args.len()
        invariant
            i <= args@.len(),
            views(names@) =~= seq!["result"@] + views(args@).take(i as int),
        decreases args@.len() - i,
    {
        broadcast use crate::text::lemma_views_push;

        assert(views(args@).take(i + 1) =~= views(args@).take(i as int).push(args@[i as int]@));
        names.push(args[i].clone());
        i += 1;
    }
    assert(views(names@) =~= seq!["result"@] + views(args@));
    let assumed = match assert_all(preconditions, &args, ty) {
        Ok(v) => v,
        Err(raw) => return no_problem(
            cat3(PRECONDITION_HEAD, quoted(raw.as_str()).as_str(), PRECONDITION_TAIL),
        ),
    };
    let goals = match term_all(postconditions, &names, ty) {
        Ok(v) => v,
        Err(raw) => return no_problem(
            cat3(POSTCONDITION_HEAD, quoted(raw.as_str()).as_str(), POSTCONDITION_TAIL),
        ),
    };
    if goals.len() == 0 {
        return EnsuresProblem { discharge: None, consistency: None, pending: None };
    }
    let mut hypotheses = cat3(
        "(set-logic QF_BV)\n",
        declare_all(&names, bits).as_str(),
        line_all(&assumed).as_str(),
    );
    hypotheses.append("(assert (= result ");
    hypotheses.append(effect);
    hypotheses.append("))\n");
    let mut discharge = cat3(hypotheses.as_str(), "(assert ", negate(&goals).as_str());
    discharge.append(")\n(check-sat)\n");
    let consistency = if assumed.len() == 0 {
        None
    } else {
        Some(crate::text::cat2(hypotheses.as_str(), "(check-sat)\n"))
    };
    EnsuresProblem { discharge: Some(discharge), consistency, pending: None }
}

} // verus!
