//! What the obligations that a walk leaves are good for: an obligation whose problem is refuted
//! proves what it is about.
use vstd::prelude::*;
use crate::callsite::{actual, callee, encodable_param, BindingView, CallView, CalleeSpec};
use crate::findings::Finding;
use crate::laws::assumptions::{clause_true, reads_parameter, Values};
use crate::laws::bodies::{
    changes, integer_kind, law_every_store_is_seen, law_integer_types_are_encoded_as_they_are,
};
use crate::laws::calls::{
    apart_from_symbols, entered, enters, law_discharged_calls_meet_their_preconditions, passes,
    run_along, States,
};
use crate::laws::capture::is_walk;
use crate::laws::meaning::travels;
use crate::laws::results::{law_discharged_postconditions_hold, named_apart};
use crate::laws::runs::State;
use crate::laws::scripts::refuted;
use crate::laws::solver::{is_arithmetic, is_pattern, is_width, value_of};
use crate::locals::{local_int_name, operand_int_name, primitive_int_name};
use crate::mir_api::{BinOp, Body, ConstOperand, Operand, Span};
use crate::predicate::{assertion_check, depth, is_quote};
use crate::text::{begins, trimmed};
use crate::vc::{id_stem, KindView};
use crate::walk::{ensures_findings, overflow_findings, precondition_findings, Scope};

verus! {

/// The problem of an obligation.
pub open spec fn problem_of(f: Finding) -> Option<Seq<char>> {
    match f {
        Finding::Obligation { kind, .. } => match kind {
            KindView::CallSitePrecondition { discharge_smt, .. } => discharge_smt,
            KindView::EnsuresPostcondition { discharge_smt, .. } => discharge_smt,
            _ => None,
        },
        _ => None,
    }
}

/// A call obligation whose problem is refuted proves that the call meets the preconditions of the
/// callee that its path names: in every run, along every way from the entry to the call, if the
/// preconditions of the body are true of what it was passed.
pub proof fn law_discharged_call_obligations_are_met(
    sc: Scope,
    k: ConstOperand,
    args: Seq<Operand>,
    span: Span,
    block: int,
    n: int,
    spec: CalleeSpec,
    p: Seq<int>,
    s: States,
    t: States,
    val: Values,
    entry: Values,
    passed: Values,
)
    requires
        k.path is Some,
        callee(sc.settings.callee_specs, k.path->0@) == Some(spec),
        0 <= n < precondition_findings(sc, k, args, span, block).len(),
        problem_of(precondition_findings(sc, k, args, span, block)[n]) matches Some(d) && refuted(
            d,
        ),
        apart_from_symbols(spec),
        is_walk(sc.body.blocks@, p),
        p.last() == block,
        0 <= block < sc.body.blocks@.len(),
        run_along(sc.body, p, s, t),
        entered(sc.body, s, val),
        enters(sc.body, val, entry),
        passes(CallView { body: sc.body, args, block }, spec, t, val, passed),
        forall|i: int|
            0 <= i < sc.settings.preconditions.len() ==> clause_true(
                (#[trigger] sc.settings.preconditions[i])@,
                entry,
            ),
    ensures
        forall|i: int|
            0 <= i < spec.preconditions@.len() ==> clause_true(
                (#[trigger] spec.preconditions@[i])@,
                passed,
            ),
{
    let c = CallView { body: sc.body, args, block };
    law_discharged_calls_meet_their_preconditions(
        c,
        sc.settings.preconditions,
        spec,
        p,
        s,
        t,
        val,
        entry,
        passed,
    );
}

/// A postcondition obligation whose problem is refuted proves the postconditions: in every run,
/// along every way from the entry to a return, if the preconditions are true of the arguments.
pub proof fn law_discharged_return_obligations_hold(
    sc: Scope,
    span: Span,
    n: int,
    ty: Seq<char>,
    signed: bool,
    bits: nat,
    p: Seq<int>,
    s: State,
    t: State,
    env: Values,
)
    requires
        0 <= n < ensures_findings(sc, span).len(),
        problem_of(ensures_findings(sc, span)[n]) matches Some(d) && refuted(d),
        primitive_int_name(sc.body.return_ty) == Some(ty),
        is_width(bits),
        crate::predicate::int_info(ty) == Some((signed, bits as u32)),
        named_apart(sc.body),
        is_walk(sc.body.blocks@, p),
        0 <= p.last() < sc.body.blocks@.len(),
        sc.body.blocks@[p.last()].terminator.kind is Return,
        travels(sc.body, p, s, t, signed, bits),
        forall|i: int|
            0 <= i < sc.body.arg_names@.len() && (#[trigger] sc.body.arg_names@[i])@.len() > 0
                && local_int_name(sc.body, i + 1) == Some(ty) ==> is_pattern(
                s((i + 1) as u32),
                bits,
            ) && env(sc.body.arg_names@[i]@) == value_of(s((i + 1) as u32), signed, bits),
        env("result"@) == value_of(t(0), signed, bits),
        forall|i: int|
            0 <= i < sc.settings.preconditions.len() ==> clause_true(
                (#[trigger] sc.settings.preconditions[i])@,
                env,
            ),
    ensures
        forall|i: int|
            0 <= i < sc.settings.postconditions.len() ==> clause_true(
                (#[trigger] sc.settings.postconditions[i])@,
                env,
            ),
{
    law_discharged_postconditions_hold(
        sc.body,
        sc.settings.preconditions,
        sc.settings.postconditions,
        ty,
        signed,
        bits,
        p,
        s,
        t,
        env,
    );
}

/// How the ids of the obligations of an operation start.
pub open spec fn operation_stem(op: BinOp) -> Seq<char> {
    match op {
        BinOp::Add => "pb049-add-"@,
        BinOp::Sub => "pb049-sub-"@,
        BinOp::Mul => "pb049-mul-"@,
        BinOp::Div => "pb049-div-"@,
        BinOp::Rem => "pb049-rem-"@,
        BinOp::Shl => "pb049-shl-"@,
        _ => "pb049-shr-"@,
    }
}

/// The obligation of an operation is about that operation, at the type of its left operand. There
/// is one just where the types can be told, and agree unless it is a shift.
pub proof fn law_obligations_are_about_the_operation(
    sc: Scope,
    op: BinOp,
    a: Operand,
    b: Operand,
    span: Span,
)
    ensures
        ({
            let fs = overflow_findings(sc, op, a, b, span);
            let left = operand_int_name(sc.body, a);
            let right = operand_int_name(sc.body, b);
            &&& !is_arithmetic(op) ==> fs.len() == 0
            &&& is_arithmetic(op) ==> fs.len() > 0
            &&& (fs.len() > 0 && fs[0] is Obligation) <==> is_arithmetic(op) && left is Some
                && right is Some && (left == right || op == BinOp::Shl || op == BinOp::Shr)
            &&& (fs.len() > 0 && fs[0] is Obligation) ==> match fs[0]->Obligation_kind {
                KindView::ArithmeticOverflow { ty_name, .. } => Some(ty_name) == left && id_stem(
                    fs[0]->Obligation_kind,
                ) == operation_stem(op),
                _ => false,
            }
        }),
{
    reveal_strlit("pb049-");
    reveal_strlit("-");
    reveal_strlit("add");
    reveal_strlit("sub");
    reveal_strlit("mul");
    reveal_strlit("div");
    reveal_strlit("rem");
    reveal_strlit("shl");
    reveal_strlit("shr");
    reveal_strlit("pb049-add-");
    reveal_strlit("pb049-sub-");
    reveal_strlit("pb049-mul-");
    reveal_strlit("pb049-div-");
    reveal_strlit("pb049-rem-");
    reveal_strlit("pb049-shl-");
    reveal_strlit("pb049-shr-");
    assert("pb049-"@ + "add"@ + "-"@ =~= "pb049-add-"@);
    assert("pb049-"@ + "sub"@ + "-"@ =~= "pb049-sub-"@);
    assert("pb049-"@ + "mul"@ + "-"@ =~= "pb049-mul-"@);
    assert("pb049-"@ + "div"@ + "-"@ =~= "pb049-div-"@);
    assert("pb049-"@ + "rem"@ + "-"@ =~= "pb049-rem-"@);
    assert("pb049-"@ + "shl"@ + "-"@ =~= "pb049-shl-"@);
    assert("pb049-"@ + "shr"@ + "-"@ =~= "pb049-shr-"@);
}

// ---------------------------------------------------------------------------
// What can be written down.
// ---------------------------------------------------------------------------

/// A constant of the parameter's type that a call passes is known, and so is a parameter of the
/// caller of that type that nothing in the body changes.
pub proof fn law_plain_arguments_are_known(c: CallView, op: Operand, ty: Seq<char>, i: nat)
    ensures
        (op matches Operand::Constant(k) && k.value is Some && primitive_int_name(k.ty) == Some(ty))
            ==> actual(c, op, ty) == Some(
            BindingView::Constant((op->Constant_0).value->0 as int),
        ),
        reads_parameter(op, i as int) && i < c.body.arg_names@.len() && local_int_name(
            c.body,
            i as int + 1,
        ) == Some(ty) && !(exists|b: int|
            0 <= b < c.body.blocks@.len() && #[trigger] changes(
                c.body.blocks@[b],
                (i + 1) as u32,
            )) ==> actual(c, op, ty) == Some(BindingView::CallerArg(i)),
{
    law_every_store_is_seen(c.body.blocks@, (i + 1) as u32);
    match op {
        Operand::Constant(_) => {},
        Operand::Copy(p) => {
            if reads_parameter(op, i as int) {
                assert((i + 1) as u32 == p.local.0);
            }
        },
        Operand::Move(p) => {
            if reads_parameter(op, i as int) {
                assert((i + 1) as u32 == p.local.0);
            }
        },
    }
}

/// A parameter of a callee has a known type just if it is an integer of a width that has an
/// encoding: the parameter `i` is the local `i + 1`.
pub proof fn law_encodable_parameters_are_known(body: Body, i: int)
    ensures
        encodable_param(body, i) is Some <==> 0 <= i + 1 < body.locals@.len() && integer_kind(
            body.locals@[i + 1].ty,
        ) is Some,
        encodable_param(body, i) matches Some(ty) ==> crate::predicate::int_info(ty)
            == integer_kind(body.locals@[i + 1].ty),
{
    if 0 <= i + 1 < body.locals@.len() {
        law_integer_types_are_encoded_as_they_are(body.locals@[i + 1].ty);
    }
}

// ---------------------------------------------------------------------------
// Assertions that are written out.
// ---------------------------------------------------------------------------

/// How often `c` stands in `s`.
pub open spec fn times(s: Seq<char>, c: char) -> nat
    decreases s.len(),
{
    if s.len() == 0 {
        0
    } else {
        times(s.drop_last(), c) + if s.last() == c {
            1nat
        } else {
            0nat
        }
    }
}

proof fn lemma_depth_counts(s: Seq<char>, k: int)
    requires
        0 <= k <= s.len(),
    ensures
        depth(s, k) == times(s.take(k), '(') - times(s.take(k), ')'),
    decreases k,
{
    if k > 0 {
        lemma_depth_counts(s, k - 1);
        assert(s.take(k).drop_last() =~= s.take(k - 1));
        assert(s.take(k).last() == s[k - 1]);
    }
}

/// A precondition that is taken as it is written is one form and nothing else: white space apart,
/// it starts with its word, every parenthesis is closed, the first of them by the last character
/// and not before, and no comment, string or quoted symbol can hide one.
pub proof fn law_written_out_assertions_are_one_form(raw: Seq<char>)
    requires
        assertion_check(raw) is Ok,
    ensures
        ({
            let t = trimmed(raw);
            &&& begins(t, "(assert")
            &&& forall|k: int|
                0 < k < t.len() ==> times(#[trigger] t.take(k), '(') > times(t.take(k), ')')
            &&& times(t, '(') == times(t, ')')
            &&& forall|i: int|
                0 <= i < t.len() ==> #[trigger] t[i] != '|' && t[i] != '"' && t[i] != ';'
        }),
{
    let t = trimmed(raw);
    assert forall|k: int| 0 < k < t.len() implies times(#[trigger] t.take(k), '(') > times(
        t.take(k),
        ')',
    ) by {
        lemma_depth_counts(t, k);
    }
    lemma_depth_counts(t, t.len() as int);
    assert(t.take(t.len() as int) =~= t);
    assert forall|i: int| 0 <= i < t.len() implies #[trigger] t[i] != '|' && t[i] != '"' && t[i]
        != ';' by {
        assert(!is_quote(t[i]));
    }
}

} // verus!
