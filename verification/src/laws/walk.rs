//! What holds of walks over bodies.
use vstd::prelude::*;
use crate::diagnostic::AuditNoteKind;
use crate::findings::Finding;
use crate::laws::paths::law_library_calls_fail_closed;
use crate::locals::{operand_int_name, place_of, primitive_int_name};
use crate::mir_api::{
    BasicBlockData, BinOp, CastKind, LocalDecl, NonDivergingIntrinsic, Operand, Place,
    ProjectionElem, RigidTy, Rvalue, Span, Statement, StatementKind, Terminator, TerminatorKind, Ty,
    TyKind, UnOp,
};
use crate::paths::{
    panic_call_path, panicking_call, stdlib_namespace_path, trusted_total_library_call,
};
use crate::predicate::fits;
use crate::text::{begins, listed};
use crate::types::{ty_findings, tys_findings};
use crate::walk::{
    arith_op, blocks_findings, body_findings, call_findings, callee_findings, cast_findings,
    kept_value, local_findings, locals_findings, negation_findings, operand_findings,
    operands_findings, overflow_findings, place_findings, precondition_findings,
    projection_findings, projections_findings, recursion_findings, returns_somewhere,
    rvalue_findings, signature_findings, statement_findings, statements_findings,
    terminator_findings, MAX_PROJECTION_DEPTH, Scope,
};

verus! {

/// Whether a finding keeps a body from being accepted: a violation, a coverage gap, or an
/// obligation that a solver has yet to discharge.
pub open spec fn weighs(f: Finding) -> bool {
    match f {
        Finding::Violation { .. } => true,
        Finding::Note { kind, .. } => kind == crate::diagnostic::AuditNoteKind::CoverageGap,
        Finding::Obligation { .. } => true,
    }
}

/// Whether none of `fs` keeps a body from being accepted.
pub open spec fn harmless(fs: Seq<Finding>) -> bool {
    forall|i: int| 0 <= i < fs.len() ==> !weighs(#[trigger] fs[i])
}

// ---------------------------------------------------------------------------
// Nothing is skipped.
// ---------------------------------------------------------------------------

/// Whether `part` stands in `whole`, without a break, from position `k` on.
pub open spec fn stands_at(part: Seq<Finding>, whole: Seq<Finding>, k: int) -> bool {
    0 <= k && k + part.len() <= whole.len() && whole.subrange(k, k + part.len()) == part
}

/// Whether `part` stands in `whole` without a break.
pub open spec fn within(part: Seq<Finding>, whole: Seq<Finding>) -> bool {
    exists|k: int| stands_at(part, whole, k)
}

proof fn lemma_within_left(part: Seq<Finding>, a: Seq<Finding>, b: Seq<Finding>)
    requires
        within(part, a),
    ensures
        within(part, a + b),
{
    let k = choose|k: int| stands_at(part, a, k);
    assert((a + b).subrange(k, k + part.len()) =~= a.subrange(k, k + part.len()));
    assert(stands_at(part, a + b, k));
}

proof fn lemma_within_right(part: Seq<Finding>, a: Seq<Finding>, b: Seq<Finding>)
    requires
        within(part, b),
    ensures
        within(part, a + b),
{
    let k = choose|k: int| stands_at(part, b, k);
    assert((a + b).subrange(a.len() + k, a.len() + k + part.len()) =~= b.subrange(
        k,
        k + part.len(),
    ));
    assert(stands_at(part, a + b, a.len() + k));
}

proof fn lemma_within_self(a: Seq<Finding>)
    ensures
        within(a, a),
{
    assert(a.subrange(0, a.len() as int) =~= a);
    assert(stands_at(a, a, 0));
}

proof fn lemma_within_trans(a: Seq<Finding>, b: Seq<Finding>, c: Seq<Finding>)
    requires
        within(a, b),
        within(b, c),
    ensures
        within(a, c),
{
    let i = choose|k: int| stands_at(a, b, k);
    let j = choose|k: int| stands_at(b, c, k);
    assert(c.subrange(i + j, i + j + a.len()) =~= b.subrange(i, i + a.len()));
    assert(stands_at(a, c, i + j));
}

/// A part of what is harmless is harmless.
proof fn lemma_harmless_part(part: Seq<Finding>, whole: Seq<Finding>)
    requires
        within(part, whole),
        harmless(whole),
    ensures
        harmless(part),
{
    let k = choose|k: int| stands_at(part, whole, k);
    assert forall|i: int| 0 <= i < part.len() implies !weighs(#[trigger] part[i]) by {
        assert(part[i] == whole[k + i]);
    }
}

/// Both halves of what is harmless are harmless.
proof fn lemma_harmless_halves(a: Seq<Finding>, b: Seq<Finding>)
    requires
        harmless(a + b),
    ensures
        harmless(a),
        harmless(b),
{
    lemma_within_self(a);
    lemma_within_left(a, a, b);
    lemma_harmless_part(a, a + b);
    lemma_within_self(b);
    lemma_within_right(b, a, b);
    lemma_harmless_part(b, a + b);
}

/// Whether `inner` is a component of the type `outer`: what it points to, or an element.
pub open spec fn component(outer: Ty, inner: Ty) -> bool {
    match outer.kind {
        TyKind::RigidTy(rigid) => match rigid {
            RigidTy::Ref(_, t) => inner == *t,
            RigidTy::RawPtr(_, t) => inner == *t,
            RigidTy::Array(t, _) => inner == *t,
            RigidTy::Slice(t) => inner == *t,
            RigidTy::Tuple(ts) => exists|i: int| 0 <= i < ts@.len() && inner == #[trigger] ts@[i],
            _ => false,
        },
        _ => false,
    }
}

proof fn lemma_within_tys(tys: Vec<Ty>, n: nat, i: int, span: Span)
    requires
        0 <= i < n <= tys@.len(),
    ensures
        within(ty_findings(tys@[i], span), tys_findings(tys, n, span)),
    decreases n,
{
    let last = ty_findings(tys@[n - 1], span);
    if i == n - 1 {
        lemma_within_self(last);
        lemma_within_right(last, tys_findings(tys, (n - 1) as nat, span), last);
    } else {
        lemma_within_tys(tys, (n - 1) as nat, i, span);
        lemma_within_left(
            ty_findings(tys@[i], span),
            tys_findings(tys, (n - 1) as nat, span),
            last,
        );
    }
}

/// The findings of a component are findings of the type: a forbidden type cannot hide inside
/// another.
pub proof fn law_components_count(outer: Ty, inner: Ty, span: Span)
    requires
        component(outer, inner),
    ensures
        within(ty_findings(inner, span), ty_findings(outer, span)),
{
    lemma_within_self(ty_findings(inner, span));
    match outer.kind {
        TyKind::RigidTy(RigidTy::RawPtr(_, _)) => {
            let all = ty_findings(outer, span);
            let part = ty_findings(inner, span);
            assert(all =~= part + all.skip(part.len() as int));
            lemma_within_left(part, part, all.skip(part.len() as int));
        },
        TyKind::RigidTy(RigidTy::Tuple(ts)) => {
            let i = choose|i: int| 0 <= i < ts@.len() && inner == #[trigger] ts@[i];
            lemma_within_tys(ts, ts@.len(), i, span);
        },
        _ => {},
    }
}

proof fn lemma_within_statements(sc: Scope, stmts: Seq<Statement>, i: int)
    requires
        0 <= i < stmts.len(),
    ensures
        within(statement_findings(sc, stmts[i]), statements_findings(sc, stmts)),
    decreases stmts.len(),
{
    let last = statement_findings(sc, stmts.last());
    let before = statements_findings(sc, stmts.drop_last());
    if i == stmts.len() - 1 {
        lemma_within_self(last);
        lemma_within_right(last, before, last);
    } else {
        lemma_within_statements(sc, stmts.drop_last(), i);
        lemma_within_left(statement_findings(sc, stmts[i]), before, last);
    }
}

proof fn lemma_within_blocks(sc: Scope, n: nat, b: int)
    requires
        0 <= b < n <= sc.body.blocks@.len(),
    ensures
        within(
            statements_findings(sc, sc.body.blocks@[b].statements@),
            blocks_findings(sc, n),
        ),
        within(terminator_findings(sc, sc.body.blocks@[b].terminator, b), blocks_findings(sc, n)),
    decreases n,
{
    let stmts = statements_findings(sc, sc.body.blocks@[n - 1].statements@);
    let term = terminator_findings(sc, sc.body.blocks@[n - 1].terminator, n - 1);
    let before = blocks_findings(sc, (n - 1) as nat);
    if b == n - 1 {
        lemma_within_self(stmts);
        lemma_within_right(stmts, before, stmts);
        lemma_within_left(stmts, before + stmts, term);
        lemma_within_self(term);
        lemma_within_right(term, before + stmts, term);
    } else {
        lemma_within_blocks(sc, (n - 1) as nat, b);
        let s = statements_findings(sc, sc.body.blocks@[b].statements@);
        let t = terminator_findings(sc, sc.body.blocks@[b].terminator, b);
        lemma_within_left(s, before, stmts);
        lemma_within_left(s, before + stmts, term);
        lemma_within_left(t, before, stmts);
        lemma_within_left(t, before + stmts, term);
    }
}

proof fn lemma_within_locals(sc: Scope, locals: Seq<LocalDecl>, i: int)
    requires
        0 <= i < locals.len(),
    ensures
        within(local_findings(sc, locals[i]), locals_findings(sc, locals)),
    decreases locals.len(),
{
    let last = local_findings(sc, locals.last());
    let before = locals_findings(sc, locals.drop_last());
    if i == locals.len() - 1 {
        lemma_within_self(last);
        lemma_within_right(last, before, last);
    } else {
        lemma_within_locals(sc, locals.drop_last(), i);
        lemma_within_left(local_findings(sc, locals[i]), before, last);
    }
}

/// The blocks' findings are among those of an untrusted body.
proof fn lemma_within_body(sc: Scope)
    ensures
        within(blocks_findings(sc, sc.body.blocks@.len()), body_findings(sc, false)),
{
    let head = signature_findings(sc);
    let blocks = blocks_findings(sc, sc.body.blocks@.len());
    let all = body_findings(sc, false);
    let tail = all.skip((head + blocks).len() as int);
    lemma_within_self(blocks);
    lemma_within_right(blocks, head, blocks);
    assert(all =~= (head + blocks) + tail);
    lemma_within_left(blocks, head + blocks, tail);
}

/// Each statement of an untrusted body is looked at: its findings are all reported, whatever was
/// found before it.
pub proof fn law_every_statement_counts(sc: Scope, b: int, i: int)
    requires
        0 <= b < sc.body.blocks@.len(),
        0 <= i < sc.body.blocks@[b].statements@.len(),
    ensures
        within(
            statement_findings(sc, sc.body.blocks@[b].statements@[i]),
            body_findings(sc, false),
        ),
{
    let stmts = sc.body.blocks@[b].statements@;
    let n = sc.body.blocks@.len();
    lemma_within_statements(sc, stmts, i);
    lemma_within_blocks(sc, n, b);
    lemma_within_trans(
        statement_findings(sc, stmts[i]),
        statements_findings(sc, stmts),
        blocks_findings(sc, n),
    );
    lemma_within_body(sc);
    lemma_within_trans(
        statement_findings(sc, stmts[i]),
        blocks_findings(sc, n),
        body_findings(sc, false),
    );
}

/// Each terminator of an untrusted body is looked at: its findings are all reported.
pub proof fn law_every_terminator_counts(sc: Scope, b: int)
    requires
        0 <= b < sc.body.blocks@.len(),
    ensures
        within(
            terminator_findings(sc, sc.body.blocks@[b].terminator, b),
            body_findings(sc, false),
        ),
{
    let n = sc.body.blocks@.len();
    lemma_within_blocks(sc, n, b);
    lemma_within_body(sc);
    lemma_within_trans(
        terminator_findings(sc, sc.body.blocks@[b].terminator, b),
        blocks_findings(sc, n),
        body_findings(sc, false),
    );
}

/// Trust is for the blocks of a body only: what the signature and the locals give is reported first
/// for a trusted body and an untrusted one alike.
#[verifier::rlimit(50)]
pub proof fn law_signatures_are_never_trusted(sc: Scope, trusted: bool)
    ensures
        signature_findings(sc).is_prefix_of(body_findings(sc, trusted)),
        forall|i: int|
            0 <= i < sc.body.locals@.len() ==> within(
                #[trigger] local_findings(sc, sc.body.locals@[i]),
                body_findings(sc, trusted),
            ),
        forall|i: int|
            0 <= i < sc.body.arg_tys@.len() ==> within(
                #[trigger] ty_findings(sc.body.arg_tys@[i], sc.body.span),
                body_findings(sc, trusted),
            ),
        within(ty_findings(sc.body.return_ty, sc.body.span), body_findings(sc, trusted)),
{
    let all = body_findings(sc, trusted);
    let head = signature_findings(sc);
    let body = sc.body;
    assert(all =~= head + all.skip(head.len() as int));
    lemma_within_self(head);
    lemma_within_left(head, head, all.skip(head.len() as int));
    let locals = locals_findings(sc, body.locals@);
    let ret = ty_findings(body.return_ty, body.span);
    let args = tys_findings(body.arg_tys, body.arg_tys@.len(), body.span);
    let flags = head.take(head.len() - locals.len() - ret.len() - args.len());
    assert(head =~= flags + args + ret + locals);
    lemma_within_self(locals);
    lemma_within_right(locals, flags + args + ret, locals);
    lemma_within_trans(locals, head, all);
    lemma_within_self(ret);
    lemma_within_right(ret, flags + args, ret);
    lemma_within_left(ret, flags + args + ret, locals);
    lemma_within_trans(ret, head, all);
    lemma_within_self(args);
    lemma_within_right(args, flags, args);
    lemma_within_left(args, flags + args, ret);
    lemma_within_left(args, flags + args + ret, locals);
    lemma_within_trans(args, head, all);
    assert forall|i: int| 0 <= i < body.locals@.len() implies within(
        #[trigger] local_findings(sc, body.locals@[i]),
        all,
    ) by {
        lemma_within_locals(sc, body.locals@, i);
        lemma_within_trans(local_findings(sc, body.locals@[i]), locals, all);
    }
    assert forall|i: int| 0 <= i < body.arg_tys@.len() implies within(
        #[trigger] ty_findings(body.arg_tys@[i], body.span),
        all,
    ) by {
        lemma_within_tys(body.arg_tys, body.arg_tys@.len(), i, body.span);
        lemma_within_trans(ty_findings(body.arg_tys@[i], body.span), args, all);
    }
}

// ---------------------------------------------------------------------------
// What a clean walk means.
// ---------------------------------------------------------------------------

/// Whether a step of a place can be out of bounds.
pub open spec fn indexes(elem: ProjectionElem) -> bool {
    elem is Index || elem is ConstantIndex || elem is Subslice
}

/// Whether no step of a place can be out of bounds.
pub open spec fn in_bounds(place: Place) -> bool {
    forall|i: int| 0 <= i < place.projection@.len() ==> !indexes(#[trigger] place.projection@[i])
}

proof fn lemma_clean_projections(sc: Scope, elems: Seq<ProjectionElem>, span: Span)
    requires
        harmless(projections_findings(sc, elems, span)),
    ensures
        forall|i: int| 0 <= i < elems.len() ==> !indexes(#[trigger] elems[i]),
    decreases elems.len(),
{
    if elems.len() > 0 {
        let last = projection_findings(sc, elems.last(), span);
        lemma_harmless_halves(projections_findings(sc, elems.drop_last(), span), last);
        lemma_clean_projections(sc, elems.drop_last(), span);
        if indexes(elems.last()) {
            assert(weighs(last[0]));
        }
        assert forall|i: int| 0 <= i < elems.len() implies !indexes(#[trigger] elems[i]) by {
            if i < elems.len() - 1 {
                assert(elems[i] == elems.drop_last()[i]);
            }
        }
    }
}

/// A place that is found harmless has no step that can be out of bounds, and is not too long.
pub proof fn law_clean_places_do_not_index(sc: Scope, place: Place, span: Span)
    requires
        harmless(place_findings(sc, place, span)),
    ensures
        place.projection@.len() <= MAX_PROJECTION_DEPTH,
        in_bounds(place),
{
    let all = place_findings(sc, place, span);
    let steps = projections_findings(sc, place.projection@, span);
    let cap = all.take(all.len() - steps.len());
    assert(all =~= cap + steps);
    lemma_harmless_halves(cap, steps);
    lemma_clean_projections(sc, place.projection@, span);
    if place.projection@.len() > MAX_PROJECTION_DEPTH {
        assert(weighs(all[0]));
    }
}

/// Whether no step of the place that an operand reads can be out of bounds.
pub open spec fn operand_in_bounds(op: Operand) -> bool {
    place_of(op) matches Some(p) ==> in_bounds(p)
}

/// Whether no step of the places that the operands `ops` read can be out of bounds.
pub open spec fn operands_in_bounds(ops: Seq<Operand>) -> bool {
    forall|i: int| 0 <= i < ops.len() ==> operand_in_bounds(#[trigger] ops[i])
}

/// Whether no step of the places that an rvalue reads or refers to can be out of bounds.
pub open spec fn rvalue_in_bounds(rvalue: Rvalue) -> bool {
    match rvalue {
        Rvalue::Use(op) => operand_in_bounds(op),
        Rvalue::Repeat(op, _) => operand_in_bounds(op),
        Rvalue::Ref(_, place) => in_bounds(place),
        Rvalue::ThreadLocalRef(_) => true,
        Rvalue::RawPtr(_, place) => in_bounds(place),
        Rvalue::Len(place) => in_bounds(place),
        Rvalue::Cast(_, op, _) => operand_in_bounds(op),
        Rvalue::BinaryOp(_, lhs, rhs) => operand_in_bounds(lhs) && operand_in_bounds(rhs),
        Rvalue::NullaryOp(_, _) => true,
        Rvalue::UnaryOp(_, op) => operand_in_bounds(op),
        Rvalue::Discriminant(place) => in_bounds(place),
        Rvalue::Aggregate(_, ops) => operands_in_bounds(ops@),
        Rvalue::ShallowInitBox(op, _) => operand_in_bounds(op),
        Rvalue::CopyForDeref(place) => in_bounds(place),
        Rvalue::WrapUnsafeBinder(op, _) => operand_in_bounds(op),
    }
}

proof fn lemma_clean_operand(sc: Scope, op: Operand, span: Span)
    requires
        harmless(operand_findings(sc, op, span)),
    ensures
        operand_in_bounds(op),
{
    if let Some(p) = place_of(op) {
        law_clean_places_do_not_index(sc, p, span);
    }
}

proof fn lemma_clean_operands(sc: Scope, ops: Seq<Operand>, span: Span)
    requires
        harmless(operands_findings(sc, ops, span)),
    ensures
        operands_in_bounds(ops),
    decreases ops.len(),
{
    if ops.len() > 0 {
        let short = ops.drop_last();
        lemma_harmless_halves(
            operands_findings(sc, short, span),
            operand_findings(sc, ops.last(), span),
        );
        lemma_clean_operands(sc, short, span);
        lemma_clean_operand(sc, ops.last(), span);
        assert forall|i: int| 0 <= i < ops.len() implies operand_in_bounds(#[trigger] ops[i]) by {
            if i < short.len() {
                assert(ops[i] == short[i]);
            }
        }
    }
}

/// No step of a place that an rvalue reads or refers to can be out of bounds where the rvalue is
/// found harmless.
pub proof fn law_clean_rvalues_do_not_index(sc: Scope, rvalue: Rvalue, span: Span)
    requires
        harmless(rvalue_findings(sc, rvalue, span)),
    ensures
        rvalue_in_bounds(rvalue),
{
    let all = rvalue_findings(sc, rvalue, span);
    match rvalue {
        Rvalue::Use(op) => lemma_clean_operand(sc, op, span),
        Rvalue::Repeat(op, _) => lemma_clean_operand(sc, op, span),
        Rvalue::Ref(_, place) => law_clean_places_do_not_index(sc, place, span),
        Rvalue::ThreadLocalRef(_) => {},
        Rvalue::RawPtr(_, place) => {
            let head = place_findings(sc, place, span);
            assert(all =~= head + all.skip(head.len() as int));
            lemma_harmless_halves(head, all.skip(head.len() as int));
            law_clean_places_do_not_index(sc, place, span);
        },
        Rvalue::Len(place) => law_clean_places_do_not_index(sc, place, span),
        Rvalue::Cast(_, op, _) => lemma_clean_first_operand(sc, op, span, all),
        Rvalue::BinaryOp(_, lhs, rhs) => {
            let a = operand_findings(sc, lhs, span);
            let b = operand_findings(sc, rhs, span);
            let rest = all.skip((a + b).len() as int);
            assert(all =~= a + b + rest);
            lemma_harmless_halves(a + b, rest);
            lemma_harmless_halves(a, b);
            lemma_clean_operand(sc, lhs, span);
            lemma_clean_operand(sc, rhs, span);
        },
        Rvalue::NullaryOp(_, _) => {},
        Rvalue::UnaryOp(_, op) => lemma_clean_first_operand(sc, op, span, all),
        Rvalue::Discriminant(place) => law_clean_places_do_not_index(sc, place, span),
        Rvalue::Aggregate(_, ops) => {
            let head = operands_findings(sc, ops@, span);
            assert(all =~= head + all.skip(head.len() as int));
            lemma_harmless_halves(head, all.skip(head.len() as int));
            lemma_clean_operands(sc, ops@, span);
        },
        Rvalue::ShallowInitBox(op, _) => lemma_clean_first_operand(sc, op, span, all),
        Rvalue::CopyForDeref(place) => law_clean_places_do_not_index(sc, place, span),
        Rvalue::WrapUnsafeBinder(op, _) => lemma_clean_first_operand(sc, op, span, all),
    }
}

proof fn lemma_clean_first_operand(sc: Scope, op: Operand, span: Span, all: Seq<Finding>)
    requires
        harmless(all),
        operand_findings(sc, op, span).is_prefix_of(all),
    ensures
        operand_in_bounds(op),
{
    let head = operand_findings(sc, op, span);
    assert(all =~= head + all.skip(head.len() as int));
    lemma_harmless_halves(head, all.skip(head.len() as int));
    lemma_clean_operand(sc, op, span);
}

/// Whether an rvalue can neither fail at run time nor break a rule, apart from what its operands
/// and types are: no arithmetic that may overflow or divide by zero, no negation of a signed value,
/// no cast that may change a value, no pointer and no closure is made.
pub open spec fn total_rvalue(sc: Scope, rvalue: Rvalue) -> bool {
    match rvalue {
        Rvalue::ThreadLocalRef(_) => false,
        Rvalue::RawPtr(_, _) => false,
        Rvalue::ShallowInitBox(_, _) => false,
        Rvalue::WrapUnsafeBinder(_, _) => false,
        Rvalue::BinaryOp(op, _, _) => arith_op(op) is None && op != BinOp::Offset,
        Rvalue::UnaryOp(op, x) => op == UnOp::Neg ==> (operand_int_name(sc.body, x) is Some
            && !begins(operand_int_name(sc.body, x)->0, "i")),
        Rvalue::Cast(kind, x, ty) => kind == CastKind::PointerCoercion || (kind
            == CastKind::IntToInt && kept_value(x, ty) is Some),
        Rvalue::Aggregate(kind, _) => !(kind is Closure) && !(kind is Coroutine) && !(kind
            is RawPtr),
        _ => true,
    }
}

/// An rvalue that is found harmless cannot fail at run time.
pub proof fn law_clean_rvalues_are_total(sc: Scope, rvalue: Rvalue, span: Span)
    requires
        harmless(rvalue_findings(sc, rvalue, span)),
    ensures
        total_rvalue(sc, rvalue),
{
    let all = rvalue_findings(sc, rvalue, span);
    match rvalue {
        Rvalue::ThreadLocalRef(_) => {
            assert(weighs(all[0]));
        },
        Rvalue::RawPtr(_, _) => {
            assert(weighs(all.last()));
        },
        Rvalue::ShallowInitBox(_, _) => {
            assert(weighs(all.last()));
        },
        Rvalue::WrapUnsafeBinder(_, _) => {
            assert(weighs(all.last()));
        },
        Rvalue::BinaryOp(op, lhs, rhs) => {
            let tail = overflow_findings(sc, op, lhs, rhs, span);
            let head = all.take(all.len() - tail.len());
            assert(all =~= head + tail);
            lemma_harmless_halves(head, tail);
            if arith_op(op) is Some {
                assert(weighs(tail[0]));
            }
            if op == BinOp::Offset {
                assert(weighs(all.last()));
            }
        },
        Rvalue::UnaryOp(op, x) => {
            if op == UnOp::Neg {
                lemma_harmless_halves(
                    operand_findings(sc, x, span),
                    negation_findings(sc, x, span),
                );
                let tail = negation_findings(sc, x, span);
                if tail.len() > 0 {
                    assert(weighs(tail[0]));
                }
            }
        },
        Rvalue::Cast(kind, x, ty) => {
            let tail = cast_findings(kind, x, ty, span);
            lemma_harmless_halves(
                operand_findings(sc, x, span) + ty_findings(ty, span),
                tail,
            );
            if kind != CastKind::PointerCoercion {
                assert(weighs(tail[0]) || kept_value(x, ty) is Some);
            }
        },
        Rvalue::Aggregate(kind, ops) => {
            if kind is Closure || kind is Coroutine || kind is RawPtr {
                assert(weighs(all.last()));
            }
        },
        _ => {},
    }
}

/// Whether a call is direct, of a function other than `body`, which has no preconditions and, as
/// far as its path tells, does not panic.
pub open spec fn safe_call(sc: Scope, func: Operand) -> bool {
    match func {
        Operand::Constant(c) => {
            &&& c.path is Some
            &&& !panic_call_path(c.path->0@)
            &&& !panicking_call(c.path->0@)
            &&& !stdlib_namespace_path(c.path->0@) || trusted_total_library_call(c.path->0@)
            &&& c.def_id != Some(sc.body.def_id)
            &&& !listed(sc.settings.precondition_fns, c.path->0@)
        },
        _ => false,
    }
}

/// A call that is found harmless, under strict library acceptance, is a safe one, and no step of a
/// place that it reads or stores to can be out of bounds.
pub proof fn law_clean_calls_are_safe(
    sc: Scope,
    func: Operand,
    args: Seq<Operand>,
    destination: Place,
    span: Span,
    block: int,
)
    requires
        sc.settings.config.verification.strict_library_acceptance,
        harmless(call_findings(sc, func, args, destination, span, block)),
    ensures
        safe_call(sc, func),
        operands_in_bounds(args),
        in_bounds(destination),
{
    let all = call_findings(sc, func, args, destination, span, block);
    let dest = place_findings(sc, destination, span);
    let ops = operands_findings(sc, args, span);
    let head = all.take(all.len() - dest.len() - ops.len());
    assert(all =~= head + ops + dest);
    lemma_harmless_halves(head + ops, dest);
    lemma_harmless_halves(head, ops);
    lemma_clean_operands(sc, args, span);
    law_clean_places_do_not_index(sc, destination, span);
    match func {
        Operand::Constant(c) => {
            let x = callee_findings(sc, c, span);
            let y = recursion_findings(sc, c, span);
            let z = precondition_findings(sc, c, args, span, block);
            assert(head =~= x + y + z);
            lemma_harmless_halves(x + y, z);
            lemma_harmless_halves(x, y);
            law_library_calls_fail_closed(sc, c, span);
            if y.len() > 0 {
                assert(weighs(y[0]));
            }
            if z.len() > 0 {
                assert(weighs(z[0]));
            }
        },
        _ => {
            assert(weighs(head.last()));
        },
    }
}

/// Whether a statement can neither fail at run time nor break a rule, apart from what its types
/// are: it computes a total rvalue, and no step of a place that it reads or stores to can be out of
/// bounds.
pub open spec fn safe_statement(sc: Scope, stmt: Statement) -> bool {
    match stmt.kind {
        StatementKind::Assign(place, rvalue) => in_bounds(place) && rvalue_in_bounds(rvalue)
            && total_rvalue(sc, rvalue),
        StatementKind::FakeRead(place) => in_bounds(place),
        StatementKind::SetDiscriminant { place, .. } => in_bounds(place),
        StatementKind::Deinit(_) => false,
        StatementKind::StorageLive(_) => true,
        StatementKind::StorageDead(_) => true,
        StatementKind::Retag(_, _) => false,
        StatementKind::PlaceMention(place) => in_bounds(place),
        StatementKind::AscribeUserType(place) => in_bounds(place),
        StatementKind::Coverage => true,
        StatementKind::Intrinsic(intr) => match intr {
            NonDivergingIntrinsic::Assume(op) => operand_in_bounds(op),
            NonDivergingIntrinsic::CopyNonOverlapping => false,
        },
        StatementKind::ConstEvalCounter => true,
        StatementKind::Nop => true,
    }
}

/// Whether a terminator can neither fail at run time nor break a rule, apart from what its types
/// are, and no step of a place that it reads or stores to can be out of bounds. The condition of a
/// run-time check is not looked at.
pub open spec fn safe_terminator(sc: Scope, kind: TerminatorKind) -> bool {
    match kind {
        TerminatorKind::Goto { .. } => true,
        TerminatorKind::SwitchInt { discr, .. } => operand_in_bounds(discr),
        TerminatorKind::Return => true,
        TerminatorKind::Unreachable => true,
        TerminatorKind::Drop { place, .. } => in_bounds(place),
        TerminatorKind::Assert { .. } => true,
        TerminatorKind::Call { func, args, destination, .. } => safe_call(sc, func)
            && operands_in_bounds(args@) && in_bounds(destination),
        _ => false,
    }
}

/// Whether a block can neither fail at run time nor break a rule, apart from what its types are.
pub open spec fn safe_block(sc: Scope, block: BasicBlockData) -> bool {
    &&& forall|i: int|
        0 <= i < block.statements@.len() ==> safe_statement(sc, #[trigger] block.statements@[i])
    &&& safe_terminator(sc, block.terminator.kind)
}

/// A statement that is found harmless is a safe one.
pub proof fn law_clean_statements_are_safe(sc: Scope, stmt: Statement)
    requires
        harmless(statement_findings(sc, stmt)),
    ensures
        safe_statement(sc, stmt),
{
    let all = statement_findings(sc, stmt);
    match stmt.kind {
        StatementKind::Assign(place, rvalue) => {
            lemma_harmless_halves(
                place_findings(sc, place, stmt.span),
                rvalue_findings(sc, rvalue, stmt.span),
            );
            law_clean_rvalues_are_total(sc, rvalue, stmt.span);
            law_clean_rvalues_do_not_index(sc, rvalue, stmt.span);
            law_clean_places_do_not_index(sc, place, stmt.span);
        },
        StatementKind::FakeRead(place) => law_clean_places_do_not_index(sc, place, stmt.span),
        StatementKind::SetDiscriminant { place, .. } => law_clean_places_do_not_index(
            sc,
            place,
            stmt.span,
        ),
        StatementKind::Deinit(_) => {
            assert(weighs(all.last()));
        },
        StatementKind::Retag(_, _) => {
            assert(weighs(all.last()));
        },
        StatementKind::PlaceMention(place) => law_clean_places_do_not_index(sc, place, stmt.span),
        StatementKind::AscribeUserType(place) => law_clean_places_do_not_index(
            sc,
            place,
            stmt.span,
        ),
        StatementKind::Intrinsic(intr) => match intr {
            NonDivergingIntrinsic::Assume(op) => lemma_clean_operand(sc, op, stmt.span),
            NonDivergingIntrinsic::CopyNonOverlapping => {
                assert(weighs(all[0]));
            },
        },
        _ => {},
    }
}

/// A terminator that is found harmless, under strict library acceptance, is a safe one.
pub proof fn law_clean_terminators_are_safe(sc: Scope, term: Terminator, block: int)
    requires
        sc.settings.config.verification.strict_library_acceptance,
        harmless(terminator_findings(sc, term, block)),
    ensures
        safe_terminator(sc, term.kind),
{
    let found = terminator_findings(sc, term, block);
    match term.kind {
        TerminatorKind::Call { func, args, destination, .. } => {
            law_clean_calls_are_safe(sc, func, args@, destination, term.span, block);
        },
        TerminatorKind::SwitchInt { discr, .. } => lemma_clean_operand(sc, discr, term.span),
        TerminatorKind::Drop { place, .. } => law_clean_places_do_not_index(sc, place, term.span),
        TerminatorKind::Goto { .. } => {},
        TerminatorKind::Return => {},
        TerminatorKind::Unreachable => {},
        TerminatorKind::Assert { .. } => {},
        _ => {
            assert(weighs(found[0]));
        },
    }
}

/// A body that is found harmless, under strict library acceptance, has no postcondition left to
/// prove, is neither `unsafe` nor `async`, and none of its blocks can fail at run time: no
/// arithmetic that may overflow or divide by zero, no index in any place that a statement, a call,
/// a switch or a drop reads or stores to, no call that may panic, recurse or miss a precondition.
pub proof fn law_clean_bodies_are_safe(sc: Scope)
    requires
        sc.settings.config.verification.strict_library_acceptance,
        harmless(body_findings(sc, false)),
    ensures
        !sc.body.is_unsafe,
        !sc.body.is_async,
        sc.settings.postconditions.len() == 0,
        forall|b: int|
            0 <= b < sc.body.blocks@.len() ==> safe_block(sc, #[trigger] sc.body.blocks@[b]),
{
    let all = body_findings(sc, false);
    let head = signature_findings(sc);
    law_signatures_are_never_trusted(sc, false);
    if sc.body.is_unsafe {
        assert(head[0] == all[0]);
        assert(weighs(head[0]));
    }
    if sc.body.is_async {
        let k: int = if sc.body.is_unsafe {
            1
        } else {
            0
        };
        assert(head[k] == all[k]);
        assert(weighs(head[k]));
    }
    assert forall|b: int| 0 <= b < sc.body.blocks@.len() implies safe_block(
        sc,
        #[trigger] sc.body.blocks@[b],
    ) by {
        let block = sc.body.blocks@[b];
        assert forall|i: int| 0 <= i < block.statements@.len() implies safe_statement(
            sc,
            #[trigger] block.statements@[i],
        ) by {
            law_every_statement_counts(sc, b, i);
            lemma_harmless_part(statement_findings(sc, block.statements@[i]), all);
            law_clean_statements_are_safe(sc, block.statements@[i]);
        }
        law_every_terminator_counts(sc, b);
        lemma_harmless_part(terminator_findings(sc, block.terminator, b), all);
        law_clean_terminators_are_safe(sc, block.terminator, b);
    }
    if sc.settings.postconditions.len() > 0 {
        if returns_somewhere(sc.body.blocks@) {
            let b = choose|b: int|
                0 <= b < sc.body.blocks@.len() && (
                #[trigger] sc.body.blocks@[b]).terminator.kind is Return;
            law_every_terminator_counts(sc, b);
            let found = terminator_findings(sc, sc.body.blocks@[b].terminator, b);
            lemma_harmless_part(found, all);
            assert(weighs(found.last()));
        } else {
            assert(weighs(all[all.len() - 2]));
        }
    }
}

// ---------------------------------------------------------------------------
// Casts.
// ---------------------------------------------------------------------------

/// An integer cast is accepted just if it is of a constant that is a value of both types, so that
/// nothing is cut off and no sign changes; any other is a violation.
pub proof fn law_accepted_casts_keep_the_value(op: Operand, target: Ty, span: Span)
    ensures
        harmless(cast_findings(CastKind::IntToInt, op, target, span)) <==> (op matches
            Operand::Constant(c) && c.value is Some && primitive_int_name(c.ty) is Some
            && primitive_int_name(target) is Some && fits(
            c.value->0 as int,
            primitive_int_name(c.ty)->0,
        ) && fits(c.value->0 as int, primitive_int_name(target)->0)),
{
    let fs = cast_findings(CastKind::IntToInt, op, target, span);
    assert(fs.len() == 1);
    if kept_value(op, target) is None {
        assert(weighs(fs[0]));
    }
}

} // verus!
