//! How many obligations a walk leaves, and for what.
use vstd::prelude::*;
use crate::clauses::{judged_all, kept, refused, SiteView};
use crate::findings::{remarks, Finding};
use crate::mir_api::{
    AggregateKind, Body, ConstOperand, LocalDecl, NonDivergingIntrinsic, Operand, Place,
    ProjectionElem, RigidTy, Rvalue, Span, Statement, StatementKind, Terminator, TerminatorKind, Ty,
    TyKind,
};
use crate::predicate::fits;
use crate::laws::walk::{indexes, weighs};
use crate::locals::operand_int_name;
use crate::diagnostic::AuditNoteKind;
use crate::types::{adt_findings, ty_findings, tys_findings};
use crate::vc::KindView;
use crate::walk::{
    aggregate_findings, arith_op, blocks_findings, body_findings, call_findings, callee_findings,
    cast_findings, constant_pin, constant_value, index_findings, local_findings, locals_findings,
    negation_findings, operand_findings, operand_pins, operands_findings, overflow_findings,
    place_findings, precondition_findings, projection_findings, projections_findings,
    recursion_findings, returns_somewhere, rvalue_findings, signature_findings, site_findings,
    statement_findings, statements_findings, terminator_findings, Scope,
};

verus! {

/// The kinds of obligation, without what they carry.
#[derive(Clone, Copy, Debug, PartialEq, Eq, Structural)]
pub enum Purpose {
    Arithmetic,
    Panic,
    Index,
    Postcondition,
    Recursion,
    CallSite,
}

/// What an obligation is for.
pub open spec fn purpose(kind: KindView) -> Purpose {
    match kind {
        KindView::ArithmeticOverflow { .. } => Purpose::Arithmetic,
        KindView::PanicReachability => Purpose::Panic,
        KindView::IndexBound { .. } => Purpose::Index,
        KindView::EnsuresPostcondition { .. } => Purpose::Postcondition,
        KindView::RecursionDecreases => Purpose::Recursion,
        KindView::CallSitePrecondition { .. } => Purpose::CallSite,
    }
}

/// Whether a finding is an obligation for the purpose `p`.
pub open spec fn serves(f: Finding, p: Purpose) -> bool {
    match f {
        Finding::Obligation { kind, .. } => purpose(kind) == p,
        _ => false,
    }
}

/// How many of `fs` are obligations for the purpose `p`.
pub open spec fn count(fs: Seq<Finding>, p: Purpose) -> nat
    decreases fs.len(),
{
    if fs.len() == 0 {
        0
    } else {
        count(fs.drop_last(), p) + if serves(fs.last(), p) {
            1nat
        } else {
            0nat
        }
    }
}

/// The counts of two lists add up.
proof fn lemma_count_concat(a: Seq<Finding>, b: Seq<Finding>, p: Purpose)
    ensures
        count(a + b, p) == count(a, p) + count(b, p),
    decreases b.len(),
{
    if b.len() == 0 {
        assert(a + b =~= a);
    } else {
        lemma_count_concat(a, b.drop_last(), p);
        assert((a + b).drop_last() =~= a + b.drop_last());
    }
}

/// A list without obligations for `p` counts none.
proof fn lemma_count_none(fs: Seq<Finding>, p: Purpose)
    requires
        forall|i: int| 0 <= i < fs.len() ==> !serves(#[trigger] fs[i], p),
    ensures
        count(fs, p) == 0,
    decreases fs.len(),
{
    if fs.len() > 0 {
        assert forall|i: int| 0 <= i < fs.drop_last().len() implies !serves(
            #[trigger] fs.drop_last()[i],
            p,
        ) by {
            assert(fs.drop_last()[i] == fs[i]);
        }
        lemma_count_none(fs.drop_last(), p);
        assert(!serves(fs[fs.len() - 1], p));
    }
}

/// A list of one finding counts one at most.
proof fn lemma_count_one(f: Finding, p: Purpose)
    ensures
        count(seq![f], p) == if serves(f, p) {
            1nat
        } else {
            0nat
        },
{
    let fs = seq![f];
    assert(fs.drop_last() =~= Seq::empty());
    assert(count(fs.drop_last(), p) == 0);
}

proof fn lemma_count_adt(ty: crate::mir_api::AdtDef, span: Span, p: Purpose)
    ensures
        count(adt_findings(ty, span), p) == 0,
{
    lemma_count_none(adt_findings(ty, span), p);
}

/// Types leave no obligations.
proof fn lemma_count_ty(ty: Ty, span: Span, p: Purpose)
    ensures
        count(ty_findings(ty, span), p) == 0,
    decreases ty, 0nat,
{
    match ty.kind {
        TyKind::RigidTy(rigid) => match rigid {
            RigidTy::Ref(_, inner) => lemma_count_ty(*inner, span, p),
            RigidTy::RawPtr(_, inner) => {
                lemma_count_ty(*inner, span, p);
                let head = ty_findings(*inner, span);
                let all = ty_findings(ty, span);
                assert(all =~= head + seq![all.last()]);
                lemma_count_concat(head, seq![all.last()], p);
                lemma_count_one(all.last(), p);
            },
            RigidTy::Array(inner, _) => lemma_count_ty(*inner, span, p),
            RigidTy::Slice(inner) => lemma_count_ty(*inner, span, p),
            RigidTy::Tuple(elems) => lemma_count_tys(elems, elems@.len(), span, p),
            RigidTy::Adt(adt) => lemma_count_adt(adt, span, p),
            _ => lemma_count_none(ty_findings(ty, span), p),
        },
        _ => lemma_count_none(ty_findings(ty, span), p),
    }
}

proof fn lemma_count_tys(tys: Vec<Ty>, n: nat, span: Span, p: Purpose)
    ensures
        count(tys_findings(tys, n, span), p) == 0,
    decreases tys, n,
{
    if n > 0 && n <= tys@.len() {
        lemma_count_tys(tys, (n - 1) as nat, span, p);
        lemma_count_ty(tys@[n - 1], span, p);
        lemma_count_concat(
            tys_findings(tys, (n - 1) as nat, span),
            ty_findings(tys@[n - 1], span),
            p,
        );
    }
}

/// An obligation with hypotheses is one obligation, and its remarks are none.
proof fn lemma_count_site(
    sc: Scope,
    site: SiteView,
    kind: KindView,
    given: Seq<Seq<char>>,
    span: Span,
    p: Purpose,
)
    ensures
        count(site_findings(sc, site, kind, given, span), p) == if purpose(kind) == p {
            1nat
        } else {
            0nat
        },
{
    let clauses = judged_all(site, sc.settings.preconditions);
    let f = crate::findings::obligation(span, kind, given + kept(clauses));
    let rest = remarks(span, refused(clauses));
    lemma_count_concat(seq![f], rest, p);
    lemma_count_one(f, p);
    lemma_count_none(rest, p);
}

proof fn lemma_count_projections(sc: Scope, elems: Seq<ProjectionElem>, span: Span, p: Purpose)
    requires
        p != Purpose::Index,
    ensures
        count(projections_findings(sc, elems, span), p) == 0,
    decreases elems.len(),
{
    if elems.len() > 0 {
        lemma_count_projections(sc, elems.drop_last(), span, p);
        let last = projection_findings(sc, elems.last(), span);
        lemma_count_concat(projections_findings(sc, elems.drop_last(), span), last, p);
        match elems.last() {
            ProjectionElem::Index(local) => lemma_count_index(
                sc,
                crate::locals::arg_name(sc.body, local.0 as int),
                span,
                p,
            ),
            ProjectionElem::ConstantIndex { .. } => lemma_count_index(sc, None, span, p),
            ProjectionElem::Subslice { .. } => lemma_count_index(sc, None, span, p),
            ProjectionElem::OpaqueCast(ty) => lemma_count_ty(ty, span, p),
            ProjectionElem::Subtype(ty) => lemma_count_ty(ty, span, p),
            _ => lemma_count_none(last, p),
        }
    } else {
        lemma_count_none(projections_findings(sc, elems, span), p);
    }
}

proof fn lemma_count_index(sc: Scope, source: Option<Seq<char>>, span: Span, p: Purpose)
    ensures
        count(index_findings(sc, source, span), p) == if p == Purpose::Index {
            1nat
        } else {
            0nat
        },
{
    lemma_count_site(
        sc,
        SiteView::Index {
            source,
            ty: crate::walk::index_ty(sc.settings.config.subset.target_pointer_width),
        },
        KindView::IndexBound { idx_source_name: source },
        seq![],
        span,
        p,
    );
}

/// Places leave obligations for indexes only.
proof fn lemma_count_place(sc: Scope, place: Place, span: Span, p: Purpose)
    requires
        p != Purpose::Index,
    ensures
        count(place_findings(sc, place, span), p) == 0,
{
    let all = place_findings(sc, place, span);
    let steps = projections_findings(sc, place.projection@, span);
    let cap = all.take(all.len() - steps.len());
    assert(all =~= cap + steps);
    lemma_count_concat(cap, steps, p);
    lemma_count_projections(sc, place.projection@, span, p);
    lemma_count_none(cap, p);
}

proof fn lemma_count_operand(sc: Scope, op: Operand, span: Span, p: Purpose)
    requires
        p != Purpose::Index,
    ensures
        count(operand_findings(sc, op, span), p) == 0,
{
    match op {
        Operand::Copy(place) => lemma_count_place(sc, place, span, p),
        Operand::Move(place) => lemma_count_place(sc, place, span, p),
        Operand::Constant(c) => lemma_count_ty(c.ty, span, p),
    }
}

proof fn lemma_count_operands(sc: Scope, ops: Seq<Operand>, span: Span, p: Purpose)
    requires
        p != Purpose::Index,
    ensures
        count(operands_findings(sc, ops, span), p) == 0,
    decreases ops.len(),
{
    if ops.len() > 0 {
        lemma_count_operands(sc, ops.drop_last(), span, p);
        lemma_count_operand(sc, ops.last(), span, p);
        lemma_count_concat(
            operands_findings(sc, ops.drop_last(), span),
            operand_findings(sc, ops.last(), span),
            p,
        );
    }
}

/// Rvalues leave obligations for indexes and arithmetic only.
proof fn lemma_count_rvalue(sc: Scope, rvalue: Rvalue, span: Span, p: Purpose)
    requires
        p != Purpose::Index,
        p != Purpose::Arithmetic,
    ensures
        count(rvalue_findings(sc, rvalue, span), p) == 0,
{
    let all = rvalue_findings(sc, rvalue, span);
    match rvalue {
        Rvalue::Use(op) => lemma_count_operand(sc, op, span, p),
        Rvalue::Repeat(op, _) => lemma_count_operand(sc, op, span, p),
        Rvalue::Ref(_, place) => lemma_count_place(sc, place, span, p),
        Rvalue::ThreadLocalRef(_) => lemma_count_none(all, p),
        Rvalue::RawPtr(_, place) => {
            lemma_count_place(sc, place, span, p);
            let head = place_findings(sc, place, span);
            assert(all =~= head + seq![all.last()]);
            lemma_count_concat(head, seq![all.last()], p);
            lemma_count_one(all.last(), p);
        },
        Rvalue::Len(place) => lemma_count_place(sc, place, span, p),
        Rvalue::Cast(kind, op, target) => {
            let a = operand_findings(sc, op, span);
            let b = ty_findings(target, span);
            let c = cast_findings(kind, op, target, span);
            lemma_count_concat(a + b, c, p);
            lemma_count_concat(a, b, p);
            lemma_count_operand(sc, op, span, p);
            lemma_count_ty(target, span, p);
            lemma_count_none(c, p);
        },
        Rvalue::BinaryOp(binop, lhs, rhs) => {
            let a = operand_findings(sc, lhs, span);
            let b = operand_findings(sc, rhs, span);
            let d = overflow_findings(sc, binop, lhs, rhs, span);
            let c = all.subrange((a + b).len() as int, all.len() - d.len());
            assert(all =~= a + b + c + d);
            lemma_count_concat(a + b + c, d, p);
            lemma_count_concat(a + b, c, p);
            lemma_count_concat(a, b, p);
            lemma_count_operand(sc, lhs, span, p);
            lemma_count_operand(sc, rhs, span, p);
            lemma_count_none(c, p);
            lemma_count_overflow(sc, binop, lhs, rhs, span, p);
        },
        Rvalue::NullaryOp(_, ty) => lemma_count_ty(ty, span, p),
        Rvalue::UnaryOp(unop, op) => {
            let a = operand_findings(sc, op, span);
            let b = all.skip(a.len() as int);
            assert(all =~= a + b);
            lemma_count_concat(a, b, p);
            lemma_count_operand(sc, op, span, p);
            lemma_count_negation(sc, op, span, p);
            if unop == crate::mir_api::UnOp::Neg {
                assert(b =~= negation_findings(sc, op, span));
            } else {
                lemma_count_none(b, p);
            }
        },
        Rvalue::Discriminant(place) => lemma_count_place(sc, place, span, p),
        Rvalue::Aggregate(kind, ops) => {
            let a = operands_findings(sc, ops@, span);
            let b = aggregate_findings(kind, span);
            lemma_count_concat(a, b, p);
            lemma_count_operands(sc, ops@, span, p);
            match kind {
                AggregateKind::Array(ty) => lemma_count_ty(ty, span, p),
                AggregateKind::Adt(adt, _) => lemma_count_adt(adt, span, p),
                _ => lemma_count_none(b, p),
            }
        },
        Rvalue::ShallowInitBox(op, ty) => {
            let a = operand_findings(sc, op, span);
            let b = ty_findings(ty, span);
            let c = seq![all.last()];
            assert(all =~= a + b + c);
            lemma_count_concat(a + b, c, p);
            lemma_count_concat(a, b, p);
            lemma_count_operand(sc, op, span, p);
            lemma_count_ty(ty, span, p);
            lemma_count_one(all.last(), p);
        },
        Rvalue::CopyForDeref(place) => lemma_count_place(sc, place, span, p),
        Rvalue::WrapUnsafeBinder(op, ty) => {
            let a = operand_findings(sc, op, span);
            let b = ty_findings(ty, span);
            let c = seq![all.last()];
            assert(all =~= a + b + c);
            lemma_count_concat(a + b, c, p);
            lemma_count_concat(a, b, p);
            lemma_count_operand(sc, op, span, p);
            lemma_count_ty(ty, span, p);
            lemma_count_one(all.last(), p);
        },
    }
}

proof fn lemma_count_overflow(
    sc: Scope,
    binop: crate::mir_api::BinOp,
    lhs: Operand,
    rhs: Operand,
    span: Span,
    p: Purpose,
)
    requires
        p != Purpose::Arithmetic,
    ensures
        count(overflow_findings(sc, binop, lhs, rhs, span), p) == 0,
{
    let all = overflow_findings(sc, binop, lhs, rhs, span);
    assert(forall|i: int| 0 <= i < all.len() ==> !serves(#[trigger] all[i], p));
    lemma_count_none(all, p);
}

proof fn lemma_count_negation(sc: Scope, op: Operand, span: Span, p: Purpose)
    requires
        p != Purpose::Arithmetic,
    ensures
        count(negation_findings(sc, op, span), p) == 0,
{
    let all = negation_findings(sc, op, span);
    assert(forall|i: int| 0 <= i < all.len() ==> !serves(#[trigger] all[i], p));
    lemma_count_none(all, p);
}

/// Statements leave obligations for indexes and arithmetic only.
proof fn lemma_count_statement(sc: Scope, stmt: Statement, p: Purpose)
    requires
        p != Purpose::Index,
        p != Purpose::Arithmetic,
    ensures
        count(statement_findings(sc, stmt), p) == 0,
{
    let all = statement_findings(sc, stmt);
    match stmt.kind {
        StatementKind::Assign(place, rvalue) => {
            lemma_count_concat(
                place_findings(sc, place, stmt.span),
                rvalue_findings(sc, rvalue, stmt.span),
                p,
            );
            lemma_count_place(sc, place, stmt.span, p);
            lemma_count_rvalue(sc, rvalue, stmt.span, p);
        },
        StatementKind::FakeRead(place) => lemma_count_place(sc, place, stmt.span, p),
        StatementKind::SetDiscriminant { place, .. } => lemma_count_place(sc, place, stmt.span, p),
        StatementKind::Deinit(place) => {
            lemma_count_place(sc, place, stmt.span, p);
            let head = place_findings(sc, place, stmt.span);
            assert(all =~= head + seq![all.last()]);
            lemma_count_concat(head, seq![all.last()], p);
            lemma_count_one(all.last(), p);
        },
        StatementKind::Retag(_, place) => {
            lemma_count_place(sc, place, stmt.span, p);
            let head = place_findings(sc, place, stmt.span);
            assert(all =~= head + seq![all.last()]);
            lemma_count_concat(head, seq![all.last()], p);
            lemma_count_one(all.last(), p);
        },
        StatementKind::PlaceMention(place) => lemma_count_place(sc, place, stmt.span, p),
        StatementKind::AscribeUserType(place) => lemma_count_place(sc, place, stmt.span, p),
        StatementKind::Intrinsic(NonDivergingIntrinsic::Assume(op)) => lemma_count_operand(
            sc,
            op,
            stmt.span,
            p,
        ),
        _ => lemma_count_none(all, p),
    }
}

proof fn lemma_count_statements(sc: Scope, stmts: Seq<Statement>, p: Purpose)
    requires
        p != Purpose::Index,
        p != Purpose::Arithmetic,
    ensures
        count(statements_findings(sc, stmts), p) == 0,
    decreases stmts.len(),
{
    if stmts.len() > 0 {
        lemma_count_statements(sc, stmts.drop_last(), p);
        lemma_count_statement(sc, stmts.last(), p);
        lemma_count_concat(
            statements_findings(sc, stmts.drop_last()),
            statement_findings(sc, stmts.last()),
            p,
        );
    }
}

/// Whether a terminator is a direct call of the body that it stands in.
pub open spec fn self_call(body: Body, kind: TerminatorKind) -> bool {
    match kind {
        TerminatorKind::Call { func, .. } => match func {
            Operand::Constant(c) => c.def_id == Some(body.def_id),
            _ => false,
        },
        _ => false,
    }
}

/// What a terminator leaves for recursion and for postconditions.
proof fn lemma_count_terminator(sc: Scope, term: Terminator, block: int)
    ensures
        count(terminator_findings(sc, term, block), Purpose::Recursion) == (if self_call(
            sc.body,
            term.kind,
        ) {
            1nat
        } else {
            0nat
        }),
        count(terminator_findings(sc, term, block), Purpose::Postcondition) == (if term.kind
            is Return && sc.settings.postconditions.len() > 0 {
            1nat
        } else {
            0nat
        }),
{
    let r = Purpose::Recursion;
    let e = Purpose::Postcondition;
    let all = terminator_findings(sc, term, block);
    match term.kind {
        TerminatorKind::SwitchInt { discr, .. } => {
            lemma_count_operand(sc, discr, term.span, r);
            lemma_count_operand(sc, discr, term.span, e);
        },
        TerminatorKind::Drop { place, .. } => {
            lemma_count_place(sc, place, term.span, r);
            lemma_count_place(sc, place, term.span, e);
        },
        TerminatorKind::Return => {
            lemma_count_none(all, r);
            if sc.settings.postconditions.len() > 0 {
                let head = all.drop_last();
                assert(all =~= head + seq![all.last()]);
                lemma_count_concat(head, seq![all.last()], e);
                lemma_count_one(all.last(), e);
                lemma_count_none(head, e);
            } else {
                lemma_count_none(all, e);
            }
        },
        TerminatorKind::Call { func, args, destination, .. } => {
            lemma_count_call(sc, func, args@, destination, term.span, block, r);
            lemma_count_call(sc, func, args@, destination, term.span, block, e);
        },
        _ => {
            lemma_count_none(all, r);
            lemma_count_none(all, e);
        },
    }
}

/// The path of a callee leaves obligations for panics only.
proof fn lemma_count_callee(sc: Scope, c: ConstOperand, span: Span, p: Purpose)
    requires
        p != Purpose::Panic,
    ensures
        count(callee_findings(sc, c, span), p) == 0,
{
    let all = callee_findings(sc, c, span);
    assert(forall|i: int| 0 <= i < all.len() ==> !serves(#[trigger] all[i], p));
    lemma_count_none(all, p);
}

/// The preconditions of a callee leave obligations for the call only.
proof fn lemma_count_precondition(
    sc: Scope,
    c: ConstOperand,
    args: Seq<Operand>,
    span: Span,
    block: int,
    p: Purpose,
)
    requires
        p != Purpose::CallSite,
    ensures
        count(precondition_findings(sc, c, args, span, block), p) == 0,
{
    let all = precondition_findings(sc, c, args, span, block);
    assert(forall|i: int| 0 <= i < all.len() ==> !serves(#[trigger] all[i], p));
    lemma_count_none(all, p);
}

/// A direct call leaves an obligation for recursion just if it is one of the body by itself.
proof fn lemma_count_direct(
    sc: Scope,
    c: ConstOperand,
    args: Seq<Operand>,
    span: Span,
    block: int,
    p: Purpose,
)
    requires
        p == Purpose::Recursion || p == Purpose::Postcondition,
    ensures
        count(
            callee_findings(sc, c, span) + recursion_findings(sc, c, span) + precondition_findings(
                sc,
                c,
                args,
                span,
                block,
            ),
            p,
        ) == (if p == Purpose::Recursion && c.def_id == Some(sc.body.def_id) {
            1nat
        } else {
            0nat
        }),
{
    let x = callee_findings(sc, c, span);
    let y = recursion_findings(sc, c, span);
    let z = precondition_findings(sc, c, args, span, block);
    lemma_count_concat(x + y, z, p);
    lemma_count_concat(x, y, p);
    lemma_count_callee(sc, c, span, p);
    lemma_count_precondition(sc, c, args, span, block, p);
    if y.len() > 0 {
        lemma_count_one(y[0], p);
        assert(y =~= seq![y[0]]);
    } else {
        lemma_count_none(y, p);
    }
}

proof fn lemma_count_call(
    sc: Scope,
    func: Operand,
    args: Seq<Operand>,
    destination: Place,
    span: Span,
    block: int,
    p: Purpose,
)
    requires
        p == Purpose::Recursion || p == Purpose::Postcondition,
    ensures
        count(call_findings(sc, func, args, destination, span, block), p) == (match func {
            Operand::Constant(c) => if p == Purpose::Recursion && c.def_id == Some(
                sc.body.def_id,
            ) {
                1nat
            } else {
                0nat
            },
            _ => 0nat,
        }),
{
    let all = call_findings(sc, func, args, destination, span, block);
    let dest = place_findings(sc, destination, span);
    let ops = operands_findings(sc, args, span);
    let head = all.take(all.len() - dest.len() - ops.len());
    assert(all =~= head + ops + dest);
    lemma_count_concat(head + ops, dest, p);
    lemma_count_concat(head, ops, p);
    lemma_count_operands(sc, args, span, p);
    lemma_count_place(sc, destination, span, p);
    match func {
        Operand::Constant(c) => {
            assert(head =~= callee_findings(sc, c, span) + recursion_findings(sc, c, span)
                + precondition_findings(sc, c, args, span, block));
            lemma_count_direct(sc, c, args, span, block, p);
        },
        Operand::Copy(place) => {
            assert(head =~= place_findings(sc, place, span) + seq![
                crate::walk::indirect_call(span),
            ]);
            lemma_count_indirect(sc, place, head, span);
        },
        Operand::Move(place) => {
            assert(head =~= place_findings(sc, place, span) + seq![
                crate::walk::indirect_call(span),
            ]);
            lemma_count_indirect(sc, place, head, span);
        },
    }
}

proof fn lemma_count_indirect(sc: Scope, place: Place, head: Seq<Finding>, span: Span)
    requires
        head == place_findings(sc, place, span) + seq![crate::walk::indirect_call(span)],
    ensures
        count(head, Purpose::Recursion) == 0,
        count(head, Purpose::Postcondition) == 0,
{
    let a = place_findings(sc, place, span);
    let f = crate::walk::indirect_call(span);
    lemma_count_concat(a, seq![f], Purpose::Recursion);
    lemma_count_concat(a, seq![f], Purpose::Postcondition);
    lemma_count_place(sc, place, span, Purpose::Recursion);
    lemma_count_place(sc, place, span, Purpose::Postcondition);
    lemma_count_one(f, Purpose::Recursion);
    lemma_count_one(f, Purpose::Postcondition);
}

/// How many of the first `n` blocks end in a direct call of the body.
pub open spec fn self_calls(body: Body, n: nat) -> nat
    decreases n,
{
    if n == 0 || n > body.blocks@.len() {
        0
    } else {
        self_calls(body, (n - 1) as nat) + if self_call(
            body,
            body.blocks@[n - 1].terminator.kind,
        ) {
            1nat
        } else {
            0nat
        }
    }
}

/// How many of the first `n` blocks return.
pub open spec fn return_points(body: Body, n: nat) -> nat
    decreases n,
{
    if n == 0 || n > body.blocks@.len() {
        0
    } else {
        return_points(body, (n - 1) as nat) + if body.blocks@[n - 1].terminator.kind is Return {
            1nat
        } else {
            0nat
        }
    }
}

proof fn lemma_count_blocks(sc: Scope, n: nat)
    requires
        n <= sc.body.blocks@.len(),
    ensures
        count(blocks_findings(sc, n), Purpose::Recursion) == self_calls(sc.body, n),
        count(blocks_findings(sc, n), Purpose::Postcondition) == (if
        sc.settings.postconditions.len() > 0 {
            return_points(sc.body, n)
        } else {
            0nat
        }),
    decreases n,
{
    let r = Purpose::Recursion;
    let e = Purpose::Postcondition;
    if n > 0 {
        lemma_count_blocks(sc, (n - 1) as nat);
        let before = blocks_findings(sc, (n - 1) as nat);
        let stmts = statements_findings(sc, sc.body.blocks@[n - 1].statements@);
        let term = terminator_findings(sc, sc.body.blocks@[n - 1].terminator, n - 1);
        lemma_count_concat(before + stmts, term, r);
        lemma_count_concat(before, stmts, r);
        lemma_count_concat(before + stmts, term, e);
        lemma_count_concat(before, stmts, e);
        lemma_count_statements(sc, sc.body.blocks@[n - 1].statements@, r);
        lemma_count_statements(sc, sc.body.blocks@[n - 1].statements@, e);
        lemma_count_terminator(sc, sc.body.blocks@[n - 1].terminator, n - 1);
    }
}

proof fn lemma_count_locals(sc: Scope, locals: Seq<LocalDecl>, p: Purpose)
    ensures
        count(locals_findings(sc, locals), p) == 0,
    decreases locals.len(),
{
    if locals.len() > 0 {
        lemma_count_locals(sc, locals.drop_last(), p);
        let last = local_findings(sc, locals.last());
        lemma_count_concat(locals_findings(sc, locals.drop_last()), last, p);
        let ty = ty_findings(locals.last().ty, locals.last().span);
        let size = last.skip(ty.len() as int);
        assert(last =~= ty + size);
        lemma_count_concat(ty, size, p);
        lemma_count_ty(locals.last().ty, locals.last().span, p);
        lemma_count_none(size, p);
    }
}

/// Signatures leave no obligations.
proof fn lemma_count_signature(sc: Scope, p: Purpose)
    ensures
        count(signature_findings(sc), p) == 0,
{
    let body = sc.body;
    let all = signature_findings(sc);
    let locals = locals_findings(sc, body.locals@);
    let ret = ty_findings(body.return_ty, body.span);
    let args = tys_findings(body.arg_tys, body.arg_tys@.len(), body.span);
    let flags = all.take(all.len() - locals.len() - ret.len() - args.len());
    assert(all =~= flags + args + ret + locals);
    lemma_count_concat(flags + args + ret, locals, p);
    lemma_count_concat(flags + args, ret, p);
    lemma_count_concat(flags, args, p);
    lemma_count_none(flags, p);
    lemma_count_tys(body.arg_tys, body.arg_tys@.len(), body.span, p);
    lemma_count_ty(body.return_ty, body.span, p);
    lemma_count_locals(sc, body.locals@, p);
}

proof fn lemma_no_return_points(body: Body, n: nat)
    requires
        n <= body.blocks@.len(),
        !returns_somewhere(body.blocks@),
    ensures
        return_points(body, n) == 0,
    decreases n,
{
    if n > 0 {
        lemma_no_return_points(body, (n - 1) as nat);
        assert(!(body.blocks@[n - 1].terminator.kind is Return));
    }
}

proof fn lemma_some_return_point(body: Body, n: nat, b: int)
    requires
        0 <= b < n <= body.blocks@.len(),
        body.blocks@[b].terminator.kind is Return,
    ensures
        return_points(body, n) > 0,
    decreases n,
{
    if b < n - 1 {
        lemma_some_return_point(body, (n - 1) as nat, b);
    }
}

/// A trusted body leaves no obligation for any purpose.
pub proof fn law_trusted_bodies_leave_no_obligations(sc: Scope, p: Purpose)
    ensures
        count(body_findings(sc, true), p) == 0,
{
    let all = body_findings(sc, true);
    let head = signature_findings(sc);
    let tail = all.skip(head.len() as int);
    assert(all =~= head + tail);
    lemma_count_concat(head, tail, p);
    lemma_count_signature(sc, p);
    lemma_count_none(tail, p);
}

/// Each direct call of a body by itself leaves one obligation that the recursion ends, and nothing
/// else does.
pub proof fn law_one_obligation_per_self_call(sc: Scope)
    ensures
        count(body_findings(sc, false), Purpose::Recursion) == self_calls(
            sc.body,
            sc.body.blocks@.len(),
        ),
{
    let p = Purpose::Recursion;
    let all = body_findings(sc, false);
    let head = signature_findings(sc);
    let blocks = blocks_findings(sc, sc.body.blocks@.len());
    let tail = all.skip((head + blocks).len() as int);
    assert(all =~= head + blocks + tail);
    lemma_count_concat(head + blocks, tail, p);
    lemma_count_concat(head, blocks, p);
    lemma_count_signature(sc, p);
    lemma_count_blocks(sc, sc.body.blocks@.len());
    assert(forall|i: int| 0 <= i < tail.len() ==> !serves(#[trigger] tail[i], p));
    lemma_count_none(tail, p);
}

/// Postconditions are never dropped: an untrusted body that has any leaves one obligation for them
/// per return, and one if it never returns. A body that has none leaves none.
pub proof fn law_one_obligation_per_return(sc: Scope)
    ensures
        count(body_findings(sc, false), Purpose::Postcondition) == (if
        sc.settings.postconditions.len() == 0 {
            0nat
        } else if returns_somewhere(sc.body.blocks@) {
            return_points(sc.body, sc.body.blocks@.len())
        } else {
            1nat
        }),
        sc.settings.postconditions.len() > 0 ==> count(
            body_findings(sc, false),
            Purpose::Postcondition,
        ) > 0,
{
    let p = Purpose::Postcondition;
    let n = sc.body.blocks@.len();
    let all = body_findings(sc, false);
    let head = signature_findings(sc);
    let blocks = blocks_findings(sc, n);
    let tail = all.skip((head + blocks).len() as int);
    assert(all =~= head + blocks + tail);
    lemma_count_concat(head + blocks, tail, p);
    lemma_count_concat(head, blocks, p);
    lemma_count_signature(sc, p);
    lemma_count_blocks(sc, n);
    if sc.settings.postconditions.len() > 0 && !returns_somewhere(sc.body.blocks@) {
        lemma_no_return_points(sc.body, n);
        let last = tail.last();
        let main = tail[tail.len() - 2];
        let lead = tail.take(tail.len() - 2);
        assert(tail =~= lead + seq![main] + seq![last]);
        lemma_count_concat(lead + seq![main], seq![last], p);
        lemma_count_concat(lead, seq![main], p);
        lemma_count_one(last, p);
        lemma_count_one(main, p);
        lemma_count_none(lead, p);
    } else {
        lemma_count_none(tail, p);
        if sc.settings.postconditions.len() > 0 {
            let b = choose|b: int|
                0 <= b < sc.body.blocks@.len() && (
                #[trigger] sc.body.blocks@[b]).terminator.kind is Return;
            lemma_some_return_point(sc.body, n, b);
        }
    }
}

// ---------------------------------------------------------------------------
// Indexes and arithmetic.
// ---------------------------------------------------------------------------

/// How many of the steps `elems` can be out of bounds.
pub open spec fn index_steps(elems: Seq<ProjectionElem>) -> nat
    decreases elems.len(),
{
    if elems.len() == 0 {
        0
    } else {
        index_steps(elems.drop_last()) + if indexes(elems.last()) {
            1nat
        } else {
            0nat
        }
    }
}

proof fn lemma_count_index_steps(sc: Scope, elems: Seq<ProjectionElem>, span: Span)
    ensures
        count(projections_findings(sc, elems, span), Purpose::Index) == index_steps(elems),
    decreases elems.len(),
{
    let p = Purpose::Index;
    if elems.len() > 0 {
        lemma_count_index_steps(sc, elems.drop_last(), span);
        let last = projection_findings(sc, elems.last(), span);
        lemma_count_concat(projections_findings(sc, elems.drop_last(), span), last, p);
        match elems.last() {
            ProjectionElem::Index(local) => lemma_count_index(
                sc,
                crate::locals::arg_name(sc.body, local.0 as int),
                span,
                p,
            ),
            ProjectionElem::ConstantIndex { .. } => lemma_count_index(sc, None, span, p),
            ProjectionElem::Subslice { .. } => lemma_count_index(sc, None, span, p),
            ProjectionElem::OpaqueCast(ty) => lemma_count_ty(ty, span, p),
            ProjectionElem::Subtype(ty) => lemma_count_ty(ty, span, p),
            _ => lemma_count_none(last, p),
        }
    } else {
        lemma_count_none(projections_findings(sc, elems, span), p);
    }
}

/// Each step of a place that can be out of bounds leaves one obligation that it is not.
pub proof fn law_one_obligation_per_index(sc: Scope, place: Place, span: Span)
    ensures
        count(place_findings(sc, place, span), Purpose::Index) == index_steps(place.projection@),
{
    let all = place_findings(sc, place, span);
    let steps = projections_findings(sc, place.projection@, span);
    let cap = all.take(all.len() - steps.len());
    assert(all =~= cap + steps);
    lemma_count_concat(cap, steps, Purpose::Index);
    lemma_count_index_steps(sc, place.projection@, span);
    lemma_count_none(cap, Purpose::Index);
}

/// Arithmetic that can fail is never passed over: it leaves one obligation, at the type of its left
/// operand, or one coverage gap where the types are not known or do not agree. Other operations
/// leave nothing.
pub proof fn law_arithmetic_is_never_silent(
    sc: Scope,
    binop: crate::mir_api::BinOp,
    lhs: Operand,
    rhs: Operand,
    span: Span,
)
    ensures
        ({
            let fs = overflow_findings(sc, binop, lhs, rhs, span);
            match arith_op(binop) {
                None => fs.len() == 0,
                Some(op) => fs.len() > 0 && (match fs[0] {
                    Finding::Obligation { kind, .. } => kind == (KindView::ArithmeticOverflow {
                        op,
                        ty_name: operand_int_name(sc.body, lhs)->0,
                    }) && operand_int_name(sc.body, lhs) is Some && operand_int_name(sc.body, rhs)
                        is Some,
                    Finding::Note { kind, .. } => kind == AuditNoteKind::CoverageGap && fs.len()
                        == 1,
                    Finding::Violation { .. } => false,
                }) && forall|i: int| 1 <= i < fs.len() ==> !weighs(#[trigger] fs[i]),
            }
        }),
{
}

/// The amount of a mixed-width shift is a hypothesis only where its value is kept at the width of
/// the shifted value: one that does not fit is left open, and so cannot hide a shift that is too
/// far.
pub proof fn law_unfit_amounts_are_left_open(lhs: Operand, rhs: Operand, ty: Seq<char>)
    requires
        constant_value(rhs) is Some,
        !fits(constant_value(rhs)->0 as int, ty),
    ensures
        operand_pins(lhs, rhs, ty, true) == constant_pin("lhs", lhs, ty),
{
    assert(operand_pins(lhs, rhs, ty, true) =~= constant_pin("lhs", lhs, ty));
}

} // verus!
