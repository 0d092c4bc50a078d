//! What holds of visits with different knowledge of callees.
use vstd::prelude::*;
use crate::callsite::callee;
use crate::findings::gap;
use crate::messages::{CALL_UNPROVEN_HEAD, CALL_UNPROVEN_TAIL};
use crate::mir_api::{
    ConstOperand, LocalDecl, NonDivergingIntrinsic, Operand, Place, ProjectionElem, Rvalue, Span,
    Statement, StatementKind, Terminator, TerminatorKind,
};
use crate::text::listed;
use crate::walk::{
    blocks_findings, body_findings, call_findings, locals_findings, operand_findings,
    operands_findings, place_findings, precondition_findings, projections_findings, rvalue_findings,
    statement_findings, statements_findings, terminator_findings, Scope, Settings,
};

verus! {

/// Whether two visits are of one body under the same settings but for what is known of callees, and
/// know the same of every callee that is listed as having preconditions.
pub open spec fn alike(a: Scope, b: Scope) -> bool {
    &&& a.body == b.body
    &&& a.settings == (Settings { callee_specs: a.settings.callee_specs, ..b.settings })
    &&& forall|p: Seq<char>| #[trigger]
        listed(a.settings.precondition_fns, p) ==> callee(a.settings.callee_specs, p) == callee(
            b.settings.callee_specs,
            p,
        )
}

proof fn lemma_projections_alike(a: Scope, b: Scope, elems: Seq<ProjectionElem>, span: Span)
    requires
        alike(a, b),
    ensures
        projections_findings(a, elems, span) == projections_findings(b, elems, span),
    decreases elems.len(),
{
    if elems.len() > 0 {
        lemma_projections_alike(a, b, elems.drop_last(), span);
    }
}

proof fn lemma_place_alike(a: Scope, b: Scope, place: Place, span: Span)
    requires
        alike(a, b),
    ensures
        place_findings(a, place, span) == place_findings(b, place, span),
{
    lemma_projections_alike(a, b, place.projection@, span);
}

proof fn lemma_operand_alike(a: Scope, b: Scope, op: Operand, span: Span)
    requires
        alike(a, b),
    ensures
        operand_findings(a, op, span) == operand_findings(b, op, span),
{
    match op {
        Operand::Copy(place) => lemma_place_alike(a, b, place, span),
        Operand::Move(place) => lemma_place_alike(a, b, place, span),
        Operand::Constant(_) => {},
    }
}

proof fn lemma_operands_alike(a: Scope, b: Scope, ops: Seq<Operand>, span: Span)
    requires
        alike(a, b),
    ensures
        operands_findings(a, ops, span) == operands_findings(b, ops, span),
    decreases ops.len(),
{
    if ops.len() > 0 {
        lemma_operands_alike(a, b, ops.drop_last(), span);
        lemma_operand_alike(a, b, ops.last(), span);
    }
}

proof fn lemma_rvalue_alike(a: Scope, b: Scope, rvalue: Rvalue, span: Span)
    requires
        alike(a, b),
    ensures
        rvalue_findings(a, rvalue, span) == rvalue_findings(b, rvalue, span),
{
    match rvalue {
        Rvalue::Use(op) => lemma_operand_alike(a, b, op, span),
        Rvalue::Repeat(op, _) => lemma_operand_alike(a, b, op, span),
        Rvalue::Ref(_, place) => lemma_place_alike(a, b, place, span),
        Rvalue::ThreadLocalRef(_) => {},
        Rvalue::RawPtr(_, place) => lemma_place_alike(a, b, place, span),
        Rvalue::Len(place) => lemma_place_alike(a, b, place, span),
        Rvalue::Cast(_, op, _) => lemma_operand_alike(a, b, op, span),
        Rvalue::BinaryOp(_, lhs, rhs) => {
            lemma_operand_alike(a, b, lhs, span);
            lemma_operand_alike(a, b, rhs, span);
        },
        Rvalue::NullaryOp(_, _) => {},
        Rvalue::UnaryOp(_, op) => lemma_operand_alike(a, b, op, span),
        Rvalue::Discriminant(place) => lemma_place_alike(a, b, place, span),
        Rvalue::Aggregate(_, ops) => lemma_operands_alike(a, b, ops@, span),
        Rvalue::ShallowInitBox(op, _) => lemma_operand_alike(a, b, op, span),
        Rvalue::CopyForDeref(place) => lemma_place_alike(a, b, place, span),
        Rvalue::WrapUnsafeBinder(op, _) => lemma_operand_alike(a, b, op, span),
    }
}

proof fn lemma_statement_alike(a: Scope, b: Scope, stmt: Statement)
    requires
        alike(a, b),
    ensures
        statement_findings(a, stmt) == statement_findings(b, stmt),
{
    match stmt.kind {
        StatementKind::Assign(place, rvalue) => {
            lemma_place_alike(a, b, place, stmt.span);
            lemma_rvalue_alike(a, b, rvalue, stmt.span);
        },
        StatementKind::FakeRead(place) => lemma_place_alike(a, b, place, stmt.span),
        StatementKind::SetDiscriminant { place, .. } => lemma_place_alike(a, b, place, stmt.span),
        StatementKind::Deinit(place) => lemma_place_alike(a, b, place, stmt.span),
        StatementKind::Retag(_, place) => lemma_place_alike(a, b, place, stmt.span),
        StatementKind::PlaceMention(place) => lemma_place_alike(a, b, place, stmt.span),
        StatementKind::AscribeUserType(place) => lemma_place_alike(a, b, place, stmt.span),
        StatementKind::Intrinsic(NonDivergingIntrinsic::Assume(op)) => lemma_operand_alike(
            a,
            b,
            op,
            stmt.span,
        ),
        _ => {},
    }
}

proof fn lemma_statements_alike(a: Scope, b: Scope, stmts: Seq<Statement>)
    requires
        alike(a, b),
    ensures
        statements_findings(a, stmts) == statements_findings(b, stmts),
    decreases stmts.len(),
{
    if stmts.len() > 0 {
        lemma_statements_alike(a, b, stmts.drop_last());
        lemma_statement_alike(a, b, stmts.last());
    }
}

proof fn lemma_call_alike(
    a: Scope,
    b: Scope,
    func: Operand,
    args: Seq<Operand>,
    destination: Place,
    span: Span,
    block: int,
)
    requires
        alike(a, b),
    ensures
        call_findings(a, func, args, destination, span, block) == call_findings(
            b,
            func,
            args,
            destination,
            span,
            block,
        ),
{
    lemma_operands_alike(a, b, args, span);
    lemma_place_alike(a, b, destination, span);
    match func {
        Operand::Constant(c) => {
            if let Some(p) = c.path {
                if listed(a.settings.precondition_fns, p@) {
                    assert(callee(a.settings.callee_specs, p@) == callee(
                        b.settings.callee_specs,
                        p@,
                    ));
                }
            }
        },
        Operand::Copy(place) => lemma_place_alike(a, b, place, span),
        Operand::Move(place) => lemma_place_alike(a, b, place, span),
    }
}

proof fn lemma_terminator_alike(a: Scope, b: Scope, term: Terminator, block: int)
    requires
        alike(a, b),
    ensures
        terminator_findings(a, term, block) == terminator_findings(b, term, block),
{
    match term.kind {
        TerminatorKind::SwitchInt { discr, .. } => lemma_operand_alike(a, b, discr, term.span),
        TerminatorKind::Drop { place, .. } => lemma_place_alike(a, b, place, term.span),
        TerminatorKind::Call { func, args, destination, .. } => lemma_call_alike(
            a,
            b,
            func,
            args@,
            destination,
            term.span,
            block,
        ),
        _ => {},
    }
}

proof fn lemma_blocks_alike(a: Scope, b: Scope, n: nat)
    requires
        alike(a, b),
    ensures
        blocks_findings(a, n) == blocks_findings(b, n),
    decreases n,
{
    if n > 0 && n <= a.body.blocks@.len() {
        lemma_blocks_alike(a, b, (n - 1) as nat);
        lemma_statements_alike(a, b, a.body.blocks@[n - 1].statements@);
        lemma_terminator_alike(a, b, a.body.blocks@[n - 1].terminator, n - 1);
    }
}

proof fn lemma_locals_alike(a: Scope, b: Scope, locals: Seq<LocalDecl>)
    requires
        alike(a, b),
    ensures
        locals_findings(a, locals) == locals_findings(b, locals),
    decreases locals.len(),
{
    if locals.len() > 0 {
        lemma_locals_alike(a, b, locals.drop_last());
    }
}

/// What is known of a callee that is not listed as having preconditions is never consulted: two
/// visits of one body that differ in what is known of callees, but not of any that is listed, find
/// the same.
pub proof fn law_unlisted_specs_are_never_consulted(a: Scope, b: Scope, trusted: bool)
    requires
        alike(a, b),
    ensures
        body_findings(a, trusted) == body_findings(b, trusted),
{
    lemma_locals_alike(a, b, a.body.locals@);
    lemma_blocks_alike(a, b, a.body.blocks@.len());
}

/// A call of a listed callee of which nothing is known is a coverage gap, and nothing else.
pub proof fn law_unknown_callees_stay_gaps(
    sc: Scope,
    c: ConstOperand,
    args: Seq<Operand>,
    span: Span,
    block: int,
)
    requires
        c.path is Some,
        listed(sc.settings.precondition_fns, c.path->0@),
        callee(sc.settings.callee_specs, c.path->0@) is None,
    ensures
        precondition_findings(sc, c, args, span, block) == seq![
            gap(span, CALL_UNPROVEN_HEAD@ + c.path->0@ + CALL_UNPROVEN_TAIL@),
        ],
{
}

} // verus!
