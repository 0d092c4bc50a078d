//! Constructs one by one: each forbidden one breaks its rule whatever stands in it, and what a
//! construct is made of is looked at wherever it stands.
use vstd::prelude::*;
use crate::callsite::{callee, CalleeSpec};
use crate::findings::Finding;
use crate::mir_api::{
    AggregateKind, BinOp, CastKind, Operand, Place, RigidTy, Rvalue, Span, Statement, StatementKind,
    Terminator, TerminatorKind, Ty, TyKind, UnOp,
};
use crate::rules;
use crate::rules::RuleId;
use crate::types::ty_findings;
use crate::walk::{
    call_findings, callee_findings, negation_findings, operand_findings, operands_findings,
    overflow_findings, place_findings, rvalue_findings, signature_findings, statement_findings,
    static_findings, terminator_findings, Scope,
};

verus! {

/// Whether one of `fs` is a violation of `rule`.
pub open spec fn refused_by(fs: Seq<Finding>, rule: RuleId) -> bool {
    exists|i: int|
        0 <= i < fs.len() && (#[trigger] fs[i] matches Finding::Violation { rule: found, .. }
            && found == rule)
}

/// Whether every one of `part` is among `whole`.
pub open spec fn counted(part: Seq<Finding>, whole: Seq<Finding>) -> bool {
    forall|i: int| 0 <= i < part.len() ==> whole.contains(#[trigger] part[i])
}

proof fn lemma_last_refuses(fs: Seq<Finding>, rule: RuleId)
    requires
        fs.len() > 0,
        fs.last() matches Finding::Violation { rule: found, .. } && found == rule,
    ensures
        refused_by(fs, rule),
{
    assert(fs[fs.len() - 1] == fs.last());
}

proof fn lemma_counted_in(part: Seq<Finding>, a: Seq<Finding>, b: Seq<Finding>)
    requires
        counted(part, a) || counted(part, b),
    ensures
        counted(part, a + b),
{
    assert forall|i: int| 0 <= i < part.len() implies (a + b).contains(#[trigger] part[i]) by {
        if a.contains(part[i]) {
            let k = choose|k: int| 0 <= k < a.len() && a[k] == part[i];
            assert((a + b)[k] == part[i]);
        } else {
            assert(b.contains(part[i]));
            let k = choose|k: int| 0 <= k < b.len() && b[k] == part[i];
            assert((a + b)[a.len() + k] == part[i]);
        }
    }
}

proof fn lemma_counted_self(a: Seq<Finding>)
    ensures
        counted(a, a),
{
}

/// The three parts of a concatenation are counted.
proof fn lemma_counted_three(a: Seq<Finding>, b: Seq<Finding>, c: Seq<Finding>)
    ensures
        counted(a, a + b + c),
        counted(b, a + b + c),
        counted(c, a + b + c),
{
    lemma_counted_self(a);
    lemma_counted_self(b);
    lemma_counted_self(c);
    lemma_counted_in(a, a, b);
    lemma_counted_in(b, a, b);
    lemma_counted_in(a, a + b, c);
    lemma_counted_in(b, a + b, c);
    lemma_counted_in(c, a + b, c);
}

/// The four parts of a concatenation are counted.
proof fn lemma_counted_four(a: Seq<Finding>, b: Seq<Finding>, c: Seq<Finding>, d: Seq<Finding>)
    ensures
        counted(a, a + b + c + d),
        counted(b, a + b + c + d),
        counted(c, a + b + c + d),
        counted(d, a + b + c + d),
{
    lemma_counted_three(a, b, c);
    lemma_counted_self(d);
    lemma_counted_in(a, a + b + c, d);
    lemma_counted_in(b, a + b + c, d);
    lemma_counted_in(c, a + b + c, d);
    lemma_counted_in(d, a + b + c, d);
}

/// The two parts of a concatenation are counted.
proof fn lemma_counted_two(a: Seq<Finding>, b: Seq<Finding>)
    ensures
        counted(a, a + b),
        counted(b, a + b),
{
    lemma_counted_self(a);
    lemma_counted_self(b);
    lemma_counted_in(a, a, b);
    lemma_counted_in(b, a, b);
}

proof fn lemma_counted_operands(sc: Scope, ops: Seq<Operand>, span: Span, k: int)
    requires
        0 <= k < ops.len(),
    ensures
        counted(operand_findings(sc, ops[k], span), operands_findings(sc, ops, span)),
    decreases ops.len(),
{
    let short = ops.drop_last();
    let a = operands_findings(sc, short, span);
    let b = operand_findings(sc, ops.last(), span);
    lemma_counted_two(a, b);
    if k < short.len() {
        lemma_counted_operands(sc, short, span, k);
        assert(short[k] == ops[k]);
        lemma_counted_in(operand_findings(sc, ops[k], span), a, b);
    }
}

// ---------------------------------------------------------------------------
// What stands in a construct.
// ---------------------------------------------------------------------------

/// Whether an rvalue reads the operand `op`.
pub open spec fn reads(rvalue: Rvalue, op: Operand) -> bool {
    match rvalue {
        Rvalue::Use(a) => op == a,
        Rvalue::Repeat(a, _) => op == a,
        Rvalue::Cast(_, a, _) => op == a,
        Rvalue::BinaryOp(_, a, b) => op == a || op == b,
        Rvalue::UnaryOp(_, a) => op == a,
        Rvalue::Aggregate(_, ops) => exists|k: int| 0 <= k < ops@.len() && op == #[trigger] ops@[k],
        Rvalue::ShallowInitBox(a, _) => op == a,
        Rvalue::WrapUnsafeBinder(a, _) => op == a,
        _ => false,
    }
}

/// Whether an rvalue looks at the place `p`.
pub open spec fn looks_at(rvalue: Rvalue, p: Place) -> bool {
    match rvalue {
        Rvalue::Ref(_, q) => p == q,
        Rvalue::RawPtr(_, q) => p == q,
        Rvalue::Len(q) => p == q,
        Rvalue::Discriminant(q) => p == q,
        Rvalue::CopyForDeref(q) => p == q,
        _ => false,
    }
}

/// Whether an rvalue names the type `ty`.
pub open spec fn names_type(rvalue: Rvalue, ty: Ty) -> bool {
    match rvalue {
        Rvalue::Cast(_, _, t) => ty == t,
        Rvalue::NullaryOp(_, t) => ty == t,
        Rvalue::Aggregate(kind, _) => kind matches AggregateKind::Array(t) && ty == t,
        Rvalue::ShallowInitBox(_, t) => ty == t,
        Rvalue::WrapUnsafeBinder(_, t) => ty == t,
        _ => false,
    }
}

/// What an rvalue reads, looks at and names is looked at: each finding of it is one of the rvalue.
pub proof fn law_parts_of_rvalues_count(
    sc: Scope,
    rvalue: Rvalue,
    span: Span,
    op: Operand,
    p: Place,
    ty: Ty,
)
    ensures
        reads(rvalue, op) ==> counted(
            operand_findings(sc, op, span),
            rvalue_findings(sc, rvalue, span),
        ),
        looks_at(rvalue, p) ==> counted(
            place_findings(sc, p, span),
            rvalue_findings(sc, rvalue, span),
        ),
        names_type(rvalue, ty) ==> counted(
            ty_findings(ty, span),
            rvalue_findings(sc, rvalue, span),
        ),
{
    match rvalue {
        Rvalue::RawPtr(_, q) => {
            let a = place_findings(sc, q, span);
            lemma_counted_two(
                a,
                seq![
                    crate::findings::violation(
                        rules::PB004,
                        span,
                        "raw pointer (`&raw const` / `&raw mut`)"@,
                    ),
                ],
            );
        },
        Rvalue::Cast(kind, a, t) => {
            lemma_counted_three(
                operand_findings(sc, a, span),
                ty_findings(t, span),
                crate::walk::cast_findings(kind, a, t, span),
            );
        },
        Rvalue::BinaryOp(binop, a, b) => {
            let middle = if binop == BinOp::Offset {
                seq![crate::findings::violation(rules::PB004, span, "pointer offset operation"@)]
            } else {
                seq![]
            };
            lemma_counted_four(
                operand_findings(sc, a, span),
                operand_findings(sc, b, span),
                middle,
                overflow_findings(sc, binop, a, b, span),
            );
        },
        Rvalue::UnaryOp(unop, a) => {
            lemma_counted_two(
                operand_findings(sc, a, span),
                if unop == UnOp::Neg {
                    negation_findings(sc, a, span)
                } else {
                    seq![]
                },
            );
        },
        Rvalue::Aggregate(kind, ops) => {
            let all = operands_findings(sc, ops@, span);
            let own = crate::walk::aggregate_findings(kind, span);
            lemma_counted_two(all, own);
            if reads(rvalue, op) {
                let k = choose|k: int| 0 <= k < ops@.len() && op == #[trigger] ops@[k];
                lemma_counted_operands(sc, ops@, span, k);
                lemma_counted_in(operand_findings(sc, op, span), all, own);
            }
        },
        Rvalue::ShallowInitBox(a, t) => {
            lemma_counted_three(
                operand_findings(sc, a, span),
                ty_findings(t, span),
                seq![crate::findings::violation(rules::PB013, span, "`Rvalue::ShallowInitBox`"@)],
            );
        },
        Rvalue::WrapUnsafeBinder(a, t) => {
            lemma_counted_three(
                operand_findings(sc, a, span),
                ty_findings(t, span),
                seq![
                    crate::findings::violation(
                        rules::PB001,
                        span,
                        "`Rvalue::WrapUnsafeBinder` implies `unsafe<>` binder"@,
                    ),
                ],
            );
        },
        _ => {},
    }
}

/// What an operation can fail with is looked at: each finding on overflow is one of the rvalue.
pub proof fn law_failing_operations_count(
    sc: Scope,
    binop: BinOp,
    a: Operand,
    b: Operand,
    span: Span,
)
    ensures
        counted(
            overflow_findings(sc, binop, a, b, span),
            rvalue_findings(sc, Rvalue::BinaryOp(binop, a, b), span),
        ),
        counted(
            negation_findings(sc, a, span),
            rvalue_findings(sc, Rvalue::UnaryOp(UnOp::Neg, a), span),
        ),
{
    let middle = if binop == BinOp::Offset {
        seq![crate::findings::violation(rules::PB004, span, "pointer offset operation"@)]
    } else {
        seq![]
    };
    lemma_counted_four(
        operand_findings(sc, a, span),
        operand_findings(sc, b, span),
        middle,
        overflow_findings(sc, binop, a, b, span),
    );
    lemma_counted_two(operand_findings(sc, a, span), negation_findings(sc, a, span));
}

/// What a call calls, passes and returns to is looked at.
pub proof fn law_parts_of_calls_count(
    sc: Scope,
    func: Operand,
    args: Seq<Operand>,
    destination: Place,
    span: Span,
    block: int,
    k: int,
)
    ensures
        ({
            let fs = call_findings(sc, func, args, destination, span, block);
            &&& func matches Operand::Constant(c) ==> counted(callee_findings(sc, c, span), fs)
            &&& func matches Operand::Copy(p) ==> counted(place_findings(sc, p, span), fs)
            &&& func matches Operand::Move(p) ==> counted(place_findings(sc, p, span), fs)
            &&& !(func is Constant) ==> refused_by(fs, rules::PB032)
            &&& 0 <= k < args.len() ==> counted(operand_findings(sc, args[k], span), fs)
            &&& counted(place_findings(sc, destination, span), fs)
        }),
{
    let fs = call_findings(sc, func, args, destination, span, block);
    let b = operands_findings(sc, args, span);
    let d = place_findings(sc, destination, span);
    let a = match func {
        Operand::Constant(c) => callee_findings(sc, c, span) + crate::walk::recursion_findings(
            sc,
            c,
            span,
        ) + crate::walk::precondition_findings(sc, c, args, span, block),
        Operand::Copy(p) => place_findings(sc, p, span) + seq![crate::walk::indirect_call(span)],
        Operand::Move(p) => place_findings(sc, p, span) + seq![crate::walk::indirect_call(span)],
    };
    lemma_counted_three(a, b, d);
    match func {
        Operand::Constant(c) => {
            let first = callee_findings(sc, c, span);
            lemma_counted_three(
                first,
                crate::walk::recursion_findings(sc, c, span),
                crate::walk::precondition_findings(sc, c, args, span, block),
            );
            lemma_counted_in(first, a, b);
            lemma_counted_in(first, a + b, d);
        },
        Operand::Copy(p) => {
            let first = place_findings(sc, p, span);
            lemma_counted_two(first, seq![crate::walk::indirect_call(span)]);
            lemma_counted_in(first, a, b);
            lemma_counted_in(first, a + b, d);
            assert(fs[first.len() as int] == crate::walk::indirect_call(span));
        },
        Operand::Move(p) => {
            let first = place_findings(sc, p, span);
            lemma_counted_two(first, seq![crate::walk::indirect_call(span)]);
            lemma_counted_in(first, a, b);
            lemma_counted_in(first, a + b, d);
            assert(fs[first.len() as int] == crate::walk::indirect_call(span));
        },
    }
    if 0 <= k < args.len() {
        lemma_counted_operands(sc, args, span, k);
        lemma_counted_in(operand_findings(sc, args[k], span), a, b);
        lemma_counted_in(operand_findings(sc, args[k], span), a + b, d);
    }
}

/// The place that a statement is about.
pub open spec fn place_in(kind: StatementKind) -> Option<Place> {
    match kind {
        StatementKind::Assign(place, _) => Some(place),
        StatementKind::FakeRead(place) => Some(place),
        StatementKind::SetDiscriminant { place, .. } => Some(place),
        StatementKind::Deinit(place) => Some(place),
        StatementKind::Retag(_, place) => Some(place),
        StatementKind::PlaceMention(place) => Some(place),
        StatementKind::AscribeUserType(place) => Some(place),
        _ => None,
    }
}

/// What a statement is about is looked at: its place, what it assigns, and what it assumes. Taking
/// the content of a place away, tagging it anew and copying through raw pointers break their rules.
pub proof fn law_parts_of_statements_count(sc: Scope, stmt: Statement)
    ensures
        ({
            let fs = statement_findings(sc, stmt);
            &&& place_in(stmt.kind) matches Some(p) ==> counted(
                place_findings(sc, p, stmt.span),
                fs,
            )
            &&& stmt.kind matches StatementKind::Assign(_, r) ==> counted(
                rvalue_findings(sc, r, stmt.span),
                fs,
            )
            &&& (stmt.kind matches StatementKind::Intrinsic(i) && i is Assume) ==> counted(
                operand_findings(sc, (stmt.kind->Intrinsic_0)->Assume_0, stmt.span),
                fs,
            )
            &&& stmt.kind is Deinit ==> refused_by(fs, rules::PB010)
            &&& stmt.kind is Retag ==> refused_by(fs, rules::PB009)
            &&& (stmt.kind matches StatementKind::Intrinsic(i) && i is CopyNonOverlapping)
                ==> refused_by(fs, rules::PB004)
        }),
{
    let fs = statement_findings(sc, stmt);
    match stmt.kind {
        StatementKind::Assign(place, r) => {
            lemma_counted_two(
                place_findings(sc, place, stmt.span),
                rvalue_findings(sc, r, stmt.span),
            );
        },
        StatementKind::Deinit(place) => {
            let a = place_findings(sc, place, stmt.span);
            lemma_counted_self(a);
            lemma_counted_in(a, a, seq![fs.last()]);
            assert(fs =~= a + seq![fs.last()]);
            lemma_last_refuses(fs, rules::PB010);
        },
        StatementKind::Retag(_, place) => {
            let a = place_findings(sc, place, stmt.span);
            lemma_counted_self(a);
            lemma_counted_in(a, a, seq![fs.last()]);
            assert(fs =~= a + seq![fs.last()]);
            lemma_last_refuses(fs, rules::PB009);
        },
        StatementKind::Intrinsic(i) => {
            if i is CopyNonOverlapping {
                lemma_last_refuses(fs, rules::PB004);
            }
        },
        _ => {},
    }
}

// ---------------------------------------------------------------------------
// What is forbidden.
// ---------------------------------------------------------------------------

/// The rule that an rvalue breaks by its kind alone.
pub open spec fn rvalue_rule(rvalue: Rvalue) -> Option<RuleId> {
    match rvalue {
        Rvalue::ThreadLocalRef(_) => Some(rules::PB019),
        Rvalue::RawPtr(_, _) => Some(rules::PB004),
        Rvalue::ShallowInitBox(_, _) => Some(rules::PB013),
        Rvalue::WrapUnsafeBinder(_, _) => Some(rules::PB001),
        Rvalue::Cast(kind, _, _) => match kind {
            CastKind::FloatToInt => Some(rules::PB050),
            CastKind::IntToFloat => Some(rules::PB050),
            CastKind::FloatToFloat => Some(rules::PB050),
            CastKind::PtrToInt => Some(rules::PB004),
            CastKind::IntToPtr => Some(rules::PB004),
            CastKind::PtrToPtr => Some(rules::PB004),
            CastKind::FnPtrToPtr => Some(rules::PB004),
            CastKind::Transmute => Some(rules::PB007),
            CastKind::IntToInt => None,
            CastKind::PointerCoercion => None,
        },
        Rvalue::Aggregate(kind, _) => match kind {
            AggregateKind::Closure(_) => Some(rules::PB033),
            AggregateKind::Coroutine(_) => Some(rules::PB027),
            AggregateKind::RawPtr => Some(rules::PB004),
            _ => None,
        },
        _ => None,
    }
}

/// A forbidden rvalue breaks its rule, whatever it is of.
pub proof fn law_forbidden_rvalues_are_refused(sc: Scope, rvalue: Rvalue, span: Span)
    ensures
        rvalue_rule(rvalue) matches Some(rule) ==> refused_by(
            rvalue_findings(sc, rvalue, span),
            rule,
        ),
{
    if let Some(rule) = rvalue_rule(rvalue) {
        lemma_last_refuses(rvalue_findings(sc, rvalue, span), rule);
    }
}

/// Pointer arithmetic is refused, whatever it is on.
pub proof fn law_pointer_offsets_are_refused(sc: Scope, a: Operand, b: Operand, span: Span)
    ensures
        refused_by(rvalue_findings(sc, Rvalue::BinaryOp(BinOp::Offset, a, b), span), rules::PB004),
{
    let fs = rvalue_findings(sc, Rvalue::BinaryOp(BinOp::Offset, a, b), span);
    let x = operand_findings(sc, a, span);
    let y = operand_findings(sc, b, span);
    assert(fs[(x.len() + y.len()) as int] matches Finding::Violation { rule, .. } && rule
        == rules::PB004);
}

/// The rule that a terminator breaks by its kind alone.
pub open spec fn terminator_rule(kind: TerminatorKind) -> Option<RuleId> {
    match kind {
        TerminatorKind::UnwindResume => Some(rules::PB048),
        TerminatorKind::UnwindTerminate => Some(rules::PB048),
        TerminatorKind::TailCall { .. } => Some(rules::PB045),
        TerminatorKind::Assert { msg, .. } => if msg is MisalignedPointerDereference {
            Some(rules::PB004)
        } else {
            None
        },
        TerminatorKind::Yield { .. } => Some(rules::PB027),
        TerminatorKind::CoroutineDrop => Some(rules::PB027),
        TerminatorKind::FalseEdge { .. } => Some(rules::PB046),
        TerminatorKind::FalseUnwind { .. } => Some(rules::PB046),
        TerminatorKind::InlineAsm { .. } => Some(rules::PB006),
        _ => None,
    }
}

/// A forbidden terminator breaks its rule, whatever stands in it. A switch has what it switches on
/// looked at, and a drop what it drops.
pub proof fn law_forbidden_terminators_are_refused(sc: Scope, term: Terminator, block: int)
    ensures
        ({
            let fs = terminator_findings(sc, term, block);
            &&& terminator_rule(term.kind) matches Some(rule) ==> refused_by(fs, rule)
            &&& term.kind matches TerminatorKind::SwitchInt { discr, .. } ==> counted(
                operand_findings(sc, discr, term.span),
                fs,
            )
            &&& term.kind matches TerminatorKind::Drop { place, .. } ==> counted(
                place_findings(sc, place, term.span),
                fs,
            )
        }),
{
    if let Some(rule) = terminator_rule(term.kind) {
        lemma_last_refuses(terminator_findings(sc, term, block), rule);
    }
}

/// The rule that a type breaks by its kind alone.
pub open spec fn type_rule(ty: Ty) -> Option<RuleId> {
    match ty.kind {
        TyKind::Param(_) => Some(rules::PB039),
        TyKind::Dynamic => Some(rules::PB031),
        TyKind::RigidTy(rigid) => match rigid {
            RigidTy::Float(_) => Some(rules::PB050),
            RigidTy::RawPtr(_, _) => Some(rules::PB004),
            RigidTy::FnPtr => Some(rules::PB032),
            RigidTy::Closure(_) => Some(rules::PB033),
            _ => None,
        },
    }
}

/// A forbidden type breaks its rule, whatever it is of; a scalar that is none of these breaks none.
pub proof fn law_forbidden_types_are_refused(ty: Ty, span: Span)
    ensures
        type_rule(ty) matches Some(rule) ==> refused_by(ty_findings(ty, span), rule),
        ty.kind matches TyKind::RigidTy(r) && (r is Bool || r is Char || r is Int || r is Uint || r
            is FnDef) ==> ty_findings(ty, span).len() == 0,
{
    if let Some(rule) = type_rule(ty) {
        lemma_last_refuses(ty_findings(ty, span), rule);
    }
}

/// A body that is declared unsafe or asynchronous is refused for it, and so is a mutable static.
pub proof fn law_forbidden_declarations_are_refused(sc: Scope, ty: Option<Ty>, span: Span)
    ensures
        sc.body.is_unsafe ==> refused_by(signature_findings(sc), rules::PB002),
        sc.body.is_async ==> refused_by(signature_findings(sc), rules::PB026),
        refused_by(static_findings(true, ty, span), rules::PB018),
{
    let fs = signature_findings(sc);
    if sc.body.is_unsafe {
        assert(fs[0] matches Finding::Violation { rule, .. } && rule == rules::PB002);
    }
    if sc.body.is_async {
        let k: int = if sc.body.is_unsafe {
            1
        } else {
            0
        };
        assert(fs[k] matches Finding::Violation { rule, .. } && rule == rules::PB026);
    }
    assert(static_findings(true, ty, span)[0] matches Finding::Violation { rule, .. } && rule
        == rules::PB018);
}

/// Of two entries for one callee the later one counts, and an entry does not touch other callees.
pub proof fn law_later_specs_replace_earlier_ones(
    specs: Seq<(String, CalleeSpec)>,
    path: String,
    spec: CalleeSpec,
    other: Seq<char>,
)
    ensures
        callee(specs.push((path, spec)), path@) == Some(spec),
        other != path@ ==> callee(specs.push((path, spec)), other) == callee(specs, other),
        callee(Seq::empty(), other) is None,
{
    assert(specs.push((path, spec)).drop_last() =~= specs);
}

} // verus!
