//! What a walk over a body finds, construct by construct.
use vstd::prelude::*;
use crate::callsite::{callee, callsite_problem, CallView, CalleeSpec, CallsiteView};
use crate::clauses::{judged_all, kept, refused, SiteView};
use crate::config::SubsetConfig;
use crate::findings::{gap, obligation, remark, remarks, violation, Finding};
use crate::locals::{arg_name, operand_arg, operand_int_name, primitive_int_name};
use crate::messages::{
    BINARY_DIFFER, BINARY_DIFFER_TAIL, BINARY_HEAD, BINARY_UNRESOLVED, CALLEE_UNKNOWN,
    CALL_UNPROVEN_HEAD, CALL_UNPROVEN_TAIL, CAST_ACCEPTED, CAST_FROM, CAST_REJECTED, CAST_TAIL,
    LIBRARY_CALL_HEAD, LIBRARY_CALL_TAIL, NEGATION_UNRESOLVED, NO_RETURN, TRUSTED_ENSURES,
};
use crate::mir_api::{
    AggregateKind, AssertMessage, BasicBlockData, BinOp, Body, CastKind, ConstOperand, LocalDecl,
    NonDivergingIntrinsic, Operand, Place, ProjectionElem, RetagKind, Rvalue, Span, Statement,
    StatementKind, Terminator, TerminatorKind, Ty, UnOp,
};
use crate::paths::{
    panic_call_path, panicking_call, stdlib_namespace_path, trusted_total_library_call,
};
use crate::postcondition::ensures_problem;
use crate::predicate::{fits, int_info, pin};
use crate::rules;
use crate::text::{begins, decimal, listed, signed_decimal};
use crate::types::{adt_findings, min_size, oversized, ty_findings, tys_findings};
use crate::vc::{op_name, ArithOp, KindView};

verus! {

/// The longest projection of a place that is accepted.
pub const MAX_PROJECTION_DEPTH: usize = 16;

/// What a walk depends on besides the body.
#[verifier::ext_equal]
pub struct Settings {
    pub config: SubsetConfig,
    /// The preconditions of the body.
    pub preconditions: Seq<String>,
    /// The postconditions of the body.
    pub postconditions: Seq<String>,
    /// The paths of the functions that have preconditions.
    pub precondition_fns: Seq<String>,
    /// What is known of callees.
    pub callee_specs: Seq<(String, CalleeSpec)>,
}

/// The body that is walked, and what the walk depends on besides.
pub struct Scope {
    pub settings: Settings,
    pub body: Body,
}

// ---------------------------------------------------------------------------
// Obligations with hypotheses.
// ---------------------------------------------------------------------------

/// An obligation at `site` with the hypotheses `given` and those of the body's preconditions that
/// apply there, and a remark for each that does not.
pub open spec fn site_findings(
    sc: Scope,
    site: SiteView,
    kind: KindView,
    given: Seq<Seq<char>>,
    span: Span,
) -> Seq<Finding> {
    let clauses = judged_all(site, sc.settings.preconditions);
    seq![obligation(span, kind, given + kept(clauses))] + remarks(span, refused(clauses))
}

/// The integer type with the width of `usize` on the target.
pub open spec fn index_ty(width: u16) -> Seq<char> {
    if width == 16 {
        "u16"@
    } else if width == 32 {
        "u32"@
    } else {
        "u64"@
    }
}

/// The finding of an index, which is the parameter `source` where it is one.
pub open spec fn index_findings(sc: Scope, source: Option<Seq<char>>, span: Span) -> Seq<Finding> {
    site_findings(
        sc,
        SiteView::Index { source, ty: index_ty(sc.settings.config.subset.target_pointer_width) },
        KindView::IndexBound { idx_source_name: source },
        seq![],
        span,
    )
}

/// The operation of the obligation that a binary operation leaves, if it can fail.
pub open spec fn arith_op(op: BinOp) -> Option<ArithOp> {
    match op {
        BinOp::Add => Some(ArithOp::Add),
        BinOp::Sub => Some(ArithOp::Sub),
        BinOp::Mul => Some(ArithOp::Mul),
        BinOp::Div => Some(ArithOp::Div),
        BinOp::Rem => Some(ArithOp::Rem),
        BinOp::Shl => Some(ArithOp::Shl),
        BinOp::Shr => Some(ArithOp::Shr),
        _ => None,
    }
}

/// Whether an operation is a shift.
pub open spec fn is_shift(op: ArithOp) -> bool {
    op == ArithOp::Shl || op == ArithOp::Shr
}

/// The value of a constant operand.
pub open spec fn constant_value(op: Operand) -> Option<i128> {
    match op {
        Operand::Constant(c) => c.value,
        _ => None,
    }
}

/// The hypothesis that a constant operand is its value.
pub open spec fn constant_pin(label: &str, op: Operand, ty: Seq<char>) -> Seq<Seq<char>> {
    match constant_value(op) {
        Some(v) => match pin(label@, v as int, ty) {
            Some(a) => seq![a],
            None => seq![],
        },
        None => seq![],
    }
}

/// Whether a shift amount of type `amount` can be modelled at the width of `value`: it is unsigned
/// and no wider.
pub open spec fn models_amount(amount: Seq<char>, value: Seq<char>) -> bool {
    match (int_info(amount), int_info(value)) {
        (Some((false, a)), Some((_, v))) => a <= v,
        _ => false,
    }
}

/// The hypotheses on the constant operands of a binary operation whose left operand has type `ty`.
/// The amount of a mixed-width shift is left open where its value does not fit that type.
pub open spec fn operand_pins(lhs: Operand, rhs: Operand, ty: Seq<char>, mixed: bool) -> Seq<
    Seq<char>,
> {
    constant_pin("lhs", lhs, ty) + (if mixed && constant_value(rhs) is Some && !fits(
        constant_value(rhs)->0 as int,
        ty,
    ) {
        seq![]
    } else {
        constant_pin("rhs", rhs, ty)
    })
}

/// The finding of a binary operation that can fail: an obligation at the type of its left operand,
/// or a gap where its types cannot be told or do not agree. The amount of a shift may have a type
/// of its own; a clause about it applies only where that type can be modelled.
pub open spec fn overflow_findings(
    sc: Scope,
    binop: BinOp,
    lhs: Operand,
    rhs: Operand,
    span: Span,
) -> Seq<Finding> {
    match arith_op(binop) {
        None => seq![],
        Some(op) => match (operand_int_name(sc.body, lhs), operand_int_name(sc.body, rhs)) {
            (Some(left), Some(right)) => if left != right && !is_shift(op) {
                seq![
                    gap(
                        span,
                        BINARY_HEAD@ + op_name(op) + BINARY_DIFFER@ + left + " vs "@ + right
                            + BINARY_DIFFER_TAIL@,
                    ),
                ]
            } else {
                let mixed = left != right;
                site_findings(
                    sc,
                    SiteView::Arithmetic {
                        lhs_arg: operand_arg(sc.body, lhs),
                        rhs_arg: if mixed && !models_amount(right, left) {
                            None
                        } else {
                            operand_arg(sc.body, rhs)
                        },
                        ty: left,
                    },
                    KindView::ArithmeticOverflow { op, ty_name: left },
                    operand_pins(lhs, rhs, left, mixed),
                    span,
                )
            },
            _ => seq![gap(span, BINARY_HEAD@ + op_name(op) + BINARY_UNRESOLVED@)],
        },
    }
}

/// The finding of a negation: an obligation at a signed type, nothing at an unsigned one, and a gap
/// where the type cannot be told.
pub open spec fn negation_findings(sc: Scope, op: Operand, span: Span) -> Seq<Finding> {
    match operand_int_name(sc.body, op) {
        None => seq![gap(span, NEGATION_UNRESOLVED@)],
        Some(ty) => if !begins(ty, "i") {
            seq![]
        } else {
            site_findings(
                sc,
                SiteView::Negation { arg: operand_arg(sc.body, op), ty },
                KindView::ArithmeticOverflow { op: ArithOp::Neg, ty_name: ty },
                constant_pin("lhs", op, ty),
                span,
            )
        },
    }
}

/// The finding of a call that may panic: a violation in strict mode, an obligation otherwise.
pub open spec fn panic_findings(sc: Scope, what: &str, path: Seq<char>, span: Span) -> Seq<
    Finding,
> {
    if sc.settings.config.verification.strict_panic_acceptance {
        seq![violation(rules::PB043, span, what@ + path + "` (strict mode)"@)]
    } else {
        site_findings(sc, SiteView::Panic, KindView::PanicReachability, seq![], span)
    }
}

/// The finding of a return: an obligation for the postconditions, after a remark where it comes
/// without a solver problem.
pub open spec fn ensures_findings(sc: Scope, span: Span) -> Seq<Finding> {
    if sc.settings.postconditions.len() == 0 {
        seq![]
    } else {
        let ret_ty = primitive_int_name(sc.body.return_ty);
        let problem = ensures_problem(
            sc.body,
            sc.settings.preconditions,
            sc.settings.postconditions,
            ret_ty,
        );
        (match problem.pending {
            Some(why) => seq![remark(span, why)],
            None => seq![],
        }) + seq![
            obligation(
                span,
                KindView::EnsuresPostcondition {
                    ret_name: "result"@,
                    ret_ty_name: ret_ty,
                    discharge_smt: problem.discharge,
                    consistency_smt: problem.consistency,
                },
                seq![],
            ),
        ]
    }
}

// ---------------------------------------------------------------------------
// Places and operands.
// ---------------------------------------------------------------------------

/// The findings of one step of a place.
pub open spec fn projection_findings(sc: Scope, elem: ProjectionElem, span: Span) -> Seq<Finding> {
    match elem {
        ProjectionElem::Deref => seq![],
        ProjectionElem::Field(_) => seq![],
        ProjectionElem::Index(local) => index_findings(sc, arg_name(sc.body, local.0 as int), span),
        ProjectionElem::ConstantIndex { .. } => index_findings(sc, None, span),
        ProjectionElem::Subslice { .. } => index_findings(sc, None, span),
        ProjectionElem::Downcast(_) => seq![],
        ProjectionElem::OpaqueCast(ty) => ty_findings(ty, span),
        ProjectionElem::Subtype(ty) => ty_findings(ty, span),
    }
}

/// The findings of the steps `elems`, in order.
pub open spec fn projections_findings(sc: Scope, elems: Seq<ProjectionElem>, span: Span) -> Seq<
    Finding,
>
    decreases elems.len(),
{
    if elems.len() == 0 {
        seq![]
    } else {
        projections_findings(sc, elems.drop_last(), span) + projection_findings(
            sc,
            elems.last(),
            span,
        )
    }
}

/// The findings of a place.
pub open spec fn place_findings(sc: Scope, place: Place, span: Span) -> Seq<Finding> {
    (if place.projection@.len() > MAX_PROJECTION_DEPTH {
        seq![
            violation(
                rules::PB054,
                span,
                "place projection depth "@ + decimal(place.projection@.len()) + " exceeds limit "@
                    + decimal(MAX_PROJECTION_DEPTH as nat),
            ),
        ]
    } else {
        seq![]
    }) + projections_findings(sc, place.projection@, span)
}

/// The findings of an operand.
pub open spec fn operand_findings(sc: Scope, op: Operand, span: Span) -> Seq<Finding> {
    match op {
        Operand::Copy(place) => place_findings(sc, place, span),
        Operand::Move(place) => place_findings(sc, place, span),
        Operand::Constant(c) => ty_findings(c.ty, span),
    }
}

/// The findings of the operands `ops`, in order.
pub open spec fn operands_findings(sc: Scope, ops: Seq<Operand>, span: Span) -> Seq<Finding>
    decreases ops.len(),
{
    if ops.len() == 0 {
        seq![]
    } else {
        operands_findings(sc, ops.drop_last(), span) + operand_findings(sc, ops.last(), span)
    }
}

// ---------------------------------------------------------------------------
// Rvalues.
// ---------------------------------------------------------------------------

/// The value and the types of an integer cast of a constant that fits both: such a cast keeps the
/// value.
pub open spec fn kept_value(op: Operand, target: Ty) -> Option<(i128, Seq<char>, Seq<char>)> {
    match op {
        Operand::Constant(c) => match (c.value, primitive_int_name(c.ty), primitive_int_name(
            target,
        )) {
            (Some(v), Some(from), Some(to)) => if fits(v as int, from) && fits(v as int, to) {
                Some((v, from, to))
            } else {
                None
            },
            _ => None,
        },
        _ => None,
    }
}

/// The finding of a cast.
pub open spec fn cast_findings(kind: CastKind, op: Operand, target: Ty, span: Span) -> Seq<
    Finding,
> {
    match kind {
        CastKind::IntToInt => match kept_value(op, target) {
            Some((v, from, to)) => seq![
                remark(
                    span,
                    CAST_ACCEPTED@ + signed_decimal(v as int) + CAST_FROM@ + from + " to "@ + to
                        + CAST_TAIL@,
                ),
            ],
            None => seq![violation(rules::PB051, span, CAST_REJECTED@)],
        },
        CastKind::FloatToInt => seq![violation(rules::PB050, span, "float cast"@)],
        CastKind::IntToFloat => seq![violation(rules::PB050, span, "float cast"@)],
        CastKind::FloatToFloat => seq![violation(rules::PB050, span, "float cast"@)],
        CastKind::PtrToInt => seq![violation(rules::PB004, span, "raw-pointer cast"@)],
        CastKind::IntToPtr => seq![violation(rules::PB004, span, "raw-pointer cast"@)],
        CastKind::PtrToPtr => seq![violation(rules::PB004, span, "raw-pointer cast"@)],
        CastKind::FnPtrToPtr => seq![violation(rules::PB004, span, "raw-pointer cast"@)],
        CastKind::Transmute => seq![violation(rules::PB007, span, "transmute cast"@)],
        CastKind::PointerCoercion => seq![],
    }
}

/// The findings of what an aggregate builds.
pub open spec fn aggregate_findings(kind: AggregateKind, span: Span) -> Seq<Finding> {
    match kind {
        AggregateKind::Tuple => seq![],
        AggregateKind::Array(ty) => ty_findings(ty, span),
        AggregateKind::Adt(adt, _) => adt_findings(adt, span),
        AggregateKind::Closure(_) => seq![
            violation(rules::PB033, span, "closure construction (v0.1 conservative)"@),
        ],
        AggregateKind::Coroutine(_) => seq![
            violation(rules::PB027, span, "coroutine construction"@),
        ],
        AggregateKind::RawPtr => seq![
            violation(rules::PB004, span, "raw-pointer aggregate construction"@),
        ],
    }
}

/// The findings of an rvalue.
pub open spec fn rvalue_findings(sc: Scope, rvalue: Rvalue, span: Span) -> Seq<Finding> {
    match rvalue {
        Rvalue::Use(op) => operand_findings(sc, op, span),
        Rvalue::Repeat(op, _) => operand_findings(sc, op, span),
        Rvalue::Ref(_, place) => place_findings(sc, place, span),
        Rvalue::ThreadLocalRef(_) => seq![violation(rules::PB019, span, "thread-local reference"@)],
        Rvalue::RawPtr(_, place) => place_findings(sc, place, span) + seq![
            violation(rules::PB004, span, "raw pointer (`&raw const` / `&raw mut`)"@),
        ],
        Rvalue::Len(place) => place_findings(sc, place, span),
        Rvalue::Cast(kind, op, target) => operand_findings(sc, op, span) + ty_findings(target, span)
            + cast_findings(kind, op, target, span),
        Rvalue::BinaryOp(binop, lhs, rhs) => operand_findings(sc, lhs, span) + operand_findings(
            sc,
            rhs,
            span,
        ) + (if binop == BinOp::Offset {
            seq![violation(rules::PB004, span, "pointer offset operation"@)]
        } else {
            seq![]
        }) + overflow_findings(sc, binop, lhs, rhs, span),
        Rvalue::NullaryOp(_, ty) => ty_findings(ty, span),
        Rvalue::UnaryOp(unop, op) => operand_findings(sc, op, span) + (if unop == UnOp::Neg {
            negation_findings(sc, op, span)
        } else {
            seq![]
        }),
        Rvalue::Discriminant(place) => place_findings(sc, place, span),
        Rvalue::Aggregate(kind, ops) => operands_findings(sc, ops@, span) + aggregate_findings(
            kind,
            span,
        ),
        Rvalue::ShallowInitBox(op, ty) => operand_findings(sc, op, span) + ty_findings(ty, span)
            + seq![violation(rules::PB013, span, "`Rvalue::ShallowInitBox`"@)],
        Rvalue::CopyForDeref(place) => place_findings(sc, place, span),
        Rvalue::WrapUnsafeBinder(op, ty) => operand_findings(sc, op, span) + ty_findings(ty, span)
            + seq![
            violation(
                rules::PB001,
                span,
                "`Rvalue::WrapUnsafeBinder` implies `unsafe<>` binder"@,
            ),
        ],
    }
}

// ---------------------------------------------------------------------------
// Calls.
// ---------------------------------------------------------------------------

/// Whether `p` allocates through the allocator interface.
pub open spec fn allocator_path(p: Seq<char>) -> bool {
    begins(p, "alloc::alloc::") || begins(p, "std::alloc::") || begins(
        p,
        "core::alloc::Allocator::",
    ) || begins(p, "std::alloc::Allocator::")
}

/// Whether `p` is a form of `transmute`.
pub open spec fn transmute_path(p: Seq<char>) -> bool {
    p == "core::mem::transmute"@ || p == "std::mem::transmute"@ || p
        == "core::intrinsics::transmute"@ || p == "std::intrinsics::transmute"@ || p
        == "core::intrinsics::transmute_unchecked"@ || p
        == "std::intrinsics::transmute_unchecked"@
}

/// Whether `p` is a volatile access.
pub open spec fn volatile_path(p: Seq<char>) -> bool {
    p == "core::ptr::read_volatile"@ || p == "std::ptr::read_volatile"@ || p
        == "core::ptr::write_volatile"@ || p == "std::ptr::write_volatile"@
}

/// The findings of the callee of a call by its path. A path in the standard library that is neither
/// known to panic nor trusted to be total is a gap.
pub open spec fn path_findings(sc: Scope, p: Seq<char>, span: Span) -> Seq<Finding> {
    if panic_call_path(p) {
        panic_findings(sc, "panic call `", p, span)
    } else if allocator_path(p) {
        seq![violation(rules::PB011, span, "call to allocator API `"@ + p + "`"@)]
    } else if transmute_path(p) {
        seq![violation(rules::PB007, span, "`transmute` call"@)]
    } else if volatile_path(p) {
        seq![violation(rules::PB025, span, "volatile op `"@ + p + "`"@)]
    } else if begins(p, "core::sync::atomic::") || begins(p, "std::sync::atomic::") {
        seq![violation(rules::PB023, span, "atomic op `"@ + p + "`"@)]
    } else if p == "std::thread::spawn"@ || begins(p, "std::thread::Builder::spawn") {
        seq![violation(rules::PB028, span, "thread spawn"@)]
    } else if panicking_call(p) {
        panic_findings(sc, "panicking library call `", p, span)
    } else if sc.settings.config.verification.strict_library_acceptance && stdlib_namespace_path(p)
        && !trusted_total_library_call(p) {
        seq![gap(span, LIBRARY_CALL_HEAD@ + p + LIBRARY_CALL_TAIL@)]
    } else {
        seq![]
    }
}

/// The findings of the callee of a call. One without a path is a gap.
pub open spec fn callee_findings(sc: Scope, c: ConstOperand, span: Span) -> Seq<Finding> {
    match c.path {
        Some(p) => path_findings(sc, p@, span),
        None => seq![gap(span, CALLEE_UNKNOWN@)],
    }
}

/// The finding of a call of the body that is walked.
pub open spec fn recursion_findings(sc: Scope, c: ConstOperand, span: Span) -> Seq<Finding> {
    if c.def_id == Some(sc.body.def_id) {
        seq![obligation(span, KindView::RecursionDecreases, seq![])]
    } else {
        seq![]
    }
}

/// The solver problem of a call of `path`.
pub open spec fn call_problem(sc: Scope, path: Seq<char>, args: Seq<Operand>, block: int) -> Option<
    CallsiteView,
> {
    match callee(sc.settings.callee_specs, path) {
        Some(spec) => callsite_problem(
            CallView { body: sc.body, args, block },
            sc.settings.preconditions,
            spec,
        ),
        None => None,
    }
}

/// The finding of a call of a function that has preconditions: an obligation where the call can be
/// written down as a solver problem, and a gap otherwise.
pub open spec fn precondition_findings(
    sc: Scope,
    c: ConstOperand,
    args: Seq<Operand>,
    span: Span,
    block: int,
) -> Seq<Finding> {
    match c.path {
        None => seq![],
        Some(p) => if !listed(sc.settings.precondition_fns, p@) {
            seq![]
        } else {
            match call_problem(sc, p@, args, block) {
                Some(problem) => seq![
                    obligation(
                        span,
                        KindView::CallSitePrecondition {
                            callee_path: p@,
                            discharge_smt: Some(problem.discharge),
                            consistency_smt: Some(problem.consistency),
                        },
                        seq![],
                    ),
                ] + remarks(span, problem.notes),
                None => seq![gap(span, CALL_UNPROVEN_HEAD@ + p@ + CALL_UNPROVEN_TAIL@)],
            }
        },
    }
}

/// The findings of a call that ends the block `block`.
pub open spec fn call_findings(
    sc: Scope,
    func: Operand,
    args: Seq<Operand>,
    destination: Place,
    span: Span,
    block: int,
) -> Seq<Finding> {
    (match func {
        Operand::Constant(c) => callee_findings(sc, c, span) + recursion_findings(sc, c, span)
            + precondition_findings(sc, c, args, span, block),
        Operand::Copy(p) => place_findings(sc, p, span) + seq![indirect_call(span)],
        Operand::Move(p) => place_findings(sc, p, span) + seq![indirect_call(span)],
    }) + operands_findings(sc, args, span) + place_findings(sc, destination, span)
}

/// The violation of a call through a local.
pub open spec fn indirect_call(span: Span) -> Finding {
    violation(rules::PB032, span, "call through function-pointer-typed local"@)
}

// ---------------------------------------------------------------------------
// Statements and terminators.
// ---------------------------------------------------------------------------

/// What a retag says.
pub open spec fn retag_detail(kind: RetagKind) -> Seq<char> {
    match kind {
        RetagKind::Default => "`Retag(Default)` indicates raw-pointer or UnsafeCell flow"@,
        RetagKind::FnEntry => "`Retag(FnEntry)` on function entry; raw-pointer arg suspected"@,
        RetagKind::TwoPhase => "`Retag(TwoPhase)` two-phase borrow with aliasing implication"@,
        RetagKind::Raw => "`Retag(Raw)` raw-pointer retag"@,
    }
}

/// The findings of a statement.
pub open spec fn statement_findings(sc: Scope, stmt: Statement) -> Seq<Finding> {
    match stmt.kind {
        StatementKind::Assign(place, rvalue) => place_findings(sc, place, stmt.span)
            + rvalue_findings(sc, rvalue, stmt.span),
        StatementKind::FakeRead(place) => place_findings(sc, place, stmt.span),
        StatementKind::SetDiscriminant { place, .. } => place_findings(sc, place, stmt.span),
        StatementKind::Deinit(place) => place_findings(sc, place, stmt.span) + seq![
            violation(rules::PB010, stmt.span, "`Deinit` outside drop elaboration"@),
        ],
        StatementKind::StorageLive(_) => seq![],
        StatementKind::StorageDead(_) => seq![],
        StatementKind::Retag(kind, place) => place_findings(sc, place, stmt.span) + seq![
            violation(rules::PB009, stmt.span, retag_detail(kind)),
        ],
        StatementKind::PlaceMention(place) => place_findings(sc, place, stmt.span),
        StatementKind::AscribeUserType(place) => place_findings(sc, place, stmt.span),
        StatementKind::Coverage => seq![],
        StatementKind::Intrinsic(intr) => match intr {
            NonDivergingIntrinsic::Assume(op) => operand_findings(sc, op, stmt.span),
            NonDivergingIntrinsic::CopyNonOverlapping => seq![
                violation(
                    rules::PB004,
                    stmt.span,
                    "`copy_nonoverlapping` intrinsic uses raw pointers"@,
                ),
            ],
        },
        StatementKind::ConstEvalCounter => seq![],
        StatementKind::Nop => seq![],
    }
}

/// The findings of the statements `stmts`, in order.
pub open spec fn statements_findings(sc: Scope, stmts: Seq<Statement>) -> Seq<Finding>
    decreases stmts.len(),
{
    if stmts.len() == 0 {
        seq![]
    } else {
        statements_findings(sc, stmts.drop_last()) + statement_findings(sc, stmts.last())
    }
}

/// The finding of a run-time check that the compiler inserted.
pub open spec fn check_findings(msg: AssertMessage, span: Span) -> Seq<Finding> {
    match msg {
        AssertMessage::MisalignedPointerDereference => seq![
            violation(
                rules::PB004,
                span,
                "misaligned-pointer check implies raw-pointer dereference"@,
            ),
        ],
        _ => seq![],
    }
}

/// The findings of the terminator of the block `block`.
pub open spec fn terminator_findings(sc: Scope, term: Terminator, block: int) -> Seq<Finding> {
    match term.kind {
        TerminatorKind::Goto { .. } => seq![],
        TerminatorKind::SwitchInt { discr, .. } => operand_findings(sc, discr, term.span),
        TerminatorKind::UnwindResume => seq![unwinding(term.span)],
        TerminatorKind::UnwindTerminate => seq![unwinding(term.span)],
        TerminatorKind::Return => ensures_findings(sc, term.span),
        TerminatorKind::Unreachable => seq![],
        TerminatorKind::Drop { place, .. } => place_findings(sc, place, term.span),
        TerminatorKind::Call { func, args, destination, .. } => call_findings(
            sc,
            func,
            args@,
            destination,
            term.span,
            block,
        ),
        TerminatorKind::TailCall { .. } => seq![
            violation(rules::PB045, term.span, "`become` tail-call"@),
        ],
        TerminatorKind::Assert { msg, .. } => check_findings(msg, term.span),
        TerminatorKind::Yield { .. } => seq![
            violation(rules::PB027, term.span, "coroutine `yield`"@),
        ],
        TerminatorKind::CoroutineDrop => seq![
            violation(rules::PB027, term.span, "coroutine drop terminator"@),
        ],
        TerminatorKind::FalseEdge { .. } => seq![
            violation(
                rules::PB046,
                term.span,
                "`FalseEdge` post-cleanup; MIR phase invariant violated"@,
            ),
        ],
        TerminatorKind::FalseUnwind { .. } => seq![
            violation(
                rules::PB046,
                term.span,
                "`FalseUnwind` post-cleanup; MIR phase invariant violated"@,
            ),
        ],
        TerminatorKind::InlineAsm { .. } => seq![
            violation(rules::PB006, term.span, "inline assembly"@),
        ],
    }
}

/// The violation of an unwinding terminator.
pub open spec fn unwinding(span: Span) -> Finding {
    violation(
        rules::PB048,
        span,
        "unwinding terminator present; project must use `panic = \"abort\"`"@,
    )
}

/// The findings of the first `n` blocks, in order.
pub open spec fn blocks_findings(sc: Scope, n: nat) -> Seq<Finding>
    decreases n,
{
    if n == 0 || n > sc.body.blocks@.len() {
        seq![]
    } else {
        blocks_findings(sc, (n - 1) as nat) + statements_findings(
            sc,
            sc.body.blocks@[n - 1].statements@,
        ) + terminator_findings(sc, sc.body.blocks@[n - 1].terminator, n - 1)
    }
}

// ---------------------------------------------------------------------------
// Bodies and items.
// ---------------------------------------------------------------------------

/// The findings of a declared local: those of its type, and its size.
pub open spec fn local_findings(sc: Scope, local: LocalDecl) -> Seq<Finding> {
    ty_findings(local.ty, local.span) + (if oversized(
        min_size(local.ty, (sc.settings.config.subset.target_pointer_width / 8) as nat),
        sc.settings.config.subset.stack_allocation_limit_bytes,
    ) {
        seq![
            violation(
                rules::PB020,
                local.span,
                "local exceeds configured stack-allocation limit"@,
            ),
        ]
    } else {
        seq![]
    })
}

/// The findings of the declared locals `locals`, in order.
pub open spec fn locals_findings(sc: Scope, locals: Seq<LocalDecl>) -> Seq<Finding>
    decreases locals.len(),
{
    if locals.len() == 0 {
        seq![]
    } else {
        locals_findings(sc, locals.drop_last()) + local_findings(sc, locals.last())
    }
}

/// The findings of a body that do not depend on its blocks.
pub open spec fn signature_findings(sc: Scope) -> Seq<Finding> {
    let body = sc.body;
    (if body.is_unsafe {
        seq![violation(rules::PB002, body.span, "function declared `unsafe fn`"@)]
    } else {
        seq![]
    }) + (if body.is_async {
        seq![violation(rules::PB026, body.span, "function declared `async fn`"@)]
    } else {
        seq![]
    }) + tys_findings(body.arg_tys, body.arg_tys@.len(), body.span) + ty_findings(
        body.return_ty,
        body.span,
    ) + locals_findings(sc, body.locals@)
}

/// Whether one of `blocks` returns.
pub open spec fn returns_somewhere(blocks: Seq<BasicBlockData>) -> bool {
    exists|b: int| 0 <= b < blocks.len() && (#[trigger] blocks[b]).terminator.kind is Return
}

/// The findings of a body. Of a trusted one only the signature is looked at. The postconditions of
/// one that never returns are an obligation all the same.
pub open spec fn body_findings(sc: Scope, trusted: bool) -> Seq<Finding> {
    let body = sc.body;
    if trusted {
        signature_findings(sc) + (if sc.settings.postconditions.len() > 0 {
            seq![remark(body.span, TRUSTED_ENSURES@)]
        } else {
            seq![]
        })
    } else {
        signature_findings(sc) + blocks_findings(sc, body.blocks@.len()) + (if
        sc.settings.postconditions.len() > 0 && !returns_somewhere(body.blocks@) {
            ensures_findings(sc, body.span) + seq![remark(body.span, NO_RETURN@)]
        } else {
            seq![]
        })
    }
}

/// The findings of a static.
pub open spec fn static_findings(mutable: bool, ty: Option<Ty>, span: Span) -> Seq<Finding> {
    (if mutable {
        seq![violation(rules::PB018, span, "`static mut` declaration"@)]
    } else {
        seq![]
    }) + const_findings(ty, span)
}

/// The findings of a constant: those of its type.
pub open spec fn const_findings(ty: Option<Ty>, span: Span) -> Seq<Finding> {
    match ty {
        Some(ty) => ty_findings(ty, span),
        None => seq![],
    }
}

} // verus!
