//! What each construct of a body, and each kind of item, gives rise to.

use pitbull_subset::diagnostic::AuditNoteKind;
use pitbull_subset::mir_api::{
    AdtDef, AggregateKind, AssertMessage, BasicBlock, BasicBlockData, BinOp, Body, CastKind,
    ConstOperand, DefId, FloatTy, IntTy, Local, LocalDecl, Mutability, NonDivergingIntrinsic,
    NullOp, Operand, Place, ProjectionElem, RetagKind, RigidTy, Rvalue, Span, Statement,
    StatementKind, Terminator, TerminatorKind, Ty, TyKind, UintTy, UnOp,
};
use pitbull_subset::rules;
use pitbull_subset::rules::RuleId;
use pitbull_subset::vc::VcObligationKind;
use pitbull_subset::{SubsetConfig, SubsetReport, SubsetVisitor};

fn rigid(r: RigidTy) -> Ty {
    Ty { kind: TyKind::RigidTy(r) }
}

fn u32_ty() -> Ty {
    rigid(RigidTy::Uint(UintTy::U32))
}

fn adt(path: &str, is_union: bool) -> AdtDef {
    AdtDef { path: path.to_string(), is_union }
}

fn span(lo: u32) -> Span {
    Span { lo, hi: lo + 1 }
}

fn bare(l: u32) -> Place {
    Place { local: Local(l), projection: vec![] }
}

fn constant(ty: Ty, value: Option<i128>) -> Operand {
    Operand::Constant(ConstOperand { ty, def_id: None, path: None, value })
}

fn function(path: Option<&str>, def_id: Option<u64>) -> Operand {
    Operand::Constant(ConstOperand {
        ty: rigid(RigidTy::FnDef(DefId(9))),
        def_id: def_id.map(DefId),
        path: path.map(|p| p.to_string()),
        value: None,
    })
}

fn local(ty: Ty) -> LocalDecl {
    LocalDecl { ty, span: span(7), mutability: Mutability::Not }
}

fn block(statements: Vec<StatementKind>, kind: TerminatorKind) -> BasicBlockData {
    BasicBlockData {
        statements: statements.into_iter().map(|kind| Statement { kind, span: span(3) }).collect(),
        terminator: Terminator { kind, span: span(5) },
    }
}

fn body_of(blocks: Vec<BasicBlockData>) -> Body {
    Body {
        def_id: DefId(1),
        arg_tys: vec![],
        arg_names: vec![],
        return_ty: rigid(RigidTy::Bool),
        is_unsafe: false,
        is_async: false,
        locals: vec![local(rigid(RigidTy::Bool)), local(u32_ty()), local(u32_ty())],
        blocks,
        span: span(1),
    }
}

fn visit(body: &Body) -> SubsetReport {
    let cfg = SubsetConfig::default_for_test();
    let mut v = SubsetVisitor::new(&cfg);
    v.visit_body(body, false);
    v.into_report()
}

fn rules_of(report: &SubsetReport) -> Vec<RuleId> {
    report.errors.iter().map(|e| e.rule).collect()
}

fn statement(kind: StatementKind) -> SubsetReport {
    visit(&body_of(vec![block(vec![kind], TerminatorKind::Return)]))
}

fn rvalue(r: Rvalue) -> SubsetReport {
    statement(StatementKind::Assign(bare(1), r))
}

fn terminator(kind: TerminatorKind) -> SubsetReport {
    visit(&body_of(vec![block(vec![], kind)]))
}

fn returned(ty: Ty) -> SubsetReport {
    let mut body = body_of(vec![]);
    body.return_ty = ty;
    visit(&body)
}

fn is_silent(report: &SubsetReport) -> bool {
    report.errors.is_empty() && report.audit_notes.is_empty() && report.vc_obligations.is_empty()
}

fn expect_one(report: &SubsetReport, rule: RuleId, detail: &str) {
    assert_eq!(rules_of(report), vec![rule], "{:?}", report.errors);
    assert_eq!(report.errors[0].detail, detail);
    assert!(!report.errors[0].in_spec);
}

#[test]
fn a_body_of_accepted_constructs_leaves_nothing() {
    let body = body_of(vec![
        block(
            vec![
                StatementKind::StorageLive(Local(1)),
                StatementKind::Assign(bare(1), Rvalue::Use(constant(u32_ty(), Some(3)))),
                StatementKind::Assign(
                    bare(1),
                    Rvalue::BinaryOp(
                        BinOp::BitXor,
                        Operand::Copy(bare(1)),
                        Operand::Copy(bare(2)),
                    ),
                ),
                StatementKind::Assign(bare(1), Rvalue::Repeat(Operand::Copy(bare(1)), 4)),
                StatementKind::Assign(bare(1), Rvalue::Ref(Mutability::Not, bare(2))),
                StatementKind::Assign(bare(1), Rvalue::Len(bare(2))),
                StatementKind::Assign(bare(1), Rvalue::NullaryOp(NullOp::SizeOf, u32_ty())),
                StatementKind::Assign(bare(1), Rvalue::UnaryOp(UnOp::Not, Operand::Copy(bare(2)))),
                StatementKind::Assign(bare(1), Rvalue::Discriminant(bare(2))),
                StatementKind::Assign(bare(1), Rvalue::CopyForDeref(bare(2))),
                StatementKind::Assign(bare(1), Rvalue::Aggregate(AggregateKind::Tuple, vec![])),
                StatementKind::FakeRead(bare(1)),
                StatementKind::SetDiscriminant { place: bare(1), variant_index: 0 },
                StatementKind::PlaceMention(bare(1)),
                StatementKind::AscribeUserType(bare(1)),
                StatementKind::Coverage,
                StatementKind::Intrinsic(NonDivergingIntrinsic::Assume(Operand::Copy(bare(1)))),
                StatementKind::ConstEvalCounter,
                StatementKind::Nop,
                StatementKind::StorageDead(Local(1)),
            ],
            TerminatorKind::Goto { target: BasicBlock(1) },
        ),
        block(
            vec![],
            TerminatorKind::SwitchInt {
                discr: Operand::Copy(bare(1)),
                targets: vec![BasicBlock(2), BasicBlock(3)],
            },
        ),
        block(vec![], TerminatorKind::Drop { place: bare(1), target: BasicBlock(3) }),
        block(vec![], TerminatorKind::Unreachable),
    ]);
    assert!(is_silent(&visit(&body)), "{:?}", visit(&body));
}

#[test]
fn forbidden_statements_name_their_rules() {
    expect_one(
        &statement(StatementKind::Deinit(bare(1))),
        rules::PB010,
        "`Deinit` outside drop elaboration",
    );
    expect_one(
        &statement(StatementKind::Retag(RetagKind::Default, bare(1))),
        rules::PB009,
        "`Retag(Default)` indicates raw-pointer or UnsafeCell flow",
    );
    expect_one(
        &statement(StatementKind::Retag(RetagKind::FnEntry, bare(1))),
        rules::PB009,
        "`Retag(FnEntry)` on function entry; raw-pointer arg suspected",
    );
    expect_one(
        &statement(StatementKind::Retag(RetagKind::TwoPhase, bare(1))),
        rules::PB009,
        "`Retag(TwoPhase)` two-phase borrow with aliasing implication",
    );
    expect_one(
        &statement(StatementKind::Retag(RetagKind::Raw, bare(1))),
        rules::PB009,
        "`Retag(Raw)` raw-pointer retag",
    );
    expect_one(
        &statement(StatementKind::Intrinsic(NonDivergingIntrinsic::CopyNonOverlapping)),
        rules::PB004,
        "`copy_nonoverlapping` intrinsic uses raw pointers",
    );
}

#[test]
fn forbidden_rvalues_name_their_rules() {
    expect_one(&rvalue(Rvalue::ThreadLocalRef(DefId(3))), rules::PB019, "thread-local reference");
    expect_one(
        &rvalue(Rvalue::RawPtr(Mutability::Mut, bare(1))),
        rules::PB004,
        "raw pointer (`&raw const` / `&raw mut`)",
    );
    expect_one(
        &rvalue(Rvalue::BinaryOp(
            BinOp::Offset,
            Operand::Copy(bare(1)),
            Operand::Copy(bare(2)),
        )),
        rules::PB004,
        "pointer offset operation",
    );
    expect_one(
        &rvalue(Rvalue::ShallowInitBox(Operand::Copy(bare(1)), u32_ty())),
        rules::PB013,
        "`Rvalue::ShallowInitBox`",
    );
    expect_one(
        &rvalue(Rvalue::WrapUnsafeBinder(Operand::Copy(bare(1)), u32_ty())),
        rules::PB001,
        "`Rvalue::WrapUnsafeBinder` implies `unsafe<>` binder",
    );
    expect_one(
        &rvalue(Rvalue::Aggregate(AggregateKind::Closure(DefId(3)), vec![])),
        rules::PB033,
        "closure construction (v0.1 conservative)",
    );
    expect_one(
        &rvalue(Rvalue::Aggregate(AggregateKind::Coroutine(DefId(3)), vec![])),
        rules::PB027,
        "coroutine construction",
    );
    expect_one(
        &rvalue(Rvalue::Aggregate(AggregateKind::RawPtr, vec![])),
        rules::PB004,
        "raw-pointer aggregate construction",
    );
    expect_one(
        &rvalue(Rvalue::Aggregate(AggregateKind::Adt(adt("std::rc::Rc", false), 0), vec![])),
        rules::PB015,
        "reference-counted type `std::rc::Rc`",
    );
    expect_one(
        &rvalue(Rvalue::Aggregate(
            AggregateKind::Array(rigid(RigidTy::FnPtr)),
            vec![Operand::Copy(bare(1))],
        )),
        rules::PB032,
        "function pointer type",
    );
}

#[test]
fn casts_name_their_rules() {
    let cast = |kind: CastKind| rvalue(Rvalue::Cast(kind, Operand::Copy(bare(1)), u32_ty()));
    for kind in [CastKind::FloatToInt, CastKind::IntToFloat, CastKind::FloatToFloat] {
        expect_one(&cast(kind), rules::PB050, "float cast");
    }
    for kind in
        [CastKind::PtrToInt, CastKind::IntToPtr, CastKind::PtrToPtr, CastKind::FnPtrToPtr]
    {
        expect_one(&cast(kind), rules::PB004, "raw-pointer cast");
    }
    expect_one(&cast(CastKind::Transmute), rules::PB007, "transmute cast");
    expect_one(
        &cast(CastKind::IntToInt),
        rules::PB051,
        "`as` integer cast (non-constant or value-changing); use `TryFrom` instead",
    );
    assert!(is_silent(&cast(CastKind::PointerCoercion)));
    let kept = rvalue(Rvalue::Cast(
        CastKind::IntToInt,
        constant(rigid(RigidTy::Int(IntTy::I32)), Some(-7)),
        rigid(RigidTy::Int(IntTy::I8)),
    ));
    assert!(kept.errors.is_empty());
    assert_eq!(
        kept.audit_notes[0].message,
        "PB051: `as` integer cast accepted — constant -7 is value-preserving from i32 to i8 (no \
         truncation or sign-change). Non-constant or value-changing casts remain rejected."
    );
    assert_eq!(kept.audit_notes[0].kind, AuditNoteKind::Transparency);
}

#[test]
fn forbidden_terminators_name_their_rules() {
    let unwinding = "unwinding terminator present; project must use `panic = \"abort\"`";
    expect_one(&terminator(TerminatorKind::UnwindResume), rules::PB048, unwinding);
    expect_one(&terminator(TerminatorKind::UnwindTerminate), rules::PB048, unwinding);
    expect_one(
        &terminator(TerminatorKind::TailCall { func: function(None, None), args: vec![] }),
        rules::PB045,
        "`become` tail-call",
    );
    expect_one(
        &terminator(TerminatorKind::Yield {
            value: Operand::Copy(bare(1)),
            resume: BasicBlock(0),
        }),
        rules::PB027,
        "coroutine `yield`",
    );
    expect_one(
        &terminator(TerminatorKind::CoroutineDrop),
        rules::PB027,
        "coroutine drop terminator",
    );
    expect_one(
        &terminator(TerminatorKind::FalseEdge { real_target: BasicBlock(0) }),
        rules::PB046,
        "`FalseEdge` post-cleanup; MIR phase invariant violated",
    );
    expect_one(
        &terminator(TerminatorKind::FalseUnwind { real_target: BasicBlock(0) }),
        rules::PB046,
        "`FalseUnwind` post-cleanup; MIR phase invariant violated",
    );
    expect_one(
        &terminator(TerminatorKind::InlineAsm { template: "nop".to_string() }),
        rules::PB006,
        "inline assembly",
    );
    let check = |msg: AssertMessage| {
        terminator(TerminatorKind::Assert {
            cond: Operand::Copy(bare(0)),
            expected: true,
            msg,
            target: BasicBlock(0),
        })
    };
    expect_one(
        &check(AssertMessage::MisalignedPointerDereference),
        rules::PB004,
        "misaligned-pointer check implies raw-pointer dereference",
    );
    for msg in [
        AssertMessage::Overflow,
        AssertMessage::DivisionByZero,
        AssertMessage::RemainderByZero,
        AssertMessage::BoundsCheck,
        AssertMessage::Other("user".to_string()),
    ] {
        assert!(is_silent(&check(msg)));
    }
}

#[test]
fn calls_name_their_rules() {
    let call = |path: &str| {
        terminator(TerminatorKind::Call {
            func: function(Some(path), None),
            args: vec![],
            destination: bare(1),
            target: None,
        })
    };
    expect_one(
        &call("std::alloc::alloc"),
        rules::PB011,
        "call to allocator API `std::alloc::alloc`",
    );
    expect_one(
        &call("core::alloc::Allocator::grow"),
        rules::PB011,
        "call to allocator API `core::alloc::Allocator::grow`",
    );
    expect_one(&call("std::mem::transmute"), rules::PB007, "`transmute` call");
    expect_one(
        &call("core::intrinsics::transmute_unchecked"),
        rules::PB007,
        "`transmute` call",
    );
    expect_one(
        &call("std::ptr::read_volatile"),
        rules::PB025,
        "volatile op `std::ptr::read_volatile`",
    );
    expect_one(
        &call("core::sync::atomic::AtomicU32::load"),
        rules::PB023,
        "atomic op `core::sync::atomic::AtomicU32::load`",
    );
    expect_one(&call("std::thread::spawn"), rules::PB028, "thread spawn");
    expect_one(&call("std::thread::Builder::spawn_scoped"), rules::PB028, "thread spawn");
    assert!(is_silent(&call("my_crate::helper")));
    assert!(is_silent(&call("core::num::<impl u32>::wrapping_add")));
    let through_local = terminator(TerminatorKind::Call {
        func: Operand::Move(bare(1)),
        args: vec![Operand::Copy(bare(2))],
        destination: bare(1),
        target: None,
    });
    expect_one(&through_local, rules::PB032, "call through function-pointer-typed local");
}

#[test]
fn types_name_their_rules() {
    expect_one(
        &returned(Ty { kind: TyKind::Param(0) }),
        rules::PB039,
        "unresolved type parameter post-monomorphization",
    );
    expect_one(&returned(Ty { kind: TyKind::Dynamic }), rules::PB031, "`dyn Trait` type");
    let floats = [
        (FloatTy::F16, "f16"),
        (FloatTy::F32, "f32"),
        (FloatTy::F64, "f64"),
        (FloatTy::F128, "f128"),
    ];
    for (f, name) in floats {
        expect_one(
            &returned(rigid(RigidTy::Float(f))),
            rules::PB050,
            &format!("floating-point type `{name}`"),
        );
    }
    expect_one(&returned(rigid(RigidTy::FnPtr)), rules::PB032, "function pointer type");
    expect_one(
        &returned(rigid(RigidTy::Closure(DefId(4)))),
        rules::PB033,
        "closure type in signature",
    );
    let adts = [
        ("u", true, rules::PB005, "union type `u`"),
        ("core::mem::MaybeUninit", false, rules::PB008, "`MaybeUninit`"),
        ("alloc::boxed::Box", false, rules::PB011, "`Box<_>`"),
        ("std::path::PathBuf", false, rules::PB012, "collection type `std::path::PathBuf`"),
        ("alloc::sync::Arc", false, rules::PB015, "reference-counted type `alloc::sync::Arc`"),
        ("std::cell::LazyCell", false, rules::PB021, "cell type `std::cell::LazyCell`"),
        ("std::cell::UnsafeCell", false, rules::PB022, "`UnsafeCell`"),
        (
            "std::sync::atomic::AtomicBool",
            false,
            rules::PB023,
            "atomic type `std::sync::atomic::AtomicBool`",
        ),
        (
            "std::sync::poison::Once",
            false,
            rules::PB024,
            "synchronization primitive `std::sync::poison::Once`",
        ),
        ("std::sync::mpsc::Sender", false, rules::PB030, "channel type `std::sync::mpsc::Sender`"),
        ("__pitbull_foreign", false, rules::PB056, "foreign (`extern`) type"),
        ("__pitbull_coroutine_witness", false, rules::PB027, "coroutine witness type"),
        (
            "__pitbull_dyn_trait_fallback",
            false,
            rules::PB031,
            "`dyn Trait` type (rigid-ty fallback)",
        ),
        (
            "__pitbull_unrigid",
            false,
            rules::PB039,
            "unanalyzable type (non-rigid pattern inner)",
        ),
        (
            "__pitbull_novel",
            false,
            rules::PB039,
            "unclassified synthetic adapter type `__pitbull_novel` — failing closed (no sound \
             model)",
        ),
    ];
    for (path, is_union, rule, detail) in adts {
        expect_one(&returned(rigid(RigidTy::Adt(adt(path, is_union)))), rule, detail);
    }
    for path in ["__pitbull_never", "my_crate::Thing", "core::num::NonZero", "cell::Cell"] {
        assert!(is_silent(&returned(rigid(RigidTy::Adt(adt(path, false))))), "{path}");
    }
}

#[test]
fn components_are_looked_at() {
    let float = || rigid(RigidTy::Float(FloatTy::F32));
    let wrapped = [
        rigid(RigidTy::Ref(Mutability::Not, Box::new(float()))),
        rigid(RigidTy::Array(Box::new(float()), 1)),
        rigid(RigidTy::Slice(Box::new(float()))),
        rigid(RigidTy::Tuple(vec![u32_ty(), float()])),
    ];
    for ty in wrapped {
        let twice = rigid(RigidTy::Tuple(vec![ty.clone(), ty.clone()]));
        assert_eq!(rules_of(&returned(ty)), vec![rules::PB050]);
        assert_eq!(rules_of(&returned(twice)), vec![rules::PB050, rules::PB050]);
    }
    let pointer = rigid(RigidTy::RawPtr(Mutability::Mut, Box::new(float())));
    assert_eq!(rules_of(&returned(pointer)), vec![rules::PB050, rules::PB004]);
}

#[test]
fn places_are_looked_at_everywhere() {
    let indexed = || Place {
        local: Local(1),
        projection: vec![ProjectionElem::Deref, ProjectionElem::Index(Local(2))],
    };
    let statements = vec![
        StatementKind::Assign(indexed(), Rvalue::Use(Operand::Copy(indexed()))),
        StatementKind::FakeRead(indexed()),
        StatementKind::SetDiscriminant { place: indexed(), variant_index: 1 },
        StatementKind::PlaceMention(indexed()),
        StatementKind::AscribeUserType(indexed()),
        StatementKind::Intrinsic(NonDivergingIntrinsic::Assume(Operand::Move(indexed()))),
    ];
    let report = visit(&body_of(vec![
        block(statements, TerminatorKind::Drop { place: indexed(), target: BasicBlock(1) }),
        block(
            vec![],
            TerminatorKind::Call {
                func: function(Some("my_crate::helper"), None),
                args: vec![Operand::Copy(indexed())],
                destination: indexed(),
                target: None,
            },
        ),
    ]));
    assert_eq!(report.vc_obligations.len(), 10);
    for (i, ob) in report.vc_obligations.iter().enumerate() {
        assert!(matches!(ob.kind, VcObligationKind::IndexBound { idx_source_name: None }));
        assert_eq!(ob.id, format!("pb054-idx-{i}"));
    }
}

#[test]
fn long_projections_are_refused() {
    let place = |n: usize| Place { local: Local(1), projection: vec![ProjectionElem::Deref; n] };
    assert!(is_silent(&statement(StatementKind::FakeRead(place(16)))));
    expect_one(
        &statement(StatementKind::FakeRead(place(17))),
        rules::PB054,
        "place projection depth 17 exceeds limit 16",
    );
}

#[test]
fn types_in_projections_are_looked_at() {
    for elem in [ProjectionElem::OpaqueCast(Ty { kind: TyKind::Dynamic }),
        ProjectionElem::Subtype(Ty { kind: TyKind::Dynamic })]
    {
        let place = Place { local: Local(1), projection: vec![elem] };
        assert_eq!(rules_of(&statement(StatementKind::FakeRead(place))), vec![rules::PB031]);
    }
}

#[test]
fn statics_and_constants_are_looked_at() {
    let cfg = SubsetConfig::default_for_test();
    let cell = rigid(RigidTy::Adt(adt("std::cell::Cell", false)));
    let mut v = SubsetVisitor::new(&cfg);
    v.visit_static_item(true, Some(&cell), span(2));
    v.visit_static_item(false, Some(&u32_ty()), span(2));
    v.visit_static_item(true, None, span(2));
    v.visit_const_item(Some(&cell), span(2));
    v.visit_const_item(None, span(2));
    assert_eq!(v.error_count(), 4);
    let report = v.into_report();
    assert_eq!(
        rules_of(&report),
        vec![rules::PB018, rules::PB021, rules::PB018, rules::PB021]
    );
    assert_eq!(report.errors[0].detail, "`static mut` declaration");
    assert_eq!(report.errors[0].span, span(2));
}

#[test]
fn notes_are_recorded_by_kind() {
    let cfg = SubsetConfig::default_for_test();
    let mut v = SubsetVisitor::new(&cfg);
    v.audit_note(span(1), "a gap".to_string());
    v.audit_transparency(span(2), "a remark".to_string());
    let report = v.into_report();
    assert_eq!(report.coverage_gap_count(), 1);
    assert_eq!(report.audit_notes[0].message, "a gap");
    assert_eq!(report.audit_notes[0].kind, AuditNoteKind::CoverageGap);
    assert_eq!(report.audit_notes[1].message, "a remark");
    assert_eq!(report.audit_notes[1].kind, AuditNoteKind::Transparency);
    assert_eq!(report.audit_notes[1].span, span(2));
}

fn sized(ty: Ty, limit: u64) -> bool {
    let mut cfg = SubsetConfig::default_for_test();
    cfg.subset.stack_allocation_limit_bytes = limit;
    let mut body = body_of(vec![]);
    body.locals = vec![local(ty)];
    let mut v = SubsetVisitor::new(&cfg);
    v.visit_body(&body, false);
    v.errors.iter().any(|e| e.rule == rules::PB020)
}

#[test]
fn sizes_are_exact_at_the_limit() {
    let cases = [
        (rigid(RigidTy::Bool), 1),
        (rigid(RigidTy::Char), 4),
        (rigid(RigidTy::Int(IntTy::I16)), 2),
        (rigid(RigidTy::Int(IntTy::I128)), 16),
        (rigid(RigidTy::Uint(UintTy::Usize)), 8),
        (rigid(RigidTy::Int(IntTy::Isize)), 8),
        (rigid(RigidTy::Float(FloatTy::F128)), 16),
        (rigid(RigidTy::Ref(Mutability::Not, Box::new(u32_ty()))), 8),
        (rigid(RigidTy::FnPtr), 8),
        (rigid(RigidTy::Array(Box::new(u32_ty()), 5)), 20),
        (rigid(RigidTy::Tuple(vec![u32_ty(), rigid(RigidTy::Bool)])), 5),
        (
            rigid(RigidTy::Array(
                Box::new(rigid(RigidTy::Tuple(vec![u32_ty(), u32_ty()]))),
                3,
            )),
            24,
        ),
    ];
    for (ty, size) in cases {
        assert!(sized(ty.clone(), size - 1), "{ty:?}");
        assert!(!sized(ty.clone(), size), "{ty:?}");
    }
    assert!(!sized(rigid(RigidTy::FnDef(DefId(1))), 0));
    assert!(!sized(rigid(RigidTy::Slice(Box::new(u32_ty()))), 0));
    assert!(!sized(rigid(RigidTy::Adt(adt("my_crate::Big", false))), 0));
    assert!(!sized(
        rigid(RigidTy::Tuple(vec![u32_ty(), rigid(RigidTy::Adt(adt("my_crate::Big", false)))])),
        0
    ));
}

#[test]
fn huge_sizes_are_over_every_limit() {
    let huge = || rigid(RigidTy::Array(Box::new(u32_ty()), u64::MAX));
    assert!(sized(huge(), u64::MAX));
    assert!(sized(rigid(RigidTy::Array(Box::new(huge()), 2)), u64::MAX));
    assert!(sized(rigid(RigidTy::Tuple(vec![huge(), u32_ty()])), u64::MAX));
    assert!(!sized(rigid(RigidTy::Array(Box::new(huge()), 0)), 0));
}

#[test]
fn the_pointer_width_decides_the_word() {
    let mut cfg = SubsetConfig::default_for_test();
    cfg.subset.stack_allocation_limit_bytes = 4;
    for (width, over) in [(16, false), (32, false), (64, true)] {
        cfg.subset.target_pointer_width = width;
        let mut body = body_of(vec![]);
        body.locals = vec![local(rigid(RigidTy::FnPtr))];
        let mut v = SubsetVisitor::new(&cfg);
        v.visit_body(&body, false);
        assert_eq!(v.errors.iter().any(|e| e.rule == rules::PB020), over);
    }
}
