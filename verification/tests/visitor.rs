//! The visitor on whole bodies, and the path classifiers on single paths.

use pitbull_subset::mir_api::{
    AdtDef, AssertMessage, BasicBlock, BasicBlockData, BinOp, Body, CastKind, ConstOperand, DefId,
    FloatTy, IntTy, Local, LocalDecl, Mutability, Operand, Place, ProjectionElem, RigidTy, Rvalue,
    Span, Statement, StatementKind, Terminator, TerminatorKind, Ty, TyKind, UintTy, UnOp,
};
use pitbull_subset::rules;
use pitbull_subset::visitor::{
    CalleeSpec, SubsetVisitor, is_panic_call_path, is_panicking_char_method,
    is_panicking_index_or_slice_call, is_panicking_int_method, is_panicking_library_call,
    is_stdlib_namespace_path, is_trusted_total_library_call,
};
use pitbull_subset::{SubsetConfig, SubsetReport};

fn empty_body() -> Body {
    Body {
        def_id: DefId(0),
        arg_tys: vec![],
        arg_names: vec![],
        return_ty: Ty { kind: TyKind::RigidTy(RigidTy::Bool) },
        is_unsafe: false,
        is_async: false,
        locals: vec![],
        blocks: vec![],
        span: Span::default(),
    }
}

#[test]
fn rejects_unsafe_fn() {
    let cfg = SubsetConfig::default_for_test();
    let mut v = SubsetVisitor::new(&cfg);
    let mut body = empty_body();
    body.is_unsafe = true;
    v.visit_body(&body, false);
    assert_eq!(v.error_count(), 1);
    assert_eq!(v.errors[0].rule, rules::PB002);
}

#[test]
fn rejects_async_fn() {
    let cfg = SubsetConfig::default_for_test();
    let mut v = SubsetVisitor::new(&cfg);
    let mut body = empty_body();
    body.is_async = true;
    v.visit_body(&body, false);
    assert_eq!(v.error_count(), 1);
    assert_eq!(v.errors[0].rule, rules::PB026);
}

#[test]
fn rejects_raw_pointer_return() {
    let cfg = SubsetConfig::default_for_test();
    let mut v = SubsetVisitor::new(&cfg);
    let mut body = empty_body();
    body.return_ty = Ty {
        kind: TyKind::RigidTy(RigidTy::RawPtr(
            Mutability::Not,
            Box::new(Ty { kind: TyKind::RigidTy(RigidTy::Uint(UintTy::U8)) }),
        )),
    };
    v.visit_body(&body, false);
    assert!(v.errors.iter().any(|e| e.rule == rules::PB004));
}

#[test]
fn rejects_dyn_trait() {
    let cfg = SubsetConfig::default_for_test();
    let mut v = SubsetVisitor::new(&cfg);
    let mut body = empty_body();
    body.arg_tys = vec![Ty { kind: TyKind::Dynamic }];
    v.visit_body(&body, false);
    assert!(v.errors.iter().any(|e| e.rule == rules::PB031));
}

#[test]
fn rejects_float_type() {
    let cfg = SubsetConfig::default_for_test();
    let mut v = SubsetVisitor::new(&cfg);
    let mut body = empty_body();
    body.return_ty = Ty {
        kind: TyKind::RigidTy(RigidTy::Float(FloatTy::F32)),
    };
    v.visit_body(&body, false);
    assert!(v.errors.iter().any(|e| e.rule == rules::PB050));
}

#[test]
fn rejects_box() {
    let cfg = SubsetConfig::default_for_test();
    let mut v = SubsetVisitor::new(&cfg);
    let mut body = empty_body();
    body.return_ty = Ty {
        kind: TyKind::RigidTy(RigidTy::Adt(AdtDef {
            path: "alloc::boxed::Box".into(),
            is_union: false,
        })),
    };
    v.visit_body(&body, false);
    assert!(v.errors.iter().any(|e| e.rule == rules::PB011));
}

#[test]
fn trusted_body_still_checks_signature() {
    let cfg = SubsetConfig::default_for_test();
    let mut v = SubsetVisitor::new(&cfg);
    let mut body = empty_body();
    body.arg_tys = vec![Ty { kind: TyKind::Dynamic }];
    v.visit_body(&body, /* trusted */ true);
    assert!(v.errors.iter().any(|e| e.rule == rules::PB031));
}

#[test]
fn rejects_oversized_stack_array() {
    let mut cfg = SubsetConfig::default_for_test();

    cfg.subset.stack_allocation_limit_bytes = 1024;
    let mut v = SubsetVisitor::new(&cfg);
    let mut body = empty_body();
    body.locals.push(pitbull_subset::mir_api::LocalDecl {
        ty: Ty {
            kind: TyKind::RigidTy(RigidTy::Array(
                Box::new(Ty { kind: TyKind::RigidTy(RigidTy::Uint(pitbull_subset::mir_api::UintTy::U8)) }),
                65_536,
            )),
        },
        span: Span::default(),
        mutability: pitbull_subset::mir_api::Mutability::Not,
    });
    v.visit_body(&body, false);
    assert!(
        v.errors.iter().any(|e| e.rule == rules::PB020),
        "expected PB020 for oversized array; got {:?}",
        v.errors
    );
}

#[test]
fn accepts_within_stack_limit() {
    let mut cfg = SubsetConfig::default_for_test();
    cfg.subset.stack_allocation_limit_bytes = 1024;
    let mut v = SubsetVisitor::new(&cfg);
    let mut body = empty_body();
    body.locals.push(pitbull_subset::mir_api::LocalDecl {
        ty: Ty {
            kind: TyKind::RigidTy(RigidTy::Array(
                Box::new(Ty { kind: TyKind::RigidTy(RigidTy::Uint(pitbull_subset::mir_api::UintTy::U8)) }),
                512,
            )),
        },
        span: Span::default(),
        mutability: pitbull_subset::mir_api::Mutability::Not,
    });
    v.visit_body(&body, false);
    assert!(
        !v.errors.iter().any(|e| e.rule == rules::PB020),
        "PB020 should not fire on a 512-byte array under 1024-byte limit"
    );
}

#[test]
fn rejects_oversized_typed_array() {
    let mut cfg = SubsetConfig::default_for_test();
    cfg.subset.stack_allocation_limit_bytes = 1024;
    let mut v = SubsetVisitor::new(&cfg);
    let mut body = empty_body();
    body.locals.push(pitbull_subset::mir_api::LocalDecl {
        ty: Ty {
            kind: TyKind::RigidTy(RigidTy::Array(
                Box::new(Ty { kind: TyKind::RigidTy(RigidTy::Uint(pitbull_subset::mir_api::UintTy::U32)) }),
                300,
            )),
        },
        span: Span::default(),
        mutability: pitbull_subset::mir_api::Mutability::Not,
    });
    v.visit_body(&body, false);
    assert!(
        v.errors.iter().any(|e| e.rule == rules::PB020),
        "expected PB020 for 1200-byte typed array under 1024-byte limit"
    );
}

#[test]
fn overflow_in_array_size_rejects() {
    let cfg = SubsetConfig::default_for_test();
    let mut v = SubsetVisitor::new(&cfg);
    let mut body = empty_body();
    body.locals.push(pitbull_subset::mir_api::LocalDecl {
        ty: Ty {
            kind: TyKind::RigidTy(RigidTy::Array(
                Box::new(Ty { kind: TyKind::RigidTy(RigidTy::Uint(pitbull_subset::mir_api::UintTy::U8)) }),
                u64::MAX,
            )),
        },
        span: Span::default(),
        mutability: pitbull_subset::mir_api::Mutability::Not,
    });
    v.visit_body(&body, false);
    assert!(
        v.errors.iter().any(|e| e.rule == rules::PB020),
        "expected PB020 on overflow-sized array; the saturating estimator must reject"
    );
}

#[test]
fn rejects_oversized_tuple_local() {
    let mut cfg = SubsetConfig::default_for_test();
    cfg.subset.stack_allocation_limit_bytes = 1024;
    let mut v = SubsetVisitor::new(&cfg);
    let mut body = empty_body();
    body.locals.push(pitbull_subset::mir_api::LocalDecl {
        ty: Ty {
            kind: TyKind::RigidTy(RigidTy::Tuple(vec![
                Ty { kind: TyKind::RigidTy(RigidTy::Uint(pitbull_subset::mir_api::UintTy::U64)) },
                Ty { kind: TyKind::RigidTy(RigidTy::Array(
                    Box::new(Ty { kind: TyKind::RigidTy(RigidTy::Uint(pitbull_subset::mir_api::UintTy::U8)) }),
                    1024,
                )) },
            ])),
        },
        span: Span::default(),
        mutability: pitbull_subset::mir_api::Mutability::Not,
    });
    v.visit_body(&body, false);
    assert!(
        v.errors.iter().any(|e| e.rule == rules::PB020),
        "expected PB020 for 1032-byte tuple under 1024-byte limit"
    );
}

#[test]
fn unknown_size_type_does_not_fire_pb020() {
    let mut cfg = SubsetConfig::default_for_test();
    cfg.subset.stack_allocation_limit_bytes = 1;
    let mut v = SubsetVisitor::new(&cfg);
    let mut body = empty_body();
    body.locals.push(pitbull_subset::mir_api::LocalDecl {
        ty: Ty {
            kind: TyKind::RigidTy(RigidTy::Adt(AdtDef {
                path: "user_crate::MyStruct".into(),
                is_union: false,
            })),
        },
        span: Span::default(),
        mutability: pitbull_subset::mir_api::Mutability::Not,
    });
    v.visit_body(&body, false);

    assert!(
        !v.errors.iter().any(|e| e.rule == rules::PB020),
        "PB020 must not fire on unknown-size types"
    );
}

#[test]
fn type_rules_fire_under_every_stdlib_root() {

    let cases: &[(rules::RuleId, &str)] = &[
        (rules::PB008, "mem::MaybeUninit"),
        (rules::PB008, "mem::maybe_uninit::MaybeUninit"),
        (rules::PB011, "boxed::Box"),
        (rules::PB012, "vec::Vec"),
        (rules::PB012, "string::String"),
        (rules::PB012, "collections::VecDeque"),
        (rules::PB012, "collections::BTreeMap"),
        (rules::PB012, "collections::BinaryHeap"),
        (rules::PB012, "borrow::Cow"),
        (rules::PB015, "rc::Rc"),
        (rules::PB015, "sync::Arc"),
        (rules::PB021, "cell::Cell"),
        (rules::PB021, "cell::RefCell"),
        (rules::PB021, "cell::OnceCell"),
        (rules::PB022, "cell::UnsafeCell"),
        (rules::PB023, "sync::atomic::AtomicU32"),
        (rules::PB023, "sync::atomic::AtomicBool"),
        (rules::PB024, "sync::Mutex"),
        (rules::PB024, "sync::RwLock"),
    ];
    for (rule, suffix) in cases {
        for root in ["core::", "std::", "alloc::"] {
            let path = format!("{root}{suffix}");
            let cfg = SubsetConfig::default_for_test();
            let mut v = SubsetVisitor::new(&cfg);
            v.visit_body(&body_returning_synthetic(&path), false);
            assert!(
                v.errors.iter().any(|e| e.rule == *rule),
                "SOUNDNESS: `{path}` must trigger {rule:?} under EVERY stdlib root — \
                 rustc renders a type by the path it was reached through, so a \
                 rule spelled under only one root is dead on real code",
            );
        }
    }
}

#[test]
fn type_rules_do_not_over_match() {
    for path in [
        "mycrate::cell::Cell",
        "mycrate::boxed::Box",
        "core::cell::CellPhone",
        "std::cell::Cell2",
        "user_crate::MyStruct",
    ] {
        let cfg = SubsetConfig::default_for_test();
        let mut v = SubsetVisitor::new(&cfg);
        v.visit_body(&body_returning_synthetic(path), false);
        assert!(
            v.errors.is_empty(),
            "`{path}` is not a stdlib type — it must not be rejected; got {:?}",
            v.errors,
        );
    }
}

fn body_returning_synthetic(path: &str) -> Body {
    let mut body = empty_body();
    body.return_ty = Ty {
        kind: TyKind::RigidTy(RigidTy::Adt(AdtDef {
            path: path.into(),
            is_union: false,
        })),
    };
    body
}

#[test]
fn synthetic_dyn_trait_fallback_rejected_pb031() {
    let cfg = SubsetConfig::default_for_test();
    let mut v = SubsetVisitor::new(&cfg);
    v.visit_body(&body_returning_synthetic("__pitbull_dyn_trait_fallback"), false);
    assert!(
        v.errors.iter().any(|e| e.rule == rules::PB031),
        "dyn-trait fallback synthetic must fire PB031; got {:?}",
        v.errors,
    );
}

#[test]
fn synthetic_coroutine_witness_rejected_pb027() {
    let cfg = SubsetConfig::default_for_test();
    let mut v = SubsetVisitor::new(&cfg);
    v.visit_body(&body_returning_synthetic("__pitbull_coroutine_witness"), false);
    assert!(
        v.errors.iter().any(|e| e.rule == rules::PB027),
        "coroutine-witness synthetic must fire PB027; got {:?}",
        v.errors,
    );
}

#[test]
fn synthetic_foreign_rejected_pb056() {
    let cfg = SubsetConfig::default_for_test();
    let mut v = SubsetVisitor::new(&cfg);
    v.visit_body(&body_returning_synthetic("__pitbull_foreign"), false);
    assert!(
        v.errors.iter().any(|e| e.rule == rules::PB056),
        "foreign synthetic must fire PB056; got {:?}",
        v.errors,
    );
}

#[test]
fn synthetic_unrigid_rejected_pb039() {
    let cfg = SubsetConfig::default_for_test();
    let mut v = SubsetVisitor::new(&cfg);
    v.visit_body(&body_returning_synthetic("__pitbull_unrigid"), false);
    assert!(
        v.errors.iter().any(|e| e.rule == rules::PB039),
        "unrigid synthetic must fire PB039; got {:?}",
        v.errors,
    );
}

#[test]
fn synthetic_unknown_fails_closed_pb039() {
    let cfg = SubsetConfig::default_for_test();
    let mut v = SubsetVisitor::new(&cfg);
    v.visit_body(&body_returning_synthetic("__pitbull_some_future_kind"), false);
    assert!(
        v.errors.iter().any(|e| e.rule == rules::PB039),
        "unknown synthetic must fail closed (PB039); got {:?}",
        v.errors,
    );
}

#[test]
fn synthetic_never_accepted() {
    let cfg = SubsetConfig::default_for_test();
    let mut v = SubsetVisitor::new(&cfg);
    v.visit_body(&body_returning_synthetic("__pitbull_never"), false);
    assert!(
        v.errors.is_empty(),
        "__pitbull_never must be accepted (benign uninhabited type); got {:?}",
        v.errors,
    );
}

#[test]
fn real_user_adt_still_accepted_after_synthetic_closure() {
    let cfg = SubsetConfig::default_for_test();
    let mut v = SubsetVisitor::new(&cfg);
    v.visit_body(&body_returning_synthetic("user_crate::MyStruct"), false);
    assert!(
        v.errors.is_empty(),
        "a real user ADT must remain accepted; got {:?}",
        v.errors,
    );
}

fn body_calling_unclassifiable() -> Body {
    Body {
        def_id: DefId(0),
        arg_tys: vec![],
        arg_names: vec![],
        return_ty: Ty { kind: TyKind::RigidTy(RigidTy::Bool) },
        is_unsafe: false,
        is_async: false,
        locals: vec![],
        blocks: vec![BasicBlockData {
            statements: vec![],
            terminator: Terminator {
                kind: TerminatorKind::Call {
                    func: Operand::Constant(ConstOperand {
                        ty: Ty { kind: TyKind::RigidTy(RigidTy::Bool) },
                        def_id: None,
                        path: None,
                        value: None,
                    }),
                    args: vec![],
                    destination: Place { local: Local(0), projection: vec![] },
                    target: None,
                },
                span: Span::default(),
            },
        }],
        span: Span::default(),
    }
}

#[test]
fn binary_op_on_u32_emits_overflow_obligation() {
    let u32_ty = Ty { kind: TyKind::RigidTy(RigidTy::Uint(UintTy::U32)) };
    let body = Body {
        def_id: DefId(0),
        arg_tys: vec![],
        arg_names: vec![],
        return_ty: u32_ty.clone(),
        is_unsafe: false,
        is_async: false,
        locals: vec![LocalDecl {
            ty: u32_ty.clone(),
            span: Span::default(),
            mutability: Mutability::Not,
        }],
        blocks: vec![BasicBlockData {
            statements: vec![Statement {
                kind: StatementKind::Assign(
                    Place { local: Local(0), projection: vec![] },
                    Rvalue::BinaryOp(
                        BinOp::Add,
                        Operand::Constant(ConstOperand {
                            ty: u32_ty.clone(),
                            def_id: None,
                            path: None,
                            value: None,
                        }),
                        Operand::Constant(ConstOperand {
                            ty: u32_ty.clone(),
                            def_id: None,
                            path: None,
                            value: None,
                        }),
                    ),
                ),
                span: Span::default(),
            }],
            terminator: Terminator {
                kind: TerminatorKind::Return,
                span: Span::default(),
            },
        }],
        span: Span::default(),
    };
    let cfg = SubsetConfig::default_for_test();
    let mut v = SubsetVisitor::new(&cfg);
    v.visit_body(&body, false);
    let report = v.into_report();
    assert_eq!(
        report.vc_obligations.len(),
        1,
        "expected exactly one VC obligation; got {:?}",
        report.vc_obligations,
    );
    let pitbull_subset::vc::VcObligationKind::ArithmeticOverflow { op, ty_name } =
        &report.vc_obligations[0].kind
    else {
        panic!("expected ArithmeticOverflow obligation");
    };
    assert_eq!(*op, pitbull_subset::vc::ArithOp::Add);
    assert_eq!(ty_name, "u32");
    assert!(
        report.vc_obligations[0].id.starts_with("pb049-add-"),
        "VC id should follow pb{{nnn}}-{{tag}}-{{seq}} format; got {:?}",
        report.vc_obligations[0].id,
    );
}

#[test]
fn self_recursion_emits_recursion_decreases_obligation() {

    let make_body = |self_id: u64, callee: Option<u64>| Body {
        def_id: DefId(self_id),
        arg_tys: vec![],
        arg_names: vec![],
        return_ty: Ty { kind: TyKind::RigidTy(RigidTy::Uint(UintTy::U32)) },
        is_unsafe: false,
        is_async: false,
        locals: vec![],
        blocks: vec![BasicBlockData {
            statements: vec![],
            terminator: Terminator {
                kind: TerminatorKind::Call {
                    func: Operand::Constant(ConstOperand {
                        ty: Ty { kind: TyKind::RigidTy(RigidTy::Bool) },
                        def_id: callee.map(DefId),
                        path: None,
                        value: None,
                    }),
                    args: vec![],
                    destination: Place { local: Local(0), projection: vec![] },
                    target: None,
                },
                span: Span::default(),
            },
        }],
        span: Span::default(),
    };
    let cfg = SubsetConfig::default_for_test();
    let count_recursion = |body: &Body| {
        let mut v = SubsetVisitor::new(&cfg);
        v.visit_body(body, false);
        v.into_report()
            .vc_obligations
            .into_iter()
            .filter(|o| {
                matches!(o.kind, pitbull_subset::vc::VcObligationKind::RecursionDecreases)
            })
            .count()
    };
    assert_eq!(
        count_recursion(&make_body(7, Some(7))),
        1,
        "self-recursive call (callee DefId == body DefId) must emit one \
         RecursionDecreases obligation",
    );
    assert_eq!(
        count_recursion(&make_body(7, Some(9))),
        0,
        "call to a different DefId is not self-recursion",
    );
    assert_eq!(
        count_recursion(&make_body(7, None)),
        0,
        "indirect call with no resolved callee DefId is not self-recursion",
    );
}

#[test]
fn preconditions_propagate_to_obligation_assumptions() {
    let u32_ty = Ty { kind: TyKind::RigidTy(RigidTy::Uint(UintTy::U32)) };
    let body = Body {
        def_id: DefId(0),
        arg_tys: vec![u32_ty.clone()],
        arg_names: vec![],
        return_ty: u32_ty.clone(),
        is_unsafe: false,
        is_async: false,
        locals: vec![LocalDecl {
            ty: u32_ty.clone(),
            span: Span::default(),
            mutability: Mutability::Not,
        }],
        blocks: vec![BasicBlockData {
            statements: vec![Statement {
                kind: StatementKind::Assign(
                    Place { local: Local(0), projection: vec![] },
                    Rvalue::BinaryOp(
                        BinOp::Add,
                        Operand::Constant(ConstOperand {
                            ty: u32_ty.clone(),
                            def_id: None,
                            path: None,
                            value: None,
                        }),
                        Operand::Constant(ConstOperand {
                            ty: u32_ty.clone(),
                            def_id: None,
                            path: None,
                            value: None,
                        }),
                    ),
                ),
                span: Span::default(),
            }],
            terminator: Terminator {
                kind: TerminatorKind::Return,
                span: Span::default(),
            },
        }],
        span: Span::default(),
    };
    let cfg = SubsetConfig::default_for_test();
    let mut v = SubsetVisitor::new(&cfg);
    v.set_current_preconditions(vec![
        "(assert (bvult lhs #x00000064))".into(),
    ]);
    v.visit_body(&body, false);
    let report = v.into_report();
    assert_eq!(report.vc_obligations.len(), 1);
    assert_eq!(
        report.vc_obligations[0].assumptions,
        vec!["(assert (bvult lhs #x00000064))"],
        "obligation should carry the installed preconditions verbatim",
    );
}

#[test]
fn clearing_preconditions_makes_assumptions_empty() {
    let u32_ty = Ty { kind: TyKind::RigidTy(RigidTy::Uint(UintTy::U32)) };
    let make_body = || Body {
        def_id: DefId(0),
        arg_tys: vec![],
        arg_names: vec![],
        return_ty: u32_ty.clone(),
        is_unsafe: false,
        is_async: false,
        locals: vec![LocalDecl {
            ty: u32_ty.clone(),
            span: Span::default(),
            mutability: Mutability::Not,
        }],
        blocks: vec![BasicBlockData {
            statements: vec![Statement {
                kind: StatementKind::Assign(
                    Place { local: Local(0), projection: vec![] },
                    Rvalue::BinaryOp(
                        BinOp::Mul,
                        Operand::Constant(ConstOperand {
                            ty: u32_ty.clone(),
                            def_id: None,
                            path: None,
                            value: None,
                        }),
                        Operand::Constant(ConstOperand {
                            ty: u32_ty.clone(),
                            def_id: None,
                            path: None,
                            value: None,
                        }),
                    ),
                ),
                span: Span::default(),
            }],
            terminator: Terminator {
                kind: TerminatorKind::Return,
                span: Span::default(),
            },
        }],
        span: Span::default(),
    };
    let cfg = SubsetConfig::default_for_test();
    let mut v = SubsetVisitor::new(&cfg);

    v.set_current_preconditions(vec!["(assert true)".into()]);
    v.visit_body(&make_body(), false);

    v.set_current_preconditions(vec![]);
    v.visit_body(&make_body(), false);
    let report = v.into_report();
    assert_eq!(report.vc_obligations.len(), 2);
    assert_eq!(
        report.vc_obligations[0].assumptions,
        vec!["(assert true)"],
        "first body's obligation should carry the precondition",
    );
    assert!(
        report.vc_obligations[1].assumptions.is_empty(),
        "second body's obligation should have no assumptions after clear; got {:?}",
        report.vc_obligations[1].assumptions,
    );
}

#[test]
fn predicate_precondition_binds_lhs_operand() {
    let u32_ty = Ty { kind: TyKind::RigidTy(RigidTy::Uint(UintTy::U32)) };

    let body = Body {
        def_id: DefId(0),
        arg_tys: vec![u32_ty.clone()],
        arg_names: vec!["x".into()],
        return_ty: u32_ty.clone(),
        is_unsafe: false,
        is_async: false,
        locals: vec![
            LocalDecl { ty: u32_ty.clone(), span: Span::default(), mutability: Mutability::Not },
            LocalDecl { ty: u32_ty.clone(), span: Span::default(), mutability: Mutability::Not },
            LocalDecl { ty: u32_ty.clone(), span: Span::default(), mutability: Mutability::Not },
        ],
        blocks: vec![BasicBlockData {
            statements: vec![Statement {
                kind: StatementKind::Assign(
                    Place { local: Local(2), projection: vec![] },
                    Rvalue::BinaryOp(
                        BinOp::Add,
                        Operand::Copy(Place { local: Local(1), projection: vec![] }),
                        Operand::Constant(ConstOperand {
                            ty: u32_ty.clone(),
                            def_id: None,
                            path: None,
                            value: None,
                        }),
                    ),
                ),
                span: Span::default(),
            }],
            terminator: Terminator {
                kind: TerminatorKind::Return,
                span: Span::default(),
            },
        }],
        span: Span::default(),
    };
    let cfg = SubsetConfig::default_for_test();
    let mut v = SubsetVisitor::new(&cfg);
    v.set_current_preconditions(vec!["x < 100".into()]);
    v.visit_body(&body, false);
    let report = v.into_report();
    assert_eq!(report.vc_obligations.len(), 1);
    assert_eq!(
        report.vc_obligations[0].assumptions,
        vec!["(assert (bvult lhs #x00000064))".to_string()],
        "predicate `x < 100` must bind to lhs (where x is) and \
         translate to an unsigned-less-than BV assertion",
    );
}

#[test]
fn unbound_predicate_dropped_with_audit_note() {
    let u32_ty = Ty { kind: TyKind::RigidTy(RigidTy::Uint(UintTy::U32)) };
    let body = Body {
        def_id: DefId(0),
        arg_tys: vec![u32_ty.clone()],
        arg_names: vec!["x".into()],
        return_ty: u32_ty.clone(),
        is_unsafe: false,
        is_async: false,
        locals: vec![
            LocalDecl { ty: u32_ty.clone(), span: Span::default(), mutability: Mutability::Not },
            LocalDecl { ty: u32_ty.clone(), span: Span::default(), mutability: Mutability::Not },
        ],
        blocks: vec![BasicBlockData {
            statements: vec![Statement {
                kind: StatementKind::Assign(
                    Place { local: Local(0), projection: vec![] },
                    Rvalue::BinaryOp(
                        BinOp::Add,
                        Operand::Constant(ConstOperand {
                            ty: u32_ty.clone(),
                            def_id: None,
                            path: None,
                            value: None,
                        }),
                        Operand::Constant(ConstOperand {
                            ty: u32_ty.clone(),
                            def_id: None,
                            path: None,
                            value: None,
                        }),
                    ),
                ),
                span: Span::default(),
            }],
            terminator: Terminator {
                kind: TerminatorKind::Return,
                span: Span::default(),
            },
        }],
        span: Span::default(),
    };
    let cfg = SubsetConfig::default_for_test();
    let mut v = SubsetVisitor::new(&cfg);

    v.set_current_preconditions(vec!["x < 100".into()]);
    v.visit_body(&body, false);
    let report = v.into_report();
    assert_eq!(report.vc_obligations.len(), 1);
    assert!(
        report.vc_obligations[0].assumptions.is_empty(),
        "unbound predicate must be DROPPED (not spliced as \
         malformed SMT-LIB); got assumptions={:?}",
        report.vc_obligations[0].assumptions,
    );
    assert!(
        report.audit_notes.iter().any(|n|
            n.message.contains("rejecting precondition")
        ),
        "rejection should be surfaced as an audit note; got {:?}",
        report.audit_notes,
    );
}

#[test]
fn constant_operand_value_pinned_in_assumptions() {
    let u32_ty = Ty { kind: TyKind::RigidTy(RigidTy::Uint(UintTy::U32)) };

    let body = Body {
        def_id: DefId(0),
        arg_tys: vec![u32_ty.clone()],
        arg_names: vec!["x".into()],
        return_ty: u32_ty.clone(),
        is_unsafe: false,
        is_async: false,
        locals: vec![
            LocalDecl { ty: u32_ty.clone(), span: Span::default(), mutability: Mutability::Not },
            LocalDecl { ty: u32_ty.clone(), span: Span::default(), mutability: Mutability::Not },
            LocalDecl { ty: u32_ty.clone(), span: Span::default(), mutability: Mutability::Not },
        ],
        blocks: vec![BasicBlockData {
            statements: vec![Statement {
                kind: StatementKind::Assign(
                    Place { local: Local(2), projection: vec![] },
                    Rvalue::BinaryOp(
                        BinOp::Add,

                        Operand::Copy(Place {
                            local: Local(1),
                            projection: vec![],
                        }),

                        Operand::Constant(ConstOperand {
                            ty: u32_ty.clone(),
                            def_id: None,
                            path: None,
                            value: Some(1),
                        }),
                    ),
                ),
                span: Span::default(),
            }],
            terminator: Terminator {
                kind: TerminatorKind::Return,
                span: Span::default(),
            },
        }],
        span: Span::default(),
    };
    let cfg = SubsetConfig::default_for_test();
    let mut v = SubsetVisitor::new(&cfg);
    v.visit_body(&body, false);
    let report = v.into_report();
    assert_eq!(report.vc_obligations.len(), 1);
    let assumptions = &report.vc_obligations[0].assumptions;

    assert!(
        assumptions.iter().any(|a| a == "(assert (= rhs #x00000001))"),
        "expected operand-pinning assertion for rhs=1u32; \
         got assumptions: {assumptions:?}",
    );

    assert!(
        !assumptions.iter().any(|a| a.contains("= lhs")),
        "lhs is a Copy operand (parameter `x`), not a constant; \
         must NOT be pinned. assumptions: {assumptions:?}",
    );
}

#[test]
fn constant_operand_without_value_emits_no_pin() {
    let u32_ty = Ty { kind: TyKind::RigidTy(RigidTy::Uint(UintTy::U32)) };
    let body = Body {
        def_id: DefId(0),
        arg_tys: vec![],
        arg_names: vec![],
        return_ty: u32_ty.clone(),
        is_unsafe: false,
        is_async: false,
        locals: vec![LocalDecl {
            ty: u32_ty.clone(),
            span: Span::default(),
            mutability: Mutability::Not,
        }],
        blocks: vec![BasicBlockData {
            statements: vec![Statement {
                kind: StatementKind::Assign(
                    Place { local: Local(0), projection: vec![] },
                    Rvalue::BinaryOp(
                        BinOp::Add,
                        Operand::Constant(ConstOperand {
                            ty: u32_ty.clone(),
                            def_id: None,
                            path: None,
                            value: None,
                        }),
                        Operand::Constant(ConstOperand {
                            ty: u32_ty.clone(),
                            def_id: None,
                            path: None,
                            value: None,
                        }),
                    ),
                ),
                span: Span::default(),
            }],
            terminator: Terminator {
                kind: TerminatorKind::Return,
                span: Span::default(),
            },
        }],
        span: Span::default(),
    };
    let cfg = SubsetConfig::default_for_test();
    let mut v = SubsetVisitor::new(&cfg);
    v.visit_body(&body, false);
    let report = v.into_report();
    assert_eq!(report.vc_obligations.len(), 1);
    assert!(
        report.vc_obligations[0].assumptions.is_empty(),
        "value-less constants must not produce pinning assertions; \
         got assumptions: {:?}",
        report.vc_obligations[0].assumptions,
    );
}

#[test]
fn multi_directive_injection_rejected() {
    let u32_ty = Ty { kind: TyKind::RigidTy(RigidTy::Uint(UintTy::U32)) };
    let body = Body {
        def_id: DefId(0),
        arg_tys: vec![u32_ty.clone()],
        arg_names: vec!["x".into()],
        return_ty: u32_ty.clone(),
        is_unsafe: false,
        is_async: false,
        locals: vec![
            LocalDecl { ty: u32_ty.clone(), span: Span::default(), mutability: Mutability::Not },
            LocalDecl { ty: u32_ty.clone(), span: Span::default(), mutability: Mutability::Not },
        ],
        blocks: vec![BasicBlockData {
            statements: vec![Statement {
                kind: StatementKind::Assign(
                    Place { local: Local(0), projection: vec![] },
                    Rvalue::BinaryOp(
                        BinOp::Add,
                        Operand::Copy(Place { local: Local(1), projection: vec![] }),
                        Operand::Constant(ConstOperand {
                            ty: u32_ty.clone(),
                            def_id: None,
                            path: None,
                            value: None,
                        }),
                    ),
                ),
                span: Span::default(),
            }],
            terminator: Terminator {
                kind: TerminatorKind::Return,
                span: Span::default(),
            },
        }],
        span: Span::default(),
    };
    let cfg = SubsetConfig::default_for_test();
    let mut v = SubsetVisitor::new(&cfg);

    let attacks = [
        "(check-sat) (assert false)",
        "(assert false) (check-sat)",
        "(push) (assert false) (pop)",
        "(define-fun evil () Bool false)",
    ];
    v.set_current_preconditions(attacks.iter().map(|s| s.to_string()).collect());
    v.visit_body(&body, false);
    let report = v.into_report();
    assert_eq!(report.vc_obligations.len(), 1);
    assert!(
        report.vc_obligations[0].assumptions.is_empty(),
        "EVERY malicious assumption must be refused; got {:?}",
        report.vc_obligations[0].assumptions,
    );

    assert_eq!(
        report.audit_notes.len(),
        attacks.len(),
        "expected one audit note per refused assumption; got {} notes for {} attacks",
        report.audit_notes.len(),
        attacks.len(),
    );
    for note in &report.audit_notes {
        assert!(
            note.message.contains("rejecting precondition"),
            "audit note should call out the rejection; got {:?}",
            note.message,
        );
    }
}

#[test]
fn raw_smt_lib_precondition_unchanged() {
    let u32_ty = Ty { kind: TyKind::RigidTy(RigidTy::Uint(UintTy::U32)) };
    let body = Body {
        def_id: DefId(0),
        arg_tys: vec![u32_ty.clone()],
        arg_names: vec!["x".into()],
        return_ty: u32_ty.clone(),
        is_unsafe: false,
        is_async: false,
        locals: vec![
            LocalDecl { ty: u32_ty.clone(), span: Span::default(), mutability: Mutability::Not },
            LocalDecl { ty: u32_ty.clone(), span: Span::default(), mutability: Mutability::Not },
        ],
        blocks: vec![BasicBlockData {
            statements: vec![Statement {
                kind: StatementKind::Assign(
                    Place { local: Local(0), projection: vec![] },
                    Rvalue::BinaryOp(
                        BinOp::Add,
                        Operand::Copy(Place { local: Local(1), projection: vec![] }),
                        Operand::Constant(ConstOperand {
                            ty: u32_ty.clone(),
                            def_id: None,
                            path: None,
                            value: None,
                        }),
                    ),
                ),
                span: Span::default(),
            }],
            terminator: Terminator {
                kind: TerminatorKind::Return,
                span: Span::default(),
            },
        }],
        span: Span::default(),
    };
    let cfg = SubsetConfig::default_for_test();
    let mut v = SubsetVisitor::new(&cfg);
    let raw = "(assert (bvult lhs #x00000050))";
    v.set_current_preconditions(vec![raw.to_string()]);
    v.visit_body(&body, false);
    let report = v.into_report();
    assert_eq!(report.vc_obligations.len(), 1);
    assert_eq!(
        report.vc_obligations[0].assumptions,
        vec![raw.to_string()],
        "raw SMT-LIB must pass through verbatim",
    );
}

#[test]
fn n1_projected_operand_emits_audit_note_for_skipped_pb049() {
    let u32_ty = Ty { kind: TyKind::RigidTy(RigidTy::Uint(UintTy::U32)) };

    let body = Body {
        def_id: DefId(0),
        arg_tys: vec![u32_ty.clone()],
        arg_names: vec!["p".into()],
        return_ty: u32_ty.clone(),
        is_unsafe: false,
        is_async: false,
        locals: vec![
            LocalDecl {
                ty: u32_ty.clone(),
                span: Span::default(),
                mutability: Mutability::Not,
            },
            LocalDecl {
                ty: u32_ty.clone(),
                span: Span::default(),
                mutability: Mutability::Not,
            },
        ],
        blocks: vec![BasicBlockData {
            statements: vec![Statement {
                kind: StatementKind::Assign(
                    Place { local: Local(0), projection: vec![] },
                    Rvalue::BinaryOp(
                        BinOp::Add,
                        Operand::Copy(Place {
                            local: Local(1),
                            projection: vec![ProjectionElem::Field(0)],
                        }),
                        Operand::Copy(Place {
                            local: Local(1),
                            projection: vec![ProjectionElem::Field(1)],
                        }),
                    ),
                ),
                span: Span::default(),
            }],
            terminator: Terminator {
                kind: TerminatorKind::Return,
                span: Span::default(),
            },
        }],
        span: Span::default(),
    };
    let cfg = SubsetConfig::default_for_test();
    let mut v = SubsetVisitor::new(&cfg);
    v.visit_body(&body, false);
    let report = v.into_report();

    assert!(
        report.vc_obligations.is_empty(),
        "projected operand should NOT emit a PB049 obligation today \
         (the visitor cannot construct a typed claim); got: {:?}",
        report.vc_obligations,
    );

    let pb049_skip_notes: Vec<_> = report
        .audit_notes
        .iter()
        .filter(|n| n.message.starts_with("PB049: BinaryOp"))
        .filter(|n| n.message.contains("skipped"))
        .collect();
    assert_eq!(
        pb049_skip_notes.len(),
        1,
        "exactly one PB049-skipped audit note expected; got {:?}",
        report.audit_notes,
    );

    assert_eq!(
        report.coverage_gap_count(),
        1,
        "the PB049 projected-operand skip must be a CoverageGap; got {:?}",
        report.audit_notes,
    );
}

#[test]
fn binary_op_on_bool_does_not_emit_obligation() {
    let bool_ty = Ty { kind: TyKind::RigidTy(RigidTy::Bool) };
    let body = Body {
        def_id: DefId(0),
        arg_tys: vec![],
        arg_names: vec![],
        return_ty: bool_ty.clone(),
        is_unsafe: false,
        is_async: false,
        locals: vec![LocalDecl {
            ty: bool_ty.clone(),
            span: Span::default(),
            mutability: Mutability::Not,
        }],
        blocks: vec![BasicBlockData {
            statements: vec![Statement {
                kind: StatementKind::Assign(
                    Place { local: Local(0), projection: vec![] },
                    Rvalue::BinaryOp(
                        BinOp::BitAnd,
                        Operand::Constant(ConstOperand {
                            ty: bool_ty.clone(),
                            def_id: None,
                            path: None,
                            value: None,
                        }),
                        Operand::Constant(ConstOperand {
                            ty: bool_ty.clone(),
                            def_id: None,
                            path: None,
                            value: None,
                        }),
                    ),
                ),
                span: Span::default(),
            }],
            terminator: Terminator {
                kind: TerminatorKind::Return,
                span: Span::default(),
            },
        }],
        span: Span::default(),
    };
    let cfg = SubsetConfig::default_for_test();
    let mut v = SubsetVisitor::new(&cfg);
    v.visit_body(&body, false);
    let report = v.into_report();
    assert!(
        report.vc_obligations.is_empty(),
        "BitAnd on bool must not emit overflow obligations; got {:?}",
        report.vc_obligations,
    );
}

#[test]
fn unclassifiable_callee_records_audit_note() {
    let cfg = SubsetConfig::default_for_test();
    let mut v = SubsetVisitor::new(&cfg);
    let body = body_calling_unclassifiable();
    v.visit_body(&body, false);
    let report = v.into_report();
    assert!(
        report.errors.is_empty(),
        "unclassifiable callee must not fire a hard violation; got {:?}",
        report.errors,
    );
    assert_eq!(
        report.audit_notes.len(),
        1,
        "expected exactly one audit note for the unclassifiable callee; got {:?}",
        report.audit_notes,
    );
    assert!(
        report.audit_notes[0].message.contains("callee not classified"),
        "audit note message should explain the gap; got {:?}",
        report.audit_notes[0].message,
    );
}

#[test]
fn unclassifiable_callee_note_is_coverage_gap() {
    let cfg = SubsetConfig::default_for_test();
    let mut v = SubsetVisitor::new(&cfg);
    v.visit_body(&body_calling_unclassifiable(), false);
    let report = v.into_report();
    assert_eq!(
        report.coverage_gap_count(),
        1,
        "an unclassifiable callee is a coverage gap; got {:?}",
        report.audit_notes,
    );
    assert!(
        report
            .audit_notes
            .iter()
            .all(|n| n.kind == pitbull_subset::diagnostic::AuditNoteKind::CoverageGap),
        "all notes here must be CoverageGap; got {:?}",
        report.audit_notes,
    );
}

#[test]
fn clean_body_has_no_coverage_gaps() {
    let cfg = SubsetConfig::default_for_test();
    let mut v = SubsetVisitor::new(&cfg);
    v.visit_body(&empty_body(), false);
    assert_eq!(v.into_report().coverage_gap_count(), 0);
}

#[test]
fn divergent_ensures_note_is_transparency() {
    let cfg = SubsetConfig::default_for_test();
    let mut v = SubsetVisitor::new(&cfg);
    v.set_current_ensures(vec!["result > 0".to_string()]);

    v.visit_body(&empty_body(), false);
    let report = v.into_report();
    assert!(
        report.audit_notes.iter().any(|n| n.message.contains("no return point")),
        "expected the divergent-ensures explanatory note; got {:?}",
        report.audit_notes,
    );
    assert_eq!(
        report.coverage_gap_count(),
        0,
        "the divergent-ensures note is Transparency (its obligation already \
         drives the exit code); got {:?}",
        report.audit_notes,
    );
}

fn body_calling(path: &str) -> Body {
    Body {
        def_id: DefId(0),
        arg_tys: vec![],
        arg_names: vec![],
        return_ty: Ty { kind: TyKind::RigidTy(RigidTy::Bool) },
        is_unsafe: false,
        is_async: false,
        locals: vec![],
        blocks: vec![BasicBlockData {
            statements: vec![],
            terminator: Terminator {
                kind: TerminatorKind::Call {
                    func: Operand::Constant(ConstOperand {
                        ty: Ty { kind: TyKind::RigidTy(RigidTy::Bool) },
                        def_id: None,
                        path: Some(path.into()),
                        value: None,
                    }),
                    args: vec![],
                    destination: Place { local: Local(0), projection: vec![] },
                    target: None,
                },
                span: Span::default(),
            },
        }],
        span: Span::default(),
    }
}

#[test]
fn unsafe_async_body_flags_reject_fail_closed() {
    let mk = |is_unsafe: bool, is_async: bool| Body {
        def_id: DefId(0),
        arg_tys: vec![],
        arg_names: vec![],
        return_ty: Ty { kind: TyKind::RigidTy(RigidTy::Bool) },
        is_unsafe,
        is_async,
        locals: vec![],
        blocks: vec![BasicBlockData {
            statements: vec![],
            terminator: Terminator {
                kind: TerminatorKind::Return,
                span: Span::default(),
            },
        }],
        span: Span::default(),
    };
    let cfg = SubsetConfig::default_for_test();

    let mut v = SubsetVisitor::new(&cfg);
    v.visit_body(&mk(true, false), false);
    assert!(
        v.into_report().errors.iter().any(|e| e.rule == rules::PB002),
        "an is_unsafe body must reject PB002 (the M1 fail-closed default's effect)",
    );

    let mut v2 = SubsetVisitor::new(&cfg);
    v2.visit_body(&mk(false, true), false);
    assert!(
        v2.into_report().errors.iter().any(|e| e.rule == rules::PB026),
        "an is_async body must reject PB026",
    );

    let mut v3 = SubsetVisitor::new(&cfg);
    v3.visit_body(&mk(false, false), false);
    let r3 = v3.into_report();
    assert!(
        !r3.errors.iter().any(|e| e.rule == rules::PB002 || e.rule == rules::PB026),
        "a safe sync body must not trip PB002/PB026; got {:?}",
        r3.errors,
    );
}

#[test]
fn default_accepts_panic_call_for_vc_discharge() {
    let cfg = SubsetConfig::default_for_test();
    assert!(!cfg.verification.strict_panic_acceptance);
    let mut v = SubsetVisitor::new(&cfg);
    let body = body_calling("core::panicking::panic_fmt");
    v.visit_body(&body, false);
    let report = v.into_report();
    assert!(
        !report.errors.iter().any(|e| e.rule == rules::PB043),
        "default mode: PB043 must NOT fire as a violation \
         (it becomes a VC obligation instead)",
    );
    let panic_obligations: Vec<_> = report
        .vc_obligations
        .iter()
        .filter(|o| matches!(
            o.kind,
            pitbull_subset::vc::VcObligationKind::PanicReachability,
        ))
        .collect();
    assert_eq!(
        panic_obligations.len(),
        1,
        "default mode: panic call must produce exactly one \
         PanicReachability obligation; got {panic_obligations:?}",
    );
    assert!(
        panic_obligations[0].id.starts_with("pb043-panic-"),
        "obligation id should follow pb043-panic-{{seq}} format; \
         got {:?}",
        panic_obligations[0].id,
    );
}

#[test]
fn default_panic_call_via_std_re_export_emits_obligation() {
    let cfg = SubsetConfig::default_for_test();
    let mut v = SubsetVisitor::new(&cfg);
    let body = body_calling("std::panicking::panic_fmt");
    v.visit_body(&body, false);
    let report = v.into_report();
    assert!(
        report.vc_obligations.iter().any(|o| matches!(
            o.kind,
            pitbull_subset::vc::VcObligationKind::PanicReachability,
        )),
        "std::panicking::* must also emit PanicReachability \
         (std re-export normalization); got {:?}",
        report.vc_obligations,
    );
}

#[test]
fn is_panic_call_path_recognizes_known_entry_points() {
    let positive = [
        "core::panicking::panic",
        "core::panicking::panic_fmt",
        "core::panicking::panic_explicit",
        "core::panicking::panic_nounwind_fmt",
        "core::panicking::panic_in_cleanup",
        "core::panicking::panic_const_add_overflow",
        "std::panicking::begin_panic",
        "std::panicking::set_hook",
        "core::panic",
        "std::panic",
        "core::panic_any",
        "std::panic_any",
        "std::rt::panic_fmt",
        "std::rt::panic_display",
        "std::rt::begin_panic",
        "std::rt::begin_panic_fmt",
    ];
    for p in positive {
        assert!(is_panic_call_path(p), "should classify as panic: {p}");
    }
    let negative = [
        "core::ptr::read_volatile",
        "core::sync::atomic::AtomicU32::load",
        "my_crate::helper",
        "std::fmt::Arguments::<'a>::from_str",
        "core::panic_lookalike",
        "",
    ];
    for p in negative {
        assert!(!is_panic_call_path(p), "should NOT classify as panic: {p}");
    }
}

#[test]
fn transmute_unchecked_fires_pb007() {
    let cfg = SubsetConfig::default_for_test();
    for path in [
        "core::intrinsics::transmute_unchecked",
        "std::intrinsics::transmute_unchecked",
    ] {
        let mut v = SubsetVisitor::new(&cfg);
        let body = body_calling(path);
        v.visit_body(&body, false);
        assert!(
            v.errors.iter().any(|e| e.rule == rules::PB007),
            "{path}: expected PB007 to fire; got {:?}",
            v.errors,
        );
    }
}

#[test]
fn allocator_trait_methods_fire_pb011() {
    let cfg = SubsetConfig::default_for_test();
    for path in [
        "core::alloc::Allocator::allocate",
        "core::alloc::Allocator::deallocate",
        "std::alloc::Allocator::allocate",
        "std::alloc::Allocator::grow",
    ] {
        let mut v = SubsetVisitor::new(&cfg);
        let body = body_calling(path);
        v.visit_body(&body, false);
        assert!(
            v.errors.iter().any(|e| e.rule == rules::PB011),
            "{path}: expected PB011 to fire; got {:?}",
            v.errors,
        );
    }
}
#[test]
fn std_rt_panic_fmt_emits_panic_reachability_obligation() {
    let cfg = SubsetConfig::default_for_test();
    let mut v = SubsetVisitor::new(&cfg);
    let body = body_calling("std::rt::panic_fmt");
    v.visit_body(&body, false);
    let report = v.into_report();
    let panic_obligations: Vec<_> = report
        .vc_obligations
        .iter()
        .filter(|o| matches!(
            o.kind,
            pitbull_subset::vc::VcObligationKind::PanicReachability,
        ))
        .collect();
    assert_eq!(
        panic_obligations.len(),
        1,
        "std::rt::panic_fmt must produce a PanicReachability \
         obligation (the actual lowering for `panic!()` in \
         std-using crates); got {panic_obligations:?}",
    );
}

#[test]
fn std_re_exports_match_for_all_classifier_rules() {
    let cfg = SubsetConfig::default_for_test();
    let cases = [
        ("std::alloc::alloc", rules::PB011),
        ("std::mem::transmute", rules::PB007),
        ("std::ptr::read_volatile", rules::PB025),
        ("std::ptr::write_volatile", rules::PB025),
        ("std::sync::atomic::AtomicU32::load", rules::PB023),
    ];
    for (path, expected_rule) in cases {
        let mut v = SubsetVisitor::new(&cfg);
        let body = body_calling(path);
        v.visit_body(&body, false);
        assert!(
            v.errors.iter().any(|e| e.rule == expected_rule),
            "{path}: expected {expected_rule:?} to fire; got errors {:?}",
            v.errors,
        );
    }
}

#[test]
fn is_panicking_library_call_classification() {
    let positive = [
        "core::option::Option::<u32>::unwrap",
        "core::option::Option::unwrap",
        "std::option::Option::<i64>::expect",
        "core::result::Result::<u8, E>::unwrap",
        "core::result::Result::<T, E>::unwrap_err",
        "std::result::Result::<T, E>::expect_err",

        "std::cmp::Ord::clamp",
        "core::cmp::Ord::clamp",
    ];
    for p in positive {
        assert!(is_panicking_library_call(p), "should be a panicking lib call: {p}");
    }
    let negative = [
        "core::option::Option::<u32>::unwrap_or",
        "core::option::Option::<u32>::unwrap_or_default",
        "core::option::Option::<u32>::unwrap_or_else",
        "core::option::Option::<u32>::is_some",
        "core::option::Option::<u32>::map",
        "my_crate::Thing::unwrap_widget",
        "core::result::Result::<T, E>::is_ok",

        "std::cmp::Ord::min",
        "std::cmp::Ord::max",
        "std::cmp::Ord::cmp",
        "",
    ];
    for p in negative {
        assert!(!is_panicking_library_call(p), "should NOT be a panicking lib call: {p}");
    }
}

#[test]
fn default_unwrap_call_emits_panic_reachability_obligation() {
    let cfg = SubsetConfig::default_for_test();
    assert!(!cfg.verification.strict_panic_acceptance);
    for path in [
        "core::option::Option::<u32>::unwrap",
        "std::option::Option::<u32>::expect",
        "core::result::Result::<u32, ()>::unwrap",
        "core::result::Result::<u32, ()>::unwrap_err",
    ] {
        let mut v = SubsetVisitor::new(&cfg);
        v.visit_body(&body_calling(path), false);
        let report = v.into_report();
        assert!(
            !report.errors.iter().any(|e| e.rule == rules::PB043),
            "{path}: default mode must NOT hard-reject (obligation instead); got {:?}",
            report.errors,
        );
        assert!(
            report.vc_obligations.iter().any(|o| matches!(
                o.kind,
                pitbull_subset::vc::VcObligationKind::PanicReachability,
            )),
            "{path}: must emit a PanicReachability obligation; got {:?}",
            report.vc_obligations,
        );
    }
}

#[test]
fn strict_mode_unwrap_call_rejects_pb043() {
    let mut cfg = SubsetConfig::default_for_test();
    cfg.verification.strict_panic_acceptance = true;
    let mut v = SubsetVisitor::new(&cfg);
    v.visit_body(&body_calling("core::option::Option::<u32>::unwrap"), false);
    let report = v.into_report();
    assert!(
        report.errors.iter().any(|e| e.rule == rules::PB043),
        "strict mode: unwrap must hard-reject PB043; got {:?}",
        report.errors,
    );
    assert!(
        !report.vc_obligations.iter().any(|o| matches!(
            o.kind,
            pitbull_subset::vc::VcObligationKind::PanicReachability,
        )),
        "strict mode emits no obligation (the reject already terminates the check)",
    );
}

#[test]
fn unwrap_or_is_not_flagged_as_panic() {
    let cfg = SubsetConfig::default_for_test();
    let mut v = SubsetVisitor::new(&cfg);
    v.visit_body(&body_calling("core::option::Option::<u32>::unwrap_or"), false);
    let report = v.into_report();
    assert!(
        !report.errors.iter().any(|e| e.rule == rules::PB043),
        "unwrap_or must not hard-reject; got {:?}",
        report.errors,
    );
    assert!(
        !report.vc_obligations.iter().any(|o| matches!(
            o.kind,
            pitbull_subset::vc::VcObligationKind::PanicReachability,
        )),
        "unwrap_or must not emit a PanicReachability obligation; got {:?}",
        report.vc_obligations,
    );
}

#[test]
fn is_panicking_int_method_classification() {
    let positive = [
        "core::num::<impl u32>::pow",
        "core::num::<impl i32>::abs",
        "core::num::<impl i32>::div_euclid",
        "core::num::<impl i64>::rem_euclid",
        "core::num::<impl u32>::next_power_of_two",
        "core::num::<impl u32>::ilog2",

        "core::num::<impl i32>::isqrt",
        "core::num::<impl isize>::isqrt",
        "core::num::<impl u32>::next_multiple_of",
        "core::num::<impl u32>::div_ceil",
        "core::num::<impl u32>::strict_add",
        "core::num::<impl i32>::strict_sub",
        "core::num::<impl u64>::strict_mul",
        "core::num::<impl i32>::strict_neg",
        "core::num::<impl u32>::strict_shl",
        "core::num::<impl i32>::strict_add_unsigned",
        "core::num::<impl i32>::from_str_radix",

        "core::num::<impl i32>::wrapping_div",
        "core::num::<impl u32>::wrapping_rem",
        "core::num::<impl i64>::wrapping_div_euclid",
        "core::num::<impl i32>::wrapping_rem_euclid",
        "core::num::<impl u32>::overflowing_div",
        "core::num::<impl i32>::overflowing_rem",
        "core::num::<impl i32>::overflowing_div_euclid",
        "core::num::<impl i64>::overflowing_rem_euclid",
        "core::num::<impl i32>::saturating_div",

        "std::iter::Iterator::sum",
        "core::iter::Iterator::product",
        "std::iter::Iterator::step_by",
    ];
    for p in positive {
        assert!(is_panicking_int_method(p), "should be a panicking int method: {p}");
    }
    let negative = [
        "core::num::<impl u32>::wrapping_add",
        "core::num::<impl u32>::wrapping_pow",
        "core::num::<impl u32>::checked_pow",
        "core::num::<impl u32>::overflowing_pow",
        "core::num::<impl u32>::saturating_pow",
        "core::num::<impl i32>::unsigned_abs",
        "core::num::<impl u32>::abs_diff",
        "core::num::<impl u32>::isqrt",
        "core::num::<impl usize>::isqrt",
        "core::num::<impl u32>::midpoint",
        "core::num::<impl u32>::checked_div_ceil",
        "core::num::<impl u32>::checked_next_multiple_of",

        "core::num::<impl i32>::checked_div",
        "core::num::<impl u32>::checked_rem",
        "core::num::<impl i32>::checked_div_euclid",
        "core::num::<impl i64>::checked_rem_euclid",
        "core::num::<impl u32>::unbounded_shl",
        "core::num::<impl u32>::count_ones",
        "my_crate::Widget::pow",
        "my_crate::Widget::isqrt",
    ];
    for p in negative {
        assert!(!is_panicking_int_method(p), "should NOT be a panicking int method: {p}");
    }
}

#[test]
fn is_panicking_char_method_classification() {
    let positive = [
        "std::char::from_digit",
        "core::char::from_digit",
        "std::char::methods::<impl char>::to_digit",
        "std::char::methods::<impl char>::is_digit",

        "std::char::methods::<impl char>::encode_utf8",
        "std::char::methods::<impl char>::encode_utf16",
    ];
    for p in positive {
        assert!(is_panicking_char_method(p), "should be a panicking char method: {p}");
    }
    let negative = [
        "std::char::methods::<impl char>::is_alphabetic",
        "std::char::methods::<impl char>::is_numeric",
        "std::char::methods::<impl char>::to_ascii_uppercase",
        "std::char::methods::<impl char>::len_utf8",
        "std::char::methods::<impl char>::len_utf16",
        "core::char::from_u32",
        "my_crate::Glyph::to_digit",
    ];
    for p in negative {
        assert!(!is_panicking_char_method(p), "should NOT be a panicking char method: {p}");
    }
}

#[test]
fn is_trusted_total_library_call_classification() {
    let allowed = [
        "core::num::<impl u32>::wrapping_add",
        "core::num::<impl i32>::checked_div",
        "core::num::<impl u32>::saturating_mul",
        "core::num::<impl u32>::midpoint",
        "core::num::<impl u32>::abs_diff",
        "core::num::<impl u32>::isqrt",
        "core::num::<impl u32>::to_le_bytes",
        "core::num::<impl u32>::from_le_bytes",
        "core::num::<impl u32>::count_ones",

        "core::num::<impl i32>::checked_div",
        "core::num::<impl u32>::checked_rem",
        "core::num::<impl i32>::checked_div_euclid",
        "std::cmp::Ord::min",
        "std::cmp::Ord::max",
        "std::convert::From::from",
        "core::convert::TryFrom::try_from",
        "std::char::methods::<impl char>::is_alphabetic",
        "std::char::methods::<impl char>::to_ascii_uppercase",
        "std::char::methods::<impl char>::len_utf8",
        "core::char::from_u32",
        "core::slice::<impl [T]>::len",
        "core::slice::<impl [T]>::get",
        "core::slice::<impl [T]>::first_chunk",
        "std::option::Option::<T>::is_some",
        "core::result::Result::<T, E>::map",

        "std::option::Option::<T>::and",
        "std::option::Option::<T>::or",
        "std::option::Option::<T>::xor",
        "std::option::Option::<T>::zip",
        "std::option::Option::<T>::get_or_insert",
        "std::option::Option::<std::result::Result<T, E>>::transpose",
        "std::result::Result::<T, E>::and",
        "std::result::Result::<T, E>::or",
        "core::slice::<impl [T]>::binary_search",
    ];
    for p in allowed {
        assert!(is_trusted_total_library_call(p), "should be allow-listed total: {p}");
    }
    let denied = [
        "core::mem::swap",
        "core::mem::replace",
        "core::ptr::read",
        "core::hint::black_box",

        "std::cmp::Ord::clamp",
        "core::slice::<impl [T]>::sort",
        "core::slice::<impl [T]>::sort_unstable",
        "core::num::<impl i32>::isqrt",
        "core::num::<impl u32>::pow",
        "core::num::<impl u32>::next_multiple_of",

        "core::num::<impl i32>::wrapping_div",
        "core::num::<impl u32>::wrapping_rem",
        "core::num::<impl i64>::wrapping_div_euclid",
        "core::num::<impl i32>::wrapping_rem_euclid",
        "core::num::<impl u32>::overflowing_div",
        "core::num::<impl i32>::overflowing_rem",
        "core::num::<impl i32>::overflowing_div_euclid",
        "core::num::<impl i64>::overflowing_rem_euclid",
        "core::num::<impl i32>::saturating_div",
        "core::slice::<impl [T]>::swap",
        "std::char::methods::<impl char>::to_digit",
        "std::iter::Iterator::sum",

        "std::ops::Div::div",
        "std::ops::Rem::rem",
        "std::ops::Neg::neg",
        "std::ops::Add::add",
        "std::ops::Index::index",

        "std::option::Option::<T>::get_or_insert_with",
        "core::slice::<impl [T]>::binary_search_by",
        "core::slice::<impl [T]>::binary_search_by_key",
    ];
    for p in denied {
        assert!(!is_trusted_total_library_call(p), "should NOT be allow-listed: {p}");
    }
}

#[test]
fn is_stdlib_namespace_path_classification() {
    for p in [
        "core::mem::swap",
        "std::cmp::Ord::min",
        "alloc::vec::Vec::<T>::new",

        "std::ops::Div::div",
        "std::ops::Index::index",
        "std::iter::Iterator::sum",
    ] {
        assert!(is_stdlib_namespace_path(p), "should be a stdlib path: {p}");
    }
    for p in [
        "corpus_test::helper",
        "mycrate::module::f",
        "crate::helper",

        "<corpus_test::Foo as std::cmp::Ord>::cmp",
    ] {
        assert!(!is_stdlib_namespace_path(p), "should NOT be a stdlib path: {p}");
    }
}

#[test]
fn prelude_arm_fails_closed_on_untrusted_stdlib() {
    let cfg = SubsetConfig::default_for_test();
    assert!(
        cfg.verification.strict_library_acceptance,
        "default must be fail-closed",
    );

    let mut v = SubsetVisitor::new(&cfg);
    v.visit_body(&body_calling("core::mem::swap"), false);
    let report = v.into_report();
    assert!(
        report.coverage_gap_count() >= 1
            && report.audit_notes.iter().any(|n| n.message.contains("untrusted stdlib")),
        "unlisted `core::mem::swap` must emit an untrusted-stdlib coverage gap; notes: {:?}",
        report.audit_notes,
    );

    let mut v2 = SubsetVisitor::new(&cfg);
    v2.visit_body(&body_calling("core::num::<impl u32>::wrapping_add"), false);
    assert_eq!(
        v2.into_report().coverage_gap_count(),
        0,
        "allow-listed total call must not gap",
    );

    let mut v3 = SubsetVisitor::new(&cfg);
    v3.visit_body(&body_calling("corpus_test::helper"), false);
    assert_eq!(
        v3.into_report().coverage_gap_count(),
        0,
        "in-crate callee must not gap (owned by the reachability gates)",
    );

    let mut cfg_off = SubsetConfig::default_for_test();
    cfg_off.verification.strict_library_acceptance = false;
    let mut v4 = SubsetVisitor::new(&cfg_off);
    v4.visit_body(&body_calling("core::mem::swap"), false);
    assert_eq!(
        v4.into_report().coverage_gap_count(),
        0,
        "opt-out (strict_library_acceptance=false) must restore trust-all-stdlib",
    );
}

#[test]
fn panicking_int_methods_emit_obligation_method_form_not_silent() {
    let cfg = SubsetConfig::default_for_test();
    for path in [
        "core::num::<impl u32>::pow",
        "core::num::<impl i32>::abs",
        "core::num::<impl i32>::div_euclid",

        "core::num::<impl i32>::isqrt",
        "core::num::<impl u32>::next_multiple_of",
        "core::num::<impl u32>::div_ceil",
        "core::num::<impl u32>::strict_add",
        "core::num::<impl i32>::from_str_radix",
        "std::iter::Iterator::step_by",

        "std::char::from_digit",
        "std::char::methods::<impl char>::to_digit",
    ] {
        let mut v = SubsetVisitor::new(&cfg);
        v.visit_body(&body_calling(path), false);
        let report = v.into_report();
        assert!(
            report.vc_obligations.iter().any(|o| matches!(
                o.kind,
                pitbull_subset::vc::VcObligationKind::PanicReachability,
            )),
            "{path}: must emit a PanicReachability obligation; got {:?}",
            report.vc_obligations,
        );
    }
}

#[test]
fn wrapping_int_method_is_not_flagged() {
    let cfg = SubsetConfig::default_for_test();
    let mut v = SubsetVisitor::new(&cfg);
    v.visit_body(&body_calling("core::num::<impl u32>::wrapping_add"), false);
    let report = v.into_report();
    assert!(
        !report.vc_obligations.iter().any(|o| matches!(
            o.kind,
            pitbull_subset::vc::VcObligationKind::PanicReachability,
        )) && !report.errors.iter().any(|e| e.rule == rules::PB043),
        "wrapping_add must not be flagged; got errors {:?}, obligations {:?}",
        report.errors,
        report.vc_obligations,
    );
}

#[test]
fn is_panicking_index_or_slice_call_classification() {
    let positive = [
        "std::ops::Index::index",
        "core::ops::Index::index",
        "std::ops::IndexMut::index_mut",
        "core::slice::<impl [T]>::split_at",
        "core::slice::<impl [T]>::split_at_mut",
        "core::slice::<impl [T]>::chunks",
        "core::slice::<impl [T]>::chunks_exact",
        "core::slice::<impl [T]>::rchunks_exact",
        "core::slice::<impl [T]>::windows",

        "core::slice::<impl [T]>::swap",
        "core::slice::<impl [T]>::swap_with_slice",
        "core::slice::<impl [T]>::rotate_left",
        "core::slice::<impl [T]>::rotate_right",
        "core::slice::<impl [T]>::copy_from_slice",
        "core::slice::<impl [T]>::clone_from_slice",
        "core::slice::<impl [T]>::copy_within",
        "core::slice::<impl [T]>::select_nth_unstable",
        "core::slice::<impl [T]>::select_nth_unstable_by_key",

        "core::slice::<impl [T]>::as_chunks",
        "core::slice::<impl [T]>::as_chunks_mut",
        "core::slice::<impl [T]>::as_rchunks",
        "core::slice::<impl [T]>::as_rchunks_mut",

        "core::slice::<impl [T]>::sort",
        "alloc::slice::<impl [T]>::sort",
        "core::slice::<impl [T]>::sort_unstable",

        "core::str::<impl str>::split_at",
        "core::str::<impl str>::split_at_mut",
    ];
    for p in positive {
        assert!(is_panicking_index_or_slice_call(p), "should be flagged: {p}");
    }
    let negative = [
        "core::slice::<impl [T]>::len",
        "core::slice::<impl [T]>::iter",
        "core::slice::<impl [T]>::first",
        "core::slice::<impl [T]>::split_first",
        "core::slice::<impl [T]>::split_at_checked",
        "core::slice::<impl [T]>::first_chunk",
        "core::slice::<impl [T]>::split_first_chunk",
        "core::slice::<impl [T]>::fill",
        "core::slice::<impl [T]>::binary_search",
        "my_crate::MyIndex::index",
        "core::slice::<impl [T]>::as_ptr",
        "core::mem::swap",
        "core::num::<impl u32>::rotate_left",
        "core::ffi::c_str::<impl CStr>::to_bytes",
    ];
    for p in negative {
        assert!(!is_panicking_index_or_slice_call(p), "should NOT be flagged: {p}");
    }
}

#[test]
fn call_to_precondition_carrying_fn_fails_closed_as_coverage_gap() {
    let cfg = SubsetConfig::default_for_test();

    let mut v = SubsetVisitor::new(&cfg);
    let mut known = Vec::new();
    known.push("my_crate::safe_div".to_string());
    v.set_known_precondition_fns(known);
    v.visit_body(&body_calling("my_crate::safe_div"), false);
    let report = v.into_report();
    assert_eq!(
        report.coverage_gap_count(),
        1,
        "a call to a precondition-carrying fn must record exactly one \
         coverage gap (call-site discharge is unimplemented); notes: {:?}",
        report.audit_notes,
    );
    assert!(
        report.audit_notes.iter().any(|n| n.message.contains("call-site")),
        "the gap must name the call-site-precondition cause: {:?}",
        report.audit_notes,
    );

    let mut v2 = SubsetVisitor::new(&cfg);
    v2.visit_body(&body_calling("my_crate::safe_div"), false);
    let report2 = v2.into_report();
    assert_eq!(
        report2.coverage_gap_count(),
        0,
        "an unregistered in-crate callee must NOT gap: {:?}",
        report2.audit_notes,
    );
}

#[test]
fn range_index_and_slice_methods_emit_obligation() {
    let cfg = SubsetConfig::default_for_test();
    for path in [
        "std::ops::Index::index",
        "core::slice::<impl [T]>::split_at",
        "core::slice::<impl [T]>::chunks",

        "core::slice::<impl [T]>::swap",
        "core::slice::<impl [T]>::copy_from_slice",
        "core::slice::<impl [T]>::rotate_left",
        "core::str::<impl str>::split_at",
    ] {
        let mut v = SubsetVisitor::new(&cfg);
        v.visit_body(&body_calling(path), false);
        let report = v.into_report();
        assert!(
            report.vc_obligations.iter().any(|o| matches!(
                o.kind,
                pitbull_subset::vc::VcObligationKind::PanicReachability,
            )),
            "{path}: must emit a PanicReachability obligation; got {:?}",
            report.vc_obligations,
        );
    }
}

#[test]
fn strict_mode_panic_does_not_emit_obligation() {
    let mut cfg = SubsetConfig::default_for_test();
    cfg.verification.strict_panic_acceptance = true;
    let mut v = SubsetVisitor::new(&cfg);
    let body = body_calling("core::panicking::panic_fmt");
    v.visit_body(&body, false);
    let report = v.into_report();
    assert!(
        report.errors.iter().any(|e| e.rule == rules::PB043),
        "strict mode: PB043 must fire as a violation",
    );
    assert!(
        !report.vc_obligations.iter().any(|o| matches!(
            o.kind,
            pitbull_subset::vc::VcObligationKind::PanicReachability,
        )),
        "strict mode: no PanicReachability obligation should be \
         emitted (the reject is the verdict); got {:?}",
        report.vc_obligations,
    );
}

#[test]
fn strict_mode_rejects_panic_call() {
    let mut cfg = SubsetConfig::default_for_test();
    cfg.verification.strict_panic_acceptance = true;
    let mut v = SubsetVisitor::new(&cfg);
    let body = body_calling("core::panicking::panic_fmt");
    v.visit_body(&body, false);
    assert!(
        v.errors.iter().any(|e| e.rule == rules::PB043),
        "strict mode: expected PB043 to fire on panic call; got {:?}",
        v.errors
    );
}

#[test]
fn strict_mode_does_not_misidentify_other_calls() {
    let mut cfg = SubsetConfig::default_for_test();
    cfg.verification.strict_panic_acceptance = true;
    let mut v = SubsetVisitor::new(&cfg);
    let body = body_calling("my_crate::some_helper");
    v.visit_body(&body, false);
    assert!(
        !v.errors.iter().any(|e| e.rule == rules::PB043),
        "PB043 must only fire on `core::panicking::*` paths"
    );
}

#[test]
fn classifies_atomic_call() {
    let cfg = SubsetConfig::default_for_test();
    let mut v = SubsetVisitor::new(&cfg);
    let body = body_calling("core::sync::atomic::AtomicU32::load");
    v.visit_body(&body, false);
    assert!(
        v.errors.iter().any(|e| e.rule == rules::PB023),
        "expected PB023 on atomic call; got {:?}",
        v.errors
    );
}

#[test]
fn classifies_volatile_call() {
    let cfg = SubsetConfig::default_for_test();
    let mut v = SubsetVisitor::new(&cfg);
    let body = body_calling("core::ptr::read_volatile");
    v.visit_body(&body, false);
    assert!(
        v.errors.iter().any(|e| e.rule == rules::PB025),
        "expected PB025 on volatile call"
    );
}

#[test]
fn classifies_thread_spawn() {
    let cfg = SubsetConfig::default_for_test();
    let mut v = SubsetVisitor::new(&cfg);
    let body = body_calling("std::thread::spawn");
    v.visit_body(&body, false);
    assert!(v.errors.iter().any(|e| e.rule == rules::PB028));
}

#[test]
fn user_crate_shadowing_stdlib_does_not_trigger_pb043() {
    let mut cfg = SubsetConfig::default_for_test();
    cfg.verification.strict_panic_acceptance = true;
    let mut v = SubsetVisitor::new(&cfg);
    let body = body_calling("evil_crate::core::panicking::panic_fmt");
    v.visit_body(&body, false);
    assert!(
        !v.errors.iter().any(|e| e.rule == rules::PB043),
        "user-crate path containing 'core::panicking::' must NOT match PB043"
    );
}

#[test]
fn user_module_named_panicking_does_not_trigger_pb043() {
    let mut cfg = SubsetConfig::default_for_test();
    cfg.verification.strict_panic_acceptance = true;
    let mut v = SubsetVisitor::new(&cfg);
    let body = body_calling("my_crate::panicking::recover");
    v.visit_body(&body, false);
    assert!(
        !v.errors.iter().any(|e| e.rule == rules::PB043),
        "user path 'panicking::recover' must NOT match PB043"
    );
}

#[test]
fn allocator_api_call_triggers_pb011() {
    let cfg = SubsetConfig::default_for_test();
    let mut v = SubsetVisitor::new(&cfg);
    let body = body_calling("alloc::alloc::alloc");
    v.visit_body(&body, false);
    assert!(
        v.errors.iter().any(|e| e.rule == rules::PB011),
        "allocator call must trigger PB011"
    );
}

fn body_with_index_projection(proj: ProjectionElem) -> Body {
    let u8_ty = Ty { kind: TyKind::RigidTy(RigidTy::Uint(UintTy::U8)) };
    Body {
        def_id: DefId(0),
        arg_tys: vec![],
        arg_names: vec![],
        return_ty: u8_ty.clone(),
        is_unsafe: false,
        is_async: false,
        locals: vec![
            LocalDecl {
                ty: u8_ty.clone(),
                span: Span::default(),
                mutability: Mutability::Not,
            },
            LocalDecl {
                ty: u8_ty,
                span: Span::default(),
                mutability: Mutability::Not,
            },
        ],
        blocks: vec![BasicBlockData {
            statements: vec![Statement {
                kind: StatementKind::Assign(
                    Place { local: Local(0), projection: vec![] },
                    Rvalue::Use(Operand::Copy(Place {
                        local: Local(1),
                        projection: vec![proj],
                    })),
                ),
                span: Span::default(),
            }],
            terminator: Terminator {
                kind: TerminatorKind::Return,
                span: Span::default(),
            },
        }],
        span: Span::default(),
    }
}
#[test]
fn projection_index_emits_index_bound_obligation() {
    let cfg = SubsetConfig::default_for_test();
    let mut v = SubsetVisitor::new(&cfg);
    let body = body_with_index_projection(ProjectionElem::Index(Local(1)));
    v.visit_body(&body, false);
    let report = v.into_report();
    assert_eq!(
        report.vc_obligations.len(),
        1,
        "Index projection must emit exactly one IndexBound obligation; got {:?}",
        report.vc_obligations,
    );
    assert!(
        matches!(
            report.vc_obligations[0].kind,
            pitbull_subset::vc::VcObligationKind::IndexBound { .. }
        ),
        "expected IndexBound; got {:?}",
        report.vc_obligations[0].kind,
    );
    assert!(
        report.vc_obligations[0].id.starts_with("pb054-idx-"),
        "VC id must follow pb054-idx-{{seq}} format to distinguish \
         from the projection-depth PB054 site; got {:?}",
        report.vc_obligations[0].id,
    );
}
#[test]
fn projection_constant_index_emits_index_bound_obligation() {
    let cfg = SubsetConfig::default_for_test();
    let mut v = SubsetVisitor::new(&cfg);
    let body = body_with_index_projection(ProjectionElem::ConstantIndex { offset: 3 });
    v.visit_body(&body, false);
    let report = v.into_report();
    assert_eq!(report.vc_obligations.len(), 1);
    assert!(matches!(
        report.vc_obligations[0].kind,
        pitbull_subset::vc::VcObligationKind::IndexBound { .. }
    ));
    assert!(report.vc_obligations[0].id.starts_with("pb054-idx-"));
}
#[test]
fn projection_subslice_emits_index_bound_obligation() {
    let cfg = SubsetConfig::default_for_test();
    let mut v = SubsetVisitor::new(&cfg);
    let body = body_with_index_projection(ProjectionElem::Subslice { from: 0, to: 4 });
    v.visit_body(&body, false);
    let report = v.into_report();
    assert_eq!(report.vc_obligations.len(), 1);
    assert!(matches!(
        report.vc_obligations[0].kind,
        pitbull_subset::vc::VcObligationKind::IndexBound { .. }
    ));
    assert!(report.vc_obligations[0].id.starts_with("pb054-idx-"));
}

#[test]
fn non_index_projections_do_not_emit_index_bound() {
    let cfg = SubsetConfig::default_for_test();
    let u8_ty = Ty { kind: TyKind::RigidTy(RigidTy::Uint(UintTy::U8)) };
    let non_index_projections = vec![
        ProjectionElem::Deref,
        ProjectionElem::Field(0),
        ProjectionElem::Downcast(0),
    ];
    for proj in non_index_projections {
        let mut v = SubsetVisitor::new(&cfg);
        let body = Body {
            def_id: DefId(0),
            arg_tys: vec![],
            arg_names: vec![],
            return_ty: u8_ty.clone(),
            is_unsafe: false,
            is_async: false,
            locals: vec![
                LocalDecl {
                    ty: u8_ty.clone(),
                    span: Span::default(),
                    mutability: Mutability::Not,
                },
                LocalDecl {
                    ty: u8_ty.clone(),
                    span: Span::default(),
                    mutability: Mutability::Not,
                },
            ],
            blocks: vec![BasicBlockData {
                statements: vec![Statement {
                    kind: StatementKind::Assign(
                        Place { local: Local(0), projection: vec![] },
                        Rvalue::Use(Operand::Copy(Place {
                            local: Local(1),
                            projection: vec![proj.clone()],
                        })),
                    ),
                    span: Span::default(),
                }],
                terminator: Terminator {
                    kind: TerminatorKind::Return,
                    span: Span::default(),
                },
            }],
            span: Span::default(),
        };
        v.visit_body(&body, false);
        let report = v.into_report();
        let index_bound_count = report
            .vc_obligations
            .iter()
            .filter(|o| matches!(
                o.kind,
                pitbull_subset::vc::VcObligationKind::IndexBound { .. },
            ))
            .count();
        assert_eq!(
            index_bound_count, 0,
            "{:?} projection must NOT emit an IndexBound obligation; got {:?}",
            proj, report.vc_obligations,
        );
    }
}

#[test]
fn index_bound_carries_body_preconditions() {
    let cfg = SubsetConfig::default_for_test();
    let mut v = SubsetVisitor::new(&cfg);
    v.set_current_preconditions(vec![
        "(assert (bvult idx #x00000064))".into(),
    ]);
    let body = body_with_index_projection(ProjectionElem::Index(Local(1)));
    v.visit_body(&body, false);
    let report = v.into_report();
    assert_eq!(report.vc_obligations.len(), 1);
    assert_eq!(
        report.vc_obligations[0].assumptions,
        vec!["(assert (bvult idx #x00000064))"],
        "IndexBound obligation must carry installed preconditions verbatim",
    );
}

#[test]
fn multiple_index_bounds_get_distinct_ids() {
    let cfg = SubsetConfig::default_for_test();
    let u8_ty = Ty { kind: TyKind::RigidTy(RigidTy::Uint(UintTy::U8)) };
    let body = Body {
        def_id: DefId(0),
        arg_tys: vec![],
        arg_names: vec![],
        return_ty: u8_ty.clone(),
        is_unsafe: false,
        is_async: false,
        locals: vec![
            LocalDecl {
                ty: u8_ty.clone(),
                span: Span::default(),
                mutability: Mutability::Not,
            },
            LocalDecl {
                ty: u8_ty.clone(),
                span: Span::default(),
                mutability: Mutability::Not,
            },
        ],
        blocks: vec![BasicBlockData {
            statements: vec![
                Statement {
                    kind: StatementKind::Assign(
                        Place { local: Local(0), projection: vec![] },
                        Rvalue::Use(Operand::Copy(Place {
                            local: Local(1),
                            projection: vec![ProjectionElem::Index(Local(1))],
                        })),
                    ),
                    span: Span::default(),
                },
                Statement {
                    kind: StatementKind::Assign(
                        Place { local: Local(0), projection: vec![] },
                        Rvalue::Use(Operand::Copy(Place {
                            local: Local(1),
                            projection: vec![ProjectionElem::ConstantIndex { offset: 7 }],
                        })),
                    ),
                    span: Span::default(),
                },
            ],
            terminator: Terminator {
                kind: TerminatorKind::Return,
                span: Span::default(),
            },
        }],
        span: Span::default(),
    };
    let mut v = SubsetVisitor::new(&cfg);
    v.visit_body(&body, false);
    let report = v.into_report();
    assert_eq!(report.vc_obligations.len(), 2);
    assert_eq!(report.vc_obligations[0].id, "pb054-idx-0");
    assert_eq!(report.vc_obligations[1].id, "pb054-idx-1");
}

#[test]
fn index_projection_binds_arg_source_name() {
    let cfg = SubsetConfig::default_for_test();
    let u8_ty = Ty { kind: TyKind::RigidTy(RigidTy::Uint(UintTy::U8)) };
    let usize_ty = Ty { kind: TyKind::RigidTy(RigidTy::Uint(UintTy::Usize)) };

    let body = Body {
        def_id: DefId(0),
        arg_tys: vec![u8_ty.clone(), usize_ty.clone()],
        arg_names: vec!["s".into(), "i".into()],
        return_ty: u8_ty.clone(),
        is_unsafe: false,
        is_async: false,
        locals: vec![
            LocalDecl {
                ty: u8_ty.clone(),
                span: Span::default(),
                mutability: Mutability::Not,
            },
            LocalDecl {
                ty: u8_ty.clone(),
                span: Span::default(),
                mutability: Mutability::Not,
            },
            LocalDecl {
                ty: usize_ty,
                span: Span::default(),
                mutability: Mutability::Not,
            },
        ],
        blocks: vec![BasicBlockData {
            statements: vec![Statement {
                kind: StatementKind::Assign(
                    Place { local: Local(0), projection: vec![] },
                    Rvalue::Use(Operand::Copy(Place {
                        local: Local(1),
                        projection: vec![ProjectionElem::Index(Local(2))],
                    })),
                ),
                span: Span::default(),
            }],
            terminator: Terminator {
                kind: TerminatorKind::Return,
                span: Span::default(),
            },
        }],
        span: Span::default(),
    };
    let mut v = SubsetVisitor::new(&cfg);
    v.visit_body(&body, false);
    let report = v.into_report();
    assert_eq!(report.vc_obligations.len(), 1);
    let pitbull_subset::vc::VcObligationKind::IndexBound { idx_source_name } =
        &report.vc_obligations[0].kind
    else {
        panic!("expected IndexBound; got {:?}", report.vc_obligations[0].kind);
    };
    assert_eq!(
        idx_source_name.as_deref(),
        Some("i"),
        "index `Local(2)` should resolve to arg name \"i\" via local_arg_name lookup; got {:?}",
        idx_source_name,
    );
}

#[test]
fn index_projection_with_non_arg_local_has_no_binding() {
    let cfg = SubsetConfig::default_for_test();

    let mut v = SubsetVisitor::new(&cfg);
    let body = body_with_index_projection(ProjectionElem::Index(Local(1)));
    v.visit_body(&body, false);
    let report = v.into_report();
    let pitbull_subset::vc::VcObligationKind::IndexBound { idx_source_name } =
        &report.vc_obligations[0].kind
    else {
        panic!("expected IndexBound");
    };
    assert_eq!(
        *idx_source_name, None,
        "non-arg index local must not bind to a source name; got {:?}",
        idx_source_name,
    );
}

#[test]
fn constant_index_and_subslice_have_no_idx_source_name() {
    let cfg = SubsetConfig::default_for_test();
    for proj in [
        ProjectionElem::ConstantIndex { offset: 3 },
        ProjectionElem::Subslice { from: 0, to: 4 },
    ] {
        let mut v = SubsetVisitor::new(&cfg);
        let body = body_with_index_projection(proj.clone());
        v.visit_body(&body, false);
        let report = v.into_report();
        let pitbull_subset::vc::VcObligationKind::IndexBound { idx_source_name } =
            &report.vc_obligations[0].kind
        else {
            panic!("expected IndexBound for {:?}", proj);
        };
        assert_eq!(
            *idx_source_name, None,
            "{:?} must carry None for idx_source_name (no MIR local)",
            proj,
        );
    }
}

#[test]
fn ensures_on_divergent_body_fails_closed_with_obligation_and_note() {
    let cfg = SubsetConfig::default_for_test();
    let mut v = SubsetVisitor::new(&cfg);
    v.set_current_ensures(vec!["result < 101".to_string()]);
    let body = empty_body();
    v.visit_body(&body, false);
    let report = v.into_report();

    let pb076_count = report
        .vc_obligations
        .iter()
        .filter(|o| matches!(
            o.kind,
            pitbull_subset::vc::VcObligationKind::EnsuresPostcondition { .. }
        ))
        .count();
    assert_eq!(
        pb076_count, 1,
        "divergent body with ensures must STILL emit a (pending) PB076 \
         obligation — fail closed, no exit-0 asymmetry vs returning bodies",
    );

    let has_divergent_note = report
        .audit_notes
        .iter()
        .any(|n| n.message.contains("no return point"));
    assert!(
        has_divergent_note,
        "divergent body with ensures must surface a 'no return point' \
         audit note; got notes: {:?}",
        report.audit_notes,
    );
}

#[test]
fn div_rem_shift_same_type_emit_arith_obligation() {
    let cfg = SubsetConfig::default_for_test();
    let u32_ty = Ty { kind: TyKind::RigidTy(RigidTy::Uint(UintTy::U32)) };
    let cases = [
        (BinOp::Div, pitbull_subset::vc::ArithOp::Div, "div"),
        (BinOp::Rem, pitbull_subset::vc::ArithOp::Rem, "rem"),
        (BinOp::Shl, pitbull_subset::vc::ArithOp::Shl, "shl"),
        (BinOp::Shr, pitbull_subset::vc::ArithOp::Shr, "shr"),
    ];
    for (binop, expected_op, tag) in cases {
        let mut v = SubsetVisitor::new(&cfg);
        let body = Body {
            def_id: DefId(0),
            arg_tys: vec![u32_ty.clone(), u32_ty.clone()],
            arg_names: vec!["a".into(), "b".into()],
            return_ty: u32_ty.clone(),
            is_unsafe: false,
            is_async: false,
            locals: vec![
                LocalDecl { ty: u32_ty.clone(), span: Span::default(), mutability: Mutability::Not },
                LocalDecl { ty: u32_ty.clone(), span: Span::default(), mutability: Mutability::Not },
                LocalDecl { ty: u32_ty.clone(), span: Span::default(), mutability: Mutability::Not },
            ],
            blocks: vec![BasicBlockData {
                statements: vec![Statement {
                    kind: StatementKind::Assign(
                        Place { local: Local(0), projection: vec![] },
                        Rvalue::BinaryOp(
                            binop,
                            Operand::Copy(Place { local: Local(1), projection: vec![] }),
                            Operand::Copy(Place { local: Local(2), projection: vec![] }),
                        ),
                    ),
                    span: Span::default(),
                }],
                terminator: Terminator { kind: TerminatorKind::Return, span: Span::default() },
            }],
            span: Span::default(),
        };
        v.visit_body(&body, false);
        let report = v.into_report();
        assert_eq!(
            report.vc_obligations.len(), 1,
            "{binop:?} must emit exactly one obligation; got {:?}",
            report.vc_obligations,
        );
        let pitbull_subset::vc::VcObligationKind::ArithmeticOverflow { op, ty_name } =
            &report.vc_obligations[0].kind
        else {
            panic!("{binop:?} must emit ArithmeticOverflow; got {:?}", report.vc_obligations[0].kind);
        };
        assert_eq!(*op, expected_op, "{binop:?} obligation op");
        assert_eq!(ty_name, "u32");
        assert!(
            report.vc_obligations[0].id.starts_with(&format!("pb049-{tag}-")),
            "{binop:?} id should be pb049-{tag}-N; got {:?}",
            report.vc_obligations[0].id,
        );

        assert!(
            !report.audit_notes.iter().any(|n| n.message.contains("does not yet emit")
                || n.message.contains("coverage gap")),
            "{binop:?} must NOT carry a coverage-gap note now that it emits; \
             got: {:?}",
            report.audit_notes,
        );
    }
}

#[test]
fn pb051_const_cast_value_preservation_matrix() {
    let cfg = SubsetConfig::default_for_test();
    let i32_ty = || Ty { kind: TyKind::RigidTy(RigidTy::Int(IntTy::I32)) };
    let u8_ty = || Ty { kind: TyKind::RigidTy(RigidTy::Uint(UintTy::U8)) };
    let u32_ty = || Ty { kind: TyKind::RigidTy(RigidTy::Uint(UintTy::U32)) };
    let u64_ty = || Ty { kind: TyKind::RigidTy(RigidTy::Uint(UintTy::U64)) };
    let u128_ty = || Ty { kind: TyKind::RigidTy(RigidTy::Uint(UintTy::U128)) };
    let const_op = |value: i128, ty: Ty| {
        Operand::Constant(ConstOperand { ty, def_id: None, path: None, value: Some(value) })
    };

    let cases: Vec<(Operand, Ty, bool, &str)> = vec![
        (const_op(4, i32_ty()), u32_ty(), true, "4_i32 as u32 (the `x << 4` shift cast)"),
        (const_op(200, u32_ty()), u8_ty(), true, "200_u32 as u8 (value fits despite narrowing width)"),
        (const_op(300, i32_ty()), u8_ty(), false, "300_i32 as u8 (truncating)"),
        (const_op(-1, i32_ty()), u32_ty(), false, "-1_i32 as u32 (sign-flipping)"),
        (const_op(300, u32_ty()), u8_ty(), false, "300_u32 as u8 (truncating)"),
        (const_op(5, i32_ty()), u128_ty(), false, "5_i32 as u128 (unsupported target → fail closed)"),
        (
            Operand::Copy(Place { local: Local(1), projection: vec![] }),
            u32_ty(),
            false,
            "copy _1:u64 as u32 (non-constant → fail closed)",
        ),
    ];
    for (op, target_ty, accept, label) in cases {
        let mut v = SubsetVisitor::new(&cfg);
        let body = Body {
            def_id: DefId(0),
            arg_tys: vec![],
            arg_names: vec![],
            return_ty: target_ty.clone(),
            is_unsafe: false,
            is_async: false,
            locals: vec![
                LocalDecl { ty: target_ty.clone(), span: Span::default(), mutability: Mutability::Not },
                LocalDecl { ty: u64_ty(), span: Span::default(), mutability: Mutability::Not },
            ],
            blocks: vec![BasicBlockData {
                statements: vec![Statement {
                    kind: StatementKind::Assign(
                        Place { local: Local(0), projection: vec![] },
                        Rvalue::Cast(CastKind::IntToInt, op, target_ty.clone()),
                    ),
                    span: Span::default(),
                }],
                terminator: Terminator { kind: TerminatorKind::Return, span: Span::default() },
            }],
            span: Span::default(),
        };
        v.visit_body(&body, false);
        let report = v.into_report();
        let fired = report.errors.iter().any(|e| e.rule == rules::PB051);
        if accept {
            assert!(!fired, "PB051 must NOT fire on {label}; errors: {:?}", report.errors);
            assert!(
                report.audit_notes.iter().any(|n| n.message.contains("value-preserving")),
                "{label} should carry a value-preserving transparency note; got: {:?}",
                report.audit_notes,
            );
        } else {
            assert!(fired, "PB051 MUST fire (fail closed) on {label}; errors: {:?}", report.errors);
        }
    }
}

#[test]
fn pb051_does_not_fire_on_real_shift_amount_cast() {
    let cfg = SubsetConfig::default_for_test();
    let u32_ty = || Ty { kind: TyKind::RigidTy(RigidTy::Uint(UintTy::U32)) };
    let i32_ty = || Ty { kind: TyKind::RigidTy(RigidTy::Int(IntTy::I32)) };
    let bool_ty = || Ty { kind: TyKind::RigidTy(RigidTy::Bool) };
    let const_i32 = |v: i128| {
        Operand::Constant(ConstOperand { ty: i32_ty(), def_id: None, path: None, value: Some(v) })
    };
    let const_u32 = |v: i128| {
        Operand::Constant(ConstOperand { ty: u32_ty(), def_id: None, path: None, value: Some(v) })
    };
    let mut v = SubsetVisitor::new(&cfg);
    let body = Body {
        def_id: DefId(0),
        arg_tys: vec![u32_ty()],
        arg_names: vec!["x".into()],
        return_ty: u32_ty(),
        is_unsafe: false,
        is_async: false,
        locals: vec![
            LocalDecl { ty: u32_ty(), span: Span::default(), mutability: Mutability::Not },
            LocalDecl { ty: u32_ty(), span: Span::default(), mutability: Mutability::Not },
            LocalDecl { ty: u32_ty(), span: Span::default(), mutability: Mutability::Not },
            LocalDecl { ty: bool_ty(), span: Span::default(), mutability: Mutability::Not },
        ],
        blocks: vec![
            BasicBlockData {
                statements: vec![
                    Statement {
                        kind: StatementKind::Assign(
                            Place { local: Local(2), projection: vec![] },
                            Rvalue::Cast(CastKind::IntToInt, const_i32(4), u32_ty()),
                        ),
                        span: Span::default(),
                    },
                    Statement {
                        kind: StatementKind::Assign(
                            Place { local: Local(3), projection: vec![] },
                            Rvalue::BinaryOp(
                                BinOp::Lt,
                                Operand::Move(Place { local: Local(2), projection: vec![] }),
                                const_u32(32),
                            ),
                        ),
                        span: Span::default(),
                    },
                ],
                terminator: Terminator {
                    kind: TerminatorKind::Assert {
                        cond: Operand::Move(Place { local: Local(3), projection: vec![] }),
                        expected: true,
                        msg: AssertMessage::Overflow,
                        target: BasicBlock(1),
                    },
                    span: Span::default(),
                },
            },
            BasicBlockData {
                statements: vec![Statement {
                    kind: StatementKind::Assign(
                        Place { local: Local(0), projection: vec![] },
                        Rvalue::BinaryOp(
                            BinOp::Shl,
                            Operand::Copy(Place { local: Local(1), projection: vec![] }),
                            const_i32(4),
                        ),
                    ),
                    span: Span::default(),
                }],
                terminator: Terminator { kind: TerminatorKind::Return, span: Span::default() },
            },
        ],
        span: Span::default(),
    };
    v.visit_body(&body, false);
    let report = v.into_report();
    assert_eq!(
        report.errors.len(),
        0,
        "#31: valid shift code `x << 4` must produce zero subset errors \
         (PB051 must not fire on the shift-amount cast); got: {:?}",
        report.errors,
    );
    assert!(
        report.audit_notes.iter().any(|n| n.message.contains("value-preserving")),
        "the accepted shift-amount cast should leave a transparency note; got: {:?}",
        report.audit_notes,
    );
}

#[test]
fn neg_signed_emits_arith_obligation_not_swallowed() {
    let cfg = SubsetConfig::default_for_test();
    let i32_ty = Ty { kind: TyKind::RigidTy(RigidTy::Int(IntTy::I32)) };
    let make_body = |unop: UnOp| Body {
        def_id: DefId(0),
        arg_tys: vec![i32_ty.clone()],
        arg_names: vec!["a".into()],
        return_ty: i32_ty.clone(),
        is_unsafe: false,
        is_async: false,
        locals: vec![
            LocalDecl { ty: i32_ty.clone(), span: Span::default(), mutability: Mutability::Not },
            LocalDecl { ty: i32_ty.clone(), span: Span::default(), mutability: Mutability::Not },
        ],
        blocks: vec![BasicBlockData {
            statements: vec![Statement {
                kind: StatementKind::Assign(
                    Place { local: Local(0), projection: vec![] },
                    Rvalue::UnaryOp(
                        unop,
                        Operand::Copy(Place { local: Local(1), projection: vec![] }),
                    ),
                ),
                span: Span::default(),
            }],
            terminator: Terminator { kind: TerminatorKind::Return, span: Span::default() },
        }],
        span: Span::default(),
    };

    let mut v = SubsetVisitor::new(&cfg);
    v.visit_body(&make_body(UnOp::Neg), false);
    let report = v.into_report();
    assert_eq!(
        report.vc_obligations.len(), 1,
        "`-a` must emit exactly one obligation; got {:?}", report.vc_obligations,
    );
    let pitbull_subset::vc::VcObligationKind::ArithmeticOverflow { op, ty_name } =
        &report.vc_obligations[0].kind
    else {
        panic!("`-a` must emit ArithmeticOverflow; got {:?}", report.vc_obligations[0].kind);
    };
    assert_eq!(*op, pitbull_subset::vc::ArithOp::Neg, "negation obligation op");
    assert_eq!(ty_name, "i32");
    assert!(
        report.vc_obligations[0].id.starts_with("pb049-neg-"),
        "id should be pb049-neg-N; got {:?}", report.vc_obligations[0].id,
    );

    let mut v2 = SubsetVisitor::new(&cfg);
    v2.visit_body(&make_body(UnOp::Not), false);
    let report2 = v2.into_report();
    assert!(
        report2.vc_obligations.is_empty(),
        "`!a` (Not) must emit no obligation; got {:?}", report2.vc_obligations,
    );
}

#[test]
fn mixed_width_variable_shift_emits_freed_obligation_fail_closed() {
    let cfg = SubsetConfig::default_for_test();
    let u32_ty = Ty { kind: TyKind::RigidTy(RigidTy::Uint(UintTy::U32)) };
    let u8_ty = Ty { kind: TyKind::RigidTy(RigidTy::Uint(UintTy::U8)) };
    let mut v = SubsetVisitor::new(&cfg);
    let body = Body {
        def_id: DefId(0),
        arg_tys: vec![u32_ty.clone(), u8_ty.clone()],
        arg_names: vec!["a".into(), "b".into()],
        return_ty: u32_ty.clone(),
        is_unsafe: false,
        is_async: false,
        locals: vec![
            LocalDecl { ty: u32_ty.clone(), span: Span::default(), mutability: Mutability::Not },
            LocalDecl { ty: u32_ty.clone(), span: Span::default(), mutability: Mutability::Not },
            LocalDecl { ty: u8_ty.clone(), span: Span::default(), mutability: Mutability::Not },
        ],
        blocks: vec![BasicBlockData {
            statements: vec![Statement {
                kind: StatementKind::Assign(
                    Place { local: Local(0), projection: vec![] },
                    Rvalue::BinaryOp(
                        BinOp::Shl,
                        Operand::Copy(Place { local: Local(1), projection: vec![] }),
                        Operand::Copy(Place { local: Local(2), projection: vec![] }),
                    ),
                ),
                span: Span::default(),
            }],
            terminator: Terminator { kind: TerminatorKind::Return, span: Span::default() },
        }],
        span: Span::default(),
    };
    v.visit_body(&body, false);
    let report = v.into_report();
    assert_eq!(
        report.vc_obligations.len(),
        1,
        "variable mixed-width shift must now emit one over-shift obligation \
         (fail-closed), not skip it; got {:?}",
        report.vc_obligations,
    );
    let pitbull_subset::vc::VcObligationKind::ArithmeticOverflow { op, ty_name } =
        &report.vc_obligations[0].kind
    else {
        panic!("expected ArithmeticOverflow; got {:?}", report.vc_obligations[0].kind);
    };
    assert_eq!(*op, pitbull_subset::vc::ArithOp::Shl);
    assert_eq!(ty_name, "u32", "obligation must be at the VALUE width");

    assert!(
        !report.vc_obligations[0]
            .assumptions
            .iter()
            .any(|a| a.contains("rhs")),
        "variable mixed-width amount must be left free (no rhs assumption); \
         got: {:?}",
        report.vc_obligations[0].assumptions,
    );

    assert!(
        !report.audit_notes.iter().any(|n| n.message.contains("mixed-width shift")),
        "no mixed-width-skip audit note may be left; got: {:?}",
        report.audit_notes,
    );
}

#[test]
fn mixed_width_const_shift_pins_only_when_value_fits() {
    let cfg = SubsetConfig::default_for_test();
    let u32_ty = || Ty { kind: TyKind::RigidTy(RigidTy::Uint(UintTy::U32)) };
    let u8_ty = || Ty { kind: TyKind::RigidTy(RigidTy::Uint(UintTy::U8)) };
    let i32_ty = || Ty { kind: TyKind::RigidTy(RigidTy::Int(IntTy::I32)) };
    let const_op = |val: i128, ty: Ty| {
        Operand::Constant(ConstOperand { ty, def_id: None, path: None, value: Some(val) })
    };

    let cases: Vec<(Ty, i128, Ty, Option<&str>, &str)> = vec![
        (u32_ty(), 4, i32_ty(), Some("#x00000004"), "u32 << 4_i32 fits → pin (4 as u32)"),
        (u8_ty(), 4, i32_ty(), Some("#x04"), "u8 << 4_i32 fits → pin (4 as u8)"),
        (u8_ty(), 256, i32_ty(), None, "u8 << 256_i32 does NOT fit u8 → free (fail closed)"),
    ];
    for (value_ty, amount, amount_ty, expect_pin, label) in cases {
        let mut v = SubsetVisitor::new(&cfg);
        let body = Body {
            def_id: DefId(0),
            arg_tys: vec![value_ty.clone()],
            arg_names: vec!["x".into()],
            return_ty: value_ty.clone(),
            is_unsafe: false,
            is_async: false,
            locals: vec![
                LocalDecl { ty: value_ty.clone(), span: Span::default(), mutability: Mutability::Not },
                LocalDecl { ty: value_ty.clone(), span: Span::default(), mutability: Mutability::Not },
            ],
            blocks: vec![BasicBlockData {
                statements: vec![Statement {
                    kind: StatementKind::Assign(
                        Place { local: Local(0), projection: vec![] },
                        Rvalue::BinaryOp(
                            BinOp::Shl,
                            Operand::Copy(Place { local: Local(1), projection: vec![] }),
                            const_op(amount, amount_ty.clone()),
                        ),
                    ),
                    span: Span::default(),
                }],
                terminator: Terminator { kind: TerminatorKind::Return, span: Span::default() },
            }],
            span: Span::default(),
        };
        v.visit_body(&body, false);
        let report = v.into_report();
        assert_eq!(
            report.vc_obligations.len(), 1,
            "{label}: must emit one obligation; got {:?}",
            report.vc_obligations,
        );
        let assumptions = &report.vc_obligations[0].assumptions;
        let rhs_pin = assumptions.iter().find(|a| a.contains("rhs"));
        match expect_pin {
            Some(lit) => assert!(
                rhs_pin.is_some_and(|a| a.contains(lit)),
                "{label}: expected rhs pinned to {lit} (= amount as V); got {assumptions:?}",
            ),
            None => assert!(
                rhs_pin.is_none(),
                "{label}: amount must be FREE (no rhs pin) — pinning a \
                 truncated value would hide a real over-shift; got {assumptions:?}",
            ),
        }
    }
}

#[test]
fn mixed_width_variable_shift_binds_precondition_only_when_sound() {
    let cfg = SubsetConfig::default_for_test();
    let u32_ty = || Ty { kind: TyKind::RigidTy(RigidTy::Uint(UintTy::U32)) };
    let amount_ty = |t: &str| -> Ty {
        let kind = match t {
            "u8" => RigidTy::Uint(UintTy::U8),
            "i8" => RigidTy::Int(IntTy::I8),
            "u64" => RigidTy::Uint(UintTy::U64),
            _ => unreachable!("unmapped amount type in test"),
        };
        Ty { kind: TyKind::RigidTy(kind) }
    };

    let cases = [
        ("u8", true, "unsigned + narrower → bound (discharges with a solver)"),
        ("i8", false, "signed → unbound (a negative amount over-shifts → fail closed)"),
        ("u64", false, "wider than value → unbound (truncation unsound → fail closed)"),
    ];
    for (amt, expect_bound, label) in cases {
        let mut v = SubsetVisitor::new(&cfg);
        v.set_current_preconditions(vec!["y < 32".into()]);
        let body = Body {
            def_id: DefId(0),
            arg_tys: vec![u32_ty(), amount_ty(amt)],
            arg_names: vec!["x".into(), "y".into()],
            return_ty: u32_ty(),
            is_unsafe: false,
            is_async: false,
            locals: vec![
                LocalDecl { ty: u32_ty(), span: Span::default(), mutability: Mutability::Not },
                LocalDecl { ty: u32_ty(), span: Span::default(), mutability: Mutability::Not },
                LocalDecl { ty: amount_ty(amt), span: Span::default(), mutability: Mutability::Not },
            ],
            blocks: vec![BasicBlockData {
                statements: vec![Statement {
                    kind: StatementKind::Assign(
                        Place { local: Local(0), projection: vec![] },
                        Rvalue::BinaryOp(
                            BinOp::Shl,
                            Operand::Copy(Place { local: Local(1), projection: vec![] }),
                            Operand::Copy(Place { local: Local(2), projection: vec![] }),
                        ),
                    ),
                    span: Span::default(),
                }],
                terminator: Terminator { kind: TerminatorKind::Return, span: Span::default() },
            }],
            span: Span::default(),
        };
        v.visit_body(&body, false);
        let report = v.into_report();
        assert_eq!(
            report.vc_obligations.len(),
            1,
            "{label}: must emit one obligation; got {:?}",
            report.vc_obligations,
        );
        let has_rhs_precond = report.vc_obligations[0]
            .assumptions
            .iter()
            .any(|a| a.contains("rhs"));
        assert_eq!(
            has_rhs_precond, expect_bound,
            "{label}: precondition-bound-to-rhs = {expect_bound}; got assumptions {:?}",
            report.vc_obligations[0].assumptions,
        );
    }
}

#[test]
fn ensures_on_returning_body_emits_obligation_no_divergent_note() {
    let cfg = SubsetConfig::default_for_test();
    let u32_ty = Ty { kind: TyKind::RigidTy(RigidTy::Uint(UintTy::U32)) };
    let body = Body {
        def_id: DefId(0),
        arg_tys: vec![],
        arg_names: vec![],
        return_ty: u32_ty.clone(),
        is_unsafe: false,
        is_async: false,
        locals: vec![LocalDecl {
            ty: u32_ty,
            span: Span::default(),
            mutability: Mutability::Not,
        }],
        blocks: vec![BasicBlockData {
            statements: vec![],
            terminator: Terminator {
                kind: TerminatorKind::Return,
                span: Span::default(),
            },
        }],
        span: Span::default(),
    };
    let mut v = SubsetVisitor::new(&cfg);
    v.set_current_ensures(vec!["result < 101".to_string()]);
    v.visit_body(&body, false);
    let report = v.into_report();
    let pb076_count = report
        .vc_obligations
        .iter()
        .filter(|o| matches!(
            o.kind,
            pitbull_subset::vc::VcObligationKind::EnsuresPostcondition { .. }
        ))
        .count();
    assert_eq!(pb076_count, 1, "returning body with ensures emits one PB076");
    assert!(
        !report.audit_notes.iter().any(|n| n.message.contains("no return point")),
        "returning body must NOT trigger the divergent-body note",
    );
}

#[test]
fn ensures_on_non_primitive_return_carries_none_and_audits() {
    let cfg = SubsetConfig::default_for_test();

    let bool_ty = Ty { kind: TyKind::RigidTy(RigidTy::Bool) };
    let body = Body {
        def_id: DefId(0),
        arg_tys: vec![],
        arg_names: vec![],
        return_ty: bool_ty.clone(),
        is_unsafe: false,
        is_async: false,
        locals: vec![LocalDecl {
            ty: bool_ty,
            span: Span::default(),
            mutability: Mutability::Not,
        }],
        blocks: vec![BasicBlockData {
            statements: vec![],
            terminator: Terminator {
                kind: TerminatorKind::Return,
                span: Span::default(),
            },
        }],
        span: Span::default(),
    };
    let mut v = SubsetVisitor::new(&cfg);
    v.set_current_ensures(vec!["result".to_string()]);
    v.visit_body(&body, false);
    let report = v.into_report();
    let kind = &report
        .vc_obligations
        .iter()
        .find_map(|o| match &o.kind {
            pitbull_subset::vc::VcObligationKind::EnsuresPostcondition { ret_ty_name, .. } => {
                Some(ret_ty_name.clone())
            }
            _ => None,
        })
        .expect("PB076 obligation emitted even for non-primitive return");
    assert_eq!(
        *kind, None,
        "a non-primitive return type must carry ret_ty_name: None \
         (fail-closed), not an empty-string sentinel",
    );
    assert!(
        report.audit_notes.iter().any(|n| n.message.contains("not a primitive integer")),
        "a non-primitive return must surface an audit note; got: {:?}",
        report.audit_notes,
    );
}

fn q4a_u32_body(statements: Vec<Statement>) -> Body {
    let u32_ty = Ty { kind: TyKind::RigidTy(RigidTy::Uint(UintTy::U32)) };
    let local =
        |ty: Ty| LocalDecl { ty, span: Span::default(), mutability: Mutability::Not };
    Body {
        def_id: DefId(0),
        arg_tys: vec![u32_ty.clone()],
        arg_names: vec!["x".to_string()],
        return_ty: u32_ty.clone(),
        is_unsafe: false,
        is_async: false,
        locals: vec![local(u32_ty.clone()), local(u32_ty)],
        blocks: vec![BasicBlockData {
            statements,
            terminator: Terminator {
                kind: TerminatorKind::Return,
                span: Span::default(),
            },
        }],
        span: Span::default(),
    }
}

fn q4a_return_x() -> Statement {
    Statement {
        kind: StatementKind::Assign(
            Place { local: Local(0), projection: vec![] },
            Rvalue::Use(Operand::Move(Place { local: Local(1), projection: vec![] })),
        ),
        span: Span::default(),
    }
}

fn q4a_ensures_smt(report: &SubsetReport) -> (Option<String>, Option<String>) {
    report
        .vc_obligations
        .iter()
        .find_map(|o| match &o.kind {
            pitbull_subset::vc::VcObligationKind::EnsuresPostcondition {
                discharge_smt,
                consistency_smt,
                ..
            } => Some((discharge_smt.clone(), consistency_smt.clone())),
            _ => None,
        })
        .expect("a PB076 EnsuresPostcondition obligation must be emitted")
}
#[test]
fn q4a_true_postcondition_builds_structurally_unsat_discharge() {

    let cfg = SubsetConfig::default_for_test();
    let mut v = SubsetVisitor::new(&cfg);
    v.set_current_ensures(vec!["result == x".to_string()]);
    v.visit_body(&q4a_u32_body(vec![q4a_return_x()]), false);
    let (discharge, consistency) = q4a_ensures_smt(&v.into_report());
    let smt = discharge.expect("capturable body + translatable postcondition must discharge");
    assert!(smt.contains("(declare-const result (_ BitVec 32))"), "smt:\n{smt}");
    assert!(smt.contains("(declare-const x (_ BitVec 32))"), "smt:\n{smt}");
    assert!(smt.contains("(assert (= result x))"), "body effect missing:\n{smt}");
    assert!(smt.contains("(assert (not (= result x)))"), "negated goal missing:\n{smt}");
    assert!(smt.trim_end().ends_with("(check-sat)"), "smt:\n{smt}");
    assert!(consistency.is_none(), "no preconditions ⇒ no consistency check");
}
#[test]
fn q4a_false_postcondition_builds_satisfiable_discharge() {

    let cfg = SubsetConfig::default_for_test();
    let mut v = SubsetVisitor::new(&cfg);
    v.set_current_ensures(vec!["result < 5".to_string()]);
    v.visit_body(&q4a_u32_body(vec![q4a_return_x()]), false);
    let (discharge, _c) = q4a_ensures_smt(&v.into_report());
    let smt = discharge.expect("capturable body + translatable postcondition");
    assert!(smt.contains("(assert (= result x))"), "body effect missing:\n{smt}");
    assert!(
        smt.contains("(assert (not (bvult result #x00000005)))"),
        "negated `result < 5` goal missing:\n{smt}",
    );
    assert!(
        !smt.contains("(assert (not (= result x)))"),
        "must NOT be the structural contradiction of the TRUE case:\n{smt}",
    );
}

fn q4b_const_u32(value: i128) -> Operand {
    Operand::Constant(ConstOperand {
        ty: Ty { kind: TyKind::RigidTy(RigidTy::Uint(UintTy::U32)) },
        def_id: None,
        path: None,
        value: Some(value),
    })
}
#[test]
fn q4b_single_block_add_captures_wrapping_bvadd() {

    let cfg = SubsetConfig::default_for_test();
    let mut v = SubsetVisitor::new(&cfg);
    v.set_current_ensures(vec!["result < 101".to_string()]);
    let add = Statement {
        kind: StatementKind::Assign(
            Place { local: Local(0), projection: vec![] },
            Rvalue::BinaryOp(
                BinOp::Add,
                Operand::Move(Place { local: Local(1), projection: vec![] }),
                q4b_const_u32(1),
            ),
        ),
        span: Span::default(),
    };
    v.visit_body(&q4a_u32_body(vec![add]), false);
    let (discharge, _c) = q4a_ensures_smt(&v.into_report());
    let smt = discharge.expect("Q.4b: a wrapping `x + 1` body effect must be captured");
    assert!(
        smt.contains("(assert (= result (bvadd x #x00000001)))"),
        "wrapping-add body effect missing:\n{smt}",
    );
}
#[test]
fn q4b_two_block_checked_add_captures_via_field_zero() {

    let cfg = SubsetConfig::default_for_test();
    let mut v = SubsetVisitor::new(&cfg);
    v.set_current_ensures(vec!["result < 101".to_string()]);
    let u32_ty = || Ty { kind: TyKind::RigidTy(RigidTy::Uint(UintTy::U32)) };
    let local =
        |ty: Ty| LocalDecl { ty, span: Span::default(), mutability: Mutability::Not };
    let body = Body {
        def_id: DefId(0),
        arg_tys: vec![u32_ty()],
        arg_names: vec!["x".to_string()],
        return_ty: u32_ty(),
        is_unsafe: false,
        is_async: false,

        locals: vec![local(u32_ty()), local(u32_ty()), local(u32_ty())],
        blocks: vec![
            BasicBlockData {
                statements: vec![Statement {
                    kind: StatementKind::Assign(
                        Place { local: Local(2), projection: vec![] },
                        Rvalue::BinaryOp(
                            BinOp::Add,
                            Operand::Move(Place { local: Local(1), projection: vec![] }),
                            q4b_const_u32(1),
                        ),
                    ),
                    span: Span::default(),
                }],
                terminator: Terminator {
                    kind: TerminatorKind::Assert {
                        cond: Operand::Move(Place {
                            local: Local(2),
                            projection: vec![ProjectionElem::Field(1)],
                        }),
                        expected: false,
                        msg: AssertMessage::Overflow,
                        target: BasicBlock(1),
                    },
                    span: Span::default(),
                },
            },
            BasicBlockData {
                statements: vec![Statement {
                    kind: StatementKind::Assign(
                        Place { local: Local(0), projection: vec![] },
                        Rvalue::Use(Operand::Move(Place {
                            local: Local(2),
                            projection: vec![ProjectionElem::Field(0)],
                        })),
                    ),
                    span: Span::default(),
                }],
                terminator: Terminator {
                    kind: TerminatorKind::Return,
                    span: Span::default(),
                },
            },
        ],
        span: Span::default(),
    };
    v.visit_body(&body, false);
    let (discharge, _c) = q4a_ensures_smt(&v.into_report());
    let smt = discharge.expect("Q.4b: checked-add tuple via `.0` must be captured");
    assert!(
        smt.contains("(assert (= result (bvadd x #x00000001)))"),
        "checked-add body effect (via _2.0) missing:\n{smt}",
    );
}
#[test]
fn q4c_unsigned_div_captures_bvudiv() {

    let cfg = SubsetConfig::default_for_test();
    let mut v = SubsetVisitor::new(&cfg);
    v.set_current_ensures(vec!["result < 101".to_string()]);
    let div = Statement {
        kind: StatementKind::Assign(
            Place { local: Local(0), projection: vec![] },
            Rvalue::BinaryOp(
                BinOp::Div,
                Operand::Move(Place { local: Local(1), projection: vec![] }),
                q4b_const_u32(2),
            ),
        ),
        span: Span::default(),
    };
    v.visit_body(&q4a_u32_body(vec![div]), false);
    let (discharge, _c) = q4a_ensures_smt(&v.into_report());
    let smt = discharge.expect("Q.4c: unsigned `x / 2` must be captured");
    assert!(
        smt.contains("(assert (= result (bvudiv x #x00000002)))"),
        "unsigned-div body effect missing:\n{smt}",
    );
}
#[test]
fn q4c_unsigned_rem_captures_bvurem() {

    let cfg = SubsetConfig::default_for_test();
    let mut v = SubsetVisitor::new(&cfg);
    v.set_current_ensures(vec!["result < 10".to_string()]);
    let rem = Statement {
        kind: StatementKind::Assign(
            Place { local: Local(0), projection: vec![] },
            Rvalue::BinaryOp(
                BinOp::Rem,
                Operand::Move(Place { local: Local(1), projection: vec![] }),
                q4b_const_u32(10),
            ),
        ),
        span: Span::default(),
    };
    v.visit_body(&q4a_u32_body(vec![rem]), false);
    let (discharge, _c) = q4a_ensures_smt(&v.into_report());
    let smt = discharge.expect("Q.4c: unsigned `x % 10` must be captured");
    assert!(

        smt.contains("(assert (= result (bvurem x #x0000000A)))"),
        "unsigned-rem body effect missing:\n{smt}",
    );
}

fn q4c_i32_body(statements: Vec<Statement>) -> Body {
    let i32_ty = Ty { kind: TyKind::RigidTy(RigidTy::Int(IntTy::I32)) };
    let local =
        |ty: Ty| LocalDecl { ty, span: Span::default(), mutability: Mutability::Not };
    Body {
        def_id: DefId(0),
        arg_tys: vec![i32_ty.clone()],
        arg_names: vec!["x".to_string()],
        return_ty: i32_ty.clone(),
        is_unsafe: false,
        is_async: false,
        locals: vec![local(i32_ty.clone()), local(i32_ty)],
        blocks: vec![BasicBlockData {
            statements,
            terminator: Terminator {
                kind: TerminatorKind::Return,
                span: Span::default(),
            },
        }],
        span: Span::default(),
    }
}

fn q4c_const_i32(value: i128) -> Operand {
    Operand::Constant(ConstOperand {
        ty: Ty { kind: TyKind::RigidTy(RigidTy::Int(IntTy::I32)) },
        def_id: None,
        path: None,
        value: Some(value),
    })
}
#[test]
fn q4c_signed_div_captures_bvsdiv() {

    let cfg = SubsetConfig::default_for_test();
    let mut v = SubsetVisitor::new(&cfg);
    v.set_current_ensures(vec!["result <= x".to_string()]);
    let div = Statement {
        kind: StatementKind::Assign(
            Place { local: Local(0), projection: vec![] },
            Rvalue::BinaryOp(
                BinOp::Div,
                Operand::Move(Place { local: Local(1), projection: vec![] }),
                q4c_const_i32(2),
            ),
        ),
        span: Span::default(),
    };
    v.visit_body(&q4c_i32_body(vec![div]), false);
    let (discharge, _c) = q4a_ensures_smt(&v.into_report());
    let smt = discharge.expect("Q.4c: signed `x / 2` must be captured");
    assert!(
        smt.contains("(assert (= result (bvsdiv x #x00000002)))"),
        "signed-div body effect missing:\n{smt}",
    );
    assert!(!smt.contains("bvudiv"), "signed div must use bvsdiv, not bvudiv:\n{smt}");
}
#[test]
fn q4c_signed_rem_uses_bvsrem_not_bvsmod() {

    let cfg = SubsetConfig::default_for_test();
    let mut v = SubsetVisitor::new(&cfg);
    v.set_current_ensures(vec!["result < 3".to_string()]);
    let rem = Statement {
        kind: StatementKind::Assign(
            Place { local: Local(0), projection: vec![] },
            Rvalue::BinaryOp(
                BinOp::Rem,
                Operand::Move(Place { local: Local(1), projection: vec![] }),
                q4c_const_i32(3),
            ),
        ),
        span: Span::default(),
    };
    v.visit_body(&q4c_i32_body(vec![rem]), false);
    let (discharge, _c) = q4a_ensures_smt(&v.into_report());
    let smt = discharge.expect("Q.4c: signed `x % 3` must be captured");
    assert!(
        smt.contains("(assert (= result (bvsrem x #x00000003)))"),
        "signed-rem body effect must use bvsrem:\n{smt}",
    );
    assert!(!smt.contains("bvsmod"), "signed rem must be bvsrem, NOT bvsmod:\n{smt}");
}
#[test]
fn q4d_shl_constant_captures_bvshl() {

    let cfg = SubsetConfig::default_for_test();
    let mut v = SubsetVisitor::new(&cfg);
    v.set_current_ensures(vec!["result < 101".to_string()]);
    let shl = Statement {
        kind: StatementKind::Assign(
            Place { local: Local(0), projection: vec![] },
            Rvalue::BinaryOp(
                BinOp::Shl,
                Operand::Move(Place { local: Local(1), projection: vec![] }),
                q4b_const_u32(1),
            ),
        ),
        span: Span::default(),
    };
    v.visit_body(&q4a_u32_body(vec![shl]), false);
    let (discharge, _c) = q4a_ensures_smt(&v.into_report());
    let smt = discharge.expect("Q.4d: `x << 1` must be captured");
    assert!(
        smt.contains("(assert (= result (bvshl x #x00000001)))"),
        "shl body effect missing:\n{smt}",
    );
}
#[test]
fn q4d_unsigned_shr_captures_bvlshr() {

    let cfg = SubsetConfig::default_for_test();
    let mut v = SubsetVisitor::new(&cfg);
    v.set_current_ensures(vec!["result <= x".to_string()]);
    let shr = Statement {
        kind: StatementKind::Assign(
            Place { local: Local(0), projection: vec![] },
            Rvalue::BinaryOp(
                BinOp::Shr,
                Operand::Move(Place { local: Local(1), projection: vec![] }),
                q4b_const_u32(4),
            ),
        ),
        span: Span::default(),
    };
    v.visit_body(&q4a_u32_body(vec![shr]), false);
    let (discharge, _c) = q4a_ensures_smt(&v.into_report());
    let smt = discharge.expect("Q.4d: unsigned `x >> 4` must be captured");
    assert!(
        smt.contains("(assert (= result (bvlshr x #x00000004)))"),
        "unsigned-shr body effect must use bvlshr:\n{smt}",
    );
    assert!(!smt.contains("bvashr"), "unsigned >> must be bvlshr, not bvashr:\n{smt}");
}
#[test]
fn q4d_signed_shr_captures_bvashr() {

    let cfg = SubsetConfig::default_for_test();
    let mut v = SubsetVisitor::new(&cfg);
    v.set_current_ensures(vec!["result <= x".to_string()]);
    let shr = Statement {
        kind: StatementKind::Assign(
            Place { local: Local(0), projection: vec![] },
            Rvalue::BinaryOp(
                BinOp::Shr,
                Operand::Move(Place { local: Local(1), projection: vec![] }),
                q4c_const_i32(1),
            ),
        ),
        span: Span::default(),
    };
    v.visit_body(&q4c_i32_body(vec![shr]), false);
    let (discharge, _c) = q4a_ensures_smt(&v.into_report());
    let smt = discharge.expect("Q.4d: signed `x >> 1` must be captured");
    assert!(
        smt.contains("(assert (= result (bvashr x #x00000001)))"),
        "signed-shr body effect must use bvashr:\n{smt}",
    );
    assert!(!smt.contains("bvlshr"), "signed >> must be bvashr, not bvlshr:\n{smt}");
}
#[test]
fn q4d_bitwise_body_stays_pending() {

    let cfg = SubsetConfig::default_for_test();
    let mut v = SubsetVisitor::new(&cfg);
    v.set_current_ensures(vec!["result < 101".to_string()]);
    let xor = Statement {
        kind: StatementKind::Assign(
            Place { local: Local(0), projection: vec![] },
            Rvalue::BinaryOp(
                BinOp::BitXor,
                Operand::Move(Place { local: Local(1), projection: vec![] }),
                q4b_const_u32(1),
            ),
        ),
        span: Span::default(),
    };
    v.visit_body(&q4a_u32_body(vec![xor]), false);
    let (discharge, _c) = q4a_ensures_smt(&v.into_report());
    assert!(discharge.is_none(), "BitXor body effect must NOT be captured (fail closed)");
}
#[test]
fn q4a_precondition_is_assumed_and_consistency_checked() {

    let cfg = SubsetConfig::default_for_test();
    let mut v = SubsetVisitor::new(&cfg);
    v.set_current_preconditions(vec!["x < 100".to_string()]);
    v.set_current_ensures(vec!["result < 100".to_string()]);
    v.visit_body(&q4a_u32_body(vec![q4a_return_x()]), false);
    let (discharge, consistency) = q4a_ensures_smt(&v.into_report());
    let smt = discharge.expect("translatable precondition + postcondition");
    assert!(smt.contains("(assert (bvult x #x00000064))"), "assumed precondition missing:\n{smt}");
    assert!(smt.contains("(assert (= result x))"), "body effect missing:\n{smt}");
    assert!(
        smt.contains("(assert (not (bvult result #x00000064)))"),
        "negated goal missing:\n{smt}",
    );
    let cs = consistency.expect("preconditions present ⇒ a consistency check is emitted");
    assert!(cs.contains("(assert (bvult x #x00000064))"), "cs:\n{cs}");
    assert!(cs.trim_end().ends_with("(check-sat)"), "cs:\n{cs}");

    assert!(cs.contains("(= result x)"), "consistency check must include the body effect:\n{cs}");
    assert!(!cs.contains("(not "), "consistency check must omit the negated goal:\n{cs}");
}
#[test]
fn q4a_untranslatable_precondition_fails_closed_to_pending() {

    let cfg = SubsetConfig::default_for_test();
    let mut v = SubsetVisitor::new(&cfg);
    v.set_current_preconditions(vec!["(assert (bvult x #x00000064))".to_string()]);
    v.set_current_ensures(vec!["result < 100".to_string()]);
    v.visit_body(&q4a_u32_body(vec![q4a_return_x()]), false);
    let report = v.into_report();
    let (discharge, _c) = q4a_ensures_smt(&report);
    assert!(discharge.is_none(), "untranslatable precondition ⇒ pending (fail closed)");
    assert!(
        report.audit_notes.iter().any(|n| {
            n.message.contains("precondition") && n.message.contains("could not be translated")
        }),
        "pending must explain the untranslatable precondition; got: {:?}",
        report.audit_notes,
    );
}
#[test]
fn q4a_precondition_referencing_result_fails_closed() {

    let cfg = SubsetConfig::default_for_test();
    let mut v = SubsetVisitor::new(&cfg);
    v.set_current_preconditions(vec!["result < 100".to_string()]);
    v.set_current_ensures(vec!["result < 100".to_string()]);
    v.visit_body(&q4a_u32_body(vec![q4a_return_x()]), false);
    let report = v.into_report();
    let (discharge, _c) = q4a_ensures_smt(&report);
    assert!(
        discharge.is_none(),
        "a precondition referencing `result` must fail closed to pending, never \
         produce a (vacuously) dischargeable problem",
    );
    assert!(
        report.audit_notes.iter().any(|n| n.message.contains("precondition")),
        "pending must explain the rejected result-referencing precondition; got: {:?}",
        report.audit_notes,
    );
}

fn pb077_callee_spec(
    arg_names: &[&str],
    arg_tys: &[Ty],
    preconditions: &[&str],
) -> CalleeSpec {
    let local =
        |ty: Ty| LocalDecl { ty, span: Span::default(), mutability: Mutability::Not };
    let u32_ty = Ty { kind: TyKind::RigidTy(RigidTy::Uint(UintTy::U32)) };

    let mut locals = vec![local(u32_ty.clone())];
    locals.extend(arg_tys.iter().cloned().map(local));
    let body = Body {
        def_id: DefId(0),
        arg_tys: arg_tys.to_vec(),
        arg_names: arg_names.iter().map(|s| (*s).to_string()).collect(),
        return_ty: u32_ty,
        is_unsafe: false,
        is_async: false,
        locals,
        blocks: vec![BasicBlockData {
            statements: vec![],
            terminator: Terminator {
                kind: TerminatorKind::Return,
                span: Span::default(),
            },
        }],
        span: Span::default(),
    };
    CalleeSpec::from_body(
        &body,
        preconditions.iter().map(|s| (*s).to_string()).collect(),
    )
}

fn pb077_caller_body(path: &str, actuals: &[(i128, Ty)]) -> Body {
    let bool_ty = Ty { kind: TyKind::RigidTy(RigidTy::Bool) };
    Body {
        def_id: DefId(0),
        arg_tys: vec![],
        arg_names: vec![],
        return_ty: bool_ty.clone(),
        is_unsafe: false,
        is_async: false,
        locals: vec![],
        blocks: vec![BasicBlockData {
            statements: vec![],
            terminator: Terminator {
                kind: TerminatorKind::Call {
                    func: Operand::Constant(ConstOperand {
                        ty: bool_ty,
                        def_id: None,
                        path: Some(path.to_string()),
                        value: None,
                    }),
                    args: actuals
                        .iter()
                        .map(|(v, ty)| {
                            Operand::Constant(ConstOperand {
                                ty: ty.clone(),
                                def_id: None,
                                path: None,
                                value: Some(*v),
                            })
                        })
                        .collect(),
                    destination: Place { local: Local(0), projection: vec![] },
                    target: None,
                },
                span: Span::default(),
            },
        }],
        span: Span::default(),
    }
}

fn pb077_run(
    cfg: &SubsetConfig,
    spec: CalleeSpec,
    actuals: &[(i128, Ty)],
) -> (Option<String>, bool) {
    const CALLEE: &str = "demo::callee";
    let mut v = SubsetVisitor::new(cfg);
    v.set_known_precondition_fns(
        [CALLEE.to_string()].into_iter().collect::<Vec<_>>(),
    );
    v.set_callee_specs([(CALLEE.to_string(), spec)].into_iter().collect());
    v.visit_body(&pb077_caller_body(CALLEE, actuals), false);
    let report = v.into_report();
    let smt = report.vc_obligations.iter().find_map(|o| match &o.kind {
        pitbull_subset::vc::VcObligationKind::CallSitePrecondition { discharge_smt, .. } => {
            Some(discharge_smt.clone())
        }
        _ => None,
    });
    let gapped = report
        .audit_notes
        .iter()
        .any(|n| n.message.contains("carries precondition(s)"));
    (smt.flatten(), gapped)
}
fn pb077_u32() -> Ty {
    Ty { kind: TyKind::RigidTy(RigidTy::Uint(UintTy::U32)) }
}
fn pb077_u8() -> Ty {
    Ty { kind: TyKind::RigidTy(RigidTy::Uint(UintTy::U8)) }
}
#[test]
fn pb077_constant_actual_binds_to_the_right_parameter() {

    let cfg = SubsetConfig::default_for_test();
    let spec = pb077_callee_spec(
        &["a", "b"],
        &[pb077_u32(), pb077_u32()],
        &["b > 0"],
    );
    let (smt, gapped) =
        pb077_run(&cfg, spec, &[(10, pb077_u32()), (5, pb077_u32())]);
    let smt = smt.expect("constant actuals of a supported int type must discharge");
    assert!(smt.contains("(declare-const b (_ BitVec 32))"), "smt:\n{smt}");
    assert!(smt.contains("(assert (= b #x00000005))"), "wrong actual pinned:\n{smt}");
    assert!(!smt.contains("#x0000000a"), "pinned the FIRST actual to `b`:\n{smt}");
    assert!(smt.contains("(assert (not (bvugt b #x00000000)))"), "smt:\n{smt}");
    assert!(smt.trim_end().ends_with("(check-sat)"), "smt:\n{smt}");
    assert!(!gapped, "an emitted obligation subsumes the coverage gap");
}
#[test]
fn pb077_every_clause_must_translate_or_the_whole_call_gaps() {

    let cfg = SubsetConfig::default_for_test();
    let spec = pb077_callee_spec(
        &["a", "b"],
        &[pb077_u32(), pb077_u32()],
        &["b > 0", "(assert (bvugt a #x00000063))"],
    );
    let (smt, gapped) =
        pb077_run(&cfg, spec, &[(10, pb077_u32()), (5, pb077_u32())]);
    assert!(smt.is_none(), "a partially-translatable contract must NOT discharge");
    assert!(gapped, "the fail-closed coverage gap must fire instead");
}
#[test]
fn pb077_non_constant_actual_gaps() {

    let cfg = SubsetConfig::default_for_test();
    let spec = pb077_callee_spec(&["b"], &[pb077_u32()], &["b > 0"]);
    let mut body = pb077_caller_body("demo::callee", &[(5, pb077_u32())]);
    if let TerminatorKind::Call { args, .. } = &mut body.blocks[0].terminator.kind {
        args[0] = Operand::Copy(Place { local: Local(1), projection: vec![] });
    }
    let mut v = SubsetVisitor::new(&cfg);
    v.set_known_precondition_fns(
        ["demo::callee".to_string()].into_iter().collect::<Vec<_>>(),
    );
    v.set_callee_specs([("demo::callee".to_string(), spec)].into_iter().collect());
    v.visit_body(&body, false);
    let report = v.into_report();
    assert!(
        !report.vc_obligations.iter().any(|o| matches!(
            o.kind,
            pitbull_subset::vc::VcObligationKind::CallSitePrecondition { .. }
        )),
        "a caller-variable actual must not produce a discharge attempt",
    );
    assert!(
        report.audit_notes.iter().any(|n| n.message.contains("carries precondition(s)")),
        "the fail-closed coverage gap must fire; got: {:?}",
        report.audit_notes,
    );
}
#[test]
fn pb077_mixed_width_ident_comparison_fails_closed() {

    let cfg = SubsetConfig::default_for_test();
    let spec =
        pb077_callee_spec(&["a", "b"], &[pb077_u8(), pb077_u32()], &["a < b"]);
    let (smt, gapped) =
        pb077_run(&cfg, spec, &[(1, pb077_u8()), (200, pb077_u32())]);
    assert!(smt.is_none(), "mixed-width ident comparison must fail closed");
    assert!(gapped, "the fail-closed coverage gap must fire instead");
}
#[test]
fn pb077_unknown_ident_and_unsupported_type_fail_closed() {
    let cfg = SubsetConfig::default_for_test();

    let (smt, gapped) = pb077_run(
        &cfg,
        pb077_callee_spec(&["b"], &[pb077_u32()], &["z > 0"]),
        &[(5, pb077_u32())],
    );
    assert!(smt.is_none(), "an ident matching no parameter must fail closed");
    assert!(gapped);

    let bool_ty = Ty { kind: TyKind::RigidTy(RigidTy::Bool) };
    let (smt, gapped) = pb077_run(
        &cfg,
        pb077_callee_spec(&["b"], std::slice::from_ref(&bool_ty), &["b > 0"]),
        &[(1, bool_ty)],
    );
    assert!(smt.is_none(), "an unmodelled parameter type must fail closed");
    assert!(gapped);
}
#[test]
fn pb077_actual_of_a_different_type_than_the_parameter_fails_closed() {

    let cfg = SubsetConfig::default_for_test();
    let spec = pb077_callee_spec(&["b"], &[pb077_u32()], &["b > 0"]);
    let (smt, gapped) = pb077_run(&cfg, spec, &[(5, pb077_u8())]);
    assert!(smt.is_none(), "actual/parameter type mismatch must fail closed");
    assert!(gapped);
}
#[test]
fn pb077_empty_contract_keeps_the_gap() {

    let cfg = SubsetConfig::default_for_test();
    let spec = pb077_callee_spec(&["b"], &[pb077_u32()], &[]);
    let (smt, gapped) = pb077_run(&cfg, spec, &[(5, pb077_u32())]);
    assert!(smt.is_none());
    assert!(gapped);
}
#[test]
fn pb077_without_a_spec_map_behavior_is_unchanged() {

    let cfg = SubsetConfig::default_for_test();
    let mut v = SubsetVisitor::new(&cfg);
    v.set_known_precondition_fns(
        ["demo::callee".to_string()].into_iter().collect::<Vec<_>>(),
    );
    v.visit_body(&pb077_caller_body("demo::callee", &[(5, pb077_u32())]), false);
    let report = v.into_report();
    assert!(report.vc_obligations.is_empty());
    assert!(
        report.audit_notes.iter().any(|n| n.message.contains("carries precondition(s)")),
    );
}
#[test]
fn pb077_multi_clause_conjunction_and_consistency_are_emitted() {

    let cfg = SubsetConfig::default_for_test();
    let spec = pb077_callee_spec(
        &["a", "b"],
        &[pb077_u32(), pb077_u32()],
        &["a > 0", "b > 0"],
    );
    const CALLEE: &str = "demo::callee";
    let mut v = SubsetVisitor::new(&cfg);
    v.set_known_precondition_fns(
        [CALLEE.to_string()].into_iter().collect::<Vec<_>>(),
    );
    v.set_callee_specs([(CALLEE.to_string(), spec)].into_iter().collect());
    v.visit_body(
        &pb077_caller_body(CALLEE, &[(0, pb077_u32()), (5, pb077_u32())]),
        false,
    );
    let report = v.into_report();
    let (discharge, consistency) = report
        .vc_obligations
        .iter()
        .find_map(|o| match &o.kind {
            pitbull_subset::vc::VcObligationKind::CallSitePrecondition {
                discharge_smt,
                consistency_smt,
                ..
            } => Some((discharge_smt.clone(), consistency_smt.clone())),
            _ => None,
        })
        .expect("a PB077 obligation must be emitted");
    let smt = discharge.expect("both clauses translate");
    assert!(smt.contains("(assert (= a #x00000000))"), "smt:\n{smt}");
    assert!(smt.contains("(assert (= b #x00000005))"), "smt:\n{smt}");
    assert!(
        smt.contains("(assert (not (and (bvugt a #x00000000) (bvugt b #x00000000))))"),
        "the goal must be the negated CONJUNCTION of every clause:\n{smt}",
    );
    let cs = consistency.expect("pins are hypotheses, so the F1 guard applies");
    assert!(cs.contains("(assert (= a #x00000000))"), "consistency:\n{cs}");
    assert!(!cs.contains("bvugt"), "the guard must carry no goal:\n{cs}");
    assert!(cs.trim_end().ends_with("(check-sat)"), "consistency:\n{cs}");
}
#[test]
fn pb077_callee_spec_from_body_types_parameters_by_local_slot() {

    let spec = pb077_callee_spec(
        &["a", "b"],
        &[pb077_u8(), pb077_u32()],
        &["b > 0"],
    );
    assert_eq!(spec.arg_names, vec!["a".to_string(), "b".to_string()]);
    assert_eq!(
        spec.arg_ty_names,
        vec![Some("u8".to_string()), Some("u32".to_string())],
    );
    assert_eq!(spec.preconditions, vec!["b > 0".to_string()]);
}

enum Pb077Actual {
    Const(i128, Ty),
    CallerParam(usize),
}

fn pb077_caller_body_with_params(
    path: &str,
    caller_params: &[(&str, Ty)],
    actuals: &[Pb077Actual],
) -> Body {
    let bool_ty = Ty { kind: TyKind::RigidTy(RigidTy::Bool) };
    let local =
        |ty: Ty| LocalDecl { ty, span: Span::default(), mutability: Mutability::Not };

    let mut locals = vec![local(bool_ty.clone())];
    locals.extend(caller_params.iter().map(|(_, ty)| local(ty.clone())));
    let mir_args = actuals
        .iter()
        .map(|a| match a {
            Pb077Actual::Const(v, ty) => Operand::Constant(ConstOperand {
                ty: ty.clone(),
                def_id: None,
                path: None,
                value: Some(*v),
            }),
            Pb077Actual::CallerParam(idx) => Operand::Copy(Place {
                local: Local(u32::try_from(*idx + 1).expect("small test index")),
                projection: vec![],
            }),
        })
        .collect();
    Body {
        def_id: DefId(0),
        arg_tys: caller_params.iter().map(|(_, ty)| ty.clone()).collect(),
        arg_names: caller_params.iter().map(|(n, _)| (*n).to_string()).collect(),
        return_ty: bool_ty.clone(),
        is_unsafe: false,
        is_async: false,
        locals,
        blocks: vec![BasicBlockData {
            statements: vec![],
            terminator: Terminator {
                kind: TerminatorKind::Call {
                    func: Operand::Constant(ConstOperand {
                        ty: bool_ty,
                        def_id: None,
                        path: Some(path.to_string()),
                        value: None,
                    }),
                    args: mir_args,
                    destination: Place { local: Local(0), projection: vec![] },
                    target: None,
                },
                span: Span::default(),
            },
        }],
        span: Span::default(),
    }
}

fn pb077_run_2(
    cfg: &SubsetConfig,
    spec: CalleeSpec,
    caller_preconditions: &[&str],
    body: &Body,
) -> (Option<String>, Option<String>, bool) {
    const CALLEE: &str = "demo::callee";
    let mut v = SubsetVisitor::new(cfg);
    v.set_known_precondition_fns(
        [CALLEE.to_string()].into_iter().collect::<Vec<_>>(),
    );
    v.set_callee_specs([(CALLEE.to_string(), spec)].into_iter().collect());
    v.set_current_preconditions(
        caller_preconditions.iter().map(|s| (*s).to_string()).collect(),
    );
    v.visit_body(body, false);
    let report = v.into_report();
    let found = report.vc_obligations.iter().find_map(|o| match &o.kind {
        pitbull_subset::vc::VcObligationKind::CallSitePrecondition {
            discharge_smt,
            consistency_smt,
            ..
        } => Some((discharge_smt.clone(), consistency_smt.clone())),
        _ => None,
    });
    let gapped =
        report.audit_notes.iter().any(|n| n.message.contains("carries precondition(s)"));
    match found {
        Some((d, c)) => (d, c, gapped),
        None => (None, None, gapped),
    }
}
#[test]
fn pb077_caller_param_actual_links_and_folds_in_the_caller_hypothesis() {

    let cfg = SubsetConfig::default_for_test();
    let spec = pb077_callee_spec(&["b"], &[pb077_u32()], &["b > 0"]);
    let body = pb077_caller_body_with_params(
        "demo::callee",
        &[("v", pb077_u32())],
        &[Pb077Actual::CallerParam(0)],
    );
    let (discharge, consistency, gapped) = pb077_run_2(&cfg, spec, &["v > 0"], &body);
    let smt = discharge.expect("a caller-parameter actual must not gap");
    assert!(
        smt.contains("(declare-const __pb_caller_arg0 (_ BitVec 32))"),
        "smt:\n{smt}",
    );
    assert!(smt.contains("(declare-const b (_ BitVec 32))"), "smt:\n{smt}");
    assert!(smt.contains("(assert (= b __pb_caller_arg0))"), "missing link:\n{smt}");
    assert!(
        smt.contains("(assert (bvugt __pb_caller_arg0 #x00000000))"),
        "missing the caller's own hypothesis:\n{smt}",
    );
    assert!(
        smt.contains("(assert (not (bvugt b #x00000000)))"),
        "the negated callee goal must be unchanged:\n{smt}",
    );
    let cs = consistency.expect("a CallerArg binding must carry the F1 guard");
    assert!(
        cs.contains("(assert (bvugt __pb_caller_arg0 #x00000000))"),
        "the consistency check must carry the SAME hypotheses as the \
         discharge problem, or it isn't actually guarding them:\n{cs}",
    );
    assert!(!cs.contains("bvugt b"), "the guard must carry no GOAL:\n{cs}");
    assert!(!gapped, "an emitted obligation subsumes the coverage gap");
}
#[test]
fn pb077_caller_param_without_a_matching_precondition_is_attempted_not_gapped() {

    let cfg = SubsetConfig::default_for_test();
    let spec = pb077_callee_spec(&["b"], &[pb077_u32()], &["b > 0"]);
    let body = pb077_caller_body_with_params(
        "demo::callee",
        &[("v", pb077_u32())],
        &[Pb077Actual::CallerParam(0)],
    );
    let (discharge, _consistency, gapped) = pb077_run_2(&cfg, spec, &[], &body);
    let smt = discharge.expect("the link alone is enough to attempt discharge");
    assert!(smt.contains("(assert (= b __pb_caller_arg0))"), "smt:\n{smt}");
    assert!(
        !smt.contains("bvugt __pb_caller_arg0"),
        "no caller hypothesis exists to add:\n{smt}",
    );
    assert!(!gapped, "an attempted-but-unconstrained obligation is not a gap");
}
#[test]
fn pb077_contradictory_caller_preconditions_reach_the_consistency_check() {

    let cfg = SubsetConfig::default_for_test();
    let spec = pb077_callee_spec(&["b"], &[pb077_u32()], &["b > 0"]);
    let body = pb077_caller_body_with_params(
        "demo::callee",
        &[("v", pb077_u32())],
        &[Pb077Actual::CallerParam(0)],
    );
    let (_discharge, consistency, _gapped) =
        pb077_run_2(&cfg, spec, &["v > 10", "v < 5"], &body);
    let cs = consistency.expect("a CallerArg binding must carry the F1 guard");
    assert!(cs.contains("(assert (bvugt __pb_caller_arg0 #x0000000A))"), "cs:\n{cs}");
    assert!(cs.contains("(assert (bvult __pb_caller_arg0 #x00000005))"), "cs:\n{cs}");
    assert!(!cs.contains("bvugt b"), "the guard must carry no callee-side GOAL:\n{cs}");
}
#[test]
fn pb077_untranslatable_caller_hypothesis_is_dropped_not_fatal() {

    let cfg = SubsetConfig::default_for_test();
    let spec = pb077_callee_spec(&["b"], &[pb077_u32()], &["b > 0"]);
    let body = pb077_caller_body_with_params(
        "demo::callee",
        &[("v", pb077_u32())],
        &[Pb077Actual::CallerParam(0)],
    );
    let (discharge, _consistency, gapped) = pb077_run_2(
        &cfg,
        spec,
        &["v > 0", "(assert (bvugt v #x00000000))"],
        &body,
    );
    let smt = discharge.expect("the translatable caller clause alone is still usable");
    assert!(
        smt.contains("(assert (bvugt __pb_caller_arg0 #x00000000))"),
        "the translatable clause must still be used:\n{smt}",
    );
    assert!(
        !smt.to_lowercase().contains("(assert (bvugt v "),
        "the raw clause must not be spliced in under the raw ident:\n{smt}",
    );
    assert!(!gapped);
}
#[test]
fn pb077_caller_param_of_a_different_type_than_the_parameter_declines_the_binding() {

    let cfg = SubsetConfig::default_for_test();
    let spec = pb077_callee_spec(&["b"], &[pb077_u32()], &["b > 0"]);
    let body = pb077_caller_body_with_params(
        "demo::callee",
        &[("v", pb077_u8())],
        &[Pb077Actual::CallerParam(0)],
    );
    let (discharge, _consistency, gapped) = pb077_run_2(&cfg, spec, &["v > 0"], &body);
    assert!(discharge.is_none(), "a width-mismatched caller actual must fail closed");
    assert!(gapped);
}
#[test]
fn pb077_projected_caller_operand_is_not_linked() {

    let cfg = SubsetConfig::default_for_test();
    let spec = pb077_callee_spec(&["b"], &[pb077_u32()], &["b > 0"]);
    let mut body = pb077_caller_body_with_params(
        "demo::callee",
        &[("v", pb077_u32())],
        &[Pb077Actual::CallerParam(0)],
    );
    if let TerminatorKind::Call { args, .. } = &mut body.blocks[0].terminator.kind {
        args[0] = Operand::Copy(Place {
            local: Local(1),
            projection: vec![ProjectionElem::Deref],
        });
    }
    let (discharge, _consistency, gapped) = pb077_run_2(&cfg, spec, &["v > 0"], &body);
    assert!(discharge.is_none(), "a projected caller operand must fail closed");
    assert!(gapped);
}
#[test]
fn pb077_pure_constant_call_site_smt_is_byte_identical_to_increment_1() {

    let cfg = SubsetConfig::default_for_test();
    let spec_a = pb077_callee_spec(&["b"], &[pb077_u32()], &["b > 0"]);
    let spec_b = spec_a.clone();
    let (via_run, gapped_a) =
        pb077_run(&cfg, spec_a, &[(5, pb077_u32())]);
    let via_run = via_run.expect("constant actual discharges");
    let body = pb077_caller_body_with_params(
        "demo::callee",
        &[("unrelated", pb077_u32())],
        &[Pb077Actual::Const(5, pb077_u32())],
    );
    let (via_run_2, _consistency, gapped_b) =
        pb077_run_2(&cfg, spec_b, &["unrelated > 100"], &body);
    let via_run_2 = via_run_2.expect("constant actual discharges");
    assert_eq!(via_run, via_run_2, "an unrelated caller precondition must not leak in");
    assert!(!via_run_2.contains("__pb_caller_arg"), "smt:\n{via_run_2}");
    assert!(!gapped_a && !gapped_b);
}
#[test]
fn pb077_same_caller_param_linked_twice_is_declared_once() {

    let cfg = SubsetConfig::default_for_test();
    let spec = pb077_callee_spec(
        &["a", "b"],
        &[pb077_u32(), pb077_u32()],
        &["a > 0", "b > 0"],
    );
    let body = pb077_caller_body_with_params(
        "demo::callee",
        &[("v", pb077_u32())],
        &[Pb077Actual::CallerParam(0), Pb077Actual::CallerParam(0)],
    );
    let (discharge, _consistency, gapped) = pb077_run_2(&cfg, spec, &["v > 0"], &body);
    let smt = discharge.expect("both links must succeed");
    assert_eq!(
        smt.matches("(declare-const __pb_caller_arg0").count(),
        1,
        "must declare the shared caller symbol exactly once:\n{smt}",
    );
    assert!(smt.contains("(assert (= a __pb_caller_arg0))"), "smt:\n{smt}");
    assert!(smt.contains("(assert (= b __pb_caller_arg0))"), "smt:\n{smt}");
    assert!(!gapped);
}

#[test]
fn referenced_caller_arg_indices_finds_every_distinct_index() {
    assert_eq!(
        SubsetVisitor::referenced_caller_arg_indices(
            "(bvadd __pb_caller_arg0 __pb_caller_arg12)"
        ),
        vec![0, 12],
    );
    assert_eq!(
        SubsetVisitor::referenced_caller_arg_indices(
            "(bvadd __pb_caller_arg3 __pb_caller_arg3)"
        ),
        vec![3],
        "a repeated reference must be deduplicated",
    );
    assert_eq!(
        SubsetVisitor::referenced_caller_arg_indices("(bvadd b #x00000001)"),
        Vec::<usize>::new(),
        "no marker present",
    );
    assert_eq!(
        SubsetVisitor::referenced_caller_arg_indices(""),
        Vec::<usize>::new(),
    );

    assert_eq!(
        SubsetVisitor::referenced_caller_arg_indices(
            "(bvadd __pb_caller_arg1 __pb_caller_arg10)"
        ),
        vec![1, 10],
    );
    assert_eq!(
        SubsetVisitor::referenced_caller_arg_indices("(bvsub __pb_caller_arg10 x)"),
        vec![10],
        "a two-digit index must not decode as its one-digit prefix",
    );

    assert_eq!(
        SubsetVisitor::referenced_caller_arg_indices("__pb_caller_arg)"),
        Vec::<usize>::new(),
    );
}

fn pb077_body_with_stmts(
    caller_params: &[(&str, Ty)],
    stmts: &[(Ty, pitbull_subset::mir_api::BinOp, Operand, Operand)],
    path: &str,
    call_args: Vec<Operand>,
) -> Body {
    let bool_ty = Ty { kind: TyKind::RigidTy(RigidTy::Bool) };
    let local =
        |ty: Ty| LocalDecl { ty, span: Span::default(), mutability: Mutability::Not };
    let mut locals = vec![local(bool_ty.clone())];
    locals.extend(caller_params.iter().map(|(_, ty)| local(ty.clone())));
    for (ty, ..) in stmts {
        locals.push(local(ty.clone()));
    }
    let base = caller_params.len() as u32 + 1;
    let statements: Vec<Statement> = stmts
        .iter()
        .enumerate()
        .map(|(i, (_, op, lhs, rhs))| Statement {
            kind: StatementKind::Assign(
                Place { local: Local(base + i as u32), projection: vec![] },
                Rvalue::BinaryOp(*op, lhs.clone(), rhs.clone()),
            ),
            span: Span::default(),
        })
        .collect();
    Body {
        def_id: DefId(0),
        arg_tys: caller_params.iter().map(|(_, ty)| ty.clone()).collect(),
        arg_names: caller_params.iter().map(|(n, _)| (*n).to_string()).collect(),
        return_ty: bool_ty.clone(),
        is_unsafe: false,
        is_async: false,
        locals,
        blocks: vec![BasicBlockData {
            statements,
            terminator: Terminator {
                kind: TerminatorKind::Call {
                    func: Operand::Constant(ConstOperand {
                        ty: bool_ty,
                        def_id: None,
                        path: Some(path.to_string()),
                        value: None,
                    }),
                    args: call_args,
                    destination: Place { local: Local(0), projection: vec![] },
                    target: None,
                },
                span: Span::default(),
            },
        }],
        span: Span::default(),
    }
}
fn op_param(idx: u32) -> Operand {
    Operand::Copy(Place { local: Local(idx + 1), projection: vec![] })
}
fn op_local(idx: u32) -> Operand {
    Operand::Copy(Place { local: Local(idx), projection: vec![] })
}
fn op_const_u32(v: i128) -> Operand {
    Operand::Constant(ConstOperand { ty: pb077_u32(), def_id: None, path: None, value: Some(v) })
}
#[test]
fn pb077_expr_single_hop_captures_and_links_caller_hypothesis() {

    let cfg = SubsetConfig::default_for_test();
    let spec = pb077_callee_spec(&["b"], &[pb077_u32()], &["b > 0"]);
    let body = pb077_body_with_stmts(
        &[("v", pb077_u32())],
        &[(pb077_u32(), pitbull_subset::mir_api::BinOp::Add, op_param(0), op_const_u32(1))],
        "demo::callee",
        vec![op_local(2)],
    );
    let (discharge, consistency, gapped) = pb077_run_2(&cfg, spec, &["v >= 5"], &body);
    let smt = discharge.expect("a same-block captured expression must not gap");
    assert!(
        smt.contains("(declare-const __pb_caller_arg0 (_ BitVec 32))"),
        "smt:\n{smt}",
    );
    assert!(
        smt.contains("(assert (= b (bvadd __pb_caller_arg0 #x00000001)))"),
        "the captured expression must be linked verbatim:\n{smt}",
    );
    assert!(
        smt.contains("(assert (bvuge __pb_caller_arg0 #x00000005))"),
        "the caller's own hypothesis must still be folded in:\n{smt}",
    );
    let cs = consistency.expect("an Expr binding must carry the F1 guard");
    assert!(cs.contains("(bvuge __pb_caller_arg0 #x00000005)"), "cs:\n{cs}");
    assert!(!gapped);
}
#[test]
fn pb077_expr_chained_statements_captures_through_both() {

    let cfg = SubsetConfig::default_for_test();
    let spec = pb077_callee_spec(&["b"], &[pb077_u32()], &["b > 0"]);
    let body = pb077_body_with_stmts(
        &[("v", pb077_u32())],
        &[
            (pb077_u32(), pitbull_subset::mir_api::BinOp::Add, op_param(0), op_const_u32(1)),
            (pb077_u32(), pitbull_subset::mir_api::BinOp::Mul, op_local(2), op_const_u32(2)),
        ],
        "demo::callee",
        vec![op_local(3)],
    );
    let (discharge, _consistency, gapped) = pb077_run_2(&cfg, spec, &["v >= 0"], &body);
    let smt = discharge.expect("a chained same-block capture must not gap");
    assert!(
        smt.contains(
            "(assert (= b (bvmul (bvadd __pb_caller_arg0 #x00000001) #x00000002)))"
        ),
        "smt:\n{smt}",
    );
    assert!(!gapped);
}
#[test]
fn pb077_expr_two_caller_params_both_referenced_and_declared() {

    let cfg = SubsetConfig::default_for_test();
    let spec = pb077_callee_spec(&["b"], &[pb077_u32()], &["b > 0"]);
    let body = pb077_body_with_stmts(
        &[("v", pb077_u32()), ("w", pb077_u32())],
        &[(pb077_u32(), pitbull_subset::mir_api::BinOp::Add, op_param(0), op_param(1))],
        "demo::callee",
        vec![op_local(3)],
    );
    let (discharge, _consistency, gapped) =
        pb077_run_2(&cfg, spec, &["v > 0", "w > 0"], &body);
    let smt = discharge.expect("smt");
    assert!(smt.contains("(declare-const __pb_caller_arg0"), "smt:\n{smt}");
    assert!(smt.contains("(declare-const __pb_caller_arg1"), "smt:\n{smt}");
    assert!(smt.contains("(assert (bvugt __pb_caller_arg0 #x00000000))"), "smt:\n{smt}");
    assert!(smt.contains("(assert (bvugt __pb_caller_arg1 #x00000000))"), "smt:\n{smt}");
    assert!(!gapped);
}
#[test]
fn pb077_expr_value_from_a_predecessor_block_via_goto_is_captured() {

    let cfg = SubsetConfig::default_for_test();
    let spec = pb077_callee_spec(&["b"], &[pb077_u32()], &["b > 0"]);
    let body = pb077_two_block_body(
        "v",
        pb077_u32(),
        BinOp::Add,
        op_param(0),
        op_const_u32(1),
        TerminatorKind::Goto { target: BasicBlock(1) },
        vec![op_local(2)],
    );
    let (discharge, _consistency, gapped) = pb077_run_2(&cfg, spec, &["v >= 5"], &body);
    let smt = discharge.expect("a Goto-chained predecessor value must be captured");
    assert!(
        smt.contains("(assert (= b (bvadd __pb_caller_arg0 #x00000001)))"),
        "smt:\n{smt}",
    );
    assert!(!gapped);
}
#[test]
fn pb077_expr_value_behind_a_branch_is_not_captured() {

    let cfg = SubsetConfig::default_for_test();
    let spec = pb077_callee_spec(&["b"], &[pb077_u32()], &["b > 0"]);
    let body = pb077_two_block_body(
        "v",
        pb077_u32(),
        BinOp::Add,
        op_param(0),
        op_const_u32(1),
        TerminatorKind::SwitchInt { discr: op_const_u32(0), targets: vec![BasicBlock(1)] },
        vec![op_local(2)],
    );
    let (discharge, _consistency, gapped) = pb077_run_2(&cfg, spec, &["v >= 0"], &body);
    assert!(discharge.is_none(), "a value behind a branch must not be captured");
    assert!(gapped);
}

fn pb077_two_block_body(
    param_name: &str,
    param_ty: Ty,
    op: pitbull_subset::mir_api::BinOp,
    lhs: Operand,
    rhs: Operand,
    pred_terminator: pitbull_subset::mir_api::TerminatorKind,
    call_args: Vec<Operand>,
) -> Body {
    let bool_ty = Ty { kind: TyKind::RigidTy(RigidTy::Bool) };
    let local =
        |ty: Ty| LocalDecl { ty, span: Span::default(), mutability: Mutability::Not };
    Body {
        def_id: DefId(0),
        arg_tys: vec![param_ty.clone()],
        arg_names: vec![param_name.to_string()],
        return_ty: bool_ty.clone(),
        is_unsafe: false,
        is_async: false,
        locals: vec![local(bool_ty.clone()), local(param_ty.clone()), local(param_ty)],
        blocks: vec![
            BasicBlockData {
                statements: vec![Statement {
                    kind: StatementKind::Assign(
                        Place { local: Local(2), projection: vec![] },
                        Rvalue::BinaryOp(op, lhs, rhs),
                    ),
                    span: Span::default(),
                }],
                terminator: Terminator { kind: pred_terminator, span: Span::default() },
            },
            BasicBlockData {
                statements: vec![],
                terminator: Terminator {
                    kind: TerminatorKind::Call {
                        func: Operand::Constant(ConstOperand {
                            ty: bool_ty,
                            def_id: None,
                            path: Some("demo::callee".to_string()),
                            value: None,
                        }),
                        args: call_args,
                        destination: Place { local: Local(0), projection: vec![] },
                        target: None,
                    },
                    span: Span::default(),
                },
            },
        ],
        span: Span::default(),
    }
}

#[test]
fn pb077_expr_merge_point_into_the_call_block_is_not_captured() {

    let cfg = SubsetConfig::default_for_test();
    let spec = pb077_callee_spec(&["b"], &[pb077_u32()], &["b > 0"]);
    let bool_ty = Ty { kind: TyKind::RigidTy(RigidTy::Bool) };
    let local =
        |ty: Ty| LocalDecl { ty, span: Span::default(), mutability: Mutability::Not };

    let body = Body {
        def_id: DefId(0),
        arg_tys: vec![pb077_u32()],
        arg_names: vec!["v".to_string()],
        return_ty: bool_ty.clone(),
        is_unsafe: false,
        is_async: false,
        locals: vec![local(bool_ty.clone()), local(pb077_u32()), local(pb077_u32())],
        blocks: vec![
            BasicBlockData {
                statements: vec![Statement {
                    kind: StatementKind::Assign(
                        Place { local: Local(2), projection: vec![] },
                        Rvalue::BinaryOp(BinOp::Add, op_param(0), op_const_u32(1)),
                    ),
                    span: Span::default(),
                }],
                terminator: Terminator {
                    kind: TerminatorKind::Goto { target: BasicBlock(2) },
                    span: Span::default(),
                },
            },
            BasicBlockData {
                statements: vec![Statement {
                    kind: StatementKind::Assign(
                        Place { local: Local(2), projection: vec![] },
                        Rvalue::Use(op_const_u32(0)),
                    ),
                    span: Span::default(),
                }],
                terminator: Terminator {
                    kind: TerminatorKind::Goto { target: BasicBlock(2) },
                    span: Span::default(),
                },
            },
            BasicBlockData {
                statements: vec![],
                terminator: Terminator {
                    kind: TerminatorKind::Call {
                        func: Operand::Constant(ConstOperand {
                            ty: bool_ty,
                            def_id: None,
                            path: Some("demo::callee".to_string()),
                            value: None,
                        }),
                        args: vec![op_local(2)],
                        destination: Place { local: Local(0), projection: vec![] },
                        target: None,
                    },
                    span: Span::default(),
                },
            },
        ],
        span: Span::default(),
    };
    let (discharge, _consistency, gapped) = pb077_run_2(&cfg, spec, &["v >= 5"], &body);
    assert!(
        discharge.is_none(),
        "CARDINAL: a call block with TWO predecessors must never be \
         captured from one of them — the other path may carry a \
         different value",
    );
    assert!(gapped, "it must fall back to the fail-closed coverage gap");
}
#[test]
fn pb077_reassigned_caller_parameter_is_not_linked_to_its_entry_value() {

    let cfg = SubsetConfig::default_for_test();
    let spec = pb077_callee_spec(&["b"], &[pb077_u32()], &["b > 0"]);
    let bool_ty = Ty { kind: TyKind::RigidTy(RigidTy::Bool) };
    let local =
        |ty: Ty| LocalDecl { ty, span: Span::default(), mutability: Mutability::Not };

    let body = Body {
        def_id: DefId(0),
        arg_tys: vec![pb077_u32()],
        arg_names: vec!["v".to_string()],
        return_ty: bool_ty.clone(),
        is_unsafe: false,
        is_async: false,
        locals: vec![local(bool_ty.clone()), local(pb077_u32())],
        blocks: vec![BasicBlockData {
            statements: vec![Statement {
                kind: StatementKind::Assign(
                    Place { local: Local(1), projection: vec![] },
                    Rvalue::Use(op_const_u32(0)),
                ),
                span: Span::default(),
            }],
            terminator: Terminator {
                kind: TerminatorKind::Call {
                    func: Operand::Constant(ConstOperand {
                        ty: bool_ty,
                        def_id: None,
                        path: Some("demo::callee".to_string()),
                        value: None,
                    }),
                    args: vec![op_param(0)],
                    destination: Place { local: Local(0), projection: vec![] },
                    target: None,
                },
                span: Span::default(),
            },
        }],
        span: Span::default(),
    };
    let (discharge, _consistency, _gapped) = pb077_run_2(&cfg, spec, &["v > 0"], &body);

    if let Some(smt) = discharge {
        assert!(
            !smt.contains("(assert (= b __pb_caller_arg0))"),
            "must not link a REASSIGNED parameter to its entry-value \
             symbol:\n{smt}",
        );
        assert!(
            smt.contains("(assert (= b #x00000000))"),
            "the tracked assignment (`v = 0`) is the correct pin:\n{smt}",
        );
    }
}
#[test]
fn pb077_expr_referenced_caller_contradictory_precondition_reaches_consistency_check() {

    let cfg = SubsetConfig::default_for_test();
    let spec = pb077_callee_spec(&["b"], &[pb077_u32()], &["b > 0"]);
    let body = pb077_body_with_stmts(
        &[("v", pb077_u32())],
        &[(pb077_u32(), pitbull_subset::mir_api::BinOp::Add, op_param(0), op_const_u32(1))],
        "demo::callee",
        vec![op_local(2)],
    );
    let (_discharge, consistency, _gapped) =
        pb077_run_2(&cfg, spec, &["v > 10", "v < 5"], &body);
    let cs = consistency.expect("an Expr binding must carry the F1 guard");
    assert!(cs.contains("(assert (bvugt __pb_caller_arg0 #x0000000A))"), "cs:\n{cs}");
    assert!(cs.contains("(assert (bvult __pb_caller_arg0 #x00000005))"), "cs:\n{cs}");
}
