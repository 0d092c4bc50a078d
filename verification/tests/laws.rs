//! The laws of the checker on chosen bodies.

use pitbull_subset::diagnostic::AuditNoteKind;
use pitbull_subset::mir_api::{
    AssertMessage, BasicBlock, BasicBlockData, BinOp, Body, ConstOperand, DefId, IntTy, Local,
    LocalDecl, Mutability, Operand, Place, ProjectionElem, RigidTy, Rvalue, Span, Statement,
    StatementKind, Terminator, TerminatorKind, Ty, TyKind, UintTy, UnOp,
};
use pitbull_subset::vc::VcObligationKind;
use pitbull_subset::visitor::{
    is_panicking_int_method, is_trusted_total_library_call, CalleeSpec,
};
use pitbull_subset::{SubsetConfig, SubsetReport, SubsetVisitor};

fn rigid(r: RigidTy) -> Ty {
    Ty { kind: TyKind::RigidTy(r) }
}

fn u32_ty() -> Ty {
    rigid(RigidTy::Uint(UintTy::U32))
}

fn u8_ty() -> Ty {
    rigid(RigidTy::Uint(UintTy::U8))
}

fn usize_ty() -> Ty {
    rigid(RigidTy::Uint(UintTy::Usize))
}

fn bare(l: u32) -> Place {
    Place { local: Local(l), projection: vec![] }
}

fn read(l: u32) -> Operand {
    Operand::Copy(bare(l))
}

fn number(ty: Ty, value: i128) -> Operand {
    Operand::Constant(ConstOperand { ty, def_id: None, path: None, value: Some(value) })
}

fn function(path: &str, def_id: Option<u64>) -> Operand {
    Operand::Constant(ConstOperand {
        ty: rigid(RigidTy::FnDef(DefId(9))),
        def_id: def_id.map(DefId),
        path: Some(path.to_string()),
        value: None,
    })
}

fn assign(l: u32, r: Rvalue) -> StatementKind {
    StatementKind::Assign(bare(l), r)
}

fn block(statements: Vec<StatementKind>, kind: TerminatorKind) -> BasicBlockData {
    BasicBlockData {
        statements: statements
            .into_iter()
            .map(|kind| Statement { kind, span: Span::default() })
            .collect(),
        terminator: Terminator { kind, span: Span::default() },
    }
}

fn goto(target: u32) -> TerminatorKind {
    TerminatorKind::Goto { target: BasicBlock(target) }
}

fn check(target: u32) -> TerminatorKind {
    TerminatorKind::Assert {
        cond: read(0),
        expected: true,
        msg: AssertMessage::Overflow,
        target: BasicBlock(target),
    }
}

fn call(path: &str, args: Vec<Operand>, target: Option<u32>) -> TerminatorKind {
    TerminatorKind::Call {
        func: function(path, None),
        args,
        destination: bare(0),
        target: target.map(BasicBlock),
    }
}

/// A body with the parameters `params`, then `temps` more locals, all of them after the return slot.
fn body(ret: Ty, params: &[(&str, Ty)], temps: Vec<Ty>, blocks: Vec<BasicBlockData>) -> Body {
    let mut locals = vec![ret.clone()];
    locals.extend(params.iter().map(|(_, ty)| ty.clone()));
    locals.extend(temps);
    Body {
        def_id: DefId(1),
        arg_tys: params.iter().map(|(_, ty)| ty.clone()).collect(),
        arg_names: params.iter().map(|(name, _)| name.to_string()).collect(),
        return_ty: ret,
        is_unsafe: false,
        is_async: false,
        locals: locals
            .into_iter()
            .map(|ty| LocalDecl { ty, span: Span::default(), mutability: Mutability::Not })
            .collect(),
        blocks,
        span: Span::default(),
    }
}

fn texts(raws: &[&str]) -> Vec<String> {
    raws.iter().map(|raw| raw.to_string()).collect()
}

fn visit(body: &Body, preconditions: &[&str], postconditions: &[&str]) -> SubsetReport {
    let cfg = SubsetConfig::default_for_test();
    let mut v = SubsetVisitor::new(&cfg);
    v.set_current_preconditions(texts(preconditions));
    v.set_current_ensures(texts(postconditions));
    v.visit_body(body, false);
    v.into_report()
}

const CALLEE: &str = "my_crate::callee";

fn callee(params: &[(&str, Ty)], preconditions: &[&str]) -> CalleeSpec {
    CalleeSpec::from_body(&body(u32_ty(), params, vec![], vec![]), texts(preconditions))
}

fn visit_caller(caller: &Body, spec: CalleeSpec, preconditions: &[&str]) -> SubsetReport {
    let cfg = SubsetConfig::default_for_test();
    let mut v = SubsetVisitor::new(&cfg);
    v.set_known_precondition_fns(texts(&[CALLEE]));
    v.set_callee_specs(vec![(CALLEE.to_string(), spec)]);
    v.set_current_preconditions(texts(preconditions));
    v.visit_body(caller, false);
    v.into_report()
}

/// The problem and the consistency check of the one call in a report, or `None` for a gap.
fn call_problem(report: &SubsetReport) -> Option<(String, String)> {
    let found: Vec<(String, String)> = report
        .vc_obligations
        .iter()
        .filter_map(|ob| match &ob.kind {
            VcObligationKind::CallSitePrecondition {
                discharge_smt: Some(d),
                consistency_smt: Some(c),
                ..
            } => Some((d.clone(), c.clone())),
            _ => None,
        })
        .collect();
    let gaps = report
        .audit_notes
        .iter()
        .filter(|n| n.message.contains("carries precondition(s)"))
        .count();
    assert_eq!(found.len() + gaps, 1, "proved or reported, once: {report:?}");
    found.into_iter().next()
}

// ---------------------------------------------------------------------------
// Reports.
// ---------------------------------------------------------------------------

#[test]
fn findings_accumulate_and_ids_carry_positions() {
    let sum = body(
        u32_ty(),
        &[("a", u32_ty()), ("b", u32_ty())],
        vec![],
        vec![block(
            vec![assign(0, Rvalue::BinaryOp(BinOp::Add, read(1), read(2)))],
            TerminatorKind::Return,
        )],
    );
    let panicking = body(
        u32_ty(),
        &[],
        vec![],
        vec![block(vec![], call("core::panicking::panic", vec![], None))],
    );
    let cfg = SubsetConfig::default_for_test();
    let mut v = SubsetVisitor::new(&cfg);
    v.visit_body(&sum, false);
    v.visit_body(&panicking, false);
    v.visit_body(&sum, false);
    let report = v.into_report();
    let ids: Vec<&str> = report.vc_obligations.iter().map(|ob| ob.id.as_str()).collect();
    assert_eq!(ids, vec!["pb049-add-0", "pb043-panic-1", "pb049-add-2"]);
}

#[test]
fn every_operation_has_its_own_stem() {
    let ops = [
        (BinOp::Add, "add"),
        (BinOp::Sub, "sub"),
        (BinOp::Mul, "mul"),
        (BinOp::Div, "div"),
        (BinOp::Rem, "rem"),
        (BinOp::Shl, "shl"),
        (BinOp::Shr, "shr"),
    ];
    for (op, tag) in ops {
        let b = body(
            u32_ty(),
            &[("a", u32_ty()), ("b", u32_ty())],
            vec![],
            vec![block(
                vec![assign(0, Rvalue::BinaryOp(op, read(1), read(2)))],
                TerminatorKind::Unreachable,
            )],
        );
        assert_eq!(visit(&b, &[], &[]).vc_obligations[0].id, format!("pb049-{tag}-0"));
    }
    let negated = body(
        rigid(RigidTy::Int(IntTy::I32)),
        &[("a", rigid(RigidTy::Int(IntTy::I32)))],
        vec![],
        vec![block(
            vec![assign(0, Rvalue::UnaryOp(UnOp::Neg, read(1)))],
            TerminatorKind::Unreachable,
        )],
    );
    assert_eq!(visit(&negated, &[], &[]).vc_obligations[0].id, "pb049-neg-0");
}

#[test]
fn remarks_are_not_counted_as_gaps() {
    let b = body(
        u32_ty(),
        &[("a", u32_ty())],
        vec![],
        vec![block(
            vec![assign(0, Rvalue::BinaryOp(BinOp::Add, read(1), read(1)))],
            TerminatorKind::Unreachable,
        )],
    );
    let report = visit(&b, &["nonsense", "zzz < 5"], &[]);
    assert_eq!(report.audit_notes.len(), 2);
    assert!(report.audit_notes.iter().all(|n| n.kind == AuditNoteKind::Transparency));
    assert_eq!(report.coverage_gap_count(), 0);
}

// ---------------------------------------------------------------------------
// Obligations.
// ---------------------------------------------------------------------------

fn count(report: &SubsetReport, stem: &str) -> usize {
    report.vc_obligations.iter().filter(|ob| ob.id.starts_with(stem)).count()
}

#[test]
fn each_return_leaves_one_obligation() {
    let b = body(
        u32_ty(),
        &[("a", u32_ty())],
        vec![],
        vec![
            block(
                vec![],
                TerminatorKind::SwitchInt {
                    discr: read(1),
                    targets: vec![BasicBlock(1), BasicBlock(2)],
                },
            ),
            block(vec![], TerminatorKind::Return),
            block(vec![], TerminatorKind::Return),
        ],
    );
    assert_eq!(count(&visit(&b, &[], &["result < 5"]), "pb076-ensures-"), 2);
    assert_eq!(count(&visit(&b, &[], &[]), "pb076-ensures-"), 0);
    let endless = body(u32_ty(), &[], vec![], vec![block(vec![], goto(0))]);
    let report = visit(&endless, &[], &["result < 5"]);
    assert_eq!(count(&report, "pb076-ensures-"), 1);
    assert!(report.audit_notes.last().expect("a remark").message.contains("no return point"));
}

#[test]
fn each_self_call_leaves_one_obligation() {
    let own = |target: u32| TerminatorKind::Call {
        func: function("my_crate::f", Some(1)),
        args: vec![],
        destination: bare(0),
        target: Some(BasicBlock(target)),
    };
    let other = TerminatorKind::Call {
        func: function("my_crate::f", Some(2)),
        args: vec![],
        destination: bare(0),
        target: None,
    };
    let b = body(
        u32_ty(),
        &[],
        vec![],
        vec![block(vec![], own(1)), block(vec![], own(2)), block(vec![], other)],
    );
    assert_eq!(count(&visit(&b, &[], &[]), "pb041-rec-"), 2);
}

#[test]
fn trusted_bodies_leave_no_obligations_and_inherit_nothing() {
    let b = body(
        rigid(RigidTy::FnPtr),
        &[("a", u32_ty())],
        vec![],
        vec![block(
            vec![assign(1, Rvalue::BinaryOp(BinOp::Add, read(1), read(1)))],
            TerminatorKind::Return,
        )],
    );
    let cfg = SubsetConfig::default_for_test();
    let mut v = SubsetVisitor::new(&cfg);
    v.set_current_preconditions(texts(&["a < 5"]));
    v.set_current_ensures(texts(&["result < 5"]));
    v.visit_body(&b, true);
    assert_eq!(v.error_count(), 2);
    assert!(v.vc_obligations.is_empty());
    assert_eq!(v.audit_notes.len(), 1);
    v.visit_body(&b, false);
    let report = v.into_report();
    assert_eq!(report.vc_obligations.len(), 1);
    assert!(report.vc_obligations[0].assumptions.is_empty());
}

#[test]
fn unfit_shift_amounts_are_left_open() {
    let shift = |value: i128| {
        let b = body(
            u8_ty(),
            &[("a", u8_ty())],
            vec![],
            vec![block(
                vec![assign(0, Rvalue::BinaryOp(BinOp::Shl, read(1), number(u32_ty(), value)))],
                TerminatorKind::Unreachable,
            )],
        );
        visit(&b, &[], &[]).vc_obligations[0].assumptions.clone()
    };
    assert_eq!(shift(9), vec!["(assert (= rhs #x09))".to_string()]);
    assert_eq!(shift(255), vec!["(assert (= rhs #xFF))".to_string()]);
    assert!(shift(256).is_empty());
    assert!(shift(-1).is_empty());
}

#[test]
fn a_clause_on_an_amount_that_is_not_modelled_is_refused() {
    let shift = |amount: Ty| {
        let b = body(
            u32_ty(),
            &[("a", u32_ty()), ("n", amount)],
            vec![],
            vec![block(
                vec![assign(0, Rvalue::BinaryOp(BinOp::Shl, read(1), read(2)))],
                TerminatorKind::Unreachable,
            )],
        );
        visit(&b, &["n < 32"], &[])
    };
    let narrow = shift(u8_ty());
    assert_eq!(
        narrow.vc_obligations[0].assumptions,
        vec!["(assert (bvult rhs #x00000020))".to_string()]
    );
    for amount in [rigid(RigidTy::Int(IntTy::I8)), rigid(RigidTy::Uint(UintTy::U64)), usize_ty()] {
        let report = shift(amount);
        assert!(report.vc_obligations[0].assumptions.is_empty());
        assert_eq!(report.audit_notes.len(), 1);
    }
}

// ---------------------------------------------------------------------------
// Messages that show their input.
// ---------------------------------------------------------------------------

#[test]
fn refused_clauses_are_shown_in_quotes() {
    let panicking =
        body(u32_ty(), &[], vec![], vec![block(vec![], call("std::rt::panic_fmt", vec![], None))]);
    let report = visit(&panicking, &["say \"hi\"\n"], &[]);
    assert_eq!(
        report.audit_notes[0].message,
        "PB043: rejecting precondition (not a valid SMT-LIB `(assert ...)` form): not an \
         `(assert ...)` form — input: \"say \\\"hi\\\"\\n\""
    );
    let indexed = Place { local: Local(1), projection: vec![ProjectionElem::Index(Local(2))] };
    let b = body(
        u32_ty(),
        &[("s", u32_ty()), ("i", usize_ty())],
        vec![],
        vec![block(vec![StatementKind::FakeRead(indexed)], TerminatorKind::Unreachable)],
    );
    let report = visit(&b, &["i < n", "i < len", "i < 10", "idx < 3"], &[]);
    assert_eq!(
        report.audit_notes[0].message,
        "PB054: rejecting precondition (ident-vs-ident parsed but at least one side does not \
         resolve in the SMT problem). Known names: [\"idx\", \"len\", \"i\"]; got lhs=\"i\" \
         rhs=\"n\"; input: \"i < n\""
    );
    assert_eq!(
        report.vc_obligations[0].assumptions,
        vec![
            "(assert (bvult i len))".to_string(),
            "(assert (bvult i #x000000000000000A))".to_string(),
            "(assert (bvult idx #x0000000000000003))".to_string(),
        ]
    );
}

#[test]
fn the_index_type_follows_the_pointer_width() {
    let indexed = Place { local: Local(1), projection: vec![ProjectionElem::Index(Local(2))] };
    let b = body(
        u32_ty(),
        &[("s", u32_ty()), ("i", usize_ty())],
        vec![],
        vec![block(vec![StatementKind::FakeRead(indexed)], TerminatorKind::Unreachable)],
    );
    let widths = [(16, "#x000A"), (32, "#x0000000A"), (64, "#x000000000000000A"), (8, "#x000000000000000A")];
    for (width, literal) in widths {
        let mut cfg = SubsetConfig::default_for_test();
        cfg.subset.target_pointer_width = width;
        let mut v = SubsetVisitor::new(&cfg);
        v.set_current_preconditions(texts(&["i < 10"]));
        v.visit_body(&b, false);
        assert_eq!(
            v.vc_obligations[0].assumptions,
            vec![format!("(assert (bvult i {literal}))")]
        );
    }
}

// ---------------------------------------------------------------------------
// Captured return values.
// ---------------------------------------------------------------------------

fn ensures_problem(report: &SubsetReport) -> (Option<String>, Option<String>) {
    match &report.vc_obligations.last().expect("an obligation").kind {
        VcObligationKind::EnsuresPostcondition { discharge_smt, consistency_smt, .. } => {
            (discharge_smt.clone(), consistency_smt.clone())
        }
        other => panic!("{other:?}"),
    }
}

#[test]
fn a_straight_line_is_captured_to_its_end() {
    let tuple = rigid(RigidTy::Tuple(vec![u32_ty(), rigid(RigidTy::Bool)]));
    let first = Operand::Move(Place { local: Local(3), projection: vec![ProjectionElem::Field(0)] });
    let b = body(
        u32_ty(),
        &[("a", u32_ty()), ("b", u32_ty())],
        vec![tuple],
        vec![
            block(
                vec![assign(3, Rvalue::BinaryOp(BinOp::Add, read(1), read(2)))],
                check(2),
            ),
            block(vec![assign(0, Rvalue::Use(read(1)))], TerminatorKind::Return),
            block(vec![assign(0, Rvalue::Use(first))], goto(3)),
            block(vec![], TerminatorKind::Return),
        ],
    );
    let (discharge, consistency) =
        ensures_problem(&visit(&b, &["a < 10", "b <= a"], &["result < 100", "result >= a"]));
    let given = "(set-logic QF_BV)\n(declare-const result (_ BitVec 32))\n\
                 (declare-const a (_ BitVec 32))\n(declare-const b (_ BitVec 32))\n\
                 (assert (bvult a #x0000000A))\n(assert (bvule b a))\n\
                 (assert (= result (bvadd a b)))\n";
    assert_eq!(
        discharge.expect("captured"),
        format!(
            "{given}(assert (not (and (bvult result #x00000064) (bvuge result a))))\n(check-sat)\n"
        )
    );
    assert_eq!(consistency.expect("there are preconditions"), format!("{given}(check-sat)\n"));
}

#[test]
fn loops_and_branches_are_not_captured() {
    let looping = body(
        u32_ty(),
        &[("a", u32_ty())],
        vec![],
        vec![block(vec![assign(0, Rvalue::Use(read(1)))], goto(1)), block(vec![], goto(0))],
    );
    assert_eq!(ensures_problem(&visit(&looping, &[], &["result < 5"])).0, None);
    let branching = body(
        u32_ty(),
        &[("a", u32_ty())],
        vec![],
        vec![
            block(
                vec![assign(0, Rvalue::Use(read(1)))],
                TerminatorKind::SwitchInt {
                    discr: read(1),
                    targets: vec![BasicBlock(1), BasicBlock(1)],
                },
            ),
            block(vec![], TerminatorKind::Return),
        ],
    );
    assert_eq!(ensures_problem(&visit(&branching, &[], &["result < 5"])).0, None);
}

#[test]
fn the_output_is_no_hypothesis() {
    let b = body(
        u32_ty(),
        &[("a", u32_ty())],
        vec![],
        vec![block(vec![assign(0, Rvalue::Use(read(1)))], TerminatorKind::Return)],
    );
    assert!(ensures_problem(&visit(&b, &["a < 5"], &["result < 5"])).0.is_some());
    for raw in ["result < 5", "result < a", "a < result"] {
        let report = visit(&b, &[raw], &["result < 5"]);
        assert_eq!(ensures_problem(&report), (None, None), "{raw}");
    }
    let shadowed = body(
        u32_ty(),
        &[("result", u32_ty())],
        vec![],
        vec![block(vec![assign(0, Rvalue::Use(read(1)))], TerminatorKind::Return)],
    );
    assert_eq!(ensures_problem(&visit(&shadowed, &[], &["result < 5"])).0, None);
}

// ---------------------------------------------------------------------------
// Calls.
// ---------------------------------------------------------------------------

#[test]
fn constant_calls_ignore_the_caller() {
    let caller = body(
        u32_ty(),
        &[("v", u32_ty())],
        vec![],
        vec![block(vec![], call(CALLEE, vec![number(u32_ty(), 7)], None))],
    );
    let spec = || callee(&[("b", u32_ty())], &["b > 0", "b < 9"]);
    let plain = call_problem(&visit_caller(&caller, spec(), &[])).expect("constants");
    let report = visit_caller(&caller, spec(), &["v > 5", "nonsense"]);
    assert!(report.audit_notes.is_empty());
    assert_eq!(call_problem(&report).expect("constants"), plain);
    let given = "(set-logic QF_BV)\n(declare-const b (_ BitVec 32))\n\
                 (assert (= b #x00000007))\n";
    assert_eq!(
        plain.0,
        format!(
            "{given}(assert (not (and (bvugt b #x00000000) (bvult b #x00000009))))\n(check-sat)\n"
        )
    );
    assert_eq!(plain.1, format!("{given}(check-sat)\n"));
}

#[test]
fn constant_calls_are_the_same_in_every_caller() {
    let spec = || callee(&[("b", u32_ty())], &["b > 0"]);
    let first = body(
        u32_ty(),
        &[],
        vec![],
        vec![block(vec![], call(CALLEE, vec![number(u32_ty(), 7)], None))],
    );
    let second = body(
        u8_ty(),
        &[("b", u32_ty()), ("w", u8_ty())],
        vec![u32_ty()],
        vec![
            block(vec![assign(1, Rvalue::Use(number(u32_ty(), 0)))], goto(1)),
            block(vec![], goto(2)),
            block(vec![], call(CALLEE, vec![number(u32_ty(), 7)], Some(1))),
        ],
    );
    let some = call_problem(&visit_caller(&first, spec(), &[])).expect("constants");
    let other = call_problem(&visit_caller(&second, spec(), &["b > 3"])).expect("constants");
    assert_eq!(some, other);
    assert!(!some.0.contains("__pb_caller_arg") && !some.1.contains("__pb_caller_arg"));
    let odd = callee(&[("__pb_caller_arg0", u32_ty())], &["__pb_caller_arg0 > 0"]);
    let named = call_problem(&visit_caller(&first, odd, &[])).expect("constants");
    assert!(named.0.contains("__pb_caller_arg0"));
    let unused = callee(&[("b", u32_ty()), ("__pb_caller_arg0", u32_ty())], &["b > 0"]);
    assert_eq!(call_problem(&visit_caller(&first, unused, &[])).expect("constants"), some);
}

#[test]
fn places_that_are_read_are_looked_at() {
    let indexed = || {
        Operand::Copy(Place { local: Local(1), projection: vec![ProjectionElem::Index(Local(2))] })
    };
    let read_by = |statements: Vec<StatementKind>, kind: TerminatorKind| {
        let b = body(
            u32_ty(),
            &[("s", u32_ty()), ("i", usize_ty())],
            vec![],
            vec![block(statements, kind)],
        );
        count(&visit(&b, &[], &[]), "pb054-idx-")
    };
    let unreachable = || TerminatorKind::Unreachable;
    assert_eq!(read_by(vec![assign(0, Rvalue::Use(indexed()))], unreachable()), 1);
    assert_eq!(
        read_by(
            vec![assign(0, Rvalue::BinaryOp(BinOp::BitAnd, indexed(), indexed()))],
            unreachable()
        ),
        2
    );
    assert_eq!(
        read_by(
            vec![],
            TerminatorKind::SwitchInt { discr: indexed(), targets: vec![BasicBlock(0)] }
        ),
        1
    );
    assert_eq!(read_by(vec![], call("my_crate::helper", vec![indexed(), indexed()], None)), 2);
}

#[test]
fn linked_parameters_are_declared_once_in_order() {
    let caller = body(
        u32_ty(),
        &[("x", u32_ty()), ("y", u32_ty()), ("z", u32_ty())],
        vec![],
        vec![block(vec![], call(CALLEE, vec![read(3), read(1), read(3)], None))],
    );
    let spec = callee(
        &[("a", u32_ty()), ("b", u32_ty()), ("c", u32_ty())],
        &["a < b", "c > 0"],
    );
    let (discharge, _) =
        call_problem(&visit_caller(&caller, spec, &["y < z", "x < 5"])).expect("linked");
    assert_eq!(
        discharge,
        "(set-logic QF_BV)\n\
         (declare-const __pb_caller_arg0 (_ BitVec 32))\n\
         (declare-const __pb_caller_arg1 (_ BitVec 32))\n\
         (declare-const __pb_caller_arg2 (_ BitVec 32))\n\
         (declare-const a (_ BitVec 32))\n\
         (declare-const b (_ BitVec 32))\n\
         (declare-const c (_ BitVec 32))\n\
         (assert (bvult __pb_caller_arg1 __pb_caller_arg2))\n\
         (assert (bvult __pb_caller_arg0 #x00000005))\n\
         (assert (= a __pb_caller_arg2))\n\
         (assert (= b __pb_caller_arg0))\n\
         (assert (= c __pb_caller_arg2))\n\
         (assert (not (and (bvult a b) (bvugt c #x00000000))))\n(check-sat)\n"
    );
}

#[test]
fn changed_parameters_are_not_entry_values() {
    let caller = |statements: Vec<StatementKind>| {
        body(
            u32_ty(),
            &[("v", u32_ty())],
            vec![],
            vec![block(statements, call(CALLEE, vec![read(1)], None))],
        )
    };
    let spec = || callee(&[("b", u32_ty())], &["b > 0"]);
    let (entry, _) = call_problem(&visit_caller(&caller(vec![]), spec(), &["v > 0"])).expect("v");
    assert!(entry.contains("(assert (= b __pb_caller_arg0))"));
    let zeroed = caller(vec![assign(1, Rvalue::Use(number(u32_ty(), 0)))]);
    let (now, _) = call_problem(&visit_caller(&zeroed, spec(), &["v > 0"])).expect("traced");
    assert!(now.contains("(assert (= b #x00000000))"), "{now}");
    assert!(!now.contains("__pb_caller_arg"), "{now}");
}

#[test]
fn every_way_to_a_call_counts() {
    let spec = || callee(&[("b", u32_ty())], &["b > 0"]);
    let plus_one =
        || assign(2, Rvalue::BinaryOp(BinOp::Add, read(1), number(u32_ty(), 1)));
    let straight = body(
        u32_ty(),
        &[("v", u32_ty())],
        vec![u32_ty()],
        vec![
            block(vec![plus_one()], check(2)),
            block(vec![], TerminatorKind::Return),
            block(vec![], call(CALLEE, vec![read(2)], Some(1))),
        ],
    );
    let (discharge, _) = call_problem(&visit_caller(&straight, spec(), &[])).expect("one way");
    assert!(discharge.contains("(assert (= b (bvadd __pb_caller_arg0 #x00000001)))"));
    let looping = body(
        u32_ty(),
        &[("v", u32_ty())],
        vec![u32_ty()],
        vec![
            block(vec![plus_one()], goto(1)),
            block(vec![], call(CALLEE, vec![read(2)], Some(2))),
            block(vec![assign(2, Rvalue::Use(number(u32_ty(), 0)))], goto(1)),
        ],
    );
    assert_eq!(call_problem(&visit_caller(&looping, spec(), &[])), None);
    let to_entry = body(
        u32_ty(),
        &[("v", u32_ty())],
        vec![u32_ty()],
        vec![
            block(vec![plus_one()], call(CALLEE, vec![read(2)], Some(1))),
            block(vec![], goto(0)),
        ],
    );
    assert_eq!(call_problem(&visit_caller(&to_entry, spec(), &[])), None);
}

#[test]
fn no_goal_of_a_callee_is_dropped() {
    let caller = body(
        u32_ty(),
        &[],
        vec![],
        vec![block(vec![], call(CALLEE, vec![number(u32_ty(), 7)], None))],
    );
    let params = || [("b", u32_ty())];
    assert!(call_problem(&visit_caller(&caller, callee(&params(), &["b > 0"]), &[])).is_some());
    for clauses in [
        &["b > 0", "(assert (bvugt b #x00000000))"][..],
        &["b > 0", "c > 0"][..],
        &["b > 0", "b < 99999999999"][..],
        &[][..],
    ] {
        let report = visit_caller(&caller, callee(&params(), clauses), &[]);
        assert_eq!(call_problem(&report), None, "{clauses:?}");
    }
    let twice = callee(&[("b", u32_ty()), ("b", u32_ty())], &["b > 0"]);
    assert_eq!(call_problem(&visit_caller(&caller, twice, &[])), None);
}

#[test]
fn callee_types_without_an_encoding_are_not_known() {
    let spec = callee(
        &[("a", usize_ty()), ("b", u32_ty()), ("c", rigid(RigidTy::Bool))],
        &["a > 0"],
    );
    assert_eq!(spec.arg_ty_names, vec![None, Some("u32".to_string()), None]);
    let mut short = body(u32_ty(), &[("a", u32_ty()), ("b", u32_ty())], vec![], vec![]);
    short.locals.truncate(2);
    assert_eq!(
        CalleeSpec::from_body(&short, vec![]).arg_ty_names,
        vec![Some("u32".to_string()), None]
    );
    assert_eq!(CalleeSpec::default().preconditions, Vec::<String>::new());
}

#[test]
fn specs_do_not_decide_what_has_to_be_proved() {
    let caller = body(
        u32_ty(),
        &[],
        vec![],
        vec![block(vec![], call(CALLEE, vec![number(u32_ty(), 7)], None))],
    );
    let cfg = SubsetConfig::default_for_test();
    let mut v = SubsetVisitor::new(&cfg);
    v.set_callee_specs(vec![(CALLEE.to_string(), callee(&[("b", u32_ty())], &["b > 0"]))]);
    v.visit_body(&caller, false);
    assert!(v.vc_obligations.is_empty() && v.audit_notes.is_empty());
}

#[test]
fn unlisted_specs_are_never_consulted() {
    let caller = body(
        u32_ty(),
        &[("v", u32_ty())],
        vec![],
        vec![
            block(vec![], call(CALLEE, vec![read(1)], Some(1))),
            block(vec![], call("my_crate::other", vec![number(u32_ty(), 7)], Some(2))),
            block(vec![], call("my_crate::unknown", vec![], None)),
        ],
    );
    let spec = || callee(&[("b", u32_ty())], &["b > 0"]);
    let visit_with = |specs: Vec<(String, CalleeSpec)>| {
        let cfg = SubsetConfig::default_for_test();
        let mut v = SubsetVisitor::new(&cfg);
        v.set_known_precondition_fns(texts(&[CALLEE, "my_crate::unknown"]));
        v.set_callee_specs(specs);
        v.visit_body(&caller, false);
        format!("{:?}", v.into_report())
    };
    let only = visit_with(vec![(CALLEE.to_string(), spec())]);
    let more = visit_with(vec![
        ("my_crate::other".to_string(), spec()),
        (CALLEE.to_string(), spec()),
        ("my_crate::third".to_string(), spec()),
    ]);
    assert_eq!(only, more);
    assert!(only.contains("call to `my_crate::unknown`"));
    assert!(!only.contains("my_crate::other"));
}

#[test]
fn callees_are_reported_by_path() {
    let b = body(u32_ty(), &[], vec![], vec![]);
    let Operand::Constant(c) = function("core::panicking::panic", None) else {
        panic!("a constant");
    };
    let mut cfg = SubsetConfig::default_for_test();
    for strict in [false, true] {
        cfg.verification.strict_panic_acceptance = strict;
        let mut v = SubsetVisitor::new(&cfg);
        v.classify_called_function(&b, &c, Span::default());
        assert_eq!(v.error_count() == 1, strict);
        assert_eq!(v.vc_obligations.is_empty(), strict);
    }
}

#[test]
fn the_later_of_two_specs_counts() {
    let caller = body(
        u32_ty(),
        &[],
        vec![],
        vec![block(vec![], call(CALLEE, vec![number(u32_ty(), 7)], None))],
    );
    let cfg = SubsetConfig::default_for_test();
    let mut v = SubsetVisitor::new(&cfg);
    v.set_known_precondition_fns(texts(&[CALLEE]));
    v.set_callee_specs(vec![
        (CALLEE.to_string(), callee(&[("b", u32_ty())], &["b > 0"])),
        (CALLEE.to_string(), callee(&[("b", u32_ty())], &["b < 3"])),
    ]);
    v.visit_body(&caller, false);
    let (discharge, _) = call_problem(&v.into_report()).expect("known");
    assert!(discharge.contains("bvult b #x00000003") && !discharge.contains("bvugt"));
}

#[test]
fn integer_families_are_split_by_division() {
    let types = [
        "i8", "i16", "i32", "i64", "i128", "isize", "u8", "u16", "u32", "u64", "u128", "usize",
    ];
    let members = [
        "add", "sub", "mul", "neg", "abs", "pow", "shl", "shr", "div", "rem", "div_euclid",
        "rem_euclid",
    ];
    for ty in types {
        let path = |x: &str| format!("core::num::<impl {ty}>::{x}");
        for m in members {
            let divides = m.starts_with("div") || m.starts_with("rem");
            for f in ["wrapping_", "overflowing_", "saturating_"] {
                let p = path(&format!("{f}{m}"));
                assert_eq!(is_panicking_int_method(&p), divides, "{p}");
                assert_eq!(is_trusted_total_library_call(&p), !divides, "{p}");
            }
            let checked = path(&format!("checked_{m}"));
            assert!(!is_panicking_int_method(&checked) && is_trusted_total_library_call(&checked));
            let strict = path(&format!("strict_{m}"));
            assert!(is_panicking_int_method(&strict) && !is_trusted_total_library_call(&strict));
        }
        let root = path("isqrt");
        assert_eq!(is_panicking_int_method(&root), ty.starts_with('i'));
        assert_eq!(is_trusted_total_library_call(&root), ty.starts_with('u'));
    }
}

#[test]
fn panic_modes_differ_in_what_they_report() {
    for path in ["core::panicking::panic", "core::option::Option::<u32>::unwrap"] {
        let b = body(u32_ty(), &[], vec![], vec![block(vec![], call(path, vec![], None))]);
        let lenient = visit(&b, &["nonsense"], &[]);
        assert_eq!((lenient.errors.len(), lenient.vc_obligations.len()), (0, 1));
        assert_eq!(lenient.vc_obligations[0].id, "pb043-panic-0");
        assert_eq!(lenient.coverage_gap_count(), 0);
        let mut cfg = SubsetConfig::default_for_test();
        cfg.verification.strict_panic_acceptance = true;
        let mut v = SubsetVisitor::new(&cfg);
        v.set_current_preconditions(texts(&["nonsense"]));
        v.visit_body(&b, false);
        let strict = v.into_report();
        assert_eq!((strict.errors.len(), strict.vc_obligations.len()), (1, 0));
        assert!(strict.audit_notes.is_empty());
    }
}

#[test]
fn entry_symbols_are_read_back() {
    let refs = SubsetVisitor::referenced_caller_arg_indices;
    assert_eq!(refs("__pb_caller_arg0"), vec![0]);
    assert_eq!(refs("__pb_caller_arg18446744073709551615"), vec![usize::MAX]);
    assert_eq!(refs("__pb_caller_arg18446744073709551616"), Vec::<usize>::new());
    assert_eq!(
        refs("(bvadd __pb_caller_arg3 (bvmul ___pb_caller_arg1 __pb_caller_arg3))"),
        vec![3, 1]
    );
    assert_eq!(refs("__pb_caller_arg __pb_caller_arg__pb_caller_arg2"), vec![2]);
    assert_eq!(refs(""), Vec::<usize>::new());
    for (j, k) in [(0, 0), (1, 10), (10, 1), (7, 7), (0, usize::MAX)] {
        let want = if j == k { vec![j] } else { vec![j, k] };
        assert_eq!(refs(&format!("(bvadd __pb_caller_arg{j} __pb_caller_arg{k})")), want);
    }
    assert_eq!(refs("(bvadd __pb_caller_arg __pb_caller_argx)"), Vec::<usize>::new());
}
