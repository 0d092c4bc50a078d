//! The visitor: walks bodies and items, and gathers violations, audit notes and obligations.
use vstd::prelude::*;
use crate::callsite::{build_callsite_precondition_smt, find_callee, CallSite};
use crate::capture::{body_effect, capture_body_effect, find_references, referenced};
use crate::clauses::{Site, SiteView};
use crate::config::SubsetConfig;
use crate::diagnostic::{note_views, AuditNote, AuditNoteKind, SubsetError, SubsetReport};
use crate::findings::{gap, group_findings, obligation, remark, remarks, violation, Tally};
use crate::locals::{
    assigned_locals, local_arg_name, operand_arg_name, operand_primitive_int_name,
    primitive_int_name_from_ty, writes,
};
use crate::messages::{
    BINARY_DIFFER, BINARY_DIFFER_TAIL, BINARY_HEAD, BINARY_UNRESOLVED, CALLEE_UNKNOWN,
    CALL_UNPROVEN_HEAD, CALL_UNPROVEN_TAIL, CAST_ACCEPTED, CAST_FROM, CAST_REJECTED, CAST_TAIL,
    LIBRARY_CALL_HEAD, LIBRARY_CALL_TAIL, NEGATION_UNRESOLVED, NO_RETURN, TRUSTED_ENSURES,
};
use crate::mir_api::{
    AdtDef, AggregateKind, AssertMessage, BinOp, Body, CastKind, ConstOperand, FloatTy, LocalDecl,
    NonDivergingIntrinsic, Operand, Place, ProjectionElem, RetagKind, RigidTy, Rvalue, Span,
    Statement, StatementKind, Terminator, TerminatorKind, Ty, TyKind, UnOp,
};
use crate::postcondition::build_ensures_smt;
use crate::predicate::{int_type_info, operand_pin_assertion, value_fits_in_int_ty};
use crate::rules;
use crate::rules::RuleId;
use crate::text::{
    cat2, cat3, cat7, decimal_text, is_listed, opt_view, same, signed_decimal_text, starts_with,
    views,
};
use crate::types::{adt_findings, exceeds_stack_limit, rule_of_adt, ty_findings, tys_findings};
use crate::vc::{ArithOp, KindView, VcObligation, VcObligationKind};
use crate::walk::{
    aggregate_findings, blocks_findings, body_findings, call_findings, callee_findings,
    cast_findings, check_findings, const_findings, constant_pin, ensures_findings, index_findings,
    kept_value, local_findings, locals_findings, models_amount, negation_findings, operand_findings,
    operand_pins, operands_findings, overflow_findings, panic_findings, path_findings,
    place_findings, precondition_findings, projection_findings, projections_findings,
    recursion_findings, returns_somewhere, rvalue_findings, signature_findings, site_findings,
    statement_findings, statements_findings, static_findings, terminator_findings,
    MAX_PROJECTION_DEPTH, Scope, Settings,
};

pub use crate::callsite::CalleeSpec;
pub use crate::paths::{
    is_panic_call_path, is_panicking_call, is_panicking_char_method,
    is_panicking_index_or_slice_call, is_panicking_int_method, is_panicking_library_call,
    is_stdlib_namespace_path, is_trusted_total_library_call,
};

verus! {

/// The subset visitor. One visitor serves all the bodies of a run; what it finds accumulates.
pub struct SubsetVisitor<'cfg> {
    pub config: &'cfg SubsetConfig,
    /// The violations so far.
    pub errors: Vec<SubsetError>,
    /// The audit notes so far.
    pub audit_notes: Vec<AuditNote>,
    /// The obligations so far.
    pub vc_obligations: Vec<VcObligation>,
    /// The preconditions of the body that is visited next.
    pub current_body_preconditions: Vec<String>,
    /// The postconditions of the body that is visited next.
    pub current_body_ensures: Vec<String>,
    /// The paths of the functions that have preconditions.
    pub known_precondition_fns: Vec<String>,
    /// What is known of callees, by path.
    pub callee_specs: Vec<(String, CalleeSpec)>,
}

/// A body, with what is worked out once for it.
struct BodyContext<'a> {
    body: &'a Body,
    /// The locals that the body stores to.
    assigned: Vec<u32>,
    /// The term that the return value equals.
    effect: Option<String>,
}

impl<'a> BodyContext<'a> {
    spec fn wf(&self) -> bool {
        &&& forall|l: u32| #[trigger] self.assigned@.contains(l) <==> writes(self.body.blocks@, l)
        &&& opt_view(self.effect) == body_effect(*self.body)
    }
}

/// The content of the three lists of a report.
pub open spec fn tally_of(
    errors: Seq<SubsetError>,
    notes: Seq<AuditNote>,
    obligations: Seq<VcObligation>,
) -> Tally {
    Tally {
        errors: errors.map_values(|e: SubsetError| e@),
        notes: note_views(notes),
        obligations: obligations.map_values(|o: VcObligation| o@),
    }
}

impl SubsetReport {
    /// The content of this report.
    pub open spec fn tally(&self) -> Tally {
        tally_of(self.errors@, self.audit_notes@, self.vc_obligations@)
    }
}

// ---------------------------------------------------------------------------
// Construction, settings and results.
// ---------------------------------------------------------------------------

impl<'cfg> SubsetVisitor<'cfg> {
    /// What the visitor has found so far.
    pub open spec fn tally(&self) -> Tally {
        tally_of(self.errors@, self.audit_notes@, self.vc_obligations@)
    }

    /// What the next visit depends on besides the body.
    pub open spec fn settings(&self) -> Settings {
        Settings {
            config: *self.config,
            preconditions: self.current_body_preconditions@,
            postconditions: self.current_body_ensures@,
            precondition_fns: self.known_precondition_fns@,
            callee_specs: self.callee_specs@,
        }
    }

    /// What a visit of `body` depends on.
    pub open spec fn scope_of(&self, body: Body) -> Scope {
        Scope { settings: self.settings(), body }
    }

    spec fn scope(&self, cx: &BodyContext) -> Scope {
        self.scope_of(*cx.body)
    }

    /// A visitor that has found nothing and knows of no preconditions.
    #[must_use]
    pub fn new(config: &'cfg SubsetConfig) -> (r: Self)
        ensures
            r.tally() == (Tally { errors: seq![], notes: seq![], obligations: seq![] }),
            r.settings() == (Settings {
                config: *config,
                preconditions: seq![],
                postconditions: seq![],
                precondition_fns: seq![],
                callee_specs: seq![],
            }),
    {
        let r = SubsetVisitor {
            config,
            errors: Vec::new(),
            audit_notes: Vec::new(),
            vc_obligations: Vec::new(),
            current_body_preconditions: Vec::new(),
            current_body_ensures: Vec::new(),
            known_precondition_fns: Vec::new(),
            callee_specs: Vec::new(),
        };
        assert(r.tally() =~~= (Tally { errors: seq![], notes: seq![], obligations: seq![] }));
        assert(r.settings() =~~= (Settings {
            config: *config,
            preconditions: seq![],
            postconditions: seq![],
            precondition_fns: seq![],
            callee_specs: seq![],
        }));
        r
    }

    /// Installs the paths of the functions that have preconditions.
    pub fn set_known_precondition_fns(&mut self, fns: Vec<String>)
        ensures
            final(self).tally() == old(self).tally(),
            final(self).settings() == (Settings {
                precondition_fns: fns@,
                ..old(self).settings()
            }),
    {
        self.known_precondition_fns = fns;
    }

    /// Installs what is known of callees. It decides whether a call of a function that has
    /// preconditions can be proved, not whether it has to be.
    pub fn set_callee_specs(&mut self, specs: Vec<(String, CalleeSpec)>)
        ensures
            final(self).tally() == old(self).tally(),
            final(self).settings() == (Settings { callee_specs: specs@, ..old(self).settings() }),
    {
        self.callee_specs = specs;
    }

    /// Installs the preconditions of the body that is visited next.
    pub fn set_current_preconditions(&mut self, preconditions: Vec<String>)
        ensures
            final(self).tally() == old(self).tally(),
            final(self).settings() == (Settings {
                preconditions: preconditions@,
                ..old(self).settings()
            }),
    {
        self.current_body_preconditions = preconditions;
    }

    /// Installs the postconditions of the body that is visited next.
    pub fn set_current_ensures(&mut self, postconditions: Vec<String>)
        ensures
            final(self).tally() == old(self).tally(),
            final(self).settings() == (Settings {
                postconditions: postconditions@,
                ..old(self).settings()
            }),
    {
        self.current_body_ensures = postconditions;
    }

    /// Ends the run and hands out what was found.
    #[must_use]
    pub fn into_report(self) -> (r: SubsetReport)
        ensures
            r.tally() == self.tally(),
            r.errors == self.errors,
            r.audit_notes == self.audit_notes,
            r.vc_obligations == self.vc_obligations,
    {
        let mut report = SubsetReport::new(self.errors);
        report.audit_notes = self.audit_notes;
        report.vc_obligations = self.vc_obligations;
        report
    }

    /// Records a note that a check could not run: such a note keeps a body from being accepted.
    pub fn audit_note(&mut self, span: Span, message: String)
        ensures
            final(self).settings() == old(self).settings(),
            final(self).tally() == old(self).tally().record(seq![gap(span, message@)]),
    {
        broadcast use group_findings;

        self.audit_notes.push(AuditNote { span, message, kind: AuditNoteKind::CoverageGap });
        assert(self.tally() =~~= old(self).tally().with(gap(span, message@)));
    }

    /// Records a note for information, which does not bear on acceptance.
    pub fn audit_transparency(&mut self, span: Span, message: String)
        ensures
            final(self).settings() == old(self).settings(),
            final(self).tally() == old(self).tally().record(seq![remark(span, message@)]),
    {
        broadcast use group_findings;

        self.audit_notes.push(AuditNote { span, message, kind: AuditNoteKind::Transparency });
        assert(self.tally() =~~= old(self).tally().with(remark(span, message@)));
    }

    /// The number of violations so far.
    #[must_use]
    pub fn error_count(&self) -> (r: usize)
        ensures
            r == self.tally().errors.len(),
    {
        self.errors.len()
    }

    /// Records a violation.
    fn reject(&mut self, rule: RuleId, span: Span, detail: String)
        ensures
            final(self).settings() == old(self).settings(),
            final(self).tally() == old(self).tally().record(seq![violation(rule, span, detail@)]),
    {
        broadcast use group_findings;

        self.errors.push(SubsetError { rule, span, detail, in_spec: false });
        assert(self.tally() =~~= old(self).tally().with(violation(rule, span, detail@)));
    }

    /// Records an obligation. Its id ends in the number of obligations before it.
    fn oblige(&mut self, span: Span, kind: VcObligationKind, assumptions: Vec<String>)
        ensures
            final(self).settings() == old(self).settings(),
            final(self).tally() == old(self).tally().record(
                seq![obligation(span, kind@, views(assumptions@))],
            ),
    {
        broadcast use group_findings;

        let seq_no: usize = self.vc_obligations.len();
        let id = cat2(kind.stem().as_str(), decimal_text(seq_no as u128).as_str());
        self.vc_obligations.push(VcObligation { id, span, kind, assumptions });
        assert(self.tally() =~~= old(self).tally().with(
            obligation(span, kind@, views(assumptions@)),
        ));
    }

    /// Records a remark for each of `messages`.
    fn remark_all(&mut self, span: Span, messages: &Vec<String>)
        ensures
            final(self).settings() == old(self).settings(),
            final(self).tally() == old(self).tally().record(remarks(span, views(messages@))),
    {
        broadcast use group_findings;

        let ghost all = remarks(span, views(messages@));
        let mut i: usize = 0;
        while i < messages.len()
            invariant
                i <= messages@.len(),
                all == remarks(span, views(messages@)),
                self.settings() == old(self).settings(),
                self.tally() == old(self).tally().record(all.take(i as int)),
            decreases messages@.len() - i,
        {
            broadcast use group_findings;

            assert(all.take(i + 1) =~= all.take(i as int) + seq![
                remark(span, messages@[i as int]@),
            ]);
            self.audit_transparency(span, messages[i].clone());
            i += 1;
        }
        assert(all.take(i as int) =~= all);
    }

    /// Records an obligation at `site` with the hypotheses `given` and the preconditions that apply
    /// there.
    fn oblige_at(
        &mut self,
        body: &Body,
        site: &Site,
        kind: VcObligationKind,
        given: Vec<String>,
        span: Span,
    )
        ensures
            final(self).settings() == old(self).settings(),
            final(self).tally() == old(self).tally().record(
                site_findings(old(self).scope_of(*body), site@, kind@, views(given@), span),
            ),
    {
        broadcast use group_findings;

        let (mut clauses, reasons) = site.judge_all(&self.current_body_preconditions);
        let mut assumptions: Vec<String> = given;
        let ghost before = assumptions@;
        let ghost more = clauses@;
        assumptions.append(&mut clauses);
        assert(views(assumptions@) =~= views(before) + views(more));
        self.oblige(span, kind, assumptions);
        self.remark_all(span, &reasons);
    }

    // -----------------------------------------------------------------------
    // Types.
    // -----------------------------------------------------------------------

    /// Visits a struct, enum or union.
    fn classify_adt(&mut self, adt: &AdtDef, span: Span)
        ensures
            final(self).settings() == old(self).settings(),
            final(self).tally() == old(self).tally().record(adt_findings(*adt, span)),
    {
        broadcast use group_findings;

        if let Some((rule, detail)) = rule_of_adt(adt) {
            self.reject(rule, span, detail);
        }
    }

    /// Visits a type and its components.
    fn visit_ty(&mut self, ty: &Ty, span: Span)
        ensures
            final(self).settings() == old(self).settings(),
            final(self).tally() == old(self).tally().record(ty_findings(*ty, span)),
        decreases *ty, 0nat,
    {
        broadcast use group_findings;

        match &ty.kind {
            TyKind::Param(_) => self.reject(
                rules::PB039,
                span,
                "unresolved type parameter post-monomorphization".to_owned(),
            ),
            TyKind::Dynamic => self.reject(rules::PB031, span, "`dyn Trait` type".to_owned()),
            TyKind::RigidTy(rigid) => self.visit_rigid_ty(rigid, span),
        }
    }

    /// Visits a type that is neither a parameter nor a trait object.
    fn visit_rigid_ty(&mut self, rigid: &RigidTy, span: Span)
        ensures
            final(self).settings() == old(self).settings(),
            final(self).tally() == old(self).tally().record(
                ty_findings(Ty { kind: TyKind::RigidTy(*rigid) }, span),
            ),
        decreases *rigid, 0nat,
    {
        broadcast use group_findings;

        match rigid {
            RigidTy::Bool => {},
            RigidTy::Char => {},
            RigidTy::Int(_) => {},
            RigidTy::Uint(_) => {},
            RigidTy::Float(width) => {
                let label = match width {
                    FloatTy::F16 => "f16",
                    FloatTy::F32 => "f32",
                    FloatTy::F64 => "f64",
                    FloatTy::F128 => "f128",
                };
                self.reject(rules::PB050, span, cat3("floating-point type `", label, "`"));
            },
            RigidTy::Ref(_, inner) => self.visit_ty(inner, span),
            RigidTy::RawPtr(_, inner) => {
                self.visit_ty(inner, span);
                self.reject(
                    rules::PB004,
                    span,
                    "raw pointer type (`*const` / `*mut`)".to_owned(),
                );
            },
            RigidTy::Array(inner, _) => self.visit_ty(inner, span),
            RigidTy::Slice(inner) => self.visit_ty(inner, span),
            RigidTy::Tuple(elems) => self.visit_tys(elems, span),
            RigidTy::FnPtr => self.reject(rules::PB032, span, "function pointer type".to_owned()),
            RigidTy::FnDef(_) => {},
            RigidTy::Closure(_) => self.reject(
                rules::PB033,
                span,
                "closure type in signature".to_owned(),
            ),
            RigidTy::Adt(adt) => self.classify_adt(adt, span),
        }
    }

    /// Visits types in order.
    fn visit_tys(&mut self, tys: &Vec<Ty>, span: Span)
        ensures
            final(self).settings() == old(self).settings(),
            final(self).tally() == old(self).tally().record(tys_findings(*tys, tys@.len(), span)),
        decreases *tys, tys@.len() + 1,
    {
        broadcast use group_findings;

        let mut i: usize = 0;
        while i < tys.len()
            invariant
                i <= tys@.len(),
                self.settings() == old(self).settings(),
                self.tally() == old(self).tally().record(tys_findings(*tys, i as nat, span)),
            decreases tys@.len() - i,
        {
            broadcast use group_findings;

            self.visit_ty(&tys[i], span);
            i += 1;
        }
    }

    // -----------------------------------------------------------------------
    // Obligations.
    // -----------------------------------------------------------------------

    /// Records that a call which may panic must not be reached.
    fn emit_panic_reachability_obligation(&mut self, body: &Body, span: Span)
        ensures
            final(self).settings() == old(self).settings(),
            final(self).tally() == old(self).tally().record(
                site_findings(
                    old(self).scope_of(*body),
                    SiteView::Panic,
                    KindView::PanicReachability,
                    seq![],
                    span,
                ),
            ),
    {
        broadcast use group_findings;

        let none: Vec<String> = Vec::new();
        assert(views(none@) =~= seq![]);
        self.oblige_at(body, &Site::Panic, VcObligationKind::PanicReachability, none, span);
    }

    /// Records that an index must be in bounds.
    fn emit_index_bound_obligation(
        &mut self,
        cx: &BodyContext,
        idx_source_name: Option<String>,
        span: Span,
    )
        requires
            cx.wf(),
        ensures
            final(self).settings() == old(self).settings(),
            final(self).tally() == old(self).tally().record(
                index_findings(old(self).scope(cx), opt_view(idx_source_name), span),
            ),
    {
        broadcast use group_findings;

        let ty = match self.config.subset.target_pointer_width {
            16 => "u16",
            32 => "u32",
            _ => "u64",
        };
        let site = Site::Index {
            source: crate::text::copy_opt(&idx_source_name),
            ty: ty.to_owned(),
        };
        let none: Vec<String> = Vec::new();
        assert(views(none@) =~= seq![]);
        let kind = VcObligationKind::IndexBound { idx_source_name };
        self.oblige_at(cx.body, &site, kind, none, span);
    }

    /// Records that a binary operation must not fail, or that this cannot be asked.
    fn maybe_emit_overflow_obligation(
        &mut self,
        cx: &BodyContext,
        binop: BinOp,
        lhs: &Operand,
        rhs: &Operand,
        span: Span,
    )
        requires
            cx.wf(),
        ensures
            final(self).settings() == old(self).settings(),
            final(self).tally() == old(self).tally().record(
                overflow_findings(old(self).scope(cx), binop, *lhs, *rhs, span),
            ),
    {
        broadcast use group_findings;

        let op = match binop {
            BinOp::Add => ArithOp::Add,
            BinOp::Sub => ArithOp::Sub,
            BinOp::Mul => ArithOp::Mul,
            BinOp::Div => ArithOp::Div,
            BinOp::Rem => ArithOp::Rem,
            BinOp::Shl => ArithOp::Shl,
            BinOp::Shr => ArithOp::Shr,
            BinOp::BitAnd => return,
            BinOp::BitOr => return,
            BinOp::BitXor => return,
            BinOp::Eq => return,
            BinOp::Lt => return,
            BinOp::Le => return,
            BinOp::Ne => return,
            BinOp::Ge => return,
            BinOp::Gt => return,
            BinOp::Offset => return,
        };
        let left = operand_primitive_int_name(cx.body, lhs);
        let right = operand_primitive_int_name(cx.body, rhs);
        let (left, right) = match (left, right) {
            (Some(left), Some(right)) => (left, right),
            _ => {
                self.audit_note(span, cat3(BINARY_HEAD, op.name(), BINARY_UNRESOLVED));
                return;
            },
        };
        let shift: bool = op == ArithOp::Shl || op == ArithOp::Shr;
        let mixed: bool = !same(left.as_str(), right.as_str());
        if mixed && !shift {
            self.audit_note(
                span,
                cat7(
                    BINARY_HEAD,
                    op.name(),
                    BINARY_DIFFER,
                    left.as_str(),
                    " vs ",
                    right.as_str(),
                    BINARY_DIFFER_TAIL,
                ),
            );
            return;
        }
        let pins = pin_operands(lhs, rhs, left.as_str(), mixed);
        let rhs_arg = if mixed && !is_modelled(right.as_str(), left.as_str()) {
            None
        } else {
            operand_arg_name(cx.body, rhs)
        };
        let site = Site::Arithmetic {
            lhs_arg: operand_arg_name(cx.body, lhs),
            rhs_arg,
            ty: left.clone(),
        };
        let kind = VcObligationKind::ArithmeticOverflow { op, ty_name: left };
        self.oblige_at(cx.body, &site, kind, pins, span);
    }

    /// Records that a negation must not overflow, or that this cannot be asked.
    fn maybe_emit_neg_overflow_obligation(&mut self, cx: &BodyContext, op: &Operand, span: Span)
        requires
            cx.wf(),
        ensures
            final(self).settings() == old(self).settings(),
            final(self).tally() == old(self).tally().record(
                negation_findings(old(self).scope(cx), *op, span),
            ),
    {
        broadcast use group_findings;

        let ty = match operand_primitive_int_name(cx.body, op) {
            Some(ty) => ty,
            None => {
                self.audit_note(span, NEGATION_UNRESOLVED.to_owned());
                return;
            },
        };
        if !starts_with(ty.as_str(), "i") {
            return;
        }
        let pins = pin_operand("lhs", op, ty.as_str());
        let site = Site::Negation { arg: operand_arg_name(cx.body, op), ty: ty.clone() };
        let kind = VcObligationKind::ArithmeticOverflow { op: ArithOp::Neg, ty_name: ty };
        self.oblige_at(cx.body, &site, kind, pins, span);
    }

    /// Records that the postconditions must hold at a return.
    fn emit_ensures_obligation(&mut self, cx: &BodyContext, span: Span)
        requires
            cx.wf(),
        ensures
            final(self).settings() == old(self).settings(),
            final(self).tally() == old(self).tally().record(
                ensures_findings(old(self).scope(cx), span),
            ),
    {
        broadcast use group_findings;

        if self.current_body_ensures.len() == 0 {
            return;
        }
        let ret_ty_name = primitive_int_name_from_ty(&cx.body.return_ty);
        let problem = build_ensures_smt(
            cx.body,
            &cx.effect,
            &self.current_body_preconditions,
            &self.current_body_ensures,
            &ret_ty_name,
        );
        if let Some(why) = problem.pending {
            self.audit_transparency(span, why);
        }
        let none: Vec<String> = Vec::new();
        assert(views(none@) =~= seq![]);
        self.oblige(
            span,
            VcObligationKind::EnsuresPostcondition {
                ret_name: "result".to_owned(),
                ret_ty_name,
                discharge_smt: problem.discharge,
                consistency_smt: problem.consistency,
            },
            none,
        );
    }

    // -----------------------------------------------------------------------
    // Places, operands and rvalues.
    // -----------------------------------------------------------------------

    /// Visits one step of a place.
    fn visit_projection(&mut self, cx: &BodyContext, elem: &ProjectionElem, span: Span)
        requires
            cx.wf(),
        ensures
            final(self).settings() == old(self).settings(),
            final(self).tally() == old(self).tally().record(
                projection_findings(old(self).scope(cx), *elem, span),
            ),
    {
        broadcast use group_findings;

        match elem {
            ProjectionElem::Deref => {},
            ProjectionElem::Field(_) => {},
            ProjectionElem::Index(local) => {
                let source = local_arg_name(cx.body, *local);
                self.emit_index_bound_obligation(cx, source, span);
            },
            ProjectionElem::ConstantIndex { .. } => self.emit_index_bound_obligation(
                cx,
                None,
                span,
            ),
            ProjectionElem::Subslice { .. } => self.emit_index_bound_obligation(cx, None, span),
            ProjectionElem::Downcast(_) => {},
            ProjectionElem::OpaqueCast(ty) => self.visit_ty(ty, span),
            ProjectionElem::Subtype(ty) => self.visit_ty(ty, span),
        }
    }

    /// Visits a place.
    fn visit_place(&mut self, cx: &BodyContext, place: &Place, span: Span)
        requires
            cx.wf(),
        ensures
            final(self).settings() == old(self).settings(),
            final(self).tally() == old(self).tally().record(
                place_findings(old(self).scope(cx), *place, span),
            ),
    {
        broadcast use group_findings;

        let ghost sc = self.scope(cx);
        let ghost elems = place.projection@;
        if place.projection.len() > MAX_PROJECTION_DEPTH {
            let depth = decimal_text(place.projection.len() as u128);
            let limit = decimal_text(MAX_PROJECTION_DEPTH as u128);
            let mut detail = cat3("place projection depth ", depth.as_str(), " exceeds limit ");
            detail.append(limit.as_str());
            self.reject(rules::PB054, span, detail);
        }
        let ghost start = self.tally();
        let mut i: usize = 0;
        assert(elems.take(0) =~= Seq::empty());
        while i < place.projection.len()
            invariant
                cx.wf(),
                i <= place.projection@.len(),
                elems == place.projection@,
                sc == old(self).scope(cx),
                self.settings() == old(self).settings(),
                self.tally() == start.record(projections_findings(sc, elems.take(i as int), span)),
            decreases place.projection@.len() - i,
        {
            broadcast use group_findings;

            proof {
                assert(elems.take(i + 1).drop_last() =~= elems.take(i as int));
                assert(elems.take(i + 1).last() == elems[i as int]);
            }
            self.visit_projection(cx, &place.projection[i], span);
            i += 1;
        }
        assert(elems.take(i as int) =~= elems);
    }

    /// Visits an operand.
    fn visit_operand(&mut self, cx: &BodyContext, op: &Operand, span: Span)
        requires
            cx.wf(),
        ensures
            final(self).settings() == old(self).settings(),
            final(self).tally() == old(self).tally().record(
                operand_findings(old(self).scope(cx), *op, span),
            ),
    {
        broadcast use group_findings;

        match op {
            Operand::Copy(place) => self.visit_place(cx, place, span),
            Operand::Move(place) => self.visit_place(cx, place, span),
            Operand::Constant(c) => self.visit_ty(&c.ty, span),
        }
    }

    /// Visits operands in order.
    fn visit_operands(&mut self, cx: &BodyContext, ops: &Vec<Operand>, span: Span)
        requires
            cx.wf(),
        ensures
            final(self).settings() == old(self).settings(),
            final(self).tally() == old(self).tally().record(
                operands_findings(old(self).scope(cx), ops@, span),
            ),
    {
        broadcast use group_findings;

        let ghost sc = self.scope(cx);
        let mut i: usize = 0;
        assert(ops@.take(0) =~= Seq::empty());
        while i < ops.len()
            invariant
                cx.wf(),
                i <= ops@.len(),
                sc == old(self).scope(cx),
                self.settings() == old(self).settings(),
                self.tally() == old(self).tally().record(
                    operands_findings(sc, ops@.take(i as int), span),
                ),
            decreases ops@.len() - i,
        {
            broadcast use group_findings;

            proof {
                assert(ops@.take(i + 1).drop_last() =~= ops@.take(i as int));
                assert(ops@.take(i + 1).last() == ops@[i as int]);
            }
            self.visit_operand(cx, &ops[i], span);
            i += 1;
        }
        assert(ops@.take(i as int) =~= ops@);
    }

    /// Visits a cast.
    fn visit_cast(&mut self, kind: &CastKind, op: &Operand, target: &Ty, span: Span)
        ensures
            final(self).settings() == old(self).settings(),
            final(self).tally() == old(self).tally().record(
                cast_findings(*kind, *op, *target, span),
            ),
    {
        broadcast use group_findings;

        match kind {
            CastKind::IntToInt => match value_preserving_int_cast(op, target) {
                Some((value, from, to)) => self.audit_transparency(
                    span,
                    cat7(
                        CAST_ACCEPTED,
                        signed_decimal_text(value).as_str(),
                        CAST_FROM,
                        from.as_str(),
                        " to ",
                        to.as_str(),
                        CAST_TAIL,
                    ),
                ),
                None => self.reject(rules::PB051, span, CAST_REJECTED.to_owned()),
            },
            CastKind::FloatToInt => self.reject(rules::PB050, span, "float cast".to_owned()),
            CastKind::IntToFloat => self.reject(rules::PB050, span, "float cast".to_owned()),
            CastKind::FloatToFloat => self.reject(rules::PB050, span, "float cast".to_owned()),
            CastKind::PtrToInt => self.reject(rules::PB004, span, "raw-pointer cast".to_owned()),
            CastKind::IntToPtr => self.reject(rules::PB004, span, "raw-pointer cast".to_owned()),
            CastKind::PtrToPtr => self.reject(rules::PB004, span, "raw-pointer cast".to_owned()),
            CastKind::FnPtrToPtr => self.reject(rules::PB004, span, "raw-pointer cast".to_owned()),
            CastKind::Transmute => self.reject(rules::PB007, span, "transmute cast".to_owned()),
            CastKind::PointerCoercion => {},
        }
    }

    /// Visits what an aggregate builds.
    fn visit_aggregate_kind(&mut self, kind: &AggregateKind, span: Span)
        ensures
            final(self).settings() == old(self).settings(),
            final(self).tally() == old(self).tally().record(aggregate_findings(*kind, span)),
    {
        broadcast use group_findings;

        match kind {
            AggregateKind::Tuple => {},
            AggregateKind::Array(ty) => self.visit_ty(ty, span),
            AggregateKind::Adt(adt, _) => self.classify_adt(adt, span),
            AggregateKind::Closure(_) => self.reject(
                rules::PB033,
                span,
                "closure construction (v0.1 conservative)".to_owned(),
            ),
            AggregateKind::Coroutine(_) => self.reject(
                rules::PB027,
                span,
                "coroutine construction".to_owned(),
            ),
            AggregateKind::RawPtr => self.reject(
                rules::PB004,
                span,
                "raw-pointer aggregate construction".to_owned(),
            ),
        }
    }

    /// Visits an rvalue.
    fn visit_rvalue(&mut self, cx: &BodyContext, rvalue: &Rvalue, span: Span)
        requires
            cx.wf(),
        ensures
            final(self).settings() == old(self).settings(),
            final(self).tally() == old(self).tally().record(
                rvalue_findings(old(self).scope(cx), *rvalue, span),
            ),
    {
        broadcast use group_findings;

        match rvalue {
            Rvalue::Use(op) => self.visit_operand(cx, op, span),
            Rvalue::Repeat(op, _) => self.visit_operand(cx, op, span),
            Rvalue::Ref(_, place) => self.visit_place(cx, place, span),
            Rvalue::ThreadLocalRef(_) => self.reject(
                rules::PB019,
                span,
                "thread-local reference".to_owned(),
            ),
            Rvalue::RawPtr(_, place) => {
                self.visit_place(cx, place, span);
                self.reject(
                    rules::PB004,
                    span,
                    "raw pointer (`&raw const` / `&raw mut`)".to_owned(),
                );
            },
            Rvalue::Len(place) => self.visit_place(cx, place, span),
            Rvalue::Cast(kind, op, target) => {
                self.visit_operand(cx, op, span);
                self.visit_ty(target, span);
                self.visit_cast(kind, op, target, span);
            },
            Rvalue::BinaryOp(binop, lhs, rhs) => {
                self.visit_operand(cx, lhs, span);
                self.visit_operand(cx, rhs, span);
                if *binop == BinOp::Offset {
                    self.reject(rules::PB004, span, "pointer offset operation".to_owned());
                }
                self.maybe_emit_overflow_obligation(cx, *binop, lhs, rhs, span);
            },
            Rvalue::NullaryOp(_, ty) => self.visit_ty(ty, span),
            Rvalue::UnaryOp(unop, op) => {
                self.visit_operand(cx, op, span);
                match unop {
                    UnOp::Neg => self.maybe_emit_neg_overflow_obligation(cx, op, span),
                    UnOp::Not => {},
                    UnOp::PtrMetadata => {},
                }
            },
            Rvalue::Discriminant(place) => self.visit_place(cx, place, span),
            Rvalue::Aggregate(kind, ops) => {
                self.visit_operands(cx, ops, span);
                self.visit_aggregate_kind(kind, span);
            },
            Rvalue::ShallowInitBox(op, ty) => {
                self.visit_operand(cx, op, span);
                self.visit_ty(ty, span);
                self.reject(rules::PB013, span, "`Rvalue::ShallowInitBox`".to_owned());
            },
            Rvalue::CopyForDeref(place) => self.visit_place(cx, place, span),
            Rvalue::WrapUnsafeBinder(op, ty) => {
                self.visit_operand(cx, op, span);
                self.visit_ty(ty, span);
                self.reject(
                    rules::PB001,
                    span,
                    "`Rvalue::WrapUnsafeBinder` implies `unsafe<>` binder".to_owned(),
                );
            },
        }
    }

    // -----------------------------------------------------------------------
    // Calls.
    // -----------------------------------------------------------------------

    /// Reports a call that may panic, by the mode that is set.
    fn report_panic(&mut self, body: &Body, what: &str, path: &str, span: Span)
        ensures
            final(self).settings() == old(self).settings(),
            final(self).tally() == old(self).tally().record(
                panic_findings(old(self).scope_of(*body), what, path@, span),
            ),
    {
        broadcast use group_findings;

        if self.config.verification.strict_panic_acceptance {
            self.reject(rules::PB043, span, cat3(what, path, "` (strict mode)"));
        } else {
            self.emit_panic_reachability_obligation(body, span);
        }
    }

    /// Reports a callee by its path.
    fn classify_path(&mut self, body: &Body, p: &str, span: Span)
        ensures
            final(self).settings() == old(self).settings(),
            final(self).tally() == old(self).tally().record(
                path_findings(old(self).scope_of(*body), p@, span),
            ),
    {
        broadcast use group_findings;

        if is_panic_call_path(p) {
            self.report_panic(body, "panic call `", p, span);
        } else if starts_with(p, "alloc::alloc::") || starts_with(p, "std::alloc::")
            || starts_with(p, "core::alloc::Allocator::")
            || starts_with(p, "std::alloc::Allocator::")
        {
            self.reject(rules::PB011, span, cat3("call to allocator API `", p, "`"));
        } else if same(p, "core::mem::transmute") || same(p, "std::mem::transmute")
            || same(p, "core::intrinsics::transmute") || same(p, "std::intrinsics::transmute")
            || same(p, "core::intrinsics::transmute_unchecked")
            || same(p, "std::intrinsics::transmute_unchecked")
        {
            self.reject(rules::PB007, span, "`transmute` call".to_owned());
        } else if same(p, "core::ptr::read_volatile") || same(p, "std::ptr::read_volatile")
            || same(p, "core::ptr::write_volatile") || same(p, "std::ptr::write_volatile")
        {
            self.reject(rules::PB025, span, cat3("volatile op `", p, "`"));
        } else if starts_with(p, "core::sync::atomic::") || starts_with(p, "std::sync::atomic::") {
            self.reject(rules::PB023, span, cat3("atomic op `", p, "`"));
        } else if same(p, "std::thread::spawn") || starts_with(p, "std::thread::Builder::spawn") {
            self.reject(rules::PB028, span, "thread spawn".to_owned());
        } else if is_panicking_call(p) {
            self.report_panic(body, "panicking library call `", p, span);
        } else if self.config.verification.strict_library_acceptance
            && is_stdlib_namespace_path(p) && !is_trusted_total_library_call(p)
        {
            self.audit_note(span, cat3(LIBRARY_CALL_HEAD, p, LIBRARY_CALL_TAIL));
        }
    }

    /// Reports the callee of a call in `body`.
    pub fn classify_called_function(&mut self, body: &Body, c: &ConstOperand, span: Span)
        ensures
            final(self).settings() == old(self).settings(),
            final(self).tally() == old(self).tally().record(
                callee_findings(old(self).scope_of(*body), *c, span),
            ),
    {
        broadcast use group_findings;

        match &c.path {
            Some(p) => self.classify_path(body, p.as_str(), span),
            None => self.audit_note(span, CALLEE_UNKNOWN.to_owned()),
        }
    }

    /// Records that a call of the body by itself must lead to an end.
    fn maybe_emit_recursion_obligation(&mut self, cx: &BodyContext, c: &ConstOperand, span: Span)
        requires
            cx.wf(),
        ensures
            final(self).settings() == old(self).settings(),
            final(self).tally() == old(self).tally().record(
                recursion_findings(old(self).scope(cx), *c, span),
            ),
    {
        broadcast use group_findings;

        if let Some(callee) = c.def_id {
            if callee == cx.body.def_id {
                let none: Vec<String> = Vec::new();
                assert(views(none@) =~= seq![]);
                self.oblige(span, VcObligationKind::RecursionDecreases, none);
            }
        }
    }

    /// Records that a call must meet the preconditions of its callee, or that this cannot be asked.
    fn maybe_gap_callsite_preconditions(
        &mut self,
        cx: &BodyContext,
        c: &ConstOperand,
        args: &Vec<Operand>,
        span: Span,
        block: usize,
    )
        requires
            cx.wf(),
        ensures
            final(self).settings() == old(self).settings(),
            final(self).tally() == old(self).tally().record(
                precondition_findings(old(self).scope(cx), *c, args@, span, block as int),
            ),
    {
        broadcast use group_findings;

        let p = match &c.path {
            Some(p) => p,
            None => return,
        };
        if !is_listed(&self.known_precondition_fns, p.as_str()) {
            return;
        }
        let site = CallSite { body: cx.body, assigned: &cx.assigned, args, block };
        let problem = match find_callee(&self.callee_specs, p.as_str()) {
            Some(spec) => build_callsite_precondition_smt(
                &site,
                &self.current_body_preconditions,
                spec,
            ),
            None => None,
        };
        match problem {
            Some(problem) => {
                let none: Vec<String> = Vec::new();
                assert(views(none@) =~= seq![]);
                self.oblige(
                    span,
                    VcObligationKind::CallSitePrecondition {
                        callee_path: p.clone(),
                        discharge_smt: Some(problem.discharge),
                        consistency_smt: Some(problem.consistency),
                    },
                    none,
                );
                self.remark_all(span, &problem.notes);
            },
            None => self.audit_note(
                span,
                cat3(CALL_UNPROVEN_HEAD, p.as_str(), CALL_UNPROVEN_TAIL),
            ),
        }
    }

    /// Visits a call that ends the block `block`.
    fn visit_call(
        &mut self,
        cx: &BodyContext,
        func: &Operand,
        args: &Vec<Operand>,
        destination: &Place,
        span: Span,
        block: usize,
    )
        requires
            cx.wf(),
        ensures
            final(self).settings() == old(self).settings(),
            final(self).tally() == old(self).tally().record(
                call_findings(old(self).scope(cx), *func, args@, *destination, span, block as int),
            ),
    {
        broadcast use group_findings;

        match func {
            Operand::Constant(c) => {
                self.classify_called_function(cx.body, c, span);
                self.maybe_emit_recursion_obligation(cx, c, span);
                self.maybe_gap_callsite_preconditions(cx, c, args, span, block);
            },
            Operand::Copy(p) => {
                self.visit_place(cx, p, span);
                self.reject(
                    rules::PB032,
                    span,
                    "call through function-pointer-typed local".to_owned(),
                );
            },
            Operand::Move(p) => {
                self.visit_place(cx, p, span);
                self.reject(
                    rules::PB032,
                    span,
                    "call through function-pointer-typed local".to_owned(),
                );
            },
        }
        self.visit_operands(cx, args, span);
        self.visit_place(cx, destination, span);
    }

    // -----------------------------------------------------------------------
    // Statements and terminators.
    // -----------------------------------------------------------------------

    /// Visits an intrinsic.
    fn visit_intrinsic(&mut self, cx: &BodyContext, intr: &NonDivergingIntrinsic, span: Span)
        requires
            cx.wf(),
        ensures
            final(self).settings() == old(self).settings(),
            final(self).tally() == old(self).tally().record(
                statement_findings(
                    old(self).scope(cx),
                    Statement { kind: StatementKind::Intrinsic(*intr), span },
                ),
            ),
    {
        broadcast use group_findings;

        match intr {
            NonDivergingIntrinsic::Assume(op) => self.visit_operand(cx, op, span),
            NonDivergingIntrinsic::CopyNonOverlapping => self.reject(
                rules::PB004,
                span,
                "`copy_nonoverlapping` intrinsic uses raw pointers".to_owned(),
            ),
        }
    }

    /// Visits a statement.
    fn visit_statement(&mut self, cx: &BodyContext, stmt: &Statement)
        requires
            cx.wf(),
        ensures
            final(self).settings() == old(self).settings(),
            final(self).tally() == old(self).tally().record(
                statement_findings(old(self).scope(cx), *stmt),
            ),
    {
        broadcast use group_findings;

        match &stmt.kind {
            StatementKind::Assign(place, rvalue) => {
                self.visit_place(cx, place, stmt.span);
                self.visit_rvalue(cx, rvalue, stmt.span);
            },
            StatementKind::FakeRead(place) => self.visit_place(cx, place, stmt.span),
            StatementKind::SetDiscriminant { place, .. } => self.visit_place(cx, place, stmt.span),
            StatementKind::Deinit(place) => {
                self.visit_place(cx, place, stmt.span);
                self.reject(
                    rules::PB010,
                    stmt.span,
                    "`Deinit` outside drop elaboration".to_owned(),
                );
            },
            StatementKind::StorageLive(_) => {},
            StatementKind::StorageDead(_) => {},
            StatementKind::Retag(kind, place) => {
                self.visit_place(cx, place, stmt.span);
                let detail = match kind {
                    RetagKind::Default => {
                        "`Retag(Default)` indicates raw-pointer or UnsafeCell flow"
                    },
                    RetagKind::FnEntry => {
                        "`Retag(FnEntry)` on function entry; raw-pointer arg suspected"
                    },
                    RetagKind::TwoPhase => {
                        "`Retag(TwoPhase)` two-phase borrow with aliasing implication"
                    },
                    RetagKind::Raw => "`Retag(Raw)` raw-pointer retag",
                };
                self.reject(rules::PB009, stmt.span, detail.to_owned());
            },
            StatementKind::PlaceMention(place) => self.visit_place(cx, place, stmt.span),
            StatementKind::AscribeUserType(place) => self.visit_place(cx, place, stmt.span),
            StatementKind::Coverage => {},
            StatementKind::Intrinsic(intr) => self.visit_intrinsic(cx, intr, stmt.span),
            StatementKind::ConstEvalCounter => {},
            StatementKind::Nop => {},
        }
    }

    /// Visits statements in order.
    fn visit_statements(&mut self, cx: &BodyContext, stmts: &Vec<Statement>)
        requires
            cx.wf(),
        ensures
            final(self).settings() == old(self).settings(),
            final(self).tally() == old(self).tally().record(
                statements_findings(old(self).scope(cx), stmts@),
            ),
    {
        broadcast use group_findings;

        let ghost sc = self.scope(cx);
        let mut i: usize = 0;
        assert(stmts@.take(0) =~= Seq::empty());
        while i < stmts.len()
            invariant
                cx.wf(),
                i <= stmts@.len(),
                sc == old(self).scope(cx),
                self.settings() == old(self).settings(),
                self.tally() == old(self).tally().record(
                    statements_findings(sc, stmts@.take(i as int)),
                ),
            decreases stmts@.len() - i,
        {
            broadcast use group_findings;

            proof {
                assert(stmts@.take(i + 1).drop_last() =~= stmts@.take(i as int));
                assert(stmts@.take(i + 1).last() == stmts@[i as int]);
            }
            self.visit_statement(cx, &stmts[i]);
            i += 1;
        }
        assert(stmts@.take(i as int) =~= stmts@);
    }

    /// Visits a run-time check that the compiler inserted.
    fn visit_assert_message(&mut self, msg: &AssertMessage, span: Span)
        ensures
            final(self).settings() == old(self).settings(),
            final(self).tally() == old(self).tally().record(check_findings(*msg, span)),
    {
        broadcast use group_findings;

        match msg {
            AssertMessage::Overflow => {},
            AssertMessage::DivisionByZero => {},
            AssertMessage::RemainderByZero => {},
            AssertMessage::BoundsCheck => {},
            AssertMessage::MisalignedPointerDereference => self.reject(
                rules::PB004,
                span,
                "misaligned-pointer check implies raw-pointer dereference".to_owned(),
            ),
            AssertMessage::Other(_) => {},
        }
    }

    /// Rejects an unwinding terminator.
    fn reject_unwinding(&mut self, span: Span)
        ensures
            final(self).settings() == old(self).settings(),
            final(self).tally() == old(self).tally().record(seq![crate::walk::unwinding(span)]),
    {
        broadcast use group_findings;

        self.reject(
            rules::PB048,
            span,
            "unwinding terminator present; project must use `panic = \"abort\"`".to_owned(),
        );
    }

    /// Visits the terminator of the block `block`.
    fn visit_terminator(&mut self, cx: &BodyContext, term: &Terminator, block: usize)
        requires
            cx.wf(),
        ensures
            final(self).settings() == old(self).settings(),
            final(self).tally() == old(self).tally().record(
                terminator_findings(old(self).scope(cx), *term, block as int),
            ),
    {
        broadcast use group_findings;

        match &term.kind {
            TerminatorKind::Goto { .. } => {},
            TerminatorKind::SwitchInt { discr, .. } => self.visit_operand(cx, discr, term.span),
            TerminatorKind::UnwindResume => self.reject_unwinding(term.span),
            TerminatorKind::UnwindTerminate => self.reject_unwinding(term.span),
            TerminatorKind::Return => self.emit_ensures_obligation(cx, term.span),
            TerminatorKind::Unreachable => {},
            TerminatorKind::Drop { place, .. } => self.visit_place(cx, place, term.span),
            TerminatorKind::Call { func, args, destination, .. } => self.visit_call(
                cx,
                func,
                args,
                destination,
                term.span,
                block,
            ),
            TerminatorKind::TailCall { .. } => self.reject(
                rules::PB045,
                term.span,
                "`become` tail-call".to_owned(),
            ),
            TerminatorKind::Assert { msg, .. } => self.visit_assert_message(msg, term.span),
            TerminatorKind::Yield { .. } => self.reject(
                rules::PB027,
                term.span,
                "coroutine `yield`".to_owned(),
            ),
            TerminatorKind::CoroutineDrop => self.reject(
                rules::PB027,
                term.span,
                "coroutine drop terminator".to_owned(),
            ),
            TerminatorKind::FalseEdge { .. } => self.reject(
                rules::PB046,
                term.span,
                "`FalseEdge` post-cleanup; MIR phase invariant violated".to_owned(),
            ),
            TerminatorKind::FalseUnwind { .. } => self.reject(
                rules::PB046,
                term.span,
                "`FalseUnwind` post-cleanup; MIR phase invariant violated".to_owned(),
            ),
            TerminatorKind::InlineAsm { .. } => self.reject(
                rules::PB006,
                term.span,
                "inline assembly".to_owned(),
            ),
        }
    }

    // -----------------------------------------------------------------------
    // Bodies and items.
    // -----------------------------------------------------------------------

    /// Visits a declared local.
    fn visit_local(&mut self, cx: &BodyContext, local: &LocalDecl)
        requires
            cx.wf(),
        ensures
            final(self).settings() == old(self).settings(),
            final(self).tally() == old(self).tally().record(
                local_findings(old(self).scope(cx), *local),
            ),
    {
        broadcast use group_findings;

        self.visit_ty(&local.ty, local.span);
        let ptr_bytes: u64 = (self.config.subset.target_pointer_width / 8) as u64;
        if exceeds_stack_limit(
            &local.ty,
            ptr_bytes,
            self.config.subset.stack_allocation_limit_bytes,
        ) {
            self.reject(
                rules::PB020,
                local.span,
                "local exceeds configured stack-allocation limit".to_owned(),
            );
        }
    }

    /// Visits the signature and the locals of a body.
    fn visit_signature(&mut self, cx: &BodyContext)
        requires
            cx.wf(),
        ensures
            final(self).settings() == old(self).settings(),
            final(self).tally() == old(self).tally().record(
                signature_findings(old(self).scope(cx)),
            ),
    {
        broadcast use group_findings;

        let ghost sc = self.scope(cx);
        let body = cx.body;
        let ghost locals = body.locals@;
        if body.is_unsafe {
            self.reject(rules::PB002, body.span, "function declared `unsafe fn`".to_owned());
        }
        if body.is_async {
            self.reject(rules::PB026, body.span, "function declared `async fn`".to_owned());
        }
        self.visit_tys(&body.arg_tys, body.span);
        self.visit_ty(&body.return_ty, body.span);
        let ghost start = self.tally();
        let mut i: usize = 0;
        assert(locals.take(0) =~= Seq::empty());
        while i < body.locals.len()
            invariant
                cx.wf(),
                i <= body.locals@.len(),
                locals == body.locals@,
                body == cx.body,
                sc == old(self).scope(cx),
                self.settings() == old(self).settings(),
                self.tally() == start.record(locals_findings(sc, locals.take(i as int))),
            decreases body.locals@.len() - i,
        {
            broadcast use group_findings;

            proof {
                assert(locals.take(i + 1).drop_last() =~= locals.take(i as int));
                assert(locals.take(i + 1).last() == locals[i as int]);
            }
            self.visit_local(cx, &body.locals[i]);
            i += 1;
        }
        assert(locals.take(i as int) =~= locals);
    }

    /// Visits the blocks of a body, and tells whether one of them returns.
    fn visit_blocks(&mut self, cx: &BodyContext) -> (r: bool)
        requires
            cx.wf(),
        ensures
            final(self).settings() == old(self).settings(),
            final(self).tally() == old(self).tally().record(
                blocks_findings(old(self).scope(cx), cx.body.blocks@.len()),
            ),
            r == returns_somewhere(cx.body.blocks@),
    {
        broadcast use group_findings;

        let ghost sc = self.scope(cx);
        let blocks = &cx.body.blocks;
        let mut returned: bool = false;
        let mut i: usize = 0;
        while i < blocks.len()
            invariant
                cx.wf(),
                i <= blocks@.len(),
                *blocks == cx.body.blocks,
                sc == old(self).scope(cx),
                self.settings() == old(self).settings(),
                self.tally() == old(self).tally().record(blocks_findings(sc, i as nat)),
                returned == exists|b: int|
                    0 <= b < i && (#[trigger] blocks@[b]).terminator.kind is Return,
            decreases blocks@.len() - i,
        {
            broadcast use group_findings;

            let block = &blocks[i];
            self.visit_statements(cx, &block.statements);
            self.visit_terminator(cx, &block.terminator, i);
            let ghost before = returned;
            if let TerminatorKind::Return = &block.terminator.kind {
                returned = true;
            }
            proof {
                if blocks@[i as int].terminator.kind is Return {
                    assert(returned);
                } else if before {
                    let b = choose|b: int|
                        0 <= b < i && (#[trigger] blocks@[b]).terminator.kind is Return;
                    assert(blocks@[b].terminator.kind is Return);
                }
            }
            i += 1;
        }
        returned
    }

    /// Forgets the preconditions and postconditions, so that no later body inherits them.
    fn clear_per_body_state(&mut self)
        ensures
            final(self).tally() == old(self).tally(),
            final(self).settings() == (Settings {
                preconditions: seq![],
                postconditions: seq![],
                ..old(self).settings()
            }),
    {
        self.current_body_preconditions.clear();
        self.current_body_ensures.clear();
        assert(self.settings() =~~= (Settings {
            preconditions: seq![],
            postconditions: seq![],
            ..old(self).settings()
        }));
    }

    /// Visits a static.
    pub fn visit_static_item(&mut self, mutable: bool, ty: Option<&Ty>, span: Span)
        ensures
            final(self).settings() == old(self).settings(),
            final(self).tally() == old(self).tally().record(
                static_findings(mutable, match ty {
                    Some(t) => Some(*t),
                    None => None,
                }, span),
            ),
    {
        broadcast use group_findings;

        if mutable {
            self.reject(rules::PB018, span, "`static mut` declaration".to_owned());
        }
        self.visit_const_item(ty, span);
    }

    /// Visits a constant.
    pub fn visit_const_item(&mut self, ty: Option<&Ty>, span: Span)
        ensures
            final(self).settings() == old(self).settings(),
            final(self).tally() == old(self).tally().record(
                const_findings(match ty {
                    Some(t) => Some(*t),
                    None => None,
                }, span),
            ),
    {
        broadcast use group_findings;

        if let Some(ty) = ty {
            self.visit_ty(ty, span);
        }
    }

    /// Visits a body, and forgets the preconditions and postconditions that were set for it. Of a
    /// trusted body only the signature is looked at.
    pub fn visit_body(&mut self, body: &Body, trusted: bool)
        ensures
            final(self).tally() == old(self).tally().record(
                body_findings(old(self).scope_of(*body), trusted),
            ),
            final(self).settings() == (Settings {
                preconditions: seq![],
                postconditions: seq![],
                ..old(self).settings()
            }),
    {
        broadcast use group_findings;

        let cx = BodyContext {
            body,
            assigned: assigned_locals(body),
            effect: capture_body_effect(body),
        };
        self.visit_signature(&cx);
        if trusted {
            if self.current_body_ensures.len() > 0 {
                self.audit_transparency(body.span, TRUSTED_ENSURES.to_owned());
            }
            self.clear_per_body_state();
            return;
        }
        let returned: bool = self.visit_blocks(&cx);
        if self.current_body_ensures.len() > 0 && !returned {
            self.emit_ensures_obligation(&cx, body.span);
            self.audit_transparency(body.span, NO_RETURN.to_owned());
        }
        self.clear_per_body_state();
    }

    /// The parameters whose entry symbols stand in `smt`, in the order of their first mention.
    pub fn referenced_caller_arg_indices(smt: &str) -> (r: Vec<usize>)
        ensures
            r@.map_values(|x: usize| x as nat) == referenced(smt@),
    {
        find_references(smt)
    }
}

// ---------------------------------------------------------------------------
// Parts of obligations.
// ---------------------------------------------------------------------------

/// The hypothesis that a constant operand is its value.
fn pin_operand(label: &str, op: &Operand, ty: &str) -> (r: Vec<String>)
    ensures
        views(r@) == constant_pin(label, *op, ty@),
{
    let mut pins: Vec<String> = Vec::new();
    if let Operand::Constant(c) = op {
        if let Some(value) = c.value {
            if let Some(assertion) = operand_pin_assertion(label, value, ty) {
                pins.push(assertion);
            }
        }
    }
    assert(views(pins@) =~= constant_pin(label, *op, ty@));
    pins
}

/// The hypotheses on the constant operands of a binary operation.
fn pin_operands(lhs: &Operand, rhs: &Operand, ty: &str, mixed: bool) -> (r: Vec<String>)
    ensures
        views(r@) == operand_pins(*lhs, *rhs, ty@, mixed),
{
    let mut pins = pin_operand("lhs", lhs, ty);
    let ghost left = pins@;
    if mixed {
        if let Operand::Constant(c) = rhs {
            if let Some(value) = c.value {
                if !value_fits_in_int_ty(value, ty) {
                    assert(views(pins@) =~= operand_pins(*lhs, *rhs, ty@, mixed));
                    return pins;
                }
            }
        }
    }
    let mut more = pin_operand("rhs", rhs, ty);
    let ghost right = more@;
    pins.append(&mut more);
    assert(views(pins@) =~= views(left) + views(right));
    pins
}

/// Whether a shift amount of type `amount` can be modelled at the width of `value`.
fn is_modelled(amount: &str, value: &str) -> (r: bool)
    ensures
        r == models_amount(amount@, value@),
{
    match (int_type_info(amount), int_type_info(value)) {
        (Some((false, a)), Some((_, v))) => a <= v,
        _ => false,
    }
}

/// The value and the types of an integer cast that keeps the value of a constant.
fn value_preserving_int_cast(op: &Operand, target: &Ty) -> (r: Option<(i128, String, String)>)
    ensures
        match r {
            Some((v, from, to)) => kept_value(*op, *target) == Some((v, from@, to@)),
            None => kept_value(*op, *target) is None,
        },
{
    let c = match op {
        Operand::Constant(c) => c,
        _ => return None,
    };
    let value: i128 = match c.value {
        Some(value) => value,
        None => return None,
    };
    let from = match primitive_int_name_from_ty(&c.ty) {
        Some(name) => name,
        None => return None,
    };
    let to = match primitive_int_name_from_ty(target) {
        Some(name) => name,
        None => return None,
    };
    if value_fits_in_int_ty(value, from.as_str()) && value_fits_in_int_ty(value, to.as_str()) {
        Some((value, from, to))
    } else {
        None
    }
}

} // verus!
