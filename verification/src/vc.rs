//! Proof obligations that a body leaves to a solver.
use vstd::prelude::*;
use crate::mir_api::Span;
use crate::text::{cat3, opt_view, views};

verus! {

/// An arithmetic operation that can fail at run time.
#[derive(Clone, Copy, Debug, PartialEq, Eq, Structural)]
pub enum ArithOp {
    Add,
    Sub,
    Mul,
    Div,
    Rem,
    Shl,
    Shr,
    Neg,
}

/// The short name of an operation, as obligation ids have it.
pub open spec fn op_tag(op: ArithOp) -> Seq<char> {
    match op {
        ArithOp::Add => "add"@,
        ArithOp::Sub => "sub"@,
        ArithOp::Mul => "mul"@,
        ArithOp::Div => "div"@,
        ArithOp::Rem => "rem"@,
        ArithOp::Shl => "shl"@,
        ArithOp::Shr => "shr"@,
        ArithOp::Neg => "neg"@,
    }
}

/// The name of an operation, as messages have it.
pub open spec fn op_name(op: ArithOp) -> Seq<char> {
    match op {
        ArithOp::Add => "Add"@,
        ArithOp::Sub => "Sub"@,
        ArithOp::Mul => "Mul"@,
        ArithOp::Div => "Div"@,
        ArithOp::Rem => "Rem"@,
        ArithOp::Shl => "Shl"@,
        ArithOp::Shr => "Shr"@,
        ArithOp::Neg => "Neg"@,
    }
}

impl ArithOp {
    /// The short name of this operation.
    pub fn tag(self) -> (r: &'static str)
        ensures
            r@ == op_tag(self),
    {
        match self {
            ArithOp::Add => "add",
            ArithOp::Sub => "sub",
            ArithOp::Mul => "mul",
            ArithOp::Div => "div",
            ArithOp::Rem => "rem",
            ArithOp::Shl => "shl",
            ArithOp::Shr => "shr",
            ArithOp::Neg => "neg",
        }
    }

    /// The name of this operation in messages.
    pub fn name(self) -> (r: &'static str)
        ensures
            r@ == op_name(self),
    {
        match self {
            ArithOp::Add => "Add",
            ArithOp::Sub => "Sub",
            ArithOp::Mul => "Mul",
            ArithOp::Div => "Div",
            ArithOp::Rem => "Rem",
            ArithOp::Shl => "Shl",
            ArithOp::Shr => "Shr",
            ArithOp::Neg => "Neg",
        }
    }
}

/// What an obligation asks to be proved.
#[derive(Clone, Debug)]
pub enum VcObligationKind {
    /// The operation does not overflow, divide by zero or shift too far at type `ty_name`.
    ArithmeticOverflow { op: ArithOp, ty_name: String },
    /// The call cannot be reached, or does not panic.
    PanicReachability,
    /// The index is in bounds. The index is the parameter `idx_source_name`, where it is one.
    IndexBound { idx_source_name: Option<String> },
    /// The postconditions hold on return. `discharge_smt` is unsatisfiable exactly if they follow,
    /// and `consistency_smt` checks that its hypotheses can hold.
    EnsuresPostcondition {
        ret_name: String,
        ret_ty_name: Option<String>,
        discharge_smt: Option<String>,
        consistency_smt: Option<String>,
    },
    /// The recursive call decreases a measure.
    RecursionDecreases,
    /// The call meets the preconditions of `callee_path`.
    CallSitePrecondition {
        callee_path: String,
        discharge_smt: Option<String>,
        consistency_smt: Option<String>,
    },
}

/// The obligation kinds over sequences of characters.
pub enum KindView {
    ArithmeticOverflow { op: ArithOp, ty_name: Seq<char> },
    PanicReachability,
    IndexBound { idx_source_name: Option<Seq<char>> },
    EnsuresPostcondition {
        ret_name: Seq<char>,
        ret_ty_name: Option<Seq<char>>,
        discharge_smt: Option<Seq<char>>,
        consistency_smt: Option<Seq<char>>,
    },
    RecursionDecreases,
    CallSitePrecondition {
        callee_path: Seq<char>,
        discharge_smt: Option<Seq<char>>,
        consistency_smt: Option<Seq<char>>,
    },
}

impl View for VcObligationKind {
    type V = KindView;

    open spec fn view(&self) -> KindView {
        match self {
            VcObligationKind::ArithmeticOverflow { op, ty_name } => KindView::ArithmeticOverflow {
                op: *op,
                ty_name: ty_name@,
            },
            VcObligationKind::PanicReachability => KindView::PanicReachability,
            VcObligationKind::IndexBound { idx_source_name } => KindView::IndexBound {
                idx_source_name: opt_view(*idx_source_name),
            },
            VcObligationKind::EnsuresPostcondition {
                ret_name,
                ret_ty_name,
                discharge_smt,
                consistency_smt,
            } => KindView::EnsuresPostcondition {
                ret_name: ret_name@,
                ret_ty_name: opt_view(*ret_ty_name),
                discharge_smt: opt_view(*discharge_smt),
                consistency_smt: opt_view(*consistency_smt),
            },
            VcObligationKind::RecursionDecreases => KindView::RecursionDecreases,
            VcObligationKind::CallSitePrecondition {
                callee_path,
                discharge_smt,
                consistency_smt,
            } => KindView::CallSitePrecondition {
                callee_path: callee_path@,
                discharge_smt: opt_view(*discharge_smt),
                consistency_smt: opt_view(*consistency_smt),
            },
        }
    }
}

/// The text that the ids of a kind of obligation start with.
pub open spec fn id_stem(kind: KindView) -> Seq<char> {
    match kind {
        KindView::ArithmeticOverflow { op, .. } => "pb049-"@ + op_tag(op) + "-"@,
        KindView::PanicReachability => "pb043-panic-"@,
        KindView::IndexBound { .. } => "pb054-idx-"@,
        KindView::EnsuresPostcondition { .. } => "pb076-ensures-"@,
        KindView::RecursionDecreases => "pb041-rec-"@,
        KindView::CallSitePrecondition { .. } => "pb077-callsite-"@,
    }
}

impl VcObligationKind {
    /// The text that the ids of this kind of obligation start with.
    pub fn stem(&self) -> (r: String)
        ensures
            r@ == id_stem(self@),
    {
        match self {
            VcObligationKind::ArithmeticOverflow { op, .. } => cat3("pb049-", op.tag(), "-"),
            VcObligationKind::PanicReachability => "pb043-panic-".to_owned(),
            VcObligationKind::IndexBound { .. } => "pb054-idx-".to_owned(),
            VcObligationKind::EnsuresPostcondition { .. } => "pb076-ensures-".to_owned(),
            VcObligationKind::RecursionDecreases => "pb041-rec-".to_owned(),
            VcObligationKind::CallSitePrecondition { .. } => "pb077-callsite-".to_owned(),
        }
    }
}

/// One obligation. Its `assumptions` are hypotheses for the solver.
#[derive(Clone, Debug)]
pub struct VcObligation {
    pub id: String,
    pub span: Span,
    pub kind: VcObligationKind,
    pub assumptions: Vec<String>,
}

/// An obligation over sequences of characters.
pub struct ObligationView {
    pub id: Seq<char>,
    pub span: Span,
    pub kind: KindView,
    pub assumptions: Seq<Seq<char>>,
}

impl View for VcObligation {
    type V = ObligationView;

    open spec fn view(&self) -> ObligationView {
        ObligationView {
            id: self.id@,
            span: self.span,
            kind: self.kind@,
            assumptions: views(self.assumptions@),
        }
    }
}

} // verus!
