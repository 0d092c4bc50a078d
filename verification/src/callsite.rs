//! The solver problem that a call meets the preconditions of its callee.
use vstd::prelude::*;
use crate::capture::{
    call_arg_term, caller_arg_symbol, capture_call_arg_expr, entry_symbol, referenced,
};
use crate::locals::{
    bare_local, bare_local_of, find_sole, local_int_name, local_primitive_int_name,
    primitive_int_name, primitive_int_name_from_ty, sole_index, writes,
};
use crate::messages::{
    HYPOTHESIS_HEAD, HYPOTHESIS_NAMES, HYPOTHESIS_NAME_HEAD, HYPOTHESIS_NAME_TAIL, HYPOTHESIS_RAW,
    HYPOTHESIS_TYPES, HYPOTHESIS_UNTRANSLATED,
};
use crate::mir_api::{Body, Operand};
use crate::postcondition::{declaration, declare, negate, negation};
use crate::predicate::{
    ident_vs_ident_to_smt_assertion, int_info, int_type_info, operand_pin_assertion, pair_assertion,
    pair_of, parse_ident_vs_ident_predicate, parse_predicate, pin, predicate_assertion,
    predicate_of, predicate_to_smt_assertion, strip_assert, stripped, IdentVsIdentPredicate,
    PairView, PredicateError,
};
use crate::text::{cat3, cat5, debug_rendering, opt_is, opt_view, quoted, same, views};

verus! {

/// What a call needs to know of its callee: the names and types of its parameters, and its
/// preconditions, which are those that the callee's own body was checked under.
#[derive(Clone, Debug, PartialEq, Eq, Default)]
pub struct CalleeSpec {
    /// The parameters' names in order, empty where one has none.
    pub arg_names: Vec<String>,
    /// The parameters' types in order, for those of a primitive integer type that has a bit-vector
    /// encoding.
    pub arg_ty_names: Vec<Option<String>>,
    pub preconditions: Vec<String>,
}

/// The type of the parameter `i`, if it is a primitive integer type with a bit-vector encoding.
pub open spec fn encodable_param(body: Body, i: int) -> Option<Seq<char>> {
    match local_int_name(body, i + 1) {
        Some(ty) => if int_info(ty) is Some {
            Some(ty)
        } else {
            None
        },
        None => None,
    }
}

impl CalleeSpec {
    /// What calls of `body` need to know of it. Parameter `i` is the local `i + 1`; a local that
    /// is missing has no type.
    #[must_use]
    pub fn from_body(body: &Body, preconditions: Vec<String>) -> (r: CalleeSpec)
        ensures
            views(r.arg_names@) == views(body.arg_names@),
            r.arg_ty_names@.len() == body.arg_names@.len(),
            forall|i: int|
                0 <= i < r.arg_ty_names@.len() ==> opt_view(#[trigger] r.arg_ty_names@[i])
                    == encodable_param(*body, i),
            r.preconditions == preconditions,
    {
        let mut arg_names: Vec<String> = Vec::new();
        let mut arg_ty_names: Vec<Option<String>> = Vec::new();
        let mut i: usize = 0;
        while i < body.arg_names.len()
            invariant
                i <= body.arg_names@.len(),
                arg_names@.len() == i,
                arg_ty_names@.len() == i,
                forall|k: int| 0 <= k < i ==> (#[trigger] arg_names@[k])@ == body.arg_names@[k]@,
                forall|k: int|
                    0 <= k < i ==> opt_view(#[trigger] arg_ty_names@[k]) == encodable_param(
                        *body,
                        k,
                    ),
            decreases body.arg_names@.len() - i,
        {
            arg_names.push(body.arg_names[i].clone());
            let ty = match local_primitive_int_name(body, i + 1) {
                Some(ty) => {
                    if int_type_info(ty.as_str()).is_some() {
                        Some(ty)
                    } else {
                        None
                    }
                },
                None => None,
            };
            arg_ty_names.push(ty);
            i += 1;
        }
        assert(views(arg_names@) =~= views(body.arg_names@));
        CalleeSpec { arg_names, arg_ty_names, preconditions }
    }
}

/// The callee that `path` names among `specs`; of two entries the later one counts.
pub open spec fn callee(specs: Seq<(String, CalleeSpec)>, path: Seq<char>) -> Option<CalleeSpec>
    decreases specs.len(),
{
    if specs.len() == 0 {
        None
    } else if specs.last().0@ == path {
        Some(specs.last().1)
    } else {
        callee(specs.drop_last(), path)
    }
}

/// The callee that `path` names among `specs`.
pub fn find_callee<'a>(specs: &'a Vec<(String, CalleeSpec)>, path: &str) -> (r: Option<
    &'a CalleeSpec,
>)
    ensures
        match r {
            Some(s) => callee(specs@, path@) == Some(*s),
            None => callee(specs@, path@) is None,
        },
{
    let mut n: usize = specs.len();
    assert(specs@.take(n as int) =~= specs@);
    while n > 0
        invariant
            n <= specs@.len(),
            callee(specs@.take(n as int), path@) == callee(specs@, path@),
        decreases n,
    {
        assert(specs@.take(n as int).drop_last() =~= specs@.take(n - 1));
        assert(specs@.take(n as int).last() == specs@[n - 1]);
        if same(specs[n - 1].0.as_str(), path) {
            return Some(&specs[n - 1].1);
        }
        n -= 1;
    }
    None
}

// ---------------------------------------------------------------------------
// Binding the callee's parameters.
// ---------------------------------------------------------------------------

/// A call: the body that makes it, its arguments, and the block that it ends.
pub struct CallView {
    pub body: Body,
    pub args: Seq<Operand>,
    pub block: int,
}

/// What a parameter of the callee is at a call.
pub enum BindingView {
    /// This constant.
    Constant(int),
    /// The entry value of this parameter of the caller.
    CallerArg(nat),
    /// This term over the entry values of the parameters `refs` of the caller.
    Expr { smt: Seq<char>, refs: Seq<nat> },
}

/// A parameter of the callee that a precondition speaks of.
pub struct BoundView {
    pub name: Seq<char>,
    pub ty: Seq<char>,
    pub binding: BindingView,
}

/// The parameter of the caller that an operand reads whole, and its type. A parameter that the body
/// ever stores to does not count: what is read need not be its entry value.
pub open spec fn unchanged_arg(body: Body, op: Operand) -> Option<(nat, Seq<char>)> {
    match bare_local(op) {
        Some(l) => if 1 <= l.0 <= body.arg_names@.len() && !writes(body.blocks@, l.0)
            && local_int_name(body, l.0 as int) is Some {
            Some(((l.0 - 1) as nat, local_int_name(body, l.0 as int)->0))
        } else {
            None
        },
        None => None,
    }
}

/// What the argument `op` is, at type `ty`.
pub open spec fn actual(c: CallView, op: Operand, ty: Seq<char>) -> Option<BindingView> {
    match op {
        Operand::Constant(k) => if primitive_int_name(k.ty) == Some(ty) && k.value is Some {
            Some(BindingView::Constant(k.value->0 as int))
        } else {
            None
        },
        _ => match unchanged_arg(c.body, op) {
            Some((i, own)) => if own == ty {
                Some(BindingView::CallerArg(i))
            } else {
                None
            },
            None => match call_arg_term(c.body, op, c.block, ty) {
                Some(smt) => Some(BindingView::Expr { smt, refs: referenced(smt) }),
                None => None,
            },
        },
    }
}

/// The type of the parameter `name`, if it is bound already.
pub open spec fn bound_ty(bound: Seq<BoundView>, name: Seq<char>) -> Option<Seq<char>>
    decreases bound.len(),
{
    if bound.len() == 0 {
        None
    } else {
        match bound_ty(bound.drop_last(), name) {
            Some(ty) => Some(ty),
            None => if bound.last().name == name {
                Some(bound.last().ty)
            } else {
                None
            },
        }
    }
}

/// The type of the callee's parameter `ident`, and the bound parameters with it among them. The
/// name must be that of one parameter only, its type must be known, and its argument must be one
/// that can be written down.
pub open spec fn bind(
    c: CallView,
    spec: CalleeSpec,
    ident: Seq<char>,
    bound: Seq<BoundView>,
) -> Option<(Seq<char>, Seq<BoundView>)> {
    if ident.len() == 0 {
        None
    } else {
        match bound_ty(bound, ident) {
            Some(ty) => Some((ty, bound)),
            None => match sole_index(spec.arg_names@, ident) {
                None => None,
                Some(i) => if i < spec.arg_ty_names@.len() && spec.arg_ty_names@[i] is Some && i
                    < c.args.len() {
                    let ty = spec.arg_ty_names@[i]->0@;
                    match actual(c, c.args[i], ty) {
                        Some(binding) => Some(
                            (ty, bound.push(BoundView { name: ident, ty, binding })),
                        ),
                        None => None,
                    }
                } else {
                    None
                },
            },
        }
    }
}

/// The term that an assertion is about, if the translation succeeded.
pub open spec fn term_of(r: Result<Seq<char>, PredicateError>) -> Option<Seq<char>> {
    match r {
        Ok(a) => stripped(a),
        Err(_) => None,
    }
}

/// The term of the precondition `raw` of the callee, and the bound parameters with those that it
/// speaks of among them.
pub open spec fn goal(
    c: CallView,
    spec: CalleeSpec,
    raw: Seq<char>,
    bound: Seq<BoundView>,
) -> Option<(Seq<char>, Seq<BoundView>)> {
    match pair_of(raw) {
        Ok(p) => match bind(c, spec, p.lhs, bound) {
            None => None,
            Some((lhs_ty, once)) => match bind(c, spec, p.rhs, once) {
                None => None,
                Some((rhs_ty, twice)) => if lhs_ty != rhs_ty {
                    None
                } else {
                    match term_of(pair_assertion(p, lhs_ty)) {
                        Some(t) => Some((t, twice)),
                        None => None,
                    }
                },
            },
        },
        Err(_) => match predicate_of(raw) {
            Ok(p) => match bind(c, spec, p.var, bound) {
                None => None,
                Some((ty, once)) => match term_of(predicate_assertion(p, p.var, ty)) {
                    Some(t) => Some((t, once)),
                    None => None,
                },
            },
            Err(_) => None,
        },
    }
}

/// The bound parameters after `ident` was looked up, whether it could be bound or not.
pub open spec fn bound_after(
    c: CallView,
    spec: CalleeSpec,
    ident: Seq<char>,
    bound: Seq<BoundView>,
) -> Seq<BoundView> {
    match bind(c, spec, ident, bound) {
        Some((_, more)) => more,
        None => bound,
    }
}

/// The bound parameters after the precondition `raw` of the callee was looked at, whether it has a
/// term or not. The right side of a clause is looked up only where the left side is bound.
pub open spec fn bound_by(
    c: CallView,
    spec: CalleeSpec,
    raw: Seq<char>,
    bound: Seq<BoundView>,
) -> Seq<BoundView> {
    match pair_of(raw) {
        Ok(p) => match bind(c, spec, p.lhs, bound) {
            Some((_, once)) => bound_after(c, spec, p.rhs, once),
            None => bound,
        },
        Err(_) => match predicate_of(raw) {
            Ok(p) => bound_after(c, spec, p.var, bound),
            Err(_) => bound,
        },
    }
}

/// The terms of the preconditions `raws` of the callee, and the parameters that they bind.
pub open spec fn goals(c: CallView, spec: CalleeSpec, raws: Seq<String>) -> Option<
    (Seq<Seq<char>>, Seq<BoundView>),
>
    decreases raws.len(),
{
    if raws.len() == 0 {
        Some((seq![], seq![]))
    } else {
        match goals(c, spec, raws.drop_last()) {
            None => None,
            Some((terms, bound)) => match goal(c, spec, raws.last()@, bound) {
                None => None,
                Some((t, more)) => Some((terms.push(t), more)),
            },
        }
    }
}

/// The text of the declarations of `bound`, if each has a type with a bit-vector encoding.
pub open spec fn bound_declarations(bound: Seq<BoundView>) -> Option<Seq<char>>
    decreases bound.len(),
{
    if bound.len() == 0 {
        Some(""@)
    } else {
        match (bound_declarations(bound.drop_last()), int_info(bound.last().ty)) {
            (Some(before), Some((_, bits))) => Some(
                before + declaration(bound.last().name, bits),
            ),
            _ => None,
        }
    }
}

/// The assertion of what a bound parameter is.
pub open spec fn link(b: BoundView) -> Seq<char> {
    match b.binding {
        BindingView::Constant(v) => (pin(b.name, v, b.ty)->0) + "\n"@,
        BindingView::CallerArg(i) => "(assert (= "@ + b.name + " "@ + entry_symbol(i) + "))\n"@,
        BindingView::Expr { smt, .. } => "(assert (= "@ + b.name + " "@ + smt + "))\n"@,
    }
}

/// The assertions of what the bound parameters are.
pub open spec fn links(bound: Seq<BoundView>) -> Seq<char>
    decreases bound.len(),
{
    if bound.len() == 0 {
        ""@
    } else {
        links(bound.drop_last()) + link(bound.last())
    }
}

// ---------------------------------------------------------------------------
// The caller's own parameters.
// ---------------------------------------------------------------------------

/// A parameter of the caller whose entry symbol is declared.
pub struct SymbolView {
    pub idx: nat,
    pub ty: Seq<char>,
}

/// `symbols`, which are in ascending order, with the parameter `idx` among them. Where it is there
/// already its type is replaced only if `replace`.
pub open spec fn put_symbol(
    symbols: Seq<SymbolView>,
    idx: nat,
    ty: Seq<char>,
    replace: bool,
) -> Seq<SymbolView>
    decreases symbols.len(),
{
    if symbols.len() == 0 || symbols.last().idx < idx {
        symbols.push(SymbolView { idx, ty })
    } else if symbols.last().idx == idx {
        if replace {
            symbols.drop_last().push(SymbolView { idx, ty })
        } else {
            symbols
        }
    } else {
        put_symbol(symbols.drop_last(), idx, ty, replace).push(symbols.last())
    }
}

/// `symbols` with each parameter of `refs` among them, at type `ty` where it is new.
pub open spec fn put_refs(symbols: Seq<SymbolView>, refs: Seq<nat>, ty: Seq<char>) -> Seq<
    SymbolView,
>
    decreases refs.len(),
{
    if refs.len() == 0 {
        symbols
    } else {
        put_symbol(put_refs(symbols, refs.drop_last(), ty), refs.last(), ty, false)
    }
}

/// `symbols` with each of `more` among them, each at its type where it is new.
pub open spec fn put_symbols(symbols: Seq<SymbolView>, more: Seq<SymbolView>) -> Seq<SymbolView>
    decreases more.len(),
{
    if more.len() == 0 {
        symbols
    } else {
        put_symbol(
            put_symbols(symbols, more.drop_last()),
            more.last().idx,
            more.last().ty,
            false,
        )
    }
}

/// The parameters of the caller that the bound parameters are linked to.
pub open spec fn linked_symbols(bound: Seq<BoundView>) -> Seq<SymbolView>
    decreases bound.len(),
{
    if bound.len() == 0 {
        seq![]
    } else {
        let before = linked_symbols(bound.drop_last());
        match bound.last().binding {
            BindingView::Constant(_) => before,
            BindingView::CallerArg(i) => put_symbol(before, i, bound.last().ty, true),
            BindingView::Expr { refs, .. } => put_refs(before, refs, bound.last().ty),
        }
    }
}

/// The text of the declarations of `symbols`, if each has a type with a bit-vector encoding.
pub open spec fn symbol_declarations(symbols: Seq<SymbolView>) -> Option<Seq<char>>
    decreases symbols.len(),
{
    if symbols.len() == 0 {
        Some(""@)
    } else {
        match (symbol_declarations(symbols.drop_last()), int_info(symbols.last().ty)) {
            (Some(before), Some((_, bits))) => Some(
                before + declaration(entry_symbol(symbols.last().idx), bits),
            ),
            _ => None,
        }
    }
}

/// The one parameter of the caller with the name `ident`, and its primitive integer type.
pub open spec fn caller_param(body: Body, ident: Seq<char>) -> Option<(nat, Seq<char>)> {
    if ident.len() == 0 {
        None
    } else {
        match sole_index(body.arg_names@, ident) {
            None => None,
            Some(i) => match local_int_name(body, i + 1) {
                Some(ty) => Some((i as nat, ty)),
                None => None,
            },
        }
    }
}

/// What a precondition of the caller gives at a call.
pub enum HypothesisView {
    /// The term `term` over the entry symbols `symbols`.
    Use { symbols: Seq<SymbolView>, term: Seq<char> },
    /// Nothing, for this reason.
    Refuse(Seq<char>),
}

/// The refusal of the caller's precondition `raw`.
pub open spec fn unusable(raw: Seq<char>, why: Seq<char>) -> HypothesisView {
    HypothesisView::Refuse(HYPOTHESIS_HEAD@ + debug_rendering(raw) + why)
}

/// What the precondition `raw` of the caller gives at a call: a clause over parameters that can be
/// told apart by name is a hypothesis on their entry values.
pub open spec fn hypothesis(body: Body, raw: Seq<char>) -> HypothesisView {
    match pair_of(raw) {
        Ok(p) => match (caller_param(body, p.lhs), caller_param(body, p.rhs)) {
            (Some((i, lhs_ty)), Some((j, rhs_ty))) => if lhs_ty != rhs_ty {
                unusable(raw, HYPOTHESIS_TYPES@)
            } else {
                let renamed = PairView { lhs: entry_symbol(i), op: p.op, rhs: entry_symbol(j) };
                match term_of(pair_assertion(renamed, lhs_ty)) {
                    Some(term) => HypothesisView::Use {
                        symbols: seq![
                            SymbolView { idx: i, ty: lhs_ty },
                            SymbolView { idx: j, ty: rhs_ty },
                        ],
                        term,
                    },
                    None => unusable(raw, HYPOTHESIS_UNTRANSLATED@),
                }
            },
            _ => unusable(raw, HYPOTHESIS_NAMES@),
        },
        Err(_) => match predicate_of(raw) {
            Ok(p) => match caller_param(body, p.var) {
                Some((i, ty)) => match term_of(predicate_assertion(p, entry_symbol(i), ty)) {
                    Some(term) => HypothesisView::Use {
                        symbols: seq![SymbolView { idx: i, ty }],
                        term,
                    },
                    None => unusable(raw, HYPOTHESIS_UNTRANSLATED@),
                },
                None => unusable(raw, HYPOTHESIS_NAME_HEAD@ + p.var + HYPOTHESIS_NAME_TAIL@),
            },
            Err(_) => unusable(raw, HYPOTHESIS_RAW@),
        },
    }
}

/// What the preconditions of the caller give at a call.
pub struct HypothesesView {
    pub symbols: Seq<SymbolView>,
    pub terms: Seq<Seq<char>>,
    pub notes: Seq<Seq<char>>,
}

/// `symbols` with each of `more` among them, each at its own type.
pub open spec fn set_symbols(symbols: Seq<SymbolView>, more: Seq<SymbolView>) -> Seq<SymbolView>
    decreases more.len(),
{
    if more.len() == 0 {
        symbols
    } else {
        put_symbol(
            set_symbols(symbols, more.drop_last()),
            more.last().idx,
            more.last().ty,
            true,
        )
    }
}

/// What the preconditions `raws` of the caller give at a call. One that gives nothing is left out:
/// fewer hypotheses make the goal harder to prove, never easier.
pub open spec fn hypotheses(body: Body, raws: Seq<String>) -> HypothesesView
    decreases raws.len(),
{
    if raws.len() == 0 {
        HypothesesView { symbols: seq![], terms: seq![], notes: seq![] }
    } else {
        let before = hypotheses(body, raws.drop_last());
        match hypothesis(body, raws.last()@) {
            HypothesisView::Use { symbols, term } => HypothesesView {
                symbols: set_symbols(before.symbols, symbols),
                terms: before.terms.push(term),
                notes: before.notes,
            },
            HypothesisView::Refuse(note) => HypothesesView {
                notes: before.notes.push(note),
                ..before
            },
        }
    }
}

/// The assertions of `terms`, one per line.
pub open spec fn assertions(terms: Seq<Seq<char>>) -> Seq<char>
    decreases terms.len(),
{
    if terms.len() == 0 {
        ""@
    } else {
        assertions(terms.drop_last()) + ("(assert "@ + terms.last() + ")\n"@)
    }
}

// ---------------------------------------------------------------------------
// The problem.
// ---------------------------------------------------------------------------

/// The problem that a call meets the preconditions of its callee.
pub struct CallsiteView {
    /// Unsatisfiable exactly if the preconditions follow.
    pub discharge: Seq<char>,
    /// Unsatisfiable exactly if the hypotheses contradict each other.
    pub consistency: Seq<char>,
    /// Why preconditions of the caller were left out.
    pub notes: Seq<Seq<char>>,
}

/// What the caller brings to a call with the bound parameters `bound`: nothing unless one of them
/// is linked to a parameter of the caller.
pub open spec fn caller_side(
    body: Body,
    preconditions: Seq<String>,
    bound: Seq<BoundView>,
) -> HypothesesView {
    let linked = linked_symbols(bound);
    if linked.len() == 0 {
        HypothesesView { symbols: seq![], terms: seq![], notes: seq![] }
    } else {
        let brought = hypotheses(body, preconditions);
        HypothesesView { symbols: put_symbols(linked, brought.symbols), ..brought }
    }
}

/// The problem that the call `c` meets the preconditions of `spec`, with what the preconditions of
/// the caller give. There is none unless each precondition of the callee has a term over
/// parameters that are bound.
pub open spec fn callsite_problem(
    c: CallView,
    preconditions: Seq<String>,
    spec: CalleeSpec,
) -> Option<CallsiteView> {
    match goals(c, spec, spec.preconditions@) {
        None => None,
        Some((terms, bound)) => if terms.len() == 0 || bound.len() == 0 {
            None
        } else {
            let side = caller_side(c.body, preconditions, bound);
            match (symbol_declarations(side.symbols), bound_declarations(bound)) {
                (Some(symbols), Some(params)) => {
                    let given = "(set-logic QF_BV)\n"@ + symbols + params + assertions(side.terms)
                        + links(bound);
                    Some(
                        CallsiteView {
                            discharge: given + "(assert "@ + negation(terms)
                                + ")\n(check-sat)\n"@,
                            consistency: given + "(check-sat)\n"@,
                            notes: side.notes,
                        },
                    )
                },
                _ => None,
            }
        },
    }
}

// ---------------------------------------------------------------------------
// Execution.
// ---------------------------------------------------------------------------

/// What a parameter of the callee is at a call.
pub enum CallsiteBinding {
    Constant(i128),
    CallerArg(usize),
    Expr { smt: String, referenced_callers: Vec<usize> },
}

impl View for CallsiteBinding {
    type V = BindingView;

    open spec fn view(&self) -> BindingView {
        match self {
            CallsiteBinding::Constant(v) => BindingView::Constant(*v as int),
            CallsiteBinding::CallerArg(i) => BindingView::CallerArg(*i as nat),
            CallsiteBinding::Expr { smt, referenced_callers } => BindingView::Expr {
                smt: smt@,
                refs: referenced_callers@.map_values(|x: usize| x as nat),
            },
        }
    }
}

/// A parameter of the callee that a precondition speaks of.
pub struct Bound {
    pub name: String,
    pub ty: String,
    pub binding: CallsiteBinding,
}

impl View for Bound {
    type V = BoundView;

    open spec fn view(&self) -> BoundView {
        BoundView { name: self.name@, ty: self.ty@, binding: self.binding@ }
    }
}

/// The views of a list of bound parameters.
pub open spec fn bound_views(v: Seq<Bound>) -> Seq<BoundView> {
    v.map_values(|b: Bound| b@)
}

/// A parameter of the caller whose entry symbol is declared.
pub struct Symbol {
    pub idx: usize,
    pub ty: String,
}

impl View for Symbol {
    type V = SymbolView;

    open spec fn view(&self) -> SymbolView {
        SymbolView { idx: self.idx as nat, ty: self.ty@ }
    }
}

/// The views of a list of symbols.
pub open spec fn symbol_views(v: Seq<Symbol>) -> Seq<SymbolView> {
    v.map_values(|s: Symbol| s@)
}

/// A call: the body that makes it, the locals that the body stores to, its arguments, and the
/// block that it ends.
pub struct CallSite<'a> {
    pub body: &'a Body,
    pub assigned: &'a Vec<u32>,
    pub args: &'a Vec<Operand>,
    pub block: usize,
}

impl<'a> CallSite<'a> {
    /// Whether `assigned` lists the locals that the body stores to.
    pub open spec fn wf(&self) -> bool {
        forall|l: u32| #[trigger] self.assigned@.contains(l) <==> writes(self.body.blocks@, l)
    }
}

impl<'a> View for CallSite<'a> {
    type V = CallView;

    open spec fn view(&self) -> CallView {
        CallView { body: *self.body, args: self.args@, block: self.block as int }
    }
}

fn is_assigned(assigned: &Vec<u32>, l: u32) -> (r: bool)
    ensures
        r == assigned@.contains(l),
{
    let mut i: usize = 0;
    while i < assigned.len()
        invariant
            i <= assigned@.len(),
            forall|k: int| 0 <= k < i ==> assigned@[k] != l,
        decreases assigned@.len() - i,
    {
        if assigned[i] == l {
            return true;
        }
        i += 1;
    }
    false
}

/// The parameter of the caller that `op` reads whole and unchanged, and its type.
fn operand_as_caller_arg(site: &CallSite, op: &Operand) -> (r: Option<(usize, String)>)
    requires
        site.wf(),
    ensures
        match r {
            Some((i, ty)) => unchanged_arg(*site.body, *op) == Some((i as nat, ty@)),
            None => unchanged_arg(*site.body, *op) is None,
        },
{
    let l: u32 = match bare_local_of(op) {
        Some(l) => l.0,
        None => return None,
    };
    if l == 0 || l as usize > site.body.arg_names.len() {
        return None;
    }
    if is_assigned(site.assigned, l) {
        return None;
    }
    match local_primitive_int_name(site.body, l as usize) {
        Some(ty) => Some((l as usize - 1, ty)),
        None => None,
    }
}

fn bind_actual(site: &CallSite, op: &Operand, ty: &str) -> (r: Option<CallsiteBinding>)
    requires
        site.wf(),
    ensures
        match r {
            Some(b) => actual(site@, *op, ty@) == Some(b@),
            None => actual(site@, *op, ty@) is None,
        },
{
    if let Operand::Constant(k) = op {
        if !opt_is(&primitive_int_name_from_ty(&k.ty), ty) {
            return None;
        }
        return match k.value {
            Some(v) => Some(CallsiteBinding::Constant(v)),
            None => None,
        };
    }
    match operand_as_caller_arg(site, op) {
        Some((i, own)) => {
            if same(own.as_str(), ty) {
                Some(CallsiteBinding::CallerArg(i))
            } else {
                None
            }
        },
        None => match capture_call_arg_expr(site.body, op, site.block, ty) {
            Some((smt, referenced_callers)) => Some(
                CallsiteBinding::Expr { smt, referenced_callers },
            ),
            None => None,
        },
    }
}

fn find_bound(bound: &Vec<Bound>, name: &str) -> (r: Option<String>)
    ensures
        opt_view(r) == bound_ty(bound_views(bound@), name@),
{
    let ghost all = bound_views(bound@);
    let mut i: usize = 0;
    assert(all.take(0) =~= Seq::empty());
    while i < bound.len()
        invariant
            i <= bound@.len(),
            all == bound_views(bound@),
            bound_ty(all.take(i as int), name@) is None,
        decreases bound@.len() - i,
    {
        proof {
            assert(all.take(i + 1).drop_last() =~= all.take(i as int));
            assert(all.take(i + 1).last() == bound@[i as int]@);
        }
        if same(bound[i].name.as_str(), name) {
            proof {
                lemma_bound_ty_first(all, name@, i + 1);
            }
            return Some(bound[i].ty.clone());
        }
        i += 1;
    }
    assert(all.take(i as int) =~= all);
    None
}

/// The first entry of a name decides.
proof fn lemma_bound_ty_first(bound: Seq<BoundView>, name: Seq<char>, n: int)
    requires
        0 <= n <= bound.len(),
        bound_ty(bound.take(n), name) is Some,
    ensures
        bound_ty(bound, name) == bound_ty(bound.take(n), name),
    decreases bound.len() - n,
{
    if n < bound.len() {
        assert(bound.take(n + 1).drop_last() =~= bound.take(n));
        lemma_bound_ty_first(bound, name, n + 1);
    } else {
        assert(bound.take(n) =~= bound);
    }
}

/// Resolves the identifier `ident` of a precondition to a parameter of the callee, and binds it.
/// Where it cannot, the bound parameters stay as they were.
fn bind_callsite_param(
    site: &CallSite,
    spec: &CalleeSpec,
    ident: &str,
    bound: &mut Vec<Bound>,
) -> (r: Option<String>)
    requires
        site.wf(),
    ensures
        match r {
            Some(ty) => bind(site@, *spec, ident@, bound_views(old(bound)@)) == Some(
                (ty@, bound_views(final(bound)@)),
            ),
            None => bind(site@, *spec, ident@, bound_views(old(bound)@)) is None && bound_views(
                final(bound)@,
            ) == bound_views(old(bound)@),
        },
{
    if ident.is_empty() {
        return None;
    }
    if let Some(ty) = find_bound(bound, ident) {
        return Some(ty);
    }
    let i: usize = match find_sole(&spec.arg_names, ident) {
        Some(i) => i,
        None => return None,
    };
    if i >= spec.arg_ty_names.len() || i >= site.args.len() {
        return None;
    }
    let ty = match &spec.arg_ty_names[i] {
        Some(ty) => ty.clone(),
        None => return None,
    };
    match bind_actual(site, &site.args[i], ty.as_str()) {
        Some(binding) => {
            let b = Bound { name: ident.to_owned(), ty: ty.clone(), binding };
            bound.push(b);
            assert(bound_views(bound@) =~= bound_views(old(bound)@).push(b@));
            Some(ty)
        },
        None => None,
    }
}

fn translated_term(r: Result<String, PredicateError>) -> (t: Option<String>)
    ensures
        opt_view(t) == term_of(crate::predicate::result_view(r)),
{
    match r {
        Ok(a) => strip_assert(a.as_str()),
        Err(_) => None,
    }
}

/// Translates the precondition `raw` of the callee to a term, and binds the parameters in it.
fn callsite_precondition_term(
    site: &CallSite,
    spec: &CalleeSpec,
    raw: &str,
    bound: &mut Vec<Bound>,
) -> (r: Option<String>)
    requires
        site.wf(),
    ensures
        match r {
            Some(t) => goal(site@, *spec, raw@, bound_views(old(bound)@)) == Some(
                (t@, bound_views(final(bound)@)),
            ),
            None => goal(site@, *spec, raw@, bound_views(old(bound)@)) is None,
        },
        bound_views(final(bound)@) == bound_by(site@, *spec, raw@, bound_views(old(bound)@)),
{
    if let Ok(p) = parse_ident_vs_ident_predicate(raw) {
        let lhs = match bind_callsite_param(site, spec, p.lhs.as_str(), bound) {
            Some(ty) => ty,
            None => return None,
        };
        let rhs = match bind_callsite_param(site, spec, p.rhs.as_str(), bound) {
            Some(ty) => ty,
            None => return None,
        };
        if !same(lhs.as_str(), rhs.as_str()) {
            return None;
        }
        return translated_term(ident_vs_ident_to_smt_assertion(&p, lhs.as_str()));
    }
    if let Ok(p) = parse_predicate(raw) {
        let ty = match bind_callsite_param(site, spec, p.var.as_str(), bound) {
            Some(ty) => ty,
            None => return None,
        };
        return translated_term(predicate_to_smt_assertion(&p, p.var.as_str(), ty.as_str()));
    }
    None
}

/// A list of preconditions without terms stays without when it grows.
proof fn lemma_goals_none(c: CallView, spec: CalleeSpec, raws: Seq<String>, n: int)
    requires
        0 <= n <= raws.len(),
        goals(c, spec, raws.take(n)) is None,
    ensures
        goals(c, spec, raws) is None,
    decreases raws.len() - n,
{
    if n < raws.len() {
        assert(raws.take(n + 1).drop_last() =~= raws.take(n));
        lemma_goals_none(c, spec, raws, n + 1);
    } else {
        assert(raws.take(n) =~= raws);
    }
}

fn callsite_goals(site: &CallSite, spec: &CalleeSpec) -> (r: Option<(Vec<String>, Vec<Bound>)>)
    requires
        site.wf(),
    ensures
        match r {
            Some((terms, bound)) => goals(site@, *spec, spec.preconditions@) == Some(
                (views(terms@), bound_views(bound@)),
            ),
            None => goals(site@, *spec, spec.preconditions@) is None,
        },
{
    broadcast use crate::text::lemma_views_push;

    let mut bound: Vec<Bound> = Vec::new();
    let mut terms: Vec<String> = Vec::new();
    let mut i: usize = 0;
    proof {
        assert(spec.preconditions@.take(0) =~= Seq::empty());
        assert(bound_views(bound@) =~= seq![]);
        assert(views(terms@) =~= seq![]);
    }
    while i < spec.preconditions.len()
        invariant
            site.wf(),
            i <= spec.preconditions@.len(),
            goals(site@, *spec, spec.preconditions@.take(i as int)) == Some(
                (views(terms@), bound_views(bound@)),
            ),
        decreases spec.preconditions@.len() - i,
    {
        proof {
            let next = spec.preconditions@.take(i + 1);
            assert(next.drop_last() =~= spec.preconditions@.take(i as int));
            assert(next.last() == spec.preconditions@[i as int]);
        }
        match callsite_precondition_term(site, spec, spec.preconditions[i].as_str(), &mut bound) {
            Some(t) => terms.push(t),
            None => {
                proof {
                    lemma_goals_none(site@, *spec, spec.preconditions@, i + 1);
                }
                return None;
            },
        }
        i += 1;
    }
    assert(spec.preconditions@.take(i as int) =~= spec.preconditions@);
    Some((terms, bound))
}

/// A list that holds a parameter without an encoding stays undeclared when it grows.
proof fn lemma_declarations_none(bound: Seq<BoundView>, n: int)
    requires
        0 <= n <= bound.len(),
        bound_declarations(bound.take(n)) is None,
    ensures
        bound_declarations(bound) is None,
    decreases bound.len() - n,
{
    if n < bound.len() {
        assert(bound.take(n + 1).drop_last() =~= bound.take(n));
        lemma_declarations_none(bound, n + 1);
    } else {
        assert(bound.take(n) =~= bound);
    }
}

fn declare_bound(bound: &Vec<Bound>) -> (r: Option<String>)
    ensures
        opt_view(r) == bound_declarations(bound_views(bound@)),
{
    let ghost all = bound_views(bound@);
    let mut text = "".to_owned();
    let mut i: usize = 0;
    assert(all.take(0) =~= Seq::empty());
    while i < bound.len()
        invariant
            i <= bound@.len(),
            all == bound_views(bound@),
            bound_declarations(all.take(i as int)) == Some(text@),
        decreases bound@.len() - i,
    {
        proof {
            assert(all.take(i + 1).drop_last() =~= all.take(i as int));
            assert(all.take(i + 1).last() == bound@[i as int]@);
        }
        match int_type_info(bound[i].ty.as_str()) {
            Some((_, bits)) => {
                text.append(declare(bound[i].name.as_str(), bits).as_str());
            },
            None => {
                proof {
                    lemma_declarations_none(all, i + 1);
                }
                return None;
            },
        }
        i += 1;
    }
    assert(all.take(i as int) =~= all);
    Some(text)
}

/// Every parameter of a declared list has a type with an encoding.
proof fn lemma_declared(bound: Seq<BoundView>, i: int)
    requires
        bound_declarations(bound) is Some,
        0 <= i < bound.len(),
    ensures
        int_info(bound[i].ty) is Some,
    decreases bound.len(),
{
    if i < bound.len() - 1 {
        lemma_declared(bound.drop_last(), i);
    }
}

fn link_bound(bound: &Vec<Bound>) -> (r: String)
    requires
        bound_declarations(bound_views(bound@)) is Some,
    ensures
        r@ == links(bound_views(bound@)),
{
    let ghost all = bound_views(bound@);
    let mut text = "".to_owned();
    let mut i: usize = 0;
    assert(all.take(0) =~= Seq::empty());
    while i < bound.len()
        invariant
            i <= bound@.len(),
            all == bound_views(bound@),
            bound_declarations(all) is Some,
            text@ == links(all.take(i as int)),
        decreases bound@.len() - i,
    {
        proof {
            assert(all.take(i + 1).drop_last() =~= all.take(i as int));
            assert(all.take(i + 1).last() == bound@[i as int]@);
            lemma_declared(all, i as int);
        }
        let b = &bound[i];
        let one = match &b.binding {
            CallsiteBinding::Constant(v) => match operand_pin_assertion(
                b.name.as_str(),
                *v,
                b.ty.as_str(),
            ) {
                Some(s) => crate::text::cat2(s.as_str(), "\n"),
                None => "".to_owned(),
            },
            CallsiteBinding::CallerArg(idx) => cat5(
                "(assert (= ",
                b.name.as_str(),
                " ",
                caller_arg_symbol(*idx).as_str(),
                "))\n",
            ),
            CallsiteBinding::Expr { smt, .. } => cat5(
                "(assert (= ",
                b.name.as_str(),
                " ",
                smt.as_str(),
                "))\n",
            ),
        };
        text.append(one.as_str());
        i += 1;
    }
    assert(all.take(i as int) =~= all);
    text
}

/// Puts the parameter `idx` in its place.
fn put(symbols: &mut Vec<Symbol>, idx: usize, ty: &str, replace: bool)
    ensures
        symbol_views(final(symbols)@) == put_symbol(
            symbol_views(old(symbols)@),
            idx as nat,
            ty@,
            replace,
        ),
{
    let ghost all = symbol_views(symbols@);
    let ghost goal = put_symbol(all, idx as nat, ty@, replace);
    let mut i: usize = symbols.len();
    assert(all.take(all.len() as int) =~= all);
    assert(put_symbol(all, idx as nat, ty@, replace) + all.skip(all.len() as int) =~= goal);
    while i > 0 && symbols[i - 1].idx > idx
        invariant
            i <= symbols@.len(),
            all == symbol_views(symbols@),
            goal == put_symbol(all.take(i as int), idx as nat, ty@, replace) + all.skip(i as int),
        decreases i,
    {
        proof {
            let head = all.take(i as int);
            assert(head.last() == symbols@[i - 1]@);
            assert(head.drop_last() =~= all.take(i - 1));
            let shorter = put_symbol(all.take(i - 1), idx as nat, ty@, replace);
            assert(shorter.push(head.last()) + all.skip(i as int) =~= shorter + all.skip(i - 1));
        }
        i -= 1;
    }
    let ghost head = all.take(i as int);
    if i > 0 && symbols[i - 1].idx == idx {
        assert(head.last() == symbols@[i - 1]@);
        if replace {
            symbols.set(i - 1, Symbol { idx, ty: ty.to_owned() });
        }
        assert(symbol_views(symbols@) =~= goal);
    } else {
        assert(i > 0 ==> head.last() == symbols@[i - 1]@);
        symbols.insert(i, Symbol { idx, ty: ty.to_owned() });
        assert(symbol_views(symbols@) =~= goal);
    }
}

fn put_referenced(symbols: &mut Vec<Symbol>, refs: &Vec<usize>, ty: &str)
    ensures
        symbol_views(final(symbols)@) == put_refs(
            symbol_views(old(symbols)@),
            refs@.map_values(|x: usize| x as nat),
            ty@,
        ),
{
    let ghost start = symbol_views(symbols@);
    let ghost all = refs@.map_values(|x: usize| x as nat);
    let mut i: usize = 0;
    assert(all.take(0) =~= Seq::empty());
    while i < refs.len()
        invariant
            i <= refs@.len(),
            all == refs@.map_values(|x: usize| x as nat),
            symbol_views(symbols@) == put_refs(start, all.take(i as int), ty@),
        decreases refs@.len() - i,
    {
        proof {
            assert(all.take(i + 1).drop_last() =~= all.take(i as int));
            assert(all.take(i + 1).last() == refs@[i as int] as nat);
        }
        put(symbols, refs[i], ty, false);
        i += 1;
    }
    assert(all.take(i as int) =~= all);
}

fn link_symbols(bound: &Vec<Bound>) -> (r: Vec<Symbol>)
    ensures
        symbol_views(r@) == linked_symbols(bound_views(bound@)),
{
    let ghost all = bound_views(bound@);
    let mut symbols: Vec<Symbol> = Vec::new();
    let mut i: usize = 0;
    assert(all.take(0) =~= Seq::empty());
    assert(symbol_views(symbols@) =~= seq![]);
    while i < bound.len()
        invariant
            i <= bound@.len(),
            all == bound_views(bound@),
            symbol_views(symbols@) == linked_symbols(all.take(i as int)),
        decreases bound@.len() - i,
    {
        proof {
            assert(all.take(i + 1).drop_last() =~= all.take(i as int));
            assert(all.take(i + 1).last() == bound@[i as int]@);
        }
        match &bound[i].binding {
            CallsiteBinding::Constant(_) => {},
            CallsiteBinding::CallerArg(idx) => put(&mut symbols, *idx, bound[i].ty.as_str(), true),
            CallsiteBinding::Expr { referenced_callers, .. } => put_referenced(
                &mut symbols,
                referenced_callers,
                bound[i].ty.as_str(),
            ),
        }
        i += 1;
    }
    assert(all.take(i as int) =~= all);
    symbols
}

/// A list that holds a symbol without an encoding stays undeclared when it grows.
proof fn lemma_symbols_none(symbols: Seq<SymbolView>, n: int)
    requires
        0 <= n <= symbols.len(),
        symbol_declarations(symbols.take(n)) is None,
    ensures
        symbol_declarations(symbols) is None,
    decreases symbols.len() - n,
{
    if n < symbols.len() {
        assert(symbols.take(n + 1).drop_last() =~= symbols.take(n));
        lemma_symbols_none(symbols, n + 1);
    } else {
        assert(symbols.take(n) =~= symbols);
    }
}

fn declare_symbols(symbols: &Vec<Symbol>) -> (r: Option<String>)
    ensures
        opt_view(r) == symbol_declarations(symbol_views(symbols@)),
{
    let ghost all = symbol_views(symbols@);
    let mut text = "".to_owned();
    let mut i: usize = 0;
    assert(all.take(0) =~= Seq::empty());
    while i < symbols.len()
        invariant
            i <= symbols@.len(),
            all == symbol_views(symbols@),
            symbol_declarations(all.take(i as int)) == Some(text@),
        decreases symbols@.len() - i,
    {
        proof {
            assert(all.take(i + 1).drop_last() =~= all.take(i as int));
            assert(all.take(i + 1).last() == symbols@[i as int]@);
        }
        match int_type_info(symbols[i].ty.as_str()) {
            Some((_, bits)) => {
                text.append(declare(caller_arg_symbol(symbols[i].idx).as_str(), bits).as_str());
            },
            None => {
                proof {
                    lemma_symbols_none(all, i + 1);
                }
                return None;
            },
        }
        i += 1;
    }
    assert(all.take(i as int) =~= all);
    Some(text)
}

/// The one parameter of `body` with the name `ident`, and its primitive integer type.
fn caller_param_lookup(body: &Body, ident: &str) -> (r: Option<(usize, String)>)
    ensures
        match r {
            Some((i, ty)) => caller_param(*body, ident@) == Some((i as nat, ty@)),
            None => caller_param(*body, ident@) is None,
        },
{
    if ident.is_empty() {
        return None;
    }
    let i: usize = match find_sole(&body.arg_names, ident) {
        Some(i) => i,
        None => return None,
    };
    let count: usize = body.arg_names.len();
    assert(i < count);
    match local_primitive_int_name(body, i + 1) {
        Some(ty) => Some((i, ty)),
        None => None,
    }
}

/// What a precondition of the caller gives at a call.
enum Hypothesis {
    Use { symbols: Vec<Symbol>, term: String },
    Refuse(String),
}

impl View for Hypothesis {
    type V = HypothesisView;

    closed spec fn view(&self) -> HypothesisView {
        match self {
            Hypothesis::Use { symbols, term } => HypothesisView::Use {
                symbols: symbol_views(symbols@),
                term: term@,
            },
            Hypothesis::Refuse(note) => HypothesisView::Refuse(note@),
        }
    }
}

fn refuse_hypothesis(raw: &str, why: &str) -> (r: Hypothesis)
    ensures
        r@ == unusable(raw@, why@),
{
    Hypothesis::Refuse(cat3(HYPOTHESIS_HEAD, quoted(raw).as_str(), why))
}

fn pair_hypothesis(body: &Body, raw: &str, p: &IdentVsIdentPredicate) -> (r: Hypothesis)
    requires
        pair_of(raw@) == Ok::<_, PredicateError>(p@),
    ensures
        r@ == hypothesis(*body, raw@),
{
    let (i, lhs_ty) = match caller_param_lookup(body, p.lhs.as_str()) {
        Some(found) => found,
        None => return refuse_hypothesis(raw, HYPOTHESIS_NAMES),
    };
    let (j, rhs_ty) = match caller_param_lookup(body, p.rhs.as_str()) {
        Some(found) => found,
        None => return refuse_hypothesis(raw, HYPOTHESIS_NAMES),
    };
    if !same(lhs_ty.as_str(), rhs_ty.as_str()) {
        return refuse_hypothesis(raw, HYPOTHESIS_TYPES);
    }
    let renamed = IdentVsIdentPredicate {
        lhs: caller_arg_symbol(i),
        op: p.op,
        rhs: caller_arg_symbol(j),
    };
    match translated_term(ident_vs_ident_to_smt_assertion(&renamed, lhs_ty.as_str())) {
        Some(term) => {
            let mut symbols: Vec<Symbol> = Vec::new();
            symbols.push(Symbol { idx: i, ty: lhs_ty });
            symbols.push(Symbol { idx: j, ty: rhs_ty });
            assert(symbol_views(symbols@) =~= seq![
                SymbolView { idx: i as nat, ty: lhs_ty@ },
                SymbolView { idx: j as nat, ty: rhs_ty@ },
            ]);
            Hypothesis::Use { symbols, term }
        },
        None => refuse_hypothesis(raw, HYPOTHESIS_UNTRANSLATED),
    }
}

fn make_hypothesis(body: &Body, raw: &str) -> (r: Hypothesis)
    ensures
        r@ == hypothesis(*body, raw@),
{
    if let Ok(p) = parse_ident_vs_ident_predicate(raw) {
        return pair_hypothesis(body, raw, &p);
    }
    if let Ok(p) = parse_predicate(raw) {
        let (i, ty) = match caller_param_lookup(body, p.var.as_str()) {
            Some(found) => found,
            None => return refuse_hypothesis(
                raw,
                cat3(HYPOTHESIS_NAME_HEAD, p.var.as_str(), HYPOTHESIS_NAME_TAIL).as_str(),
            ),
        };
        let symbol = caller_arg_symbol(i);
        return match translated_term(
            predicate_to_smt_assertion(&p, symbol.as_str(), ty.as_str()),
        ) {
            Some(term) => {
                let mut symbols: Vec<Symbol> = Vec::new();
                symbols.push(Symbol { idx: i, ty });
                assert(symbol_views(symbols@) =~= seq![SymbolView { idx: i as nat, ty: ty@ }]);
                Hypothesis::Use { symbols, term }
            },
            None => refuse_hypothesis(raw, HYPOTHESIS_UNTRANSLATED),
        };
    }
    refuse_hypothesis(raw, HYPOTHESIS_RAW)
}

/// What the caller brings to a call.
struct Hypotheses {
    symbols: Vec<Symbol>,
    terms: Vec<String>,
    notes: Vec<String>,
}

impl View for Hypotheses {
    type V = HypothesesView;

    closed spec fn view(&self) -> HypothesesView {
        HypothesesView {
            symbols: symbol_views(self.symbols@),
            terms: views(self.terms@),
            notes: views(self.notes@),
        }
    }
}

fn set_each(symbols: &mut Vec<Symbol>, more: &Vec<Symbol>)
    ensures
        symbol_views(final(symbols)@) == set_symbols(
            symbol_views(old(symbols)@),
            symbol_views(more@),
        ),
{
    let ghost start = symbol_views(symbols@);
    let ghost all = symbol_views(more@);
    let mut i: usize = 0;
    assert(all.take(0) =~= Seq::empty());
    while i < more.len()
        invariant
            i <= more@.len(),
            all == symbol_views(more@),
            symbol_views(symbols@) == set_symbols(start, all.take(i as int)),
        decreases more@.len() - i,
    {
        proof {
            assert(all.take(i + 1).drop_last() =~= all.take(i as int));
            assert(all.take(i + 1).last() == more@[i as int]@);
        }
        put(symbols, more[i].idx, more[i].ty.as_str(), true);
        i += 1;
    }
    assert(all.take(i as int) =~= all);
}

fn put_each(symbols: &mut Vec<Symbol>, more: &Vec<Symbol>)
    ensures
        symbol_views(final(symbols)@) == put_symbols(
            symbol_views(old(symbols)@),
            symbol_views(more@),
        ),
{
    let ghost start = symbol_views(symbols@);
    let ghost all = symbol_views(more@);
    let mut i: usize = 0;
    assert(all.take(0) =~= Seq::empty());
    while i < more.len()
        invariant
            i <= more@.len(),
            all == symbol_views(more@),
            symbol_views(symbols@) == put_symbols(start, all.take(i as int)),
        decreases more@.len() - i,
    {
        proof {
            assert(all.take(i + 1).drop_last() =~= all.take(i as int));
            assert(all.take(i + 1).last() == more@[i as int]@);
        }
        put(symbols, more[i].idx, more[i].ty.as_str(), false);
        i += 1;
    }
    assert(all.take(i as int) =~= all);
}

/// Translates the preconditions of the caller as far as they can be.
fn caller_precondition_hypotheses(body: &Body, preconditions: &Vec<String>) -> (r: Hypotheses)
    ensures
        r@ == hypotheses(*body, preconditions@),
{
    broadcast use crate::text::lemma_views_push;

    let mut symbols: Vec<Symbol> = Vec::new();
    let mut terms: Vec<String> = Vec::new();
    let mut notes: Vec<String> = Vec::new();
    let mut i: usize = 0;
    proof {
        assert(preconditions@.take(0) =~= Seq::empty());
        assert(symbol_views(symbols@) =~= seq![]);
        assert(views(terms@) =~= seq![]);
        assert(views(notes@) =~= seq![]);
    }
    while i < preconditions.len()
        invariant
            i <= preconditions@.len(),
            hypotheses(*body, preconditions@.take(i as int)) == (HypothesesView {
                symbols: symbol_views(symbols@),
                terms: views(terms@),
                notes: views(notes@),
            }),
        decreases preconditions@.len() - i,
    {
        proof {
            let next = preconditions@.take(i + 1);
            assert(next.drop_last() =~= preconditions@.take(i as int));
            assert(next.last() == preconditions@[i as int]);
        }
        let ghost before = hypotheses(*body, preconditions@.take(i as int));
        match make_hypothesis(body, preconditions[i].as_str()) {
            Hypothesis::Use { symbols: more, term } => {
                set_each(&mut symbols, &more);
                terms.push(term);
                assert(views(terms@) == before.terms.push(term@));
            },
            Hypothesis::Refuse(note) => {
                notes.push(note);
                assert(views(notes@) == before.notes.push(note@));
            },
        }
        i += 1;
    }
    assert(preconditions@.take(i as int) =~= preconditions@);
    Hypotheses { symbols, terms, notes }
}

fn assert_terms(terms: &Vec<String>) -> (r: String)
    ensures
        r@ == assertions(views(terms@)),
{
    let ghost all = views(terms@);
    let mut text = "".to_owned();
    let mut i: usize = 0;
    assert(all.take(0) =~= Seq::empty());
    while i < terms.len()
        invariant
            i <= terms@.len(),
            all == views(terms@),
            text@ == assertions(all.take(i as int)),
        decreases terms@.len() - i,
    {
        proof {
            assert(all.take(i + 1).drop_last() =~= all.take(i as int));
            assert(all.take(i + 1).last() == terms@[i as int]@);
        }
        text.append(cat3("(assert ", terms[i].as_str(), ")\n").as_str());
        i += 1;
    }
    assert(all.take(i as int) =~= all);
    text
}

fn bring(body: &Body, preconditions: &Vec<String>, bound: &Vec<Bound>) -> (r: Hypotheses)
    ensures
        r@ == caller_side(*body, preconditions@, bound_views(bound@)),
{
    let mut linked = link_symbols(bound);
    if linked.len() == 0 {
        let none: Vec<String> = Vec::new();
        let terms: Vec<String> = Vec::new();
        assert(views(none@) =~= seq![]);
        assert(symbol_views(linked@) =~= seq![]);
        return Hypotheses { symbols: linked, terms, notes: none };
    }
    let brought = caller_precondition_hypotheses(body, preconditions);
    put_each(&mut linked, &brought.symbols);
    Hypotheses { symbols: linked, terms: brought.terms, notes: brought.notes }
}

/// The problem that a call meets the preconditions of its callee.
pub struct CallsiteProblem {
    pub discharge: String,
    pub consistency: String,
    pub notes: Vec<String>,
}

impl View for CallsiteProblem {
    type V = CallsiteView;

    open spec fn view(&self) -> CallsiteView {
        CallsiteView {
            discharge: self.discharge@,
            consistency: self.consistency@,
            notes: views(self.notes@),
        }
    }
}

/// Builds the problem that the call `site` meets the preconditions of `spec`, with the
/// preconditions of the caller as hypotheses.
pub fn build_callsite_precondition_smt(
    site: &CallSite,
    preconditions: &Vec<String>,
    spec: &CalleeSpec,
) -> (r: Option<CallsiteProblem>)
    requires
        site.wf(),
    ensures
        match r {
            Some(p) => callsite_problem(site@, preconditions@, *spec) == Some(p@),
            None => callsite_problem(site@, preconditions@, *spec) is None,
        },
{
    let (terms, bound) = match callsite_goals(site, spec) {
        Some(found) => found,
        None => return None,
    };
    if terms.len() == 0 || bound.len() == 0 {
        return None;
    }
    let side = bring(site.body, preconditions, &bound);
    let symbols = match declare_symbols(&side.symbols) {
        Some(text) => text,
        None => return None,
    };
    let params = match declare_bound(&bound) {
        Some(text) => text,
        None => return None,
    };
    let given = cat5(
        "(set-logic QF_BV)\n",
        symbols.as_str(),
        params.as_str(),
        assert_terms(&side.terms).as_str(),
        link_bound(&bound).as_str(),
    );
    let mut discharge = cat3(given.as_str(), "(assert ", negate(&terms).as_str());
    discharge.append(")\n(check-sat)\n");
    let consistency = crate::text::cat2(given.as_str(), "(check-sat)\n");
    Some(CallsiteProblem { discharge, consistency, notes: side.notes })
}

} // verus!
