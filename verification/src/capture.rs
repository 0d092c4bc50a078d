//! Symbolic capture of integer values along the straight-line part of a body.
//!
//! A capture follows the chain of blocks from the entry, through jumps and the success edges of
//! assertions, and keeps for each local the solver term that its value equals. It gives up at the
//! first branch, call or loop, and forgets a local whose new value it cannot write down.
use std::collections::HashMap;
use vstd::prelude::*;
use crate::locals::{
    arg_name, bare_local, bare_local_of, block_in_edge_counts, in_edges, local_arg_name,
    local_int_name, local_primitive_int_name, place_of, primitive_int_name,
    primitive_int_name_from_ty,
};
use crate::mir_api::{
    BinOp, Body, Local, Operand, Place, ProjectionElem, Rvalue, Statement, StatementKind,
    TerminatorKind,
};
use crate::predicate::{format_int_literal_for_ty, int_info, int_type_info, literal_at};
use crate::text::{
    cat2, cat7, chars_of, decimal, decimal_text, lemma_run_end, matches_at, number, occurs_at,
    opt_is, opt_view, read_number, run_end, scan, CharClass,
};

verus! {

/// The captured terms: of locals read whole, and of their first fields.
#[verifier::ext_equal]
pub struct Known {
    pub whole: Map<u32, Seq<char>>,
    pub first: Map<u32, Seq<char>>,
}

/// The entry of `m` at `l`, if it has one.
pub open spec fn entry(m: Map<u32, Seq<char>>, l: u32) -> Option<Seq<char>> {
    if m.contains_key(l) {
        Some(m[l])
    } else {
        None
    }
}

impl Known {
    /// These terms, with `e` as what the local `l` now holds: a checked operation leaves its
    /// value in the first field of a pair, and a plain one in the local itself.
    pub open spec fn set(self, l: u32, e: Seq<char>) -> Known {
        Known { whole: self.whole.insert(l, e), first: self.first.insert(l, e) }
    }

    /// These terms, with nothing known of the local `l`.
    pub open spec fn forget(self, l: u32) -> Known {
        Known { whole: self.whole.remove(l), first: self.first.remove(l) }
    }
}

/// The term of an operand at type `ty`, which must be its own type. A first field has a term only
/// where the whole was captured at `ty`.
pub open spec fn captured_operand(
    body: Body,
    op: Operand,
    known: Known,
    ty: Seq<char>,
) -> Option<Seq<char>> {
    match op {
        Operand::Constant(c) => if primitive_int_name(c.ty) == Some(ty) && c.value is Some {
            literal_at(c.value->0 as int, ty)
        } else {
            None
        },
        _ => captured_place(body, place_of(op)->0, known, ty),
    }
}

/// The term of a read of `p` at type `ty`.
pub open spec fn captured_place(
    body: Body,
    p: Place,
    known: Known,
    ty: Seq<char>,
) -> Option<Seq<char>> {
    if p.projection@.len() == 0 {
        if local_int_name(body, p.local.0 as int) == Some(ty) {
            entry(known.whole, p.local.0)
        } else {
            None
        }
    } else if p.projection@.len() == 1 && p.projection@[0] == ProjectionElem::Field(0) {
        entry(known.first, p.local.0)
    } else {
        None
    }
}

/// The term of a shift amount: a constant of any type is written at the width of `ty`.
pub open spec fn captured_amount(
    body: Body,
    op: Operand,
    known: Known,
    ty: Seq<char>,
) -> Option<Seq<char>> {
    match op {
        Operand::Constant(c) => if c.value is Some {
            literal_at(c.value->0 as int, ty)
        } else {
            None
        },
        _ => captured_operand(body, op, known, ty),
    }
}

/// The solver's name of an arithmetic operation. Division, remainder and right shift depend on the
/// signedness of the value.
pub open spec fn operation_name(op: BinOp, signed: bool) -> Option<Seq<char>> {
    match op {
        BinOp::Add => Some("bvadd"@),
        BinOp::Sub => Some("bvsub"@),
        BinOp::Mul => Some("bvmul"@),
        BinOp::Div => Some(
            if signed {
                "bvsdiv"@
            } else {
                "bvudiv"@
            },
        ),
        BinOp::Rem => Some(
            if signed {
                "bvsrem"@
            } else {
                "bvurem"@
            },
        ),
        BinOp::Shl => Some("bvshl"@),
        BinOp::Shr => Some(
            if signed {
                "bvashr"@
            } else {
                "bvlshr"@
            },
        ),
        _ => None,
    }
}

/// The term of an rvalue at type `ty`: a use, or an arithmetic operation on captured operands.
pub open spec fn captured_rvalue(
    body: Body,
    rvalue: Rvalue,
    known: Known,
    ty: Seq<char>,
) -> Option<Seq<char>> {
    match rvalue {
        Rvalue::Use(op) => captured_operand(body, op, known, ty),
        Rvalue::BinaryOp(op, a, b) => match int_info(ty) {
            None => None,
            Some((signed, _)) => {
                let right = if op == BinOp::Shl || op == BinOp::Shr {
                    captured_amount(body, b, known, ty)
                } else {
                    captured_operand(body, b, known, ty)
                };
                match (operation_name(op, signed), captured_operand(body, a, known, ty), right) {
                    (Some(name), Some(ea), Some(eb)) => Some(
                        "("@ + name + " "@ + ea + " "@ + eb + ")"@,
                    ),
                    _ => None,
                }
            },
        },
        _ => None,
    }
}

/// The terms after a statement.
pub open spec fn after_statement(
    body: Body,
    known: Known,
    stmt: Statement,
    ty: Seq<char>,
) -> Known {
    match stmt.kind {
        StatementKind::Assign(place, rvalue) => if place.projection@.len() > 0 {
            known.forget(place.local.0)
        } else {
            match captured_rvalue(body, rvalue, known, ty) {
                Some(e) => known.set(place.local.0, e),
                None => known.forget(place.local.0),
            }
        },
        _ => known,
    }
}

/// The terms after the statements `stmts`.
pub open spec fn after_statements(
    body: Body,
    known: Known,
    stmts: Seq<Statement>,
    ty: Seq<char>,
) -> Known
    decreases stmts.len(),
{
    if stmts.len() == 0 {
        known
    } else {
        after_statement(
            body,
            after_statements(body, known, stmts.drop_last(), ty),
            stmts.last(),
            ty,
        )
    }
}

/// The block that a straight-line terminator goes on to: a jump, or an assertion that holds.
pub open spec fn next_block(kind: TerminatorKind) -> Option<u32> {
    match kind {
        TerminatorKind::Goto { target } => Some(target.0),
        TerminatorKind::Assert { target, .. } => Some(target.0),
        _ => None,
    }
}

// ---------------------------------------------------------------------------
// The value that a body returns.
// ---------------------------------------------------------------------------

/// The terms on entry for a capture at the return type `ty`: the named parameters of that type,
/// each by its name.
pub open spec fn entry_names(body: Body, ty: Seq<char>) -> Known {
    Known {
        whole: Map::new(
            |l: u32| arg_name(body, l as int) is Some && local_int_name(body, l as int) == Some(ty),
            |l: u32| arg_name(body, l as int)->0,
        ),
        first: Map::empty(),
    }
}

/// The term that is returned by the chain from the block `at`, with at most `steps` blocks left.
pub open spec fn returned_from(
    body: Body,
    at: int,
    steps: nat,
    known: Known,
    ty: Seq<char>,
) -> Option<Seq<char>>
    decreases steps,
{
    if steps == 0 || !(0 <= at < body.blocks@.len()) {
        None
    } else {
        let block = body.blocks@[at];
        let after = after_statements(body, known, block.statements@, ty);
        if block.terminator.kind is Return {
            entry(after.whole, 0)
        } else {
            match next_block(block.terminator.kind) {
                Some(next) => returned_from(body, next as int, (steps - 1) as nat, after, ty),
                None => None,
            }
        }
    }
}

/// The term that the return value of a body equals, over the names of its parameters of the return
/// type. A chain longer than the number of blocks has come back to one of them: it is a loop.
pub open spec fn body_effect(body: Body) -> Option<Seq<char>> {
    match primitive_int_name(body.return_ty) {
        Some(ty) => returned_from(body, 0, body.blocks@.len(), entry_names(body, ty), ty),
        None => None,
    }
}

// ---------------------------------------------------------------------------
// The value that a call passes.
// ---------------------------------------------------------------------------

/// The symbol that stands for the entry value of the parameter `idx`.
pub open spec fn entry_symbol(idx: nat) -> Seq<char> {
    "__pb_caller_arg"@ + decimal(idx)
}

/// The symbol that stands for the entry value of the parameter `idx`.
pub fn caller_arg_symbol(idx: usize) -> (r: String)
    ensures
        r@ == entry_symbol(idx as nat),
{
    cat2("__pb_caller_arg", decimal_text(idx as u128).as_str())
}

/// The terms on entry for a capture at a call: the named parameters, each by its entry symbol.
pub open spec fn entry_symbols(body: Body) -> Known {
    Known {
        whole: Map::new(
            |l: u32| arg_name(body, l as int) is Some,
            |l: u32| entry_symbol((l - 1) as nat),
        ),
        first: Map::empty(),
    }
}

/// The terms at the end of the block `call`, reached by the chain from the block `at` with at most
/// `steps` blocks left. Every block that the chain steps into must have no other way in.
pub open spec fn known_at(
    body: Body,
    at: int,
    steps: nat,
    known: Known,
    ty: Seq<char>,
    call: int,
) -> Option<Known>
    decreases steps,
{
    if steps == 0 || !(0 <= at < body.blocks@.len()) {
        None
    } else {
        let block = body.blocks@[at];
        let after = after_statements(body, known, block.statements@, ty);
        if at == call {
            Some(after)
        } else {
            match next_block(block.terminator.kind) {
                Some(next) => if in_edges(body.blocks@, next as int) == 1 {
                    known_at(body, next as int, (steps - 1) as nat, after, ty, call)
                } else {
                    None
                },
                None => None,
            }
        }
    }
}

/// Where the scan of `s` for entry symbols goes on after position `i` lies behind `i`.
#[via_fn]
proof fn mentions_terminates(s: Seq<char>, i: int) {
    if 0 <= i && i + 15 <= s.len() {
        lemma_run_end(s, i + 15, CharClass::Digit);
    }
}

/// The parameters whose entry symbols stand in `s` from position `i` on, one entry per mention. A
/// symbol is the marker and the digits after it; one whose number no `usize` holds counts for none.
pub open spec fn mentions(s: Seq<char>, i: int) -> Seq<nat>
    decreases s.len() - i,
    via mentions_terminates
{
    if !(0 <= i && i + 15 <= s.len()) {
        seq![]
    } else if occurs_at(s, "__pb_caller_arg"@, i) {
        let to = run_end(s, i + 15, CharClass::Digit);
        let n = number(s.subrange(i + 15, to));
        if to > i + 15 && n <= usize::MAX {
            seq![n] + mentions(s, to)
        } else {
            mentions(s, to)
        }
    } else {
        mentions(s, i + 1)
    }
}

/// The items of `v` without repetition, in the order of their first occurrence.
pub open spec fn distinct(v: Seq<nat>) -> Seq<nat>
    decreases v.len(),
{
    if v.len() == 0 {
        seq![]
    } else {
        let before = distinct(v.drop_last());
        if before.contains(v.last()) {
            before
        } else {
            before.push(v.last())
        }
    }
}

/// The parameters whose entry symbols stand in `s`, in the order of their first mention.
pub open spec fn referenced(s: Seq<char>) -> Seq<nat> {
    distinct(mentions(s, 0))
}

/// The term of the operand `op` of the call that ends the block `call`, over entry symbols, at type
/// `ty`. The call must be reached by one path only: nothing leads back to the entry block, and each
/// block after it has one edge in.
pub open spec fn call_arg_term(body: Body, op: Operand, call: int, ty: Seq<char>) -> Option<
    Seq<char>,
> {
    if in_edges(body.blocks@, 0) != 0 {
        None
    } else {
        match known_at(body, 0, body.blocks@.len(), entry_symbols(body), ty, call) {
            Some(known) => match bare_local(op) {
                Some(l) => if local_int_name(body, l.0 as int) == Some(ty) {
                    entry(known.whole, l.0)
                } else {
                    None
                },
                None => None,
            },
            None => None,
        }
    }
}

// ---------------------------------------------------------------------------
// Execution.
// ---------------------------------------------------------------------------

/// The terms captured so far.
struct Terms {
    whole: HashMap<u32, String>,
    first: HashMap<u32, String>,
}

spec fn texts(m: Map<u32, String>) -> Map<u32, Seq<char>> {
    m.map_values(|s: String| s@)
}

impl View for Terms {
    type V = Known;

    closed spec fn view(&self) -> Known {
        Known { whole: texts(self.whole@), first: texts(self.first@) }
    }
}

impl Terms {
    fn new() -> (r: Terms)
        ensures
            r@ == (Known { whole: Map::empty(), first: Map::empty() }),
    {
        let r = Terms { whole: HashMap::new(), first: HashMap::new() };
        assert(texts(Map::empty()) =~= Map::empty());
        r
    }

    fn seed(&mut self, l: u32, name: String)
        ensures
            final(self)@ == (Known { whole: old(self)@.whole.insert(l, name@), ..old(self)@ }),
    {
        broadcast use vstd::std_specs::hash::group_hash_axioms;

        self.whole.insert(l, name);
        assert(self@.whole =~= old(self)@.whole.insert(l, name@));
    }

    fn set(&mut self, l: u32, e: String)
        ensures
            final(self)@ == old(self)@.set(l, e@),
    {
        broadcast use vstd::std_specs::hash::group_hash_axioms;

        self.whole.insert(l, e.clone());
        self.first.insert(l, e);
        assert(self@ =~~= old(self)@.set(l, e@));
    }

    fn forget(&mut self, l: u32)
        ensures
            final(self)@ == old(self)@.forget(l),
    {
        broadcast use vstd::std_specs::hash::group_hash_axioms;

        self.whole.remove(&l);
        self.first.remove(&l);
        assert(self@ =~~= old(self)@.forget(l));
    }

    fn whole_at(&self, l: u32) -> (r: Option<String>)
        ensures
            opt_view(r) == entry(self@.whole, l),
    {
        broadcast use vstd::std_specs::hash::group_hash_axioms;

        match self.whole.get(&l) {
            Some(s) => Some(s.clone()),
            None => None,
        }
    }

    fn first_at(&self, l: u32) -> (r: Option<String>)
        ensures
            opt_view(r) == entry(self@.first, l),
    {
        broadcast use vstd::std_specs::hash::group_hash_axioms;

        match self.first.get(&l) {
            Some(s) => Some(s.clone()),
            None => None,
        }
    }
}

fn capture_place(body: &Body, p: &Place, known: &Terms, ty: &str) -> (r: Option<String>)
    ensures
        opt_view(r) == captured_place(*body, *p, known@, ty@),
{
    if p.projection.len() == 0 {
        if opt_is(&local_primitive_int_name(body, p.local.0 as usize), ty) {
            known.whole_at(p.local.0)
        } else {
            None
        }
    } else if p.projection.len() == 1 {
        match &p.projection[0] {
            ProjectionElem::Field(0) => known.first_at(p.local.0),
            _ => None,
        }
    } else {
        None
    }
}

fn capture_operand(body: &Body, op: &Operand, known: &Terms, ty: &str) -> (r: Option<String>)
    ensures
        opt_view(r) == captured_operand(*body, *op, known@, ty@),
{
    match op {
        Operand::Copy(p) => capture_place(body, p, known, ty),
        Operand::Move(p) => capture_place(body, p, known, ty),
        Operand::Constant(c) => {
            if !opt_is(&primitive_int_name_from_ty(&c.ty), ty) {
                return None;
            }
            match c.value {
                Some(v) => format_int_literal_for_ty(v, ty),
                None => None,
            }
        },
    }
}

fn capture_shift_amount(body: &Body, op: &Operand, known: &Terms, ty: &str) -> (r: Option<String>)
    ensures
        opt_view(r) == captured_amount(*body, *op, known@, ty@),
{
    match op {
        Operand::Constant(c) => match c.value {
            Some(v) => format_int_literal_for_ty(v, ty),
            None => None,
        },
        _ => capture_operand(body, op, known, ty),
    }
}

fn smt_operation(op: BinOp, signed: bool) -> (r: Option<&'static str>)
    ensures
        match r {
            Some(name) => operation_name(op, signed) == Some(name@),
            None => operation_name(op, signed) is None,
        },
{
    match op {
        BinOp::Add => Some("bvadd"),
        BinOp::Sub => Some("bvsub"),
        BinOp::Mul => Some("bvmul"),
        BinOp::Div => if signed {
            Some("bvsdiv")
        } else {
            Some("bvudiv")
        },
        BinOp::Rem => if signed {
            Some("bvsrem")
        } else {
            Some("bvurem")
        },
        BinOp::Shl => Some("bvshl"),
        BinOp::Shr => if signed {
            Some("bvashr")
        } else {
            Some("bvlshr")
        },
        _ => None,
    }
}

fn capture_rvalue(body: &Body, rvalue: &Rvalue, known: &Terms, ty: &str) -> (r: Option<String>)
    ensures
        opt_view(r) == captured_rvalue(*body, *rvalue, known@, ty@),
{
    match rvalue {
        Rvalue::Use(op) => capture_operand(body, op, known, ty),
        Rvalue::BinaryOp(op, a, b) => {
            let signed: bool = match int_type_info(ty) {
                Some((signed, _)) => signed,
                None => return None,
            };
            let name = match smt_operation(*op, signed) {
                Some(name) => name,
                None => return None,
            };
            let left = match capture_operand(body, a, known, ty) {
                Some(e) => e,
                None => return None,
            };
            let right = if *op == BinOp::Shl || *op == BinOp::Shr {
                capture_shift_amount(body, b, known, ty)
            } else {
                capture_operand(body, b, known, ty)
            };
            match right {
                Some(e) => Some(cat7("(", name, " ", left.as_str(), " ", e.as_str(), ")")),
                None => None,
            }
        },
        _ => None,
    }
}

/// Follows the statements of a block.
fn run_statements(body: &Body, known: &mut Terms, stmts: &Vec<Statement>, ty: &str)
    ensures
        final(known)@ == after_statements(*body, old(known)@, stmts@, ty@),
{
    let ghost start = known@;
    let mut i: usize = 0;
    assert(stmts@.take(0) =~= Seq::empty());
    while i < stmts.len()
        invariant
            i <= stmts@.len(),
            known@ == after_statements(*body, start, stmts@.take(i as int), ty@),
        decreases stmts@.len() - i,
    {
        proof {
            assert(stmts@.take(i + 1).drop_last() =~= stmts@.take(i as int));
            assert(stmts@.take(i + 1).last() == stmts@[i as int]);
        }
        if let StatementKind::Assign(place, rvalue) = &stmts[i].kind {
            if place.projection.len() > 0 {
                known.forget(place.local.0);
            } else {
                match capture_rvalue(body, rvalue, known, ty) {
                    Some(e) => known.set(place.local.0, e),
                    None => known.forget(place.local.0),
                }
            }
        }
        i += 1;
    }
    assert(stmts@.take(i as int) =~= stmts@);
}

fn straight_target(kind: &TerminatorKind) -> (r: Option<u32>)
    ensures
        r == next_block(*kind),
{
    match kind {
        TerminatorKind::Goto { target } => Some(target.0),
        TerminatorKind::Assert { target, .. } => Some(target.0),
        _ => None,
    }
}

/// The terms on entry for the value that `body` returns at type `ty`.
fn seed_names(body: &Body, ty: &str) -> (r: Terms)
    ensures
        r@ == entry_names(*body, ty@),
{
    let mut r = Terms::new();
    let mut i: usize = 0;
    while i < body.arg_names.len() && i < u32::MAX as usize
        invariant
            i <= body.arg_names@.len(),
            i <= u32::MAX,
            r@.first == Map::<u32, Seq<char>>::empty(),
            r@.whole =~= entry_names(*body, ty@).whole.restrict(Set::new(|l: u32| l <= i)),
        decreases body.arg_names@.len() - i,
    {
        let l: u32 = (i + 1) as u32;
        if let Some(name) = local_arg_name(body, Local(l)) {
            if opt_is(&local_primitive_int_name(body, l as usize), ty) {
                r.seed(l, name);
            }
        }
        i += 1;
    }
    assert(r@ =~~= entry_names(*body, ty@));
    r
}

/// The terms on entry for the value that a call in `body` passes.
fn seed_symbols(body: &Body) -> (r: Terms)
    ensures
        r@ == entry_symbols(*body),
{
    let mut r = Terms::new();
    let mut i: usize = 0;
    while i < body.arg_names.len() && i < u32::MAX as usize
        invariant
            i <= body.arg_names@.len(),
            i <= u32::MAX,
            r@.first == Map::<u32, Seq<char>>::empty(),
            r@.whole =~= entry_symbols(*body).whole.restrict(Set::new(|l: u32| l <= i)),
        decreases body.arg_names@.len() - i,
    {
        let l: u32 = (i + 1) as u32;
        if local_arg_name(body, Local(l)).is_some() {
            r.seed(l, caller_arg_symbol(i));
        }
        i += 1;
    }
    assert(r@ =~~= entry_symbols(*body));
    r
}

/// The term that the return value of `body` equals, where it can be captured.
pub fn capture_body_effect(body: &Body) -> (r: Option<String>)
    ensures
        opt_view(r) == body_effect(*body),
{
    let ty = match primitive_int_name_from_ty(&body.return_ty) {
        Some(ty) => ty,
        None => return None,
    };
    let mut known = seed_names(body, ty.as_str());
    let mut at: usize = 0;
    let mut steps: usize = body.blocks.len();
    while steps > 0
        invariant
            returned_from(*body, at as int, steps as nat, known@, ty@) == body_effect(*body),
        decreases steps,
    {
        if at >= body.blocks.len() {
            return None;
        }
        let block = &body.blocks[at];
        run_statements(body, &mut known, &block.statements, ty.as_str());
        if let TerminatorKind::Return = &block.terminator.kind {
            return known.whole_at(0);
        }
        match straight_target(&block.terminator.kind) {
            Some(next) => {
                at = next as usize;
            },
            None => return None,
        }
        steps -= 1;
    }
    None
}

/// The parameters whose entry symbols stand in `smt`, in the order of their first mention.
pub fn find_references(smt: &str) -> (r: Vec<usize>)
    ensures
        r@.map_values(|x: usize| x as nat) == referenced(smt@),
{
    let v = chars_of(smt);
    let marker = chars_of("__pb_caller_arg");
    proof {
        reveal_strlit("__pb_caller_arg");
    }
    let ghost mut seen: Seq<nat> = seq![];
    let mut found: Vec<usize> = Vec::new();
    let mut i: usize = 0;
    assert(mentions(v@, 0) =~= seen + mentions(v@, 0));
    while v.len() - i >= 15
        invariant
            v@ == smt@,
            marker@ == "__pb_caller_arg"@,
            marker@.len() == 15,
            i <= v@.len(),
            mentions(v@, 0) == seen + mentions(v@, i as int),
            found@.map_values(|x: usize| x as nat) =~= distinct(seen),
        decreases v@.len() - i,
    {
        if matches_at(&v, &marker, i) {
            let from: usize = i + 15;
            let to: usize = scan(&v, from, CharClass::Digit);
            proof {
                lemma_run_end(v@, from as int, CharClass::Digit);
            }
            if to > from {
                if let Some(n) = read_number(&v, from, to) {
                    if n <= usize::MAX as u128 {
                        let idx: usize = n as usize;
                        let fresh: bool = !holds_index(&found, idx);
                        proof {
                            let grown = seen.push(idx as nat);
                            assert(grown.drop_last() =~= seen);
                            assert(mentions(v@, 0) =~= grown + mentions(v@, to as int));
                            let before = found@.map_values(|x: usize| x as nat);
                            assert(before.contains(idx as nat) <==> found@.contains(idx)) by {
                                if found@.contains(idx) {
                                    let j = found@.index_of(idx);
                                    assert(before[j] == idx as nat);
                                }
                                if before.contains(idx as nat) {
                                    let j = before.index_of(idx as nat);
                                    assert(found@[j] == idx);
                                }
                            }
                            seen = grown;
                        }
                        if fresh {
                            found.push(idx);
                        }
                    }
                }
            }
            i = to;
        } else {
            i += 1;
        }
    }
    proof {
        assert(mentions(v@, i as int) =~= seq![]);
        assert(seen + mentions(v@, i as int) =~= seen);
    }
    found
}

fn holds_index(v: &Vec<usize>, n: usize) -> (r: bool)
    ensures
        r == v@.contains(n),
{
    let mut i: usize = 0;
    while i < v.len()
        invariant
            i <= v@.len(),
            forall|k: int| 0 <= k < i ==> v@[k] != n,
        decreases v@.len() - i,
    {
        if v[i] == n {
            return true;
        }
        i += 1;
    }
    false
}

/// The term of the operand `op` of the call that ends the block `call`, where it can be captured at
/// type `ty`, and the parameters that it mentions.
pub fn capture_call_arg_expr(body: &Body, op: &Operand, call: usize, ty: &str) -> (r: Option<
    (String, Vec<usize>),
>)
    ensures
        match r {
            Some((term, refs)) => call_arg_term(*body, *op, call as int, ty@) == Some(term@)
                && refs@.map_values(|x: usize| x as nat) == referenced(term@),
            None => call_arg_term(*body, *op, call as int, ty@) is None,
        },
{
    let counts = block_in_edge_counts(&body.blocks);
    if counts.len() > 0 && counts[0] != 0 {
        return None;
    }
    let mut known = seed_symbols(body);
    let mut at: usize = 0;
    let mut steps: usize = body.blocks.len();
    assert(body.blocks@.len() == 0 ==> in_edges(body.blocks@, 0) == 0);
    while steps > 0
        invariant_except_break
            known_at(*body, at as int, steps as nat, known@, ty@, call as int) == known_at(
                *body,
                0,
                body.blocks@.len(),
                entry_symbols(*body),
                ty@,
                call as int,
            ),
        invariant
            in_edges(body.blocks@, 0) == 0,
            counts@.len() == body.blocks@.len(),
            forall|b: int|
                0 <= b < counts@.len() ==> #[trigger] counts@[b] == crate::locals::capped(
                    in_edges(body.blocks@, b),
                ),
        ensures
            known_at(*body, 0, body.blocks@.len(), entry_symbols(*body), ty@, call as int) == (
            if steps > 0 {
                Some(known@)
            } else {
                None
            }),
        decreases steps,
    {
        if at >= body.blocks.len() {
            return None;
        }
        let block = &body.blocks[at];
        run_statements(body, &mut known, &block.statements, ty);
        if at == call {
            break ;
        }
        match straight_target(&block.terminator.kind) {
            Some(next) => {
                at = next as usize;
            },
            None => return None,
        }
        if at >= counts.len() || counts[at] != 1 {
            assert(at >= body.blocks@.len() ==> known_at(
                *body,
                at as int,
                (steps - 1) as nat,
                known@,
                ty@,
                call as int,
            ) is None);
            return None;
        }
        steps -= 1;
    }
    if steps == 0 {
        return None;
    }
    let l = match bare_local_of(op) {
        Some(l) => l,
        None => return None,
    };
    if !opt_is(&local_primitive_int_name(body, l.0 as usize), ty) {
        return None;
    }
    match known.whole_at(l.0) {
        Some(term) => {
            let refs = find_references(term.as_str());
            Some((term, refs))
        },
        None => None,
    }
}

} // verus!
