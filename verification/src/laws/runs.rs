//! Captured terms against what a body computes when it runs.
//!
//! A run is followed at one integer type. Its state gives the integer that each local holds: the
//! value of the local itself, or of its first field where it is a pair, as a checked operation
//! leaves one. What the operations compute is left open: the laws hold whatever it is, as long as
//! the solver takes each operation for what the body computes with it.
use vstd::prelude::*;
use crate::callsite::{actual, BindingView, CallView};
use crate::capture::{
    after_statement, after_statements, body_effect, call_arg_term, captured_amount,
    captured_operand, captured_rvalue, entry_names, entry_symbol, entry_symbols, next_block, Known,
};
use crate::laws::capture::{
    edge, is_straight, is_walk, known_along, law_captured_arguments_hold_on_every_path,
    law_captured_returns_hold_on_every_path,
};
use crate::laws::terms::{term_text, Term};
use crate::locals::{
    arg_name, bare_local, block_writes, local_int_name, place_of, primitive_int_name,
    statement_target, terminator_target, writes,
};
use crate::mir_api::{
    BinOp, Body, Operand, ProjectionElem, Rvalue, Statement, StatementKind, TerminatorKind,
};
use crate::predicate::{int_info, literal_at, modulus};

verus! {

/// The integers that the locals hold.
pub type State = spec_fn(u32) -> int;

/// What the operations compute on the bit patterns of their operands.
pub type Operations = spec_fn(BinOp, int, int) -> int;

/// The value of a term, where `val` gives the values of its names.
pub open spec fn term_value(
    t: Term,
    val: spec_fn(Seq<char>) -> int,
    ops: Operations,
    bits: u32,
) -> int
    decreases t,
{
    match t {
        Term::Name(name) => val(name),
        Term::Literal(v) => v % modulus(bits),
        Term::Operation(op, a, b) => ops(
            op,
            term_value(*a, val, ops, bits),
            term_value(*b, val, ops, bits),
        ),
    }
}

/// Whether `text` is a term whose value is `v`.
pub open spec fn means(
    text: Seq<char>,
    v: int,
    val: spec_fn(Seq<char>) -> int,
    ops: Operations,
    signed: bool,
    bits: u32,
) -> bool {
    exists|t: Term| #[trigger]
        term_text(t, signed, bits) == text && term_value(t, val, ops, bits) == v
}

/// The integer that an operand gives, if it is a constant, a local or the first field of one.
pub open spec fn operand_value(op: Operand, s: State, bits: u32) -> Option<int> {
    match op {
        Operand::Constant(c) => match c.value {
            Some(v) => Some(v as int % modulus(bits)),
            None => None,
        },
        _ => {
            let p = place_of(op)->0;
            if p.projection@.len() == 0 || (p.projection@.len() == 1 && p.projection@[0]
                == ProjectionElem::Field(0)) {
                Some(s(p.local.0))
            } else {
                None
            }
        },
    }
}

/// Whether a statement can take the state `s` to the state `t`. An assignment changes the local
/// that it is to, and no other; to a local as a whole it assigns what its right side computes.
pub open spec fn statement_runs(
    stmt: Statement,
    s: State,
    t: State,
    ops: Operations,
    bits: u32,
) -> bool {
    match stmt.kind {
        StatementKind::Assign(place, rvalue) => {
            &&& forall|l: u32| l != place.local.0 ==> #[trigger] t(l) == s(l)
            &&& place.projection@.len() == 0 ==> match rvalue {
                Rvalue::Use(op) => operand_value(op, s, bits) matches Some(v) ==> t(place.local.0)
                    == v,
                Rvalue::BinaryOp(op, a, b) => operand_value(a, s, bits) is Some && operand_value(
                    b,
                    s,
                    bits,
                ) is Some ==> t(place.local.0) == ops(
                    op,
                    operand_value(a, s, bits)->0,
                    operand_value(b, s, bits)->0,
                ),
                _ => true,
            }
        },
        _ => forall|l: u32| #[trigger] t(l) == s(l),
    }
}

/// Whether the statements `stmts` can take the state `s` to the state `t`.
pub open spec fn statements_run(
    stmts: Seq<Statement>,
    s: State,
    t: State,
    ops: Operations,
    bits: u32,
) -> bool
    decreases stmts.len(),
{
    if stmts.len() == 0 {
        forall|l: u32| #[trigger] t(l) == s(l)
    } else {
        exists|m: State|
            statements_run(stmts.drop_last(), s, m, ops, bits) && #[trigger] statement_runs(
                stmts.last(),
                m,
                t,
                ops,
                bits,
            )
    }
}

/// Whether a terminator can take the state `s` to the state `t` when control goes on behind it. A
/// call changes the local that it is to, and no other.
pub open spec fn terminator_runs(kind: TerminatorKind, s: State, t: State) -> bool {
    match kind {
        TerminatorKind::Call { destination, .. } => forall|l: u32|
            l != destination.local.0 ==> #[trigger] t(l) == s(l),
        _ => forall|l: u32| #[trigger] t(l) == s(l),
    }
}

/// Whether the blocks of the walk `p`, up to the last statement of the last of them, can take the
/// state `s` to the state `t`.
pub open spec fn walk_runs(
    body: Body,
    p: Seq<int>,
    s: State,
    t: State,
    ops: Operations,
    bits: u32,
) -> bool
    decreases p.len(),
{
    if p.len() == 0 {
        forall|l: u32| #[trigger] t(l) == s(l)
    } else {
        exists|m: State, n: State|
            {
                &&& walk_runs(body, p.drop_last(), s, m, ops, bits)
                &&& #[trigger] leaves(body, p.drop_last(), m, n)
                &&& #[trigger] statements_run(
                    body.blocks@[p.last()].statements@,
                    n,
                    t,
                    ops,
                    bits,
                )
            }
    }
}

/// Whether leaving the last block of `p` can take the state `s` to the state `t`.
pub open spec fn leaves(body: Body, p: Seq<int>, s: State, t: State) -> bool {
    if p.len() == 0 {
        forall|l: u32| #[trigger] t(l) == s(l)
    } else {
        terminator_runs(body.blocks@[p.last()].terminator.kind, s, t)
    }
}

/// Whether every captured term means the integer that its local holds.
pub open spec fn agrees(
    known: Known,
    s: State,
    val: spec_fn(Seq<char>) -> int,
    ops: Operations,
    signed: bool,
    bits: u32,
) -> bool {
    &&& forall|l: u32| #[trigger]
        known.whole.contains_key(l) ==> means(known.whole[l], s(l), val, ops, signed, bits)
    &&& forall|l: u32| #[trigger]
        known.first.contains_key(l) ==> means(known.first[l], s(l), val, ops, signed, bits)
}

proof fn lemma_operand_means(
    body: Body,
    op: Operand,
    known: Known,
    ty: Seq<char>,
    s: State,
    val: spec_fn(Seq<char>) -> int,
    ops: Operations,
)
    requires
        int_info(ty) is Some,
        agrees(known, s, val, ops, (int_info(ty)->0).0, (int_info(ty)->0).1),
    ensures
        ({
            let (signed, bits) = int_info(ty)->0;
            &&& captured_operand(body, op, known, ty) matches Some(e) ==> operand_value(op, s, bits)
                is Some && means(e, operand_value(op, s, bits)->0, val, ops, signed, bits)
            &&& captured_amount(body, op, known, ty) matches Some(e) ==> operand_value(op, s, bits)
                is Some && means(e, operand_value(op, s, bits)->0, val, ops, signed, bits)
        }),
{
    let (signed, bits) = int_info(ty)->0;
    match op {
        Operand::Constant(c) => {
            if let Some(v) = c.value {
                let t = Term::Literal(v as int);
                assert(term_text(t, signed, bits) == literal_at(v as int, ty)->0);
            }
        },
        _ => {},
    }
}

proof fn lemma_statement_means(
    body: Body,
    known: Known,
    stmt: Statement,
    ty: Seq<char>,
    s: State,
    t: State,
    val: spec_fn(Seq<char>) -> int,
    ops: Operations,
)
    requires
        int_info(ty) is Some,
        agrees(known, s, val, ops, (int_info(ty)->0).0, (int_info(ty)->0).1),
        statement_runs(stmt, s, t, ops, (int_info(ty)->0).1),
    ensures
        agrees(
            after_statement(body, known, stmt, ty),
            t,
            val,
            ops,
            (int_info(ty)->0).0,
            (int_info(ty)->0).1,
        ),
{
    let (signed, bits) = int_info(ty)->0;
    let after = after_statement(body, known, stmt, ty);
    match stmt.kind {
        StatementKind::Assign(place, rvalue) => {
            if place.projection@.len() == 0 {
                if let Some(e) = captured_rvalue(body, rvalue, known, ty) {
                    match rvalue {
                        Rvalue::Use(op) => {
                            lemma_operand_means(body, op, known, ty, s, val, ops);
                        },
                        Rvalue::BinaryOp(op, a, b) => {
                            lemma_operand_means(body, a, known, ty, s, val, ops);
                            lemma_operand_means(body, b, known, ty, s, val, ops);
                            let ea = captured_operand(body, a, known, ty)->0;
                            let eb = if op == BinOp::Shl || op == BinOp::Shr {
                                captured_amount(body, b, known, ty)->0
                            } else {
                                captured_operand(body, b, known, ty)->0
                            };
                            let va = operand_value(a, s, bits)->0;
                            let vb = operand_value(b, s, bits)->0;
                            let ta = choose|x: Term| #[trigger]
                                term_text(x, signed, bits) == ea && term_value(x, val, ops, bits)
                                    == va;
                            let tb = choose|x: Term| #[trigger]
                                term_text(x, signed, bits) == eb && term_value(x, val, ops, bits)
                                    == vb;
                            let whole = Term::Operation(op, Box::new(ta), Box::new(tb));
                            assert(term_text(whole, signed, bits) == e);
                            assert(term_value(whole, val, ops, bits) == ops(op, va, vb));
                        },
                        _ => {},
                    }
                    assert(means(e, t(place.local.0), val, ops, signed, bits));
                }
            }
            assert forall|l: u32| #[trigger] after.whole.contains_key(l) implies means(
                after.whole[l],
                t(l),
                val,
                ops,
                signed,
                bits,
            ) by {
                if l != place.local.0 {
                    assert(known.whole.contains_key(l));
                    assert(t(l) == s(l));
                }
            }
            assert forall|l: u32| #[trigger] after.first.contains_key(l) implies means(
                after.first[l],
                t(l),
                val,
                ops,
                signed,
                bits,
            ) by {
                if l != place.local.0 {
                    assert(known.first.contains_key(l));
                    assert(t(l) == s(l));
                }
            }
        },
        _ => {
            lemma_same_state(known, s, t, val, ops, signed, bits);
        },
    }
}

proof fn lemma_same_state(
    known: Known,
    s: State,
    t: State,
    val: spec_fn(Seq<char>) -> int,
    ops: Operations,
    signed: bool,
    bits: u32,
)
    requires
        agrees(known, s, val, ops, signed, bits),
        forall|l: u32| #[trigger] t(l) == s(l),
    ensures
        agrees(known, t, val, ops, signed, bits),
{
    assert forall|l: u32| #[trigger] known.whole.contains_key(l) implies means(
        known.whole[l],
        t(l),
        val,
        ops,
        signed,
        bits,
    ) by {
        assert(t(l) == s(l));
    }
    assert forall|l: u32| #[trigger] known.first.contains_key(l) implies means(
        known.first[l],
        t(l),
        val,
        ops,
        signed,
        bits,
    ) by {
        assert(t(l) == s(l));
    }
}

proof fn lemma_statements_mean(
    body: Body,
    known: Known,
    stmts: Seq<Statement>,
    ty: Seq<char>,
    s: State,
    t: State,
    val: spec_fn(Seq<char>) -> int,
    ops: Operations,
)
    requires
        int_info(ty) is Some,
        agrees(known, s, val, ops, (int_info(ty)->0).0, (int_info(ty)->0).1),
        statements_run(stmts, s, t, ops, (int_info(ty)->0).1),
    ensures
        agrees(
            after_statements(body, known, stmts, ty),
            t,
            val,
            ops,
            (int_info(ty)->0).0,
            (int_info(ty)->0).1,
        ),
    decreases stmts.len(),
{
    let (signed, bits) = int_info(ty)->0;
    if stmts.len() == 0 {
        lemma_same_state(known, s, t, val, ops, signed, bits);
    } else {
        let m = choose|m: State|
            statements_run(stmts.drop_last(), s, m, ops, bits) && #[trigger] statement_runs(
                stmts.last(),
                m,
                t,
                ops,
                bits,
            );
        lemma_statements_mean(body, known, stmts.drop_last(), ty, s, m, val, ops);
        lemma_statement_means(
            body,
            after_statements(body, known, stmts.drop_last(), ty),
            stmts.last(),
            ty,
            m,
            t,
            val,
            ops,
        );
    }
}

proof fn lemma_walk_means(
    body: Body,
    known: Known,
    p: Seq<int>,
    ty: Seq<char>,
    s: State,
    t: State,
    val: spec_fn(Seq<char>) -> int,
    ops: Operations,
)
    requires
        int_info(ty) is Some,
        agrees(known, s, val, ops, (int_info(ty)->0).0, (int_info(ty)->0).1),
        walk_runs(body, p, s, t, ops, (int_info(ty)->0).1),
        is_straight(body.blocks@, p),
    ensures
        agrees(
            known_along(body, p, known, ty),
            t,
            val,
            ops,
            (int_info(ty)->0).0,
            (int_info(ty)->0).1,
        ),
    decreases p.len(),
{
    let (signed, bits) = int_info(ty)->0;
    if p.len() == 0 {
        lemma_same_state(known, s, t, val, ops, signed, bits);
    } else {
        let (m, n) = choose|m: State, n: State|
            {
                &&& walk_runs(body, p.drop_last(), s, m, ops, bits)
                &&& #[trigger] leaves(body, p.drop_last(), m, n)
                &&& #[trigger] statements_run(
                    body.blocks@[p.last()].statements@,
                    n,
                    t,
                    ops,
                    bits,
                )
            };
        let q = p.drop_last();
        assert(is_straight(body.blocks@, q)) by {
            assert forall|i: int| 0 <= i < q.len() - 1 implies next_block(
                body.blocks@[#[trigger] q[i]].terminator.kind,
            ) is Some by {
                assert(q[i] == p[i]);
            }
        }
        lemma_walk_means(body, known, q, ty, s, m, val, ops);
        if q.len() > 0 {
            assert(q.last() == p[q.len() - 1]);
        }
        lemma_same_state(known_along(body, q, known, ty), m, n, val, ops, signed, bits);
        lemma_statements_mean(
            body,
            known_along(body, q, known, ty),
            body.blocks@[p.last()].statements@,
            ty,
            n,
            t,
            val,
            ops,
        );
    }
}

/// The captured return value is what the body returns: in every run, along every way from the entry
/// to a return, the value of the term is the integer in the return slot, where the names of the
/// parameters stand for the arguments.
pub proof fn law_captured_returns_are_returned(
    body: Body,
    p: Seq<int>,
    s: State,
    t: State,
    val: spec_fn(Seq<char>) -> int,
    ops: Operations,
)
    requires
        body_effect(body) is Some,
        primitive_int_name(body.return_ty) is Some,
        int_info(primitive_int_name(body.return_ty)->0) is Some,
        is_walk(body.blocks@, p),
        0 <= p.last() < body.blocks@.len(),
        body.blocks@[p.last()].terminator.kind is Return,
        walk_runs(body, p, s, t, ops, (int_info(primitive_int_name(body.return_ty)->0)->0).1),
        forall|l: u32|
            arg_name(body, l as int) is Some && local_int_name(body, l as int)
                == primitive_int_name(body.return_ty) ==> #[trigger] s(l) == val(
                arg_name(body, l as int)->0,
            ),
    ensures
        ({
            let (signed, bits) = int_info(primitive_int_name(body.return_ty)->0)->0;
            means(body_effect(body)->0, t(0), val, ops, signed, bits)
        }),
{
    let ty = primitive_int_name(body.return_ty)->0;
    let (signed, bits) = int_info(ty)->0;
    let start = entry_names(body, ty);
    assert(agrees(start, s, val, ops, signed, bits)) by {
        assert forall|l: u32| #[trigger] start.whole.contains_key(l) implies means(
            start.whole[l],
            s(l),
            val,
            ops,
            signed,
            bits,
        ) by {
            let x = Term::Name(start.whole[l]);
            assert(term_text(x, signed, bits) == start.whole[l]);
            assert(s(l) == val(arg_name(body, l as int)->0));
        }
    }
    law_captured_returns_hold_on_every_path(body, p);
    lemma_walk_means(body, start, p, ty, s, t, val, ops);
    assert(known_along(body, p, start, ty).whole.contains_key(0));
}

/// A captured argument is what the call passes: in every run, along every way from the entry to the
/// call, the value of the term is the integer in the operand's local, where the entry symbols stand
/// for the arguments of the caller.
pub proof fn law_captured_arguments_are_passed(
    body: Body,
    op: Operand,
    call: int,
    ty: Seq<char>,
    p: Seq<int>,
    s: State,
    t: State,
    val: spec_fn(Seq<char>) -> int,
    ops: Operations,
)
    requires
        call_arg_term(body, op, call, ty) is Some,
        int_info(ty) is Some,
        is_walk(body.blocks@, p),
        p.last() == call,
        walk_runs(body, p, s, t, ops, (int_info(ty)->0).1),
        forall|l: u32|
            arg_name(body, l as int) is Some ==> #[trigger] s(l) == val(
                entry_symbol((l - 1) as nat),
            ),
    ensures
        bare_local(op) is Some,
        ({
            let (signed, bits) = int_info(ty)->0;
            means(
                call_arg_term(body, op, call, ty)->0,
                t((bare_local(op)->0).0),
                val,
                ops,
                signed,
                bits,
            )
        }),
{
    let (signed, bits) = int_info(ty)->0;
    let start = entry_symbols(body);
    assert(agrees(start, s, val, ops, signed, bits)) by {
        assert forall|l: u32| #[trigger] start.whole.contains_key(l) implies means(
            start.whole[l],
            s(l),
            val,
            ops,
            signed,
            bits,
        ) by {
            let x = Term::Name(start.whole[l]);
            assert(term_text(x, signed, bits) == start.whole[l]);
            assert(s(l) == val(entry_symbol((l - 1) as nat)));
        }
    }
    law_captured_arguments_hold_on_every_path(body, op, call, ty, p);
    lemma_walk_means(body, start, p, ty, s, t, val, ops);
    let l = (bare_local(op)->0).0;
    assert(known_along(body, p, start, ty).whole.contains_key(l));
}

proof fn lemma_statements_keep(
    block: crate::mir_api::BasicBlockData,
    stmts: Seq<Statement>,
    s: State,
    t: State,
    ops: Operations,
    bits: u32,
    l: u32,
)
    requires
        statements_run(stmts, s, t, ops, bits),
        !block_writes(block, l),
        stmts.len() <= block.statements@.len(),
        forall|i: int| 0 <= i < stmts.len() ==> #[trigger] stmts[i] == block.statements@[i],
    ensures
        t(l) == s(l),
    decreases stmts.len(),
{
    if stmts.len() > 0 {
        let m = choose|m: State|
            statements_run(stmts.drop_last(), s, m, ops, bits) && #[trigger] statement_runs(
                stmts.last(),
                m,
                t,
                ops,
                bits,
            );
        let short = stmts.drop_last();
        assert forall|i: int| 0 <= i < short.len() implies #[trigger] short[i]
            == block.statements@[i] by {
            assert(stmts[i] == block.statements@[i]);
        }
        lemma_statements_keep(block, stmts.drop_last(), s, m, ops, bits, l);
        let last = block.statements@[stmts.len() - 1];
        assert(stmts[stmts.len() - 1] == last);
        assert(statement_target(last) != Some(l));
        assert(t(l) == m(l));
    }
}

/// A parameter that the body never stores to holds its entry value at every point of every run: a
/// read of it is a read of what was passed.
pub proof fn law_unwritten_locals_keep_their_value(
    body: Body,
    p: Seq<int>,
    s: State,
    t: State,
    ops: Operations,
    bits: u32,
    l: u32,
)
    requires
        walk_runs(body, p, s, t, ops, bits),
        forall|i: int| 0 <= i < p.len() ==> 0 <= #[trigger] p[i] < body.blocks@.len(),
        !writes(body.blocks@, l),
    ensures
        t(l) == s(l),
    decreases p.len(),
{
    if p.len() > 0 {
        let (m, n) = choose|m: State, n: State|
            {
                &&& walk_runs(body, p.drop_last(), s, m, ops, bits)
                &&& #[trigger] leaves(body, p.drop_last(), m, n)
                &&& #[trigger] statements_run(
                    body.blocks@[p.last()].statements@,
                    n,
                    t,
                    ops,
                    bits,
                )
            };
        let q = p.drop_last();
        assert forall|i: int| 0 <= i < q.len() implies 0 <= #[trigger] q[i]
            < body.blocks@.len() by {
            assert(q[i] == p[i]);
        }
        law_unwritten_locals_keep_their_value(body, q, s, m, ops, bits, l);
        if q.len() > 0 {
            let before = body.blocks@[q.last()];
            assert(q.last() == p[q.len() - 1]);
            assert(!block_writes(before, l));
            assert(terminator_target(before.terminator.kind) != Some(l));
        }
        assert(n(l) == m(l));
        let block = body.blocks@[p.last()];
        assert(p.last() == p[p.len() - 1]);
        assert(!block_writes(block, l));
        lemma_statements_keep(block, block.statements@, n, t, ops, bits, l);
    }
}

/// What a call problem takes a parameter of the callee to be is what the call passes for it: in
/// every run, along every way from the entry to the call. These hypotheses of the problem are true
/// at the call, so nothing is proved from a false one.
pub proof fn law_bindings_hold_at_the_call(
    c: CallView,
    op: Operand,
    ty: Seq<char>,
    p: Seq<int>,
    s: State,
    t: State,
    val: spec_fn(Seq<char>) -> int,
    ops: Operations,
)
    requires
        actual(c, op, ty) is Some,
        int_info(ty) is Some,
        is_walk(c.body.blocks@, p),
        p.last() == c.block,
        0 <= c.block < c.body.blocks@.len(),
        walk_runs(c.body, p, s, t, ops, (int_info(ty)->0).1),
        forall|l: u32|
            1 <= l <= c.body.arg_names@.len() ==> #[trigger] s(l) == val(
                entry_symbol((l - 1) as nat),
            ),
    ensures
        ({
            let (signed, bits) = int_info(ty)->0;
            &&& operand_value(op, t, bits) is Some
            &&& match actual(c, op, ty)->0 {
                BindingView::Constant(v) => operand_value(op, t, bits)->0 == v % modulus(bits),
                BindingView::CallerArg(i) => operand_value(op, t, bits)->0 == val(
                    entry_symbol(i),
                ),
                BindingView::Expr { smt, .. } => means(
                    smt,
                    operand_value(op, t, bits)->0,
                    val,
                    ops,
                    signed,
                    bits,
                ),
            }
        }),
{
    let (signed, bits) = int_info(ty)->0;
    let blocks = c.body.blocks@;
    match actual(c, op, ty)->0 {
        BindingView::Constant(_) => {},
        BindingView::CallerArg(i) => {
            let l = (bare_local(op)->0).0;
            assert forall|k: int| 0 <= k < p.len() implies 0 <= #[trigger] p[k] < blocks.len() by {
                if k < p.len() - 1 {
                    assert(edge(blocks, p[k], p[k + 1]));
                }
            }
            law_unwritten_locals_keep_their_value(c.body, p, s, t, ops, bits, l);
            assert(s(l) == val(entry_symbol((l - 1) as nat)));
        },
        BindingView::Expr { smt, .. } => {
            law_captured_arguments_are_passed(c.body, op, c.block, ty, p, s, t, val, ops);
        },
    }
}

} // verus!
