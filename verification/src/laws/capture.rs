//! What holds of captured values: they are right on every path, and over the parameters alone.
use vstd::prelude::*;
use vstd::set_lib::{lemma_int_range, lemma_len_subset, set_int_range};
use crate::capture::{
    after_statements, body_effect, call_arg_term, captured_amount, captured_operand,
    captured_rvalue, distinct, entry, entry_names, entry_symbol, entry_symbols, known_at, mentions,
    next_block, operation_name, referenced, returned_from, Known,
};
use crate::laws::reports::{law_decimal_read_back, lemma_decimal_digits};
use crate::laws::solver::is_symbol;
use crate::locals::{bare_local, edges_to, in_edges, primitive_int_name, successors};
use crate::mir_api::{
    BasicBlockData, Body, Operand, Rvalue, Statement, StatementKind, TerminatorKind,
};
use crate::predicate::{int_info, literal_at, literal_text, modulus};
use crate::text::{
    decimal, hex, in_class, is_digit, lemma_run_end, number, occurs_at, run_end, CharClass,
};

verus! {

// ---------------------------------------------------------------------------
// Walks through a body.
// ---------------------------------------------------------------------------

/// Whether a terminator can pass control to the block `b`: a jump, a drop, an assertion that holds,
/// a switch to one of its targets, a call that comes back, a resumed yield, and the real target of
/// an edge that is there for the borrow checker. From the others control does not come back to the
/// body.
pub open spec fn goes_to(kind: TerminatorKind, b: int) -> bool {
    match kind {
        TerminatorKind::Goto { target } => b == target.0,
        TerminatorKind::SwitchInt { targets, .. } => exists|k: int|
            0 <= k < targets@.len() && b == (#[trigger] targets@[k]).0,
        TerminatorKind::Drop { target, .. } => b == target.0,
        TerminatorKind::Call { target, .. } => target matches Some(t) && b == t.0,
        TerminatorKind::Assert { target, .. } => b == target.0,
        TerminatorKind::Yield { resume, .. } => b == resume.0,
        TerminatorKind::FalseEdge { real_target } => b == real_target.0,
        TerminatorKind::FalseUnwind { real_target } => b == real_target.0,
        TerminatorKind::UnwindResume => false,
        TerminatorKind::UnwindTerminate => false,
        TerminatorKind::Return => false,
        TerminatorKind::Unreachable => false,
        TerminatorKind::TailCall { .. } => false,
        TerminatorKind::CoroutineDrop => false,
        TerminatorKind::InlineAsm { .. } => false,
    }
}

/// Whether control can pass from the block `a` to the block `b`.
pub open spec fn edge(blocks: Seq<BasicBlockData>, a: int, b: int) -> bool {
    0 <= a < blocks.len() && goes_to(blocks[a].terminator.kind, b)
}

proof fn lemma_edges_to(targets: Seq<u32>, b: int)
    ensures
        edges_to(targets, b) > 0 <==> exists|k: int|
            0 <= k < targets.len() && #[trigger] targets[k] == b,
    decreases targets.len(),
{
    if targets.len() > 0 {
        let short = targets.drop_last();
        lemma_edges_to(short, b);
        if targets.last() == b {
            assert(targets[targets.len() - 1] == b);
        } else if exists|k: int| 0 <= k < targets.len() && #[trigger] targets[k] == b {
            let k = choose|k: int| 0 <= k < targets.len() && #[trigger] targets[k] == b;
            assert(short[k] == b);
        } else {
            assert forall|k: int| 0 <= k < short.len() implies #[trigger] short[k] != b by {
                assert(short[k] == targets[k]);
            }
        }
    }
}

/// The edges of a terminator are counted: it has one to a block just if control can pass there.
pub proof fn law_edges_are_where_control_passes(kind: TerminatorKind, b: int)
    ensures
        edges_to(successors(kind), b) > 0 <==> goes_to(kind, b),
{
    let v = successors(kind);
    lemma_edges_to(v, b);
    if goes_to(kind, b) {
        if let TerminatorKind::SwitchInt { targets, .. } = kind {
            let k = choose|k: int| 0 <= k < targets@.len() && b == (#[trigger] targets@[k]).0;
            assert(v[k] == b);
        } else {
            assert(v[0] == b);
        }
    } else if v.len() > 0 {
        assert forall|k: int| 0 <= k < v.len() implies #[trigger] v[k] != b by {
            if let TerminatorKind::SwitchInt { targets, .. } = kind {
                assert(v[k] == targets@[k].0);
            }
        }
    }
}

/// Whether `p` is a way that control can take from the entry block on.
pub open spec fn is_walk(blocks: Seq<BasicBlockData>, p: Seq<int>) -> bool {
    p.len() > 0 && p[0] == 0 && forall|i: int|
        0 <= i < p.len() - 1 ==> #[trigger] edge(blocks, p[i], p[i + 1])
}

/// Whether each block of `p` but the last goes on straight.
pub open spec fn is_straight(blocks: Seq<BasicBlockData>, p: Seq<int>) -> bool {
    forall|i: int|
        0 <= i < p.len() - 1 ==> next_block(blocks[#[trigger] p[i]].terminator.kind) is Some
}

/// The terms after the statements of the blocks of `p`.
pub open spec fn known_along(body: Body, p: Seq<int>, known: Known, ty: Seq<char>) -> Known
    decreases p.len(),
{
    if p.len() == 0 {
        known
    } else {
        after_statements(
            body,
            known_along(body, p.drop_last(), known, ty),
            body.blocks@[p.last()].statements@,
            ty,
        )
    }
}

/// The edges of one block are among those of the body.
proof fn lemma_in_edges_one(blocks: Seq<BasicBlockData>, a: int, b: int)
    requires
        0 <= a < blocks.len(),
    ensures
        in_edges(blocks, b) >= edges_to(successors(blocks[a].terminator.kind), b),
    decreases blocks.len(),
{
    if a < blocks.len() - 1 {
        lemma_in_edges_one(blocks.drop_last(), a, b);
    }
}

/// The edges of two blocks are among those of the body.
proof fn lemma_in_edges_two(blocks: Seq<BasicBlockData>, a: int, c: int, b: int)
    requires
        0 <= a < c < blocks.len(),
    ensures
        in_edges(blocks, b) >= edges_to(successors(blocks[a].terminator.kind), b) + edges_to(
            successors(blocks[c].terminator.kind),
            b,
        ),
    decreases blocks.len(),
{
    if c < blocks.len() - 1 {
        lemma_in_edges_two(blocks.drop_last(), a, c, b);
    } else {
        lemma_in_edges_one(blocks.drop_last(), a, b);
    }
}

/// A block with one edge in has one predecessor.
proof fn lemma_sole_predecessor(blocks: Seq<BasicBlockData>, a: int, c: int, b: int)
    requires
        in_edges(blocks, b) == 1,
        edge(blocks, a, b),
        edge(blocks, c, b),
    ensures
        a == c,
{
    law_edges_are_where_control_passes(blocks[a].terminator.kind, b);
    law_edges_are_where_control_passes(blocks[c].terminator.kind, b);
    if a < c {
        lemma_in_edges_two(blocks, a, c, b);
    } else if c < a {
        lemma_in_edges_two(blocks, c, a, b);
    }
}

/// Where a straight-line terminator goes on is where control passes to, and nowhere else.
proof fn lemma_next_is_edge(blocks: Seq<BasicBlockData>, a: int)
    requires
        0 <= a < blocks.len(),
        next_block(blocks[a].terminator.kind) is Some,
    ensures
        forall|b: int|
            #[trigger] edge(blocks, a, b) <==> b == next_block(blocks[a].terminator.kind)->0,
{
    let kind = blocks[a].terminator.kind;
    let t = next_block(kind)->0;
    assert(successors(kind) =~= seq![t]);
    assert forall|b: int| #[trigger] edge(blocks, a, b) <==> b == t by {
        assert(seq![t].drop_last() =~= Seq::empty());
        assert(edges_to(seq![t].drop_last(), b) == 0);
    }
}

/// A walk without its last block is a walk.
proof fn lemma_walk_prefix(blocks: Seq<BasicBlockData>, p: Seq<int>)
    requires
        is_walk(blocks, p),
        p.len() > 1,
    ensures
        is_walk(blocks, p.drop_last()),
        edge(blocks, p[p.len() - 2], p.last()),
{
    let q = p.drop_last();
    assert forall|i: int| 0 <= i < q.len() - 1 implies #[trigger] edge(blocks, q[i], q[i + 1]) by {
        assert(edge(blocks, p[i], p[i + 1]));
    }
    assert(edge(blocks, p[p.len() - 2], p[p.len() - 2 + 1]));
}

/// From a block that one walk alone leads to, a capture ends in a block that one walk alone leads
/// to, with the terms along that walk.
proof fn lemma_one_way(
    body: Body,
    at: int,
    steps: nat,
    known: Known,
    start: Known,
    ty: Seq<char>,
    call: int,
    prefix: Seq<int>,
    p: Seq<int>,
)
    requires
        in_edges(body.blocks@, 0) == 0,
        forall|w: Seq<int>|
            #[trigger] is_walk(body.blocks@, w) && w.last() == at ==> w == prefix,
        prefix.len() > 0,
        prefix.last() == at,
        is_straight(body.blocks@, prefix),
        known == known_along(body, prefix.drop_last(), start, ty),
        known_at(body, at, steps, known, ty, call) is Some,
        is_walk(body.blocks@, p),
        p.last() == call,
    ensures
        known_at(body, at, steps, known, ty, call) == Some(known_along(body, p, start, ty)),
        is_straight(body.blocks@, p),
        forall|w: Seq<int>|
            #[trigger] is_walk(body.blocks@, w) && w.last() == call ==> w == p,
    decreases steps,
{
    let blocks = body.blocks@;
    let after = after_statements(body, known, blocks[at].statements@, ty);
    if at == call {
        assert(p == prefix);
    } else {
        let next = next_block(blocks[at].terminator.kind)->0 as int;
        let longer = prefix.push(next);
        assert(longer.drop_last() =~= prefix);
        lemma_next_is_edge(blocks, at);
        assert(edge(blocks, at, next));
        assert forall|w: Seq<int>| #[trigger] is_walk(blocks, w) && w.last() == next implies w
            == longer by {
            if w.len() > 1 {
                lemma_walk_prefix(blocks, w);
                lemma_sole_predecessor(blocks, at, w[w.len() - 2], next);
                assert(w.drop_last().last() == at);
                assert(w.drop_last() == prefix);
                assert(w =~= longer);
            }
        }
        assert(is_straight(blocks, longer)) by {
            assert forall|i: int| 0 <= i < longer.len() - 1 implies next_block(
                blocks[#[trigger] longer[i]].terminator.kind,
            ) is Some by {
                assert(longer[i] == prefix[i]);
            }
        }
        lemma_one_way(body, next, (steps - 1) as nat, after, start, ty, call, longer, p);
    }
}

/// A captured argument is right on every path: whichever way control takes from the entry to the
/// call, the term is what the statements on that way make of the operand. There is one such way at
/// most, so no branch, loop or join can bring another value to the call.
pub proof fn law_captured_arguments_hold_on_every_path(
    body: Body,
    op: Operand,
    call: int,
    ty: Seq<char>,
    p: Seq<int>,
)
    requires
        call_arg_term(body, op, call, ty) is Some,
        is_walk(body.blocks@, p),
        p.last() == call,
    ensures
        bare_local(op) is Some,
        call_arg_term(body, op, call, ty) == entry(
            known_along(body, p, entry_symbols(body), ty).whole,
            (bare_local(op)->0).0,
        ),
        is_straight(body.blocks@, p),
        forall|q: Seq<int>|
            #[trigger] is_walk(body.blocks@, q) && q.last() == call ==> q == p,
{
    let blocks = body.blocks@;
    let start = entry_symbols(body);
    let prefix = seq![0int];
    assert(prefix.drop_last() =~= Seq::empty());
    assert forall|w: Seq<int>| #[trigger] is_walk(blocks, w) && w.last() == 0 implies w
        == prefix by {
        if w.len() > 1 {
            lemma_walk_prefix(blocks, w);
            lemma_in_edges_one(blocks, w[w.len() - 2], 0);
            law_edges_are_where_control_passes(blocks[w[w.len() - 2]].terminator.kind, 0);
        } else {
            assert(w =~= prefix);
        }
    }
    lemma_one_way(body, 0, blocks.len(), start, start, ty, call, prefix, p);
}

/// The walks of a body that returns from a straight line all go along that line.
proof fn lemma_straight_line(
    body: Body,
    at: int,
    steps: nat,
    known: Known,
    start: Known,
    ty: Seq<char>,
    p: Seq<int>,
    i: int,
)
    requires
        is_walk(body.blocks@, p),
        0 <= i < p.len(),
        p[i] == at,
        0 <= p.last() < body.blocks@.len(),
        body.blocks@[p.last()].terminator.kind is Return,
        known == known_along(body, p.take(i), start, ty),
        returned_from(body, at, steps, known, ty) is Some,
    ensures
        returned_from(body, at, steps, known, ty) == entry(
            known_along(body, p, start, ty).whole,
            0,
        ),
        forall|k: int|
            i <= k < p.len() - 1 ==> next_block(body.blocks@[#[trigger] p[k]].terminator.kind)
                is Some,
    decreases steps,
{
    let blocks = body.blocks@;
    let after = after_statements(body, known, blocks[at].statements@, ty);
    assert(p.take(i + 1).drop_last() =~= p.take(i));
    assert(p.take(i + 1).last() == at);
    if blocks[at].terminator.kind is Return {
        if i < p.len() - 1 {
            assert(edge(blocks, p[i], p[i + 1]));
            assert(successors(blocks[at].terminator.kind) =~= seq![]);
        }
        assert(p.take(i + 1) =~= p);
    } else {
        let next = next_block(blocks[at].terminator.kind)->0 as int;
        assert(i < p.len() - 1);
        lemma_next_is_edge(blocks, at);
        assert(edge(blocks, p[i], p[i + 1]));
        assert(p[i + 1] == next);
        lemma_straight_line(body, next, (steps - 1) as nat, after, start, ty, p, i + 1);
    }
}

/// A captured return value is right on every path: whichever way control takes from the entry to a
/// return, the term is what the statements on that way make of the return slot.
pub proof fn law_captured_returns_hold_on_every_path(body: Body, p: Seq<int>)
    requires
        body_effect(body) is Some,
        is_walk(body.blocks@, p),
        0 <= p.last() < body.blocks@.len(),
        body.blocks@[p.last()].terminator.kind is Return,
    ensures
        ({
            let ty = primitive_int_name(body.return_ty)->0;
            body_effect(body) == entry(
                known_along(body, p, entry_names(body, ty), ty).whole,
                0,
            )
        }),
        is_straight(body.blocks@, p),
{
    let ty = primitive_int_name(body.return_ty)->0;
    let start = entry_names(body, ty);
    assert(p.take(0) =~= Seq::empty());
    lemma_straight_line(body, 0, body.blocks@.len(), start, start, ty, p, 0);
}

/// An entry symbol can be written as a symbol.
pub proof fn lemma_decimal_is_symbol(i: nat)
    ensures
        is_symbol(entry_symbol(i)),
{
    let s = entry_symbol(i);
    let d = decimal(i);
    lemma_decimal_digits(i);
    reveal_strlit("__pb_caller_arg");
    assert forall|k: int| 0 <= k < s.len() implies #[trigger] s[k] != '(' && s[k] != ')' && s[k]
        != ' ' && s[k] != '#' by {
        if k >= 15 {
            assert(s[k] == d[k - 15]);
        }
    }
}

// ---------------------------------------------------------------------------
// The bound on the length of a chain.
// ---------------------------------------------------------------------------

/// The blocks of the chain from `at`, `n` of them at most.
pub open spec fn chain(blocks: Seq<BasicBlockData>, at: int, n: nat) -> Seq<int>
    decreases n,
{
    if n == 0 || !(0 <= at < blocks.len()) {
        seq![]
    } else {
        match next_block(blocks[at].terminator.kind) {
            Some(next) => seq![at] + chain(blocks, next as int, (n - 1) as nat),
            None => seq![at],
        }
    }
}

/// The steps of a chain follow each other.
proof fn lemma_chain_steps(blocks: Seq<BasicBlockData>, at: int, n: nat)
    ensures
        forall|i: int|
            0 <= i < chain(blocks, at, n).len() ==> 0 <= #[trigger] chain(blocks, at, n)[i]
                < blocks.len(),
        forall|i: int|
            0 <= i < chain(blocks, at, n).len() - 1 ==> next_block(
                blocks[#[trigger] chain(blocks, at, n)[i]].terminator.kind,
            ) == Some(chain(blocks, at, n)[i + 1] as u32) && chain(blocks, at, n)[i + 1]
                <= u32::MAX,
        chain(blocks, at, n).len() > 0 ==> chain(blocks, at, n)[0] == at,
    decreases n,
{
    if n > 0 && 0 <= at < blocks.len() {
        if let Some(next) = next_block(blocks[at].terminator.kind) {
            lemma_chain_steps(blocks, next as int, (n - 1) as nat);
            let rest = chain(blocks, next as int, (n - 1) as nat);
            let all = chain(blocks, at, n);
            assert(all =~= seq![at] + rest);
            assert forall|i: int| 0 <= i < all.len() implies 0 <= #[trigger] all[i]
                < blocks.len() by {
                if i > 0 {
                    assert(all[i] == rest[i - 1]);
                }
            }
            assert forall|i: int| 0 <= i < all.len() - 1 implies next_block(
                blocks[#[trigger] all[i]].terminator.kind,
            ) == Some(all[i + 1] as u32) && all[i + 1] <= u32::MAX by {
                if i > 0 {
                    assert(all[i] == rest[i - 1]);
                    assert(all[i + 1] == rest[i]);
                } else {
                    assert(all[1] == rest[0]);
                }
            }
        }
    }
}

/// Two places of a chain with the same block go on alike.
proof fn lemma_chain_repeats(c: Seq<int>, blocks: Seq<BasicBlockData>, i: int, j: int, d: int)
    requires
        forall|k: int|
            0 <= k < c.len() - 1 ==> next_block(blocks[#[trigger] c[k]].terminator.kind) == Some(
                c[k + 1] as u32,
            ) && 0 <= c[k + 1] <= u32::MAX,
        0 <= i <= j,
        0 <= d,
        j + d < c.len(),
        c[i] == c[j],
    ensures
        c[i + d] == c[j + d],
    decreases d,
{
    if d > 0 {
        lemma_chain_repeats(c, blocks, i, j, d - 1);
        assert(next_block(blocks[c[i + d - 1]].terminator.kind) == Some(c[i + d] as u32));
        assert(next_block(blocks[c[j + d - 1]].terminator.kind) == Some(c[j + d] as u32));
    }
}

/// A chain whose last block is unlike all before it visits no block twice, so it is no longer than
/// the body has blocks.
proof fn lemma_chain_is_short(
    c: Seq<int>,
    blocks: Seq<BasicBlockData>,
    stops: spec_fn(int) -> bool,
)
    requires
        c.len() > 0,
        forall|k: int| 0 <= k < c.len() ==> 0 <= #[trigger] c[k] < blocks.len(),
        forall|k: int|
            0 <= k < c.len() - 1 ==> next_block(blocks[#[trigger] c[k]].terminator.kind) == Some(
                c[k + 1] as u32,
            ) && 0 <= c[k + 1] <= u32::MAX,
        stops(c.last()),
        forall|k: int| 0 <= k < c.len() - 1 ==> !stops(#[trigger] c[k]),
    ensures
        c.len() <= blocks.len(),
{
    assert(c.no_duplicates()) by {
        assert forall|i: int, j: int| 0 <= i < c.len() && 0 <= j < c.len() && i != j implies c[i]
            != c[j] by {
            if c[i] == c[j] {
                let lo = if i < j {
                    i
                } else {
                    j
                };
                let hi = if i < j {
                    j
                } else {
                    i
                };
                let d = c.len() - 1 - hi;
                lemma_chain_repeats(c, blocks, lo, hi, d);
                assert(!stops(c[lo + d]));
            }
        }
    }
    c.unique_seq_to_set();
    let range = set_int_range(0, blocks.len() as int);
    lemma_int_range(0, blocks.len() as int);
    assert(c.to_set().subset_of(range)) by {
        assert forall|x: int| c.to_set().contains(x) implies range.contains(x) by {
            let k = choose|k: int| 0 <= k < c.len() && c[k] == x;
            assert(0 <= c[k] < blocks.len());
        }
    }
    lemma_len_subset(c.to_set(), range);
}

/// How many blocks a chain that returns has.
spec fn blocks_to_return(body: Body, at: int, steps: nat) -> nat
    decreases steps,
{
    if steps == 0 || !(0 <= at < body.blocks@.len()) {
        0
    } else if body.blocks@[at].terminator.kind is Return {
        1
    } else {
        match next_block(body.blocks@[at].terminator.kind) {
            Some(next) => 1 + blocks_to_return(body, next as int, (steps - 1) as nat),
            None => 0,
        }
    }
}

/// A chain that returns is found with any number of steps that is as large as its length.
proof fn lemma_enough_steps(
    body: Body,
    at: int,
    steps: nat,
    other: nat,
    known: Known,
    ty: Seq<char>,
)
    requires
        returned_from(body, at, steps, known, ty) is Some,
        other >= blocks_to_return(body, at, steps),
    ensures
        returned_from(body, at, other, known, ty) == returned_from(body, at, steps, known, ty),
        blocks_to_return(body, at, steps) > 0,
        ({
            let c = chain(body.blocks@, at, blocks_to_return(body, at, steps));
            &&& c.len() == blocks_to_return(body, at, steps)
            &&& body.blocks@[c.last()].terminator.kind is Return
            &&& forall|k: int|
                0 <= k < c.len() - 1 ==> !(body.blocks@[#[trigger] c[k]].terminator.kind is Return)
        }),
    decreases steps,
{
    let block = body.blocks@[at];
    let after = after_statements(body, known, block.statements@, ty);
    if block.terminator.kind is Return {
        assert(chain(body.blocks@, at, 1) =~= seq![at]);
    } else {
        let next = next_block(block.terminator.kind)->0 as int;
        lemma_enough_steps(body, next, (steps - 1) as nat, (other - 1) as nat, after, ty);
        let n = blocks_to_return(body, next, (steps - 1) as nat);
        let rest = chain(body.blocks@, next, n);
        let all = chain(body.blocks@, at, n + 1);
        assert(all =~= seq![at] + rest);
        assert forall|k: int| 0 <= k < all.len() - 1 implies !(
        body.blocks@[#[trigger] all[k]].terminator.kind is Return) by {
            if k > 0 {
                assert(all[k] == rest[k - 1]);
            }
        }
        assert(all.last() == rest.last());
    }
}

/// The bound on the number of blocks cuts no chain short: a value that is returned by a straight
/// line of any length is captured.
pub proof fn law_no_straight_line_is_cut_short(
    body: Body,
    steps: nat,
    known: Known,
    ty: Seq<char>,
)
    requires
        returned_from(body, 0, steps, known, ty) is Some,
    ensures
        returned_from(body, 0, body.blocks@.len(), known, ty) == returned_from(
            body,
            0,
            steps,
            known,
            ty,
        ),
{
    let n = blocks_to_return(body, 0, steps);
    lemma_enough_steps(body, 0, steps, n, known, ty);
    let c = chain(body.blocks@, 0, n);
    lemma_chain_steps(body.blocks@, 0, n);
    lemma_chain_is_short(
        c,
        body.blocks@,
        |b: int| body.blocks@[b].terminator.kind is Return,
    );
    lemma_enough_steps(body, 0, steps, body.blocks@.len(), known, ty);
}

/// How many blocks a chain that reaches `call` has.
spec fn blocks_to_call(body: Body, at: int, steps: nat, call: int) -> nat
    decreases steps,
{
    if steps == 0 || !(0 <= at < body.blocks@.len()) {
        0
    } else if at == call {
        1
    } else {
        match next_block(body.blocks@[at].terminator.kind) {
            Some(next) => 1 + blocks_to_call(body, next as int, (steps - 1) as nat, call),
            None => 0,
        }
    }
}

/// A chain that reaches a call is found with any number of steps that is as large as its length.
proof fn lemma_enough_steps_to_call(
    body: Body,
    at: int,
    steps: nat,
    other: nat,
    known: Known,
    ty: Seq<char>,
    call: int,
)
    requires
        known_at(body, at, steps, known, ty, call) is Some,
        other >= blocks_to_call(body, at, steps, call),
    ensures
        known_at(body, at, other, known, ty, call) == known_at(body, at, steps, known, ty, call),
        blocks_to_call(body, at, steps, call) > 0,
        ({
            let c = chain(body.blocks@, at, blocks_to_call(body, at, steps, call));
            &&& c.len() == blocks_to_call(body, at, steps, call)
            &&& c.last() == call
            &&& forall|k: int| 0 <= k < c.len() - 1 ==> #[trigger] c[k] != call
        }),
    decreases steps,
{
    let block = body.blocks@[at];
    let after = after_statements(body, known, block.statements@, ty);
    if at == call {
        let c = chain(body.blocks@, at, 1);
        if let Some(next) = next_block(block.terminator.kind) {
            assert(chain(body.blocks@, next as int, 0) =~= seq![]);
        }
        assert(c =~= seq![at]);
    } else {
        let next = next_block(block.terminator.kind)->0 as int;
        lemma_enough_steps_to_call(
            body,
            next,
            (steps - 1) as nat,
            (other - 1) as nat,
            after,
            ty,
            call,
        );
        let n = blocks_to_call(body, next, (steps - 1) as nat, call);
        let rest = chain(body.blocks@, next, n);
        let all = chain(body.blocks@, at, n + 1);
        assert(all =~= seq![at] + rest);
        assert forall|k: int| 0 <= k < all.len() - 1 implies #[trigger] all[k] != call by {
            if k > 0 {
                assert(all[k] == rest[k - 1]);
            }
        }
        assert(all.last() == rest.last());
    }
}

/// The bound on the number of blocks cuts no chain short: a call that is reached by a straight line
/// of any length is captured.
pub proof fn law_no_line_to_a_call_is_cut_short(
    body: Body,
    steps: nat,
    known: Known,
    ty: Seq<char>,
    call: int,
)
    requires
        known_at(body, 0, steps, known, ty, call) is Some,
    ensures
        known_at(body, 0, body.blocks@.len(), known, ty, call) == known_at(
            body,
            0,
            steps,
            known,
            ty,
            call,
        ),
{
    let n = blocks_to_call(body, 0, steps, call);
    lemma_enough_steps_to_call(body, 0, steps, n, known, ty, call);
    let c = chain(body.blocks@, 0, n);
    lemma_chain_steps(body.blocks@, 0, n);
    lemma_chain_is_short(c, body.blocks@, |b: int| b == call);
    lemma_enough_steps_to_call(body, 0, steps, body.blocks@.len(), known, ty, call);
}

// ---------------------------------------------------------------------------
// Entry symbols in captured terms.
// ---------------------------------------------------------------------------

/// Whether `c` can stand neither in the marker of an entry symbol nor in its number.
pub open spec fn separates(c: char) -> bool {
    c == ' ' || c == '(' || c == ')'
}

/// The marker, letter by letter.
pub proof fn lemma_marker()
    ensures
        "__pb_caller_arg"@ == seq![
            '_',
            '_',
            'p',
            'b',
            '_',
            'c',
            'a',
            'l',
            'l',
            'e',
            'r',
            '_',
            'a',
            'r',
            'g',
        ],
{
    reveal_strlit("__pb_caller_arg");
    assert("__pb_caller_arg"@ =~= seq![
        '_',
        '_',
        'p',
        'b',
        '_',
        'c',
        'a',
        'l',
        'l',
        'e',
        'r',
        '_',
        'a',
        'r',
        'g',
    ]);
}

/// A text without the marker's first letter mentions nothing.
pub proof fn lemma_no_mentions(s: Seq<char>, i: int)
    requires
        forall|k: int| 0 <= k < s.len() ==> #[trigger] s[k] != '_',
    ensures
        mentions(s, i) == Seq::<nat>::empty(),
    decreases s.len() - i,
{
    lemma_marker();
    if 0 <= i && i + 15 <= s.len() {
        if occurs_at(s, "__pb_caller_arg"@, i) {
            assert(s.subrange(i, i + 15)[0] == '_');
            assert(s[i] == '_');
        }
        lemma_no_mentions(s, i + 1);
    }
}

/// Looking from a position on is looking at what stands there.
proof fn lemma_mentions_skip(s: Seq<char>, j: int, i: int)
    requires
        0 <= j <= i,
        j <= s.len(),
    ensures
        mentions(s, i) == mentions(s.skip(j), i - j),
    decreases s.len() - i,
{
    lemma_marker();
    let t = s.skip(j);
    if i + 15 <= s.len() {
        let m = "__pb_caller_arg"@;
        assert(s.subrange(i, i + 15) =~= t.subrange(i - j, i - j + 15));
        if occurs_at(s, m, i) {
            lemma_run_shift(s, j, i + 15);
            lemma_run_end(s, i + 15, CharClass::Digit);
            let to = run_end(s, i + 15, CharClass::Digit);
            assert(s.subrange(i + 15, to) =~= t.subrange(i + 15 - j, to - j));
            lemma_mentions_skip(s, j, to);
        } else {
            lemma_mentions_skip(s, j, i + 1);
        }
    }
}

proof fn lemma_run_shift(s: Seq<char>, j: int, i: int)
    requires
        0 <= j <= i <= s.len(),
    ensures
        run_end(s.skip(j), i - j, CharClass::Digit) == run_end(s, i, CharClass::Digit) - j,
    decreases s.len() - i,
{
    if i < s.len() {
        assert(s.skip(j)[i - j] == s[i]);
        if in_class(s[i], CharClass::Digit) {
            lemma_run_shift(s, j, i + 1);
        }
    }
}

proof fn lemma_run_cut(s: Seq<char>, i: int, j: int)
    requires
        0 <= i <= j < s.len(),
        !is_digit(s[j]),
    ensures
        run_end(s.take(j), i, CharClass::Digit) == run_end(s, i, CharClass::Digit),
        run_end(s, i, CharClass::Digit) <= j,
    decreases j - i,
{
    if i < j {
        assert(s.take(j)[i] == s[i]);
        if in_class(s[i], CharClass::Digit) {
            lemma_run_cut(s, i + 1, j);
        }
    }
}

/// What a text mentions falls apart at a separator.
proof fn lemma_mentions_split(s: Seq<char>, i: int, j: int)
    requires
        0 <= i <= j < s.len(),
        separates(s[j]),
    ensures
        mentions(s, i) == mentions(s.take(j), i) + mentions(s, j + 1),
    decreases j - i,
{
    lemma_marker();
    let m = "__pb_caller_arg"@;
    let t = s.take(j);
    if i + 15 > s.len() {
        assert(mentions(s, i) =~= mentions(t, i) + mentions(s, j + 1));
    } else if occurs_at(s, m, i) {
        if i + 15 > j {
            assert(s.subrange(i, i + 15)[j - i] == s[j]);
            assert(s[j] == m[j - i]);
        }
        assert(t.subrange(i, i + 15) =~= s.subrange(i, i + 15));
        lemma_run_cut(s, i + 15, j);
        lemma_run_end(s, i + 15, CharClass::Digit);
        let to = run_end(s, i + 15, CharClass::Digit);
        assert(t.subrange(i + 15, to) =~= s.subrange(i + 15, to));
        lemma_mentions_split(s, to, j);
        assert(mentions(s, i) =~= mentions(t, i) + mentions(s, j + 1));
    } else {
        if i + 15 <= j {
            assert(t.subrange(i, i + 15) =~= s.subrange(i, i + 15));
        }
        if i < j {
            lemma_mentions_split(s, i + 1, j);
            if i + 15 > j {
                assert(mentions(t, i) =~= seq![]);
                assert(mentions(t, i + 1) =~= seq![]);
            }
        } else {
            assert(mentions(t, i) =~= seq![]);
        }
        assert(mentions(s, i) =~= mentions(t, i) + mentions(s, j + 1));
    }
}

/// An entry symbol mentions its own parameter, and no other.
pub proof fn law_entry_symbols_are_read_back(idx: usize)
    ensures
        referenced(entry_symbol(idx as nat)) == seq![idx as nat],
{
    lemma_symbol_mentions(idx);
    let one = seq![idx as nat];
    assert(one.drop_last() =~= Seq::empty());
    assert(distinct(one.drop_last()) =~= seq![]);
    assert(distinct(one) =~= one);
}

proof fn lemma_digits_to_end(s: Seq<char>, i: int)
    requires
        0 <= i <= s.len(),
        forall|k: int| i <= k < s.len() ==> in_class(#[trigger] s[k], CharClass::Digit),
    ensures
        run_end(s, i, CharClass::Digit) == s.len(),
    decreases s.len() - i,
{
    if i < s.len() {
        lemma_digits_to_end(s, i + 1);
    }
}

/// Whether `s` mentions none but the first `n` parameters.
pub open spec fn over_parameters(s: Seq<char>, n: nat) -> bool {
    forall|k: int| 0 <= k < mentions(s, 0).len() ==> #[trigger] mentions(s, 0)[k] < n
}

/// An operation mentions what its operands mention, in their order.
pub proof fn law_operations_mention_their_operands(name: Seq<char>, a: Seq<char>, b: Seq<char>)
    requires
        forall|k: int| 0 <= k < name.len() ==> #[trigger] name[k] != '_',
    ensures
        mentions("("@ + name + " "@ + a + " "@ + b + ")"@, 0) == mentions(a, 0) + mentions(b, 0),
{
    reveal_strlit("(");
    reveal_strlit(" ");
    reveal_strlit(")");
    let s = "("@ + name + " "@ + a + " "@ + b + ")"@;
    let x: int = name.len() as int + 1;
    let y: int = a.len() as int;
    let z: int = b.len() as int;
    let lead = s.take(x);
    assert(s[x] == ' ');
    assert forall|k: int| 0 <= k < lead.len() implies #[trigger] lead[k] != '_' by {
        if k > 0 {
            assert(lead[k] == name[k - 1]);
        } else {
            assert(lead[0] == '(');
        }
    }
    lemma_mentions_split(s, 0, x);
    lemma_no_mentions(lead, 0);
    let rest = s.skip(x + 1);
    lemma_mentions_skip(s, x + 1, x + 1);
    assert(rest =~= a + " "@ + b + ")"@);
    assert(rest[y] == ' ');
    lemma_mentions_split(rest, 0, y);
    assert(rest.take(y) =~= a);
    let tail = rest.skip(y + 1);
    lemma_mentions_skip(rest, y + 1, y + 1);
    assert(tail =~= b + ")"@);
    assert(tail[z] == ')');
    lemma_mentions_split(tail, 0, z);
    assert(tail.take(z) =~= b);
    assert(mentions(tail, z + 1) =~= seq![]);
    assert(mentions(tail, 0) =~= mentions(b, 0));
    assert(mentions(s, 0) =~= mentions(a, 0) + mentions(b, 0));
}

/// The names of the operations in captured terms have no underscore.
pub proof fn lemma_operation_name_plain(op: crate::mir_api::BinOp, signed: bool)
    requires
        operation_name(op, signed) is Some,
    ensures
        forall|k: int|
            0 <= k < (operation_name(op, signed)->0).len() ==> #[trigger] (operation_name(
                op,
                signed,
            )->0)[k] != '_',
{
    reveal_strlit("bvadd");
    reveal_strlit("bvsub");
    reveal_strlit("bvmul");
    reveal_strlit("bvsdiv");
    reveal_strlit("bvudiv");
    reveal_strlit("bvsrem");
    reveal_strlit("bvurem");
    reveal_strlit("bvshl");
    reveal_strlit("bvashr");
    reveal_strlit("bvlshr");
}

/// A number in base sixteen has no underscore.
pub proof fn lemma_hex_plain(n: nat, w: nat)
    ensures
        forall|k: int| 0 <= k < hex(n, w).len() ==> #[trigger] hex(n, w)[k] != '_',
    decreases w,
{
    if w > 0 {
        lemma_hex_plain(n / 16, (w - 1) as nat);
        let before = hex(n / 16, (w - 1) as nat);
        assert forall|k: int| 0 <= k < hex(n, w).len() implies #[trigger] hex(n, w)[k] != '_' by {
            if k < before.len() {
                assert(hex(n, w)[k] == before[k]);
            }
        }
    }
}

/// A literal mentions nothing.
proof fn lemma_literal_mentions(v: int, ty: Seq<char>, n: nat)
    requires
        literal_at(v, ty) is Some,
    ensures
        over_parameters(literal_at(v, ty)->0, n),
{
    reveal_strlit("#x");
    let bits = (int_info(ty)->0).1;
    let h = hex((v % modulus(bits)) as nat, (bits / 4) as nat);
    lemma_hex_plain((v % modulus(bits)) as nat, (bits / 4) as nat);
    let t = literal_text(v, bits);
    assert forall|k: int| 0 <= k < t.len() implies #[trigger] t[k] != '_' by {
        if k >= 2 {
            assert(t[k] == h[k - 2]);
        }
    }
    lemma_no_mentions(t, 0);
}

/// Whether every captured term mentions none but the first `n` parameters.
pub open spec fn known_over(known: Known, n: nat) -> bool {
    &&& forall|l: u32| #[trigger]
        known.whole.contains_key(l) ==> over_parameters(known.whole[l], n)
    &&& forall|l: u32| #[trigger]
        known.first.contains_key(l) ==> over_parameters(known.first[l], n)
}

proof fn lemma_operand_over(body: Body, op: Operand, known: Known, ty: Seq<char>, n: nat)
    requires
        known_over(known, n),
    ensures
        captured_operand(body, op, known, ty) matches Some(e) ==> over_parameters(e, n),
        captured_amount(body, op, known, ty) matches Some(e) ==> over_parameters(e, n),
{
    match op {
        Operand::Constant(c) => {
            if c.value is Some && literal_at(c.value->0 as int, ty) is Some {
                lemma_literal_mentions(c.value->0 as int, ty, n);
            }
        },
        _ => {},
    }
}

proof fn lemma_rvalue_over(body: Body, rvalue: Rvalue, known: Known, ty: Seq<char>, n: nat)
    requires
        known_over(known, n),
    ensures
        captured_rvalue(body, rvalue, known, ty) matches Some(e) ==> over_parameters(e, n),
{
    match rvalue {
        Rvalue::Use(op) => lemma_operand_over(body, op, known, ty, n),
        Rvalue::BinaryOp(op, a, b) => {
            if let Some(e) = captured_rvalue(body, rvalue, known, ty) {
                lemma_operand_over(body, a, known, ty, n);
                lemma_operand_over(body, b, known, ty, n);
                let signed = (int_info(ty)->0).0;
                let name = operation_name(op, signed)->0;
                let ea = captured_operand(body, a, known, ty)->0;
                let eb = if op == crate::mir_api::BinOp::Shl || op == crate::mir_api::BinOp::Shr {
                    captured_amount(body, b, known, ty)->0
                } else {
                    captured_operand(body, b, known, ty)->0
                };
                lemma_operation_name_plain(op, signed);
                law_operations_mention_their_operands(name, ea, eb);
                assert forall|k: int| 0 <= k < mentions(e, 0).len() implies #[trigger] mentions(
                    e,
                    0,
                )[k] < n by {
                    let x = mentions(ea, 0);
                    if k < x.len() {
                        assert(mentions(e, 0)[k] == x[k]);
                    } else {
                        assert(mentions(e, 0)[k] == mentions(eb, 0)[k - x.len()]);
                    }
                }
            }
        },
        _ => {},
    }
}

proof fn lemma_statements_over(
    body: Body,
    known: Known,
    stmts: Seq<Statement>,
    ty: Seq<char>,
    n: nat,
)
    requires
        known_over(known, n),
    ensures
        known_over(after_statements(body, known, stmts, ty), n),
    decreases stmts.len(),
{
    if stmts.len() > 0 {
        lemma_statements_over(body, known, stmts.drop_last(), ty, n);
        let before = after_statements(body, known, stmts.drop_last(), ty);
        if let StatementKind::Assign(place, rvalue) = stmts.last().kind {
            lemma_rvalue_over(body, rvalue, before, ty, n);
        }
    }
}

proof fn lemma_known_at_over(
    body: Body,
    at: int,
    steps: nat,
    known: Known,
    ty: Seq<char>,
    call: int,
    n: nat,
)
    requires
        known_over(known, n),
    ensures
        known_at(body, at, steps, known, ty, call) matches Some(k) ==> known_over(k, n),
    decreases steps,
{
    if steps > 0 && 0 <= at < body.blocks@.len() {
        let block = body.blocks@[at];
        lemma_statements_over(body, known, block.statements@, ty, n);
        if at != call {
            if let Some(next) = next_block(block.terminator.kind) {
                lemma_known_at_over(
                    body,
                    next as int,
                    (steps - 1) as nat,
                    after_statements(body, known, block.statements@, ty),
                    ty,
                    call,
                    n,
                );
            }
        }
    }
}

proof fn lemma_distinct_items(v: Seq<nat>, k: int)
    requires
        0 <= k < distinct(v).len(),
    ensures
        v.contains(distinct(v)[k]),
    decreases v.len(),
{
    let before = distinct(v.drop_last());
    if k < before.len() {
        lemma_distinct_items(v.drop_last(), k);
        let i = choose|i: int| 0 <= i < v.drop_last().len() && v.drop_last()[i] == before[k];
        assert(v[i] == distinct(v)[k]);
    } else {
        assert(v[v.len() - 1] == distinct(v)[k]);
    }
}

/// A captured argument speaks of the caller's parameters alone: each entry symbol in its term is
/// that of a parameter of the body.
pub proof fn law_captured_arguments_mention_parameters(
    body: Body,
    op: Operand,
    call: int,
    ty: Seq<char>,
)
    requires
        call_arg_term(body, op, call, ty) is Some,
    ensures
        forall|k: int|
            0 <= k < referenced(call_arg_term(body, op, call, ty)->0).len()
                ==> #[trigger] referenced(call_arg_term(body, op, call, ty)->0)[k]
                < body.arg_names@.len(),
{
    let n = body.arg_names@.len();
    let start = entry_symbols(body);
    assert(known_over(start, n)) by {
        assert forall|l: u32| #[trigger] start.whole.contains_key(l) implies over_parameters(
            start.whole[l],
            n,
        ) by {
            let i = (l - 1) as nat;
            lemma_symbol_mentions(i as usize);
        }
    }
    lemma_known_at_over(body, 0, body.blocks@.len(), start, ty, call, n);
    let t = call_arg_term(body, op, call, ty)->0;
    assert(over_parameters(t, n));
    assert forall|k: int| 0 <= k < referenced(t).len() implies #[trigger] referenced(t)[k]
        < n by {
        lemma_distinct_items(mentions(t, 0), k);
        let i = choose|i: int|
            0 <= i < mentions(t, 0).len() && mentions(t, 0)[i] == referenced(t)[k];
        assert(mentions(t, 0)[i] < n);
    }
}

pub proof fn lemma_symbol_mentions(idx: usize)
    ensures
        mentions(entry_symbol(idx as nat), 0) == seq![idx as nat],
{
    lemma_marker();
    let s = entry_symbol(idx as nat);
    let d = decimal(idx as nat);
    lemma_decimal_digits(idx as nat);
    law_decimal_read_back(idx as nat);
    assert(s.subrange(0, 15) =~= "__pb_caller_arg"@);
    assert forall|k: int| 15 <= k < s.len() implies in_class(#[trigger] s[k], CharClass::Digit) by {
        assert(s[k] == d[k - 15]);
    }
    lemma_digits_to_end(s, 15);
    assert(s.subrange(15, s.len() as int) =~= d);
    assert(mentions(s, s.len() as int) =~= seq![]);
    assert(mentions(s, 0) =~= seq![idx as nat]);
}

/// The references of a text are distinct.
pub proof fn law_references_are_distinct(s: Seq<char>)
    ensures
        referenced(s).no_duplicates(),
{
    lemma_distinct(mentions(s, 0));
}

proof fn lemma_distinct(v: Seq<nat>)
    ensures
        distinct(v).no_duplicates(),
    decreases v.len(),
{
    if v.len() > 0 {
        lemma_distinct(v.drop_last());
    }
}

/// An operation on the entry symbols of two parameters references both, in their order, and once
/// where they are the same: the numbers of the symbols are told apart to the last digit.
pub proof fn law_two_entry_symbols_are_read_back(name: Seq<char>, j: usize, k: usize)
    requires
        forall|i: int| 0 <= i < name.len() ==> #[trigger] name[i] != '_',
    ensures
        referenced(
            "("@ + name + " "@ + entry_symbol(j as nat) + " "@ + entry_symbol(k as nat) + ")"@,
        ) == (if j == k {
            seq![j as nat]
        } else {
            seq![j as nat, k as nat]
        }),
{
    let a = entry_symbol(j as nat);
    let b = entry_symbol(k as nat);
    law_operations_mention_their_operands(name, a, b);
    lemma_symbol_mentions(j);
    lemma_symbol_mentions(k);
    let one = seq![j as nat];
    let two = one + seq![k as nat];
    assert(two.drop_last() =~= one);
    assert(one.drop_last() =~= Seq::empty());
    assert(distinct(one.drop_last()) =~= seq![]);
    assert(distinct(one) =~= one);
    assert(one[0] == j as nat);
    assert(two.last() == k as nat);
    if j == k {
        assert(distinct(two) =~= one);
    } else {
        assert(!one.contains(k as nat));
        assert(distinct(two) =~= seq![j as nat, k as nat]);
    }
}

/// A text references nothing where no digit follows a marker.
pub proof fn law_markers_without_digits_reference_nothing(s: Seq<char>)
    requires
        forall|i: int|
            #[trigger] occurs_at(s, "__pb_caller_arg"@, i) && i + 15 < s.len() ==> !is_digit(
                s[i + 15],
            ),
    ensures
        referenced(s) == Seq::<nat>::empty(),
{
    lemma_no_numbers(s, 0);
}

proof fn lemma_no_numbers(s: Seq<char>, i: int)
    requires
        0 <= i,
        forall|k: int|
            #[trigger] occurs_at(s, "__pb_caller_arg"@, k) && k + 15 < s.len() ==> !is_digit(
                s[k + 15],
            ),
    ensures
        mentions(s, i) == Seq::<nat>::empty(),
    decreases s.len() - i,
{
    if i + 15 <= s.len() {
        if occurs_at(s, "__pb_caller_arg"@, i) {
            lemma_run_end(s, i + 15, CharClass::Digit);
            lemma_no_numbers(s, run_end(s, i + 15, CharClass::Digit));
        } else {
            lemma_no_numbers(s, i + 1);
        }
    }
}

/// Whether `x` is mentioned by `v` before `y` is.
pub open spec fn comes_first(v: Seq<nat>, x: nat, y: nat) -> bool {
    exists|a: int|
        0 <= a < v.len() && #[trigger] v[a] == x && forall|b: int|
            0 <= b <= a ==> #[trigger] v[b] != y
}

/// The references of a text are what it mentions, in the order of first mention.
pub proof fn law_references_are_in_order(s: Seq<char>)
    ensures
        forall|n: nat| #[trigger] referenced(s).contains(n) <==> mentions(s, 0).contains(n),
        forall|i: int, j: int|
            0 <= i < j < referenced(s).len() ==> comes_first(
                mentions(s, 0),
                #[trigger] referenced(s)[i],
                #[trigger] referenced(s)[j],
            ),
{
    lemma_distinct_order(mentions(s, 0));
}

proof fn lemma_distinct_order(v: Seq<nat>)
    ensures
        forall|n: nat| #[trigger] distinct(v).contains(n) <==> v.contains(n),
        forall|i: int, j: int|
            0 <= i < j < distinct(v).len() ==> comes_first(
                v,
                #[trigger] distinct(v)[i],
                #[trigger] distinct(v)[j],
            ),
    decreases v.len(),
{
    let d = distinct(v);
    if v.len() > 0 {
        let short = v.drop_last();
        let last = v.last();
        let before = distinct(short);
        lemma_distinct_order(short);
        assert forall|n: nat| #[trigger] d.contains(n) <==> v.contains(n) by {
            assert(before.contains(n) <==> short.contains(n));
            if v.contains(n) {
                let i = v.index_of(n);
                if i < short.len() {
                    assert(short[i] == n);
                    let k = before.index_of(n);
                    assert(d[k] == n);
                } else if before.contains(last) {
                } else {
                    assert(d[before.len() as int] == n);
                }
            }
            if d.contains(n) {
                let k = d.index_of(n);
                if k < before.len() {
                    assert(before[k] == n);
                    let i = short.index_of(n);
                    assert(v[i] == n);
                } else {
                    assert(v[v.len() - 1] == n);
                }
            }
        }
        assert forall|i: int, j: int| 0 <= i < j < d.len() implies comes_first(
            v,
            #[trigger] d[i],
            #[trigger] d[j],
        ) by {
            if j < before.len() {
                assert(comes_first(short, before[i], before[j]));
                let a = choose|a: int|
                    0 <= a < short.len() && #[trigger] short[a] == before[i] && forall|b: int|
                        0 <= b <= a ==> #[trigger] short[b] != before[j];
                assert(v[a] == d[i]);
                assert forall|b: int| 0 <= b <= a implies #[trigger] v[b] != d[j] by {
                    assert(short[b] == v[b]);
                }
            } else {
                assert(before.contains(before[i]));
                assert(short.contains(before[i]));
                let a = short.index_of(before[i]);
                assert(v[a] == d[i]);
                assert forall|b: int| 0 <= b <= a implies #[trigger] v[b] != d[j] by {
                    assert(short[b] == v[b]);
                    if v[b] == last {
                        assert(short.contains(last));
                        assert(before.contains(last));
                    }
                }
            }
        }
    }
}

} // verus!
