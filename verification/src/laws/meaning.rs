//! Captured terms against runs: the text of a captured term has, to the solver, the value that the
//! body computes.
//!
//! A run is followed at one integer type. The terms are read off their text alone, by the names
//! that are written in it; what the body computes is told from its statements alone.
use vstd::prelude::*;
use vstd::arithmetic::power2::lemma2_to64;
use crate::capture::{
    after_statement, after_statements, body_effect, call_arg_term, captured_amount,
    captured_operand, captured_rvalue, entry_names, entry_symbol, entry_symbols, next_block,
    operation_name, Known,
};
use crate::laws::capture::{
    is_straight, is_walk, known_along, law_captured_arguments_hold_on_every_path,
    law_captured_returns_hold_on_every_path, lemma_decimal_is_symbol,
};
use crate::laws::runs::{leaves, State};
use crate::laws::solver::{
    bv_function, bv_sorted, bv_text, bv_value, computed, is_arithmetic, is_pattern, is_symbol,
    is_width, law_operation_names_mean_the_operations, lemma_literal_term, literal_digits,
    pattern_of, Bv,
};
use crate::locals::{bare_local, local_int_name, primitive_int_name};
use crate::mir_api::{BinOp, Body, Operand, Place, ProjectionElem, Rvalue, Statement, StatementKind};
use crate::predicate::{int_info, literal_at};

verus! {

/// Whether `text` is, to the solver, a term of `bits` bits over the symbols `declared` with the
/// value `v`.
pub open spec fn denotes(
    text: Seq<char>,
    v: int,
    val: spec_fn(Seq<char>) -> int,
    declared: Set<Seq<char>>,
    bits: nat,
) -> bool {
    is_pattern(v, bits) && exists|e: Bv|
        {
            &&& #[trigger] bv_text(e) == text
            &&& bv_sorted(e, declared, bits)
            &&& bv_value(e, val, bits) == v
        }
}

/// The pattern that is read from a place, if it is a local or the first field of one.
pub open spec fn place_held(p: Place, s: State) -> Option<int> {
    if p.projection@.len() == 0 || (p.projection@.len() == 1 && p.projection@[0]
        == ProjectionElem::Field(0)) {
        Some(s(p.local.0))
    } else {
        None
    }
}

/// The pattern that an operand gives.
pub open spec fn held(op: Operand, s: State, bits: nat) -> Option<int> {
    match op {
        Operand::Constant(c) => match c.value {
            Some(v) => Some(pattern_of(v as int, bits)),
            None => None,
        },
        Operand::Copy(p) => place_held(p, s),
        Operand::Move(p) => place_held(p, s),
    }
}

/// The amount that a shift is by.
pub open spec fn shift_amount(op: Operand, s: State) -> Option<int> {
    match op {
        Operand::Constant(c) => match c.value {
            Some(v) => Some(v as int),
            None => None,
        },
        Operand::Copy(p) => place_held(p, s),
        Operand::Move(p) => place_held(p, s),
    }
}

/// Whether an operation on the patterns `x` and `y` can leave `z`: it does not panic, and `z` is
/// what it computes.
pub open spec fn leaves_result(
    op: BinOp,
    signed: bool,
    bits: nat,
    x: int,
    y: int,
    z: int,
) -> bool {
    is_arithmetic(op) ==> computed(op, signed, bits, x, y) == Some(z)
}

/// Whether a statement can take the state `s` to the state `t`. An assignment changes the local
/// that it is to, and no other; to a local as a whole it assigns what its right side computes. A
/// statement behind which the body goes on has not panicked.
pub open spec fn steps(stmt: Statement, s: State, t: State, signed: bool, bits: nat) -> bool {
    match stmt.kind {
        StatementKind::Assign(place, rvalue) => {
            &&& forall|l: u32| l != place.local.0 ==> #[trigger] t(l) == s(l)
            &&& place.projection@.len() == 0 ==> match rvalue {
                Rvalue::Use(op) => held(op, s, bits) matches Some(v) ==> t(place.local.0) == v,
                Rvalue::BinaryOp(op, a, b) => if op == BinOp::Shl || op == BinOp::Shr {
                    (held(a, s, bits) matches Some(x) && is_pattern(x, bits)) && shift_amount(b, s)
                        is Some ==> 0 <= shift_amount(b, s)->0 && leaves_result(
                        op,
                        signed,
                        bits,
                        held(a, s, bits)->0,
                        shift_amount(b, s)->0,
                        t(place.local.0),
                    )
                } else {
                    (held(a, s, bits) matches Some(x) && is_pattern(x, bits)) && (held(b, s, bits)
                        matches Some(y) && is_pattern(y, bits)) ==> leaves_result(
                        op,
                        signed,
                        bits,
                        held(a, s, bits)->0,
                        held(b, s, bits)->0,
                        t(place.local.0),
                    )
                },
                _ => true,
            }
        },
        _ => forall|l: u32| #[trigger] t(l) == s(l),
    }
}

/// Whether the statements `stmts` can take the state `s` to the state `t`.
pub open spec fn steps_all(
    stmts: Seq<Statement>,
    s: State,
    t: State,
    signed: bool,
    bits: nat,
) -> bool
    decreases stmts.len(),
{
    if stmts.len() == 0 {
        forall|l: u32| #[trigger] t(l) == s(l)
    } else {
        exists|m: State|
            steps_all(stmts.drop_last(), s, m, signed, bits) && #[trigger] steps(
                stmts.last(),
                m,
                t,
                signed,
                bits,
            )
    }
}

/// Whether the blocks of the walk `p`, up to the last statement of the last of them, can take the
/// state `s` to the state `t`.
pub open spec fn travels(
    body: Body,
    p: Seq<int>,
    s: State,
    t: State,
    signed: bool,
    bits: nat,
) -> bool
    decreases p.len(),
{
    if p.len() == 0 {
        forall|l: u32| #[trigger] t(l) == s(l)
    } else {
        exists|m: State, n: State|
            {
                &&& travels(body, p.drop_last(), s, m, signed, bits)
                &&& #[trigger] leaves(body, p.drop_last(), m, n)
                &&& #[trigger] steps_all(
                    body.blocks@[p.last()].statements@,
                    n,
                    t,
                    signed,
                    bits,
                )
            }
    }
}

/// What the terms are held against: the symbols and their values, the type, and whether the terms
/// of locals of other types count too.
struct Frame {
    val: spec_fn(Seq<char>) -> int,
    declared: Set<Seq<char>>,
    ty: Seq<char>,
    signed: bool,
    bits: nat,
    all: bool,
}

impl Frame {
    spec fn wf(self) -> bool {
        int_info(self.ty) == Some((self.signed, self.bits as u32)) && is_width(self.bits)
    }
}

/// Whether every captured term denotes the pattern that its local holds.
spec fn true_of(body: Body, known: Known, s: State, f: Frame) -> bool {
    &&& forall|l: u32| #[trigger]
        known.whole.contains_key(l) && (f.all || local_int_name(body, l as int) == Some(f.ty))
            ==> denotes(known.whole[l], s(l), f.val, f.declared, f.bits)
    &&& forall|l: u32| #[trigger]
        known.first.contains_key(l) ==> denotes(known.first[l], s(l), f.val, f.declared, f.bits)
}

proof fn lemma_operand_denotes(body: Body, op: Operand, known: Known, s: State, f: Frame)
    requires
        f.wf(),
        true_of(body, known, s, f),
    ensures
        captured_operand(body, op, known, f.ty) matches Some(e) ==> held(op, s, f.bits) is Some
            && denotes(e, held(op, s, f.bits)->0, f.val, f.declared, f.bits),
        captured_amount(body, op, known, f.ty) matches Some(e) ==> shift_amount(op, s) is Some
            && denotes(
            e,
            if op is Constant {
                pattern_of(shift_amount(op, s)->0, f.bits)
            } else {
                shift_amount(op, s)->0
            },
            f.val,
            f.declared,
            f.bits,
        ),
{
    match op {
        Operand::Constant(c) => {
            if let Some(v) = c.value {
                lemma_literal_term(v as int, f.bits, f.declared);
                let e = Bv::Literal(literal_digits(v as int, f.bits));
                assert(bv_text(e) == literal_at(v as int, f.ty)->0);
                assert(bv_value(e, f.val, f.bits) == pattern_of(v as int, f.bits));
            }
        },
        Operand::Copy(p) => {},
        Operand::Move(p) => {},
    }
}

proof fn lemma_applied(
    op: BinOp,
    ea: Seq<char>,
    eb: Seq<char>,
    x: int,
    y: int,
    z: int,
    f: Frame,
)
    requires
        f.wf(),
        is_arithmetic(op),
        denotes(ea, x, f.val, f.declared, f.bits),
        denotes(eb, y, f.val, f.declared, f.bits),
        computed(op, f.signed, f.bits, x, y) == Some(z),
    ensures
        denotes(
            "("@ + operation_name(op, f.signed)->0 + " "@ + ea + " "@ + eb + ")"@,
            z,
            f.val,
            f.declared,
            f.bits,
        ),
{
    let a = choose|e: Bv|
        {
            &&& #[trigger] bv_text(e) == ea
            &&& bv_sorted(e, f.declared, f.bits)
            &&& bv_value(e, f.val, f.bits) == x
        };
    let b = choose|e: Bv|
        {
            &&& #[trigger] bv_text(e) == eb
            &&& bv_sorted(e, f.declared, f.bits)
            &&& bv_value(e, f.val, f.bits) == y
        };
    law_operation_names_mean_the_operations(op, f.signed, f.bits, x, y);
    let name = operation_name(op, f.signed)->0;
    let whole = Bv::Apply(name, Box::new(a), Box::new(b));
    assert(bv_text(whole) == "("@ + name + " "@ + ea + " "@ + eb + ")"@);
    assert(bv_sorted(whole, f.declared, f.bits));
    assert(bv_value(whole, f.val, f.bits) == bv_function(name, x, y, f.bits));
}

proof fn lemma_step_denotes(
    body: Body,
    known: Known,
    stmt: Statement,
    s: State,
    t: State,
    f: Frame,
)
    requires
        f.wf(),
        true_of(body, known, s, f),
        steps(stmt, s, t, f.signed, f.bits),
    ensures
        true_of(body, after_statement(body, known, stmt, f.ty), t, f),
{
    let after = after_statement(body, known, stmt, f.ty);
    match stmt.kind {
        StatementKind::Assign(place, rvalue) => {
            if place.projection@.len() == 0 {
                if let Some(e) = captured_rvalue(body, rvalue, known, f.ty) {
                    match rvalue {
                        Rvalue::Use(op) => {
                            lemma_operand_denotes(body, op, known, s, f);
                        },
                        Rvalue::BinaryOp(op, a, b) => {
                            lemma_operand_denotes(body, a, known, s, f);
                            lemma_operand_denotes(body, b, known, s, f);
                            let ea = captured_operand(body, a, known, f.ty)->0;
                            let x = held(a, s, f.bits)->0;
                            let z = t(place.local.0);
                            law_operation_names_mean_the_operations(op, f.signed, f.bits, x, x);
                            if op == BinOp::Shl || op == BinOp::Shr {
                                let eb = captured_amount(body, b, known, f.ty)->0;
                                let n = shift_amount(b, s)->0;
                                assert(0 <= n < f.bits);
                                lemma2_to64();
                                assert(is_pattern(n, f.bits));
                                vstd::arithmetic::div_mod::lemma_small_mod(
                                    n as nat,
                                    vstd::arithmetic::power2::pow2(f.bits),
                                );
                                lemma_applied(op, ea, eb, x, n, z, f);
                            } else {
                                let eb = captured_operand(body, b, known, f.ty)->0;
                                let y = held(b, s, f.bits)->0;
                                lemma_applied(op, ea, eb, x, y, z, f);
                            }
                        },
                        _ => {},
                    }
                    assert(denotes(e, t(place.local.0), f.val, f.declared, f.bits));
                }
            }
            assert forall|l: u32| #[trigger]
                after.whole.contains_key(l) && (f.all || local_int_name(body, l as int) == Some(
                    f.ty,
                )) implies denotes(after.whole[l], t(l), f.val, f.declared, f.bits) by {
                if l != place.local.0 {
                    assert(known.whole.contains_key(l));
                    assert(t(l) == s(l));
                }
            }
            assert forall|l: u32| #[trigger] after.first.contains_key(l) implies denotes(
                after.first[l],
                t(l),
                f.val,
                f.declared,
                f.bits,
            ) by {
                if l != place.local.0 {
                    assert(known.first.contains_key(l));
                    assert(t(l) == s(l));
                }
            }
        },
        _ => {
            lemma_unchanged(body, known, s, t, f);
        },
    }
}

proof fn lemma_unchanged(body: Body, known: Known, s: State, t: State, f: Frame)
    requires
        true_of(body, known, s, f),
        forall|l: u32| #[trigger] t(l) == s(l),
    ensures
        true_of(body, known, t, f),
{
    assert forall|l: u32| #[trigger]
        known.whole.contains_key(l) && (f.all || local_int_name(body, l as int) == Some(
            f.ty,
        )) implies denotes(known.whole[l], t(l), f.val, f.declared, f.bits) by {
        assert(t(l) == s(l));
    }
    assert forall|l: u32| #[trigger] known.first.contains_key(l) implies denotes(
        known.first[l],
        t(l),
        f.val,
        f.declared,
        f.bits,
    ) by {
        assert(t(l) == s(l));
    }
}

proof fn lemma_steps_denote(
    body: Body,
    known: Known,
    stmts: Seq<Statement>,
    s: State,
    t: State,
    f: Frame,
)
    requires
        f.wf(),
        true_of(body, known, s, f),
        steps_all(stmts, s, t, f.signed, f.bits),
    ensures
        true_of(body, after_statements(body, known, stmts, f.ty), t, f),
    decreases stmts.len(),
{
    if stmts.len() == 0 {
        lemma_unchanged(body, known, s, t, f);
    } else {
        let m = choose|m: State|
            steps_all(stmts.drop_last(), s, m, f.signed, f.bits) && #[trigger] steps(
                stmts.last(),
                m,
                t,
                f.signed,
                f.bits,
            );
        lemma_steps_denote(body, known, stmts.drop_last(), s, m, f);
        lemma_step_denotes(
            body,
            after_statements(body, known, stmts.drop_last(), f.ty),
            stmts.last(),
            m,
            t,
            f,
        );
    }
}

proof fn lemma_travel_denotes(
    body: Body,
    known: Known,
    p: Seq<int>,
    s: State,
    t: State,
    f: Frame,
)
    requires
        f.wf(),
        true_of(body, known, s, f),
        travels(body, p, s, t, f.signed, f.bits),
        is_straight(body.blocks@, p),
    ensures
        true_of(body, known_along(body, p, known, f.ty), t, f),
    decreases p.len(),
{
    if p.len() == 0 {
        lemma_unchanged(body, known, s, t, f);
    } else {
        let (m, n) = choose|m: State, n: State|
            {
                &&& travels(body, p.drop_last(), s, m, f.signed, f.bits)
                &&& #[trigger] leaves(body, p.drop_last(), m, n)
                &&& #[trigger] steps_all(
                    body.blocks@[p.last()].statements@,
                    n,
                    t,
                    f.signed,
                    f.bits,
                )
            };
        let q = p.drop_last();
        assert(is_straight(body.blocks@, q)) by {
            assert forall|i: int| 0 <= i < q.len() - 1 implies next_block(
                body.blocks@[#[trigger] q[i]].terminator.kind,
            ) is Some by {
                assert(q[i] == p[i]);
            }
        }
        lemma_travel_denotes(body, known, q, s, m, f);
        if q.len() > 0 {
            assert(q.last() == p[q.len() - 1]);
        }
        lemma_unchanged(body, known_along(body, q, known, f.ty), m, n, f);
        lemma_steps_denote(
            body,
            known_along(body, q, known, f.ty),
            body.blocks@[p.last()].statements@,
            n,
            t,
            f,
        );
    }
}

/// The names of the parameters that have the type `ty`.
pub open spec fn names_of_type(body: Body, ty: Seq<char>) -> Set<Seq<char>> {
    Set::new(
        |name: Seq<char>|
            exists|i: int|
                {
                    &&& 0 <= i < body.arg_names@.len()
                    &&& (#[trigger] body.arg_names@[i])@ == name
                    &&& name.len() > 0
                    &&& local_int_name(body, i + 1) == Some(ty)
                },
    )
}

/// The entry symbols of the parameters that have the type `ty`.
pub open spec fn symbols_of_type(body: Body, ty: Seq<char>) -> Set<Seq<char>> {
    Set::new(
        |name: Seq<char>|
            exists|i: nat|
                {
                    &&& i < body.arg_names@.len()
                    &&& local_int_name(body, i as int + 1) == Some(ty)
                    &&& name == #[trigger] entry_symbol(i)
                },
    )
}

/// Whether `val` gives for the entry symbol of each parameter of the type `ty` what the caller was
/// passed for it, which is a pattern.
pub open spec fn entered_at(
    body: Body,
    ty: Seq<char>,
    s: State,
    val: spec_fn(Seq<char>) -> int,
    bits: nat,
) -> bool {
    forall|i: nat|
        i < body.arg_names@.len() && local_int_name(body, i as int + 1) == Some(ty) ==> is_pattern(
            s((i + 1) as u32),
            bits,
        ) && val(#[trigger] entry_symbol(i)) == s((i + 1) as u32)
}

/// The captured return value is what the body returns: in every run, along every way from the entry
/// to a return, the text is, to the solver, a term over the parameters of the return type whose
/// value is the pattern in the return slot, where each name stands for the argument.
pub proof fn law_captured_returns_denote_what_is_returned(
    body: Body,
    p: Seq<int>,
    s: State,
    t: State,
    val: spec_fn(Seq<char>) -> int,
    signed: bool,
    bits: nat,
)
    requires
        body_effect(body) is Some,
        primitive_int_name(body.return_ty) is Some,
        is_width(bits),
        int_info(primitive_int_name(body.return_ty)->0) == Some((signed, bits as u32)),
        is_walk(body.blocks@, p),
        0 <= p.last() < body.blocks@.len(),
        body.blocks@[p.last()].terminator.kind is Return,
        travels(body, p, s, t, signed, bits),
        forall|i: int|
            0 <= i < body.arg_names@.len() && (#[trigger] body.arg_names@[i])@.len() > 0
                && local_int_name(body, i + 1) == primitive_int_name(body.return_ty) ==> is_symbol(
                body.arg_names@[i]@,
            ) && is_pattern(s((i + 1) as u32), bits) && val(body.arg_names@[i]@) == s(
                (i + 1) as u32,
            ),
    ensures
        denotes(
            body_effect(body)->0,
            t(0),
            val,
            names_of_type(body, primitive_int_name(body.return_ty)->0),
            bits,
        ),
{
    let ty = primitive_int_name(body.return_ty)->0;
    let f = Frame { val, declared: names_of_type(body, ty), ty, signed, bits, all: true };
    let start = entry_names(body, ty);
    assert(true_of(body, start, s, f)) by {
        assert forall|l: u32| #[trigger] start.whole.contains_key(l) implies denotes(
            start.whole[l],
            s(l),
            val,
            f.declared,
            bits,
        ) by {
            let name = start.whole[l];
            assert(body.arg_names@[l - 1]@ == name);
            let e = Bv::Symbol(name);
            assert(bv_text(e) == name);
            assert(bv_sorted(e, f.declared, bits));
            assert((l - 1 + 1) as u32 == l);
        }
    }
    law_captured_returns_hold_on_every_path(body, p);
    lemma_travel_denotes(body, start, p, s, t, f);
    assert(known_along(body, p, start, ty).whole.contains_key(0));
}

/// A captured argument is what the call passes: in every run, along every way from the entry to the
/// call, the text is, to the solver, a term over the entry symbols of the caller's parameters of
/// that type whose value is the pattern in the operand's local, where each symbol stands for what
/// the caller was passed.
pub proof fn law_captured_arguments_denote_what_is_passed(
    body: Body,
    op: Operand,
    call: int,
    ty: Seq<char>,
    p: Seq<int>,
    s: State,
    t: State,
    val: spec_fn(Seq<char>) -> int,
    signed: bool,
    bits: nat,
)
    requires
        call_arg_term(body, op, call, ty) is Some,
        is_width(bits),
        int_info(ty) == Some((signed, bits as u32)),
        is_walk(body.blocks@, p),
        p.last() == call,
        travels(body, p, s, t, signed, bits),
        entered_at(body, ty, s, val, bits),
    ensures
        bare_local(op) is Some,
        denotes(
            call_arg_term(body, op, call, ty)->0,
            t((bare_local(op)->0).0),
            val,
            symbols_of_type(body, ty),
            bits,
        ),
{
    let f = Frame { val, declared: symbols_of_type(body, ty), ty, signed, bits, all: false };
    let start = entry_symbols(body);
    assert(true_of(body, start, s, f)) by {
        assert forall|l: u32| #[trigger]
            start.whole.contains_key(l) && local_int_name(body, l as int) == Some(
                ty,
            ) implies denotes(start.whole[l], s(l), val, f.declared, bits) by {
            let i = (l - 1) as nat;
            let e = Bv::Symbol(entry_symbol(i));
            assert(bv_text(e) == start.whole[l]);
            assert((i + 1) as u32 == l);
            assert(val(entry_symbol(i)) == s(l));
            lemma_decimal_is_symbol(i);
            assert(bv_sorted(e, f.declared, bits));
        }
    }
    law_captured_arguments_hold_on_every_path(body, op, call, ty, p);
    lemma_travel_denotes(body, start, p, s, t, f);
    let l = (bare_local(op)->0).0;
    assert(known_along(body, p, start, ty).whole.contains_key(l));
}

} // verus!
