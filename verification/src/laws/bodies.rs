//! What holds of the facts that are read off a body: what it stores to, the types and sizes of its
//! locals, the casts that keep a value, and the straight lines that are followed.
use vstd::prelude::*;
use crate::capture::{
    after_statements, body_effect, captured_operand, captured_rvalue, entry, entry_names,
    returned_from, Known,
};
use crate::laws::assumptions::{lemma_info_width, lemma_range_is_value};
use crate::laws::capture::{known_along, law_no_straight_line_is_cut_short};
use crate::laws::solver::{is_arithmetic, is_value, law_operation_names_mean_the_operations};
use crate::laws::types::{is_layout, laid_out, layout_holds};
use crate::locals::{block_writes, primitive_int_name, statement_target, writes};
use crate::mir_api::{
    BasicBlockData, BinOp, Body, CastKind, IntTy, Operand, RigidTy, Rvalue, Span, Statement,
    StatementKind, TerminatorKind, Ty, TyKind, UintTy,
};
use crate::predicate::int_info;
use crate::types::{min_size, min_total};
use crate::walk::cast_findings;

verus! {

// ---------------------------------------------------------------------------
// Stores.
// ---------------------------------------------------------------------------

/// Whether a statement changes the local `l`: it assigns to it or into it, sets its variant, takes
/// its content away, or gives it a new tag.
pub open spec fn stores_to(stmt: Statement, l: u32) -> bool {
    match stmt.kind {
        StatementKind::Assign(place, _) => place.local.0 == l,
        StatementKind::SetDiscriminant { place, .. } => place.local.0 == l,
        StatementKind::Deinit(place) => place.local.0 == l,
        StatementKind::Retag(_, place) => place.local.0 == l,
        _ => false,
    }
}

/// Whether a terminator changes the local `l`: a call puts its result there.
pub open spec fn returns_to(kind: TerminatorKind, l: u32) -> bool {
    match kind {
        TerminatorKind::Call { destination, .. } => destination.local.0 == l,
        _ => false,
    }
}

/// A local is taken for written just if a statement or a call of the body changes it.
pub proof fn law_every_store_is_seen(blocks: Seq<BasicBlockData>, l: u32)
    ensures
        writes(blocks, l) <==> exists|b: int|
            0 <= b < blocks.len() && #[trigger] changes(blocks[b], l),
{
    assert forall|b: int| 0 <= b < blocks.len() implies (#[trigger] block_writes(blocks[b], l)
        <==> changes(blocks[b], l)) by {
        let block = blocks[b];
        assert forall|i: int| 0 <= i < block.statements@.len() implies (statement_target(
            #[trigger] block.statements@[i],
        ) == Some(l) <==> stores_to(block.statements@[i], l)) by {}
        if exists|i: int|
            0 <= i < block.statements@.len() && statement_target(#[trigger] block.statements@[i])
                == Some(l) {
            let i = choose|i: int|
                0 <= i < block.statements@.len() && statement_target(
                    #[trigger] block.statements@[i],
                ) == Some(l);
            assert(stores_to(block.statements@[i], l));
        }
    }
    if writes(blocks, l) {
        let b = choose|b: int| 0 <= b < blocks.len() && block_writes(#[trigger] blocks[b], l);
        assert(changes(blocks[b], l));
    }
    if exists|b: int| 0 <= b < blocks.len() && #[trigger] changes(blocks[b], l) {
        let b = choose|b: int| 0 <= b < blocks.len() && #[trigger] changes(blocks[b], l);
        assert(block_writes(blocks[b], l));
    }
}

/// Whether a block changes the local `l`.
pub open spec fn changes(block: BasicBlockData, l: u32) -> bool {
    returns_to(block.terminator.kind, l) || exists|i: int|
        0 <= i < block.statements@.len() && stores_to(#[trigger] block.statements@[i], l)
}

// ---------------------------------------------------------------------------
// Types.
// ---------------------------------------------------------------------------

/// The signedness and width of a primitive integer type of a fixed width that a solver gets.
pub open spec fn integer_kind(ty: Ty) -> Option<(bool, u32)> {
    match ty.kind {
        TyKind::RigidTy(RigidTy::Int(i)) => match i {
            IntTy::I8 => Some((true, 8)),
            IntTy::I16 => Some((true, 16)),
            IntTy::I32 => Some((true, 32)),
            IntTy::I64 => Some((true, 64)),
            IntTy::I128 => None,
            IntTy::Isize => None,
        },
        TyKind::RigidTy(RigidTy::Uint(u)) => match u {
            UintTy::U8 => Some((false, 8)),
            UintTy::U16 => Some((false, 16)),
            UintTy::U32 => Some((false, 32)),
            UintTy::U64 => Some((false, 64)),
            UintTy::U128 => None,
            UintTy::Usize => None,
        },
        _ => None,
    }
}

/// A primitive integer type has, by its name, the encoding of its signedness and width; the types
/// of 128 bits and those of a pointer's width have none, and no other type has a name.
pub proof fn law_integer_types_are_encoded_as_they_are(ty: Ty)
    ensures
        primitive_int_name(ty) is Some <==> (ty.kind matches TyKind::RigidTy(r) && (r is Int || r
            is Uint)),
        primitive_int_name(ty) matches Some(name) ==> int_info(name) == integer_kind(ty),
{
    lemma_names_differ();
}

/// The names of the integer types are told apart.
proof fn lemma_names_differ()
    ensures
        "u16"@ != "u8"@,
        "u32"@ != "u8"@,
        "u32"@ != "u16"@,
        "u64"@ != "u8"@,
        "u64"@ != "u16"@,
        "u64"@ != "u32"@,
        "i8"@ != "u8"@,
        "i8"@ != "u16"@,
        "i8"@ != "u32"@,
        "i8"@ != "u64"@,
        "i16"@ != "u8"@,
        "i16"@ != "u16"@,
        "i16"@ != "u32"@,
        "i16"@ != "u64"@,
        "i16"@ != "i8"@,
        "i32"@ != "u8"@,
        "i32"@ != "u16"@,
        "i32"@ != "u32"@,
        "i32"@ != "u64"@,
        "i32"@ != "i8"@,
        "i32"@ != "i16"@,
        "i64"@ != "u8"@,
        "i64"@ != "u16"@,
        "i64"@ != "u32"@,
        "i64"@ != "u64"@,
        "i64"@ != "i8"@,
        "i64"@ != "i16"@,
        "i64"@ != "i32"@,
        "u128"@ != "u8"@,
        "u128"@ != "u16"@,
        "u128"@ != "u32"@,
        "u128"@ != "u64"@,
        "u128"@ != "i8"@,
        "u128"@ != "i16"@,
        "u128"@ != "i32"@,
        "u128"@ != "i64"@,
        "usize"@ != "u8"@,
        "usize"@ != "u16"@,
        "usize"@ != "u32"@,
        "usize"@ != "u64"@,
        "usize"@ != "i8"@,
        "usize"@ != "i16"@,
        "usize"@ != "i32"@,
        "usize"@ != "i64"@,
        "i128"@ != "u8"@,
        "i128"@ != "u16"@,
        "i128"@ != "u32"@,
        "i128"@ != "u64"@,
        "i128"@ != "i8"@,
        "i128"@ != "i16"@,
        "i128"@ != "i32"@,
        "i128"@ != "i64"@,
        "isize"@ != "u8"@,
        "isize"@ != "u16"@,
        "isize"@ != "u32"@,
        "isize"@ != "u64"@,
        "isize"@ != "i8"@,
        "isize"@ != "i16"@,
        "isize"@ != "i32"@,
        "isize"@ != "i64"@,
{
    reveal_strlit("u8");
    reveal_strlit("u16");
    reveal_strlit("u32");
    reveal_strlit("u64");
    reveal_strlit("i8");
    reveal_strlit("i16");
    reveal_strlit("i32");
    reveal_strlit("i64");
    reveal_strlit("u128");
    reveal_strlit("usize");
    reveal_strlit("i128");
    reveal_strlit("isize");
    assert("u16"@.len() != "u8"@.len());
    assert("u32"@.len() != "u8"@.len());
    assert("u32"@[1] != "u16"@[1]);
    assert("u64"@.len() != "u8"@.len());
    assert("u64"@[1] != "u16"@[1]);
    assert("u64"@[1] != "u32"@[1]);
    assert("i8"@[0] != "u8"@[0]);
    assert("i8"@.len() != "u16"@.len());
    assert("i8"@.len() != "u32"@.len());
    assert("i8"@.len() != "u64"@.len());
    assert("i16"@.len() != "u8"@.len());
    assert("i16"@[0] != "u16"@[0]);
    assert("i16"@[0] != "u32"@[0]);
    assert("i16"@[0] != "u64"@[0]);
    assert("i16"@.len() != "i8"@.len());
    assert("i32"@.len() != "u8"@.len());
    assert("i32"@[0] != "u16"@[0]);
    assert("i32"@[0] != "u32"@[0]);
    assert("i32"@[0] != "u64"@[0]);
    assert("i32"@.len() != "i8"@.len());
    assert("i32"@[1] != "i16"@[1]);
    assert("i64"@.len() != "u8"@.len());
    assert("i64"@[0] != "u16"@[0]);
    assert("i64"@[0] != "u32"@[0]);
    assert("i64"@[0] != "u64"@[0]);
    assert("i64"@.len() != "i8"@.len());
    assert("i64"@[1] != "i16"@[1]);
    assert("i64"@[1] != "i32"@[1]);
    assert("u128"@.len() != "u8"@.len());
    assert("u128"@.len() != "u16"@.len());
    assert("u128"@.len() != "u32"@.len());
    assert("u128"@.len() != "u64"@.len());
    assert("u128"@.len() != "i8"@.len());
    assert("u128"@.len() != "i16"@.len());
    assert("u128"@.len() != "i32"@.len());
    assert("u128"@.len() != "i64"@.len());
    assert("usize"@.len() != "u8"@.len());
    assert("usize"@.len() != "u16"@.len());
    assert("usize"@.len() != "u32"@.len());
    assert("usize"@.len() != "u64"@.len());
    assert("usize"@.len() != "i8"@.len());
    assert("usize"@.len() != "i16"@.len());
    assert("usize"@.len() != "i32"@.len());
    assert("usize"@.len() != "i64"@.len());
    assert("i128"@.len() != "u8"@.len());
    assert("i128"@.len() != "u16"@.len());
    assert("i128"@.len() != "u32"@.len());
    assert("i128"@.len() != "u64"@.len());
    assert("i128"@.len() != "i8"@.len());
    assert("i128"@.len() != "i16"@.len());
    assert("i128"@.len() != "i32"@.len());
    assert("i128"@.len() != "i64"@.len());
    assert("isize"@.len() != "u8"@.len());
    assert("isize"@.len() != "u16"@.len());
    assert("isize"@.len() != "u32"@.len());
    assert("isize"@.len() != "u64"@.len());
    assert("isize"@.len() != "i8"@.len());
    assert("isize"@.len() != "i16"@.len());
    assert("isize"@.len() != "i32"@.len());
    assert("isize"@.len() != "i64"@.len());
}

/// Whether a layout wastes nothing: a pointer takes one word, a function's own type nothing, and a
/// tuple is its fields together.
pub open spec fn is_packed(layout: spec_fn(Ty) -> nat, ptr: nat) -> bool {
    is_layout(layout, ptr) && forall|ty: Ty| #[trigger] packed_holds(layout, ty, ptr)
}

/// What a layout that wastes nothing owes to one type.
pub open spec fn packed_holds(layout: spec_fn(Ty) -> nat, ty: Ty, ptr: nat) -> bool {
    match ty.kind {
        TyKind::RigidTy(rigid) => match rigid {
            RigidTy::Ref(_, _) => layout(ty) == ptr,
            RigidTy::RawPtr(_, _) => layout(ty) == ptr,
            RigidTy::FnPtr => layout(ty) == ptr,
            RigidTy::FnDef(_) => layout(ty) == 0,
            RigidTy::Tuple(elems) => layout(ty) == laid_out(layout, elems, elems@.len()),
            _ => true,
        },
        _ => true,
    }
}

/// The estimate of a size leaves nothing out: it is what the type takes in a layout that wastes
/// nothing.
pub proof fn law_size_is_exact_where_nothing_is_wasted(
    ty: Ty,
    layout: spec_fn(Ty) -> nat,
    ptr: nat,
)
    requires
        is_packed(layout, ptr),
    ensures
        min_size(ty, ptr) matches Some(n) ==> n == layout(ty),
    decreases ty, 0nat,
{
    assert(layout_holds(layout, ty, ptr));
    assert(packed_holds(layout, ty, ptr));
    match ty.kind {
        TyKind::RigidTy(RigidTy::Array(elem, _)) => {
            law_size_is_exact_where_nothing_is_wasted(*elem, layout, ptr);
        },
        TyKind::RigidTy(RigidTy::Tuple(elems)) => {
            lemma_total_is_exact(elems, elems@.len(), layout, ptr);
        },
        _ => {},
    }
}

proof fn lemma_total_is_exact(tys: Vec<Ty>, n: nat, layout: spec_fn(Ty) -> nat, ptr: nat)
    requires
        is_packed(layout, ptr),
        n <= tys@.len(),
    ensures
        min_total(tys, n, ptr) matches Some(total) ==> total == laid_out(layout, tys, n),
    decreases tys, n,
{
    if n > 0 {
        lemma_total_is_exact(tys, (n - 1) as nat, layout, ptr);
        law_size_is_exact_where_nothing_is_wasted(tys@[n - 1], layout, ptr);
    }
}

/// Whether the size of a type can be told: it is a scalar, a pointer, a function's own type, or an
/// array or a tuple of such.
pub open spec fn has_known_size(ty: Ty) -> bool
    decreases ty, 0nat,
{
    match ty.kind {
        TyKind::RigidTy(rigid) => match rigid {
            RigidTy::Array(elem, _) => has_known_size(*elem),
            RigidTy::Tuple(elems) => have_known_sizes(elems, elems@.len()),
            RigidTy::Slice(_) => false,
            RigidTy::Closure(_) => false,
            RigidTy::Adt(_) => false,
            _ => true,
        },
        _ => false,
    }
}

/// Whether the sizes of the first `n` of `tys` can be told.
pub open spec fn have_known_sizes(tys: Vec<Ty>, n: nat) -> bool
    decreases tys, n,
{
    if n == 0 || n > tys@.len() {
        n == 0
    } else {
        have_known_sizes(tys, (n - 1) as nat) && has_known_size(tys@[n - 1])
    }
}

/// A size is estimated just where it can be told.
pub proof fn law_known_sizes_are_estimated(ty: Ty, ptr: nat)
    ensures
        min_size(ty, ptr) is Some <==> has_known_size(ty),
    decreases ty, 0nat,
{
    match ty.kind {
        TyKind::RigidTy(RigidTy::Array(elem, _)) => {
            law_known_sizes_are_estimated(*elem, ptr);
        },
        TyKind::RigidTy(RigidTy::Tuple(elems)) => {
            lemma_known_totals(elems, elems@.len(), ptr);
        },
        _ => {},
    }
}

proof fn lemma_known_totals(tys: Vec<Ty>, n: nat, ptr: nat)
    ensures
        min_total(tys, n, ptr) is Some <==> have_known_sizes(tys, n),
    decreases tys, n,
{
    if n > 0 && n <= tys@.len() {
        lemma_known_totals(tys, (n - 1) as nat, ptr);
        law_known_sizes_are_estimated(tys@[n - 1], ptr);
    }
}

/// A cast between integer types is accepted just if it is of a constant that is a value of both:
/// then it keeps the value.
pub proof fn law_casts_are_accepted_just_if_they_keep_the_value(op: Operand, target: Ty, span: Span)
    ensures
        ({
            let fs = cast_findings(CastKind::IntToInt, op, target, span);
            &&& fs.len() == 1
            &&& !(fs[0] is Violation) <==> (op matches Operand::Constant(c) && c.value is Some
                && integer_kind(c.ty) is Some && integer_kind(target) is Some && is_value(
                c.value->0 as int,
                (integer_kind(c.ty)->0).0,
                (integer_kind(c.ty)->0).1 as nat,
            ) && is_value(
                c.value->0 as int,
                (integer_kind(target)->0).0,
                (integer_kind(target)->0).1 as nat,
            ))
        }),
{
    if let Operand::Constant(c) = op {
        law_integer_types_are_encoded_as_they_are(c.ty);
        law_integer_types_are_encoded_as_they_are(target);
        if let Some(v) = c.value {
            if let Some((signed, bits)) = integer_kind(c.ty) {
                lemma_range_is_value(v as int, signed, bits);
            }
            if let Some((signed, bits)) = integer_kind(target) {
                lemma_range_is_value(v as int, signed, bits);
            }
        }
    }
}

// ---------------------------------------------------------------------------
// Capture.
// ---------------------------------------------------------------------------

/// An arithmetic operation on captured operands is captured, and so is the use of one.
pub proof fn law_arithmetic_on_captured_operands_is_captured(
    body: Body,
    known: Known,
    ty: Seq<char>,
    op: BinOp,
    a: Operand,
    b: Operand,
)
    requires
        int_info(ty) is Some,
        captured_operand(body, a, known, ty) is Some,
        captured_operand(body, b, known, ty) is Some,
    ensures
        captured_rvalue(body, Rvalue::Use(a), known, ty) is Some,
        is_arithmetic(op) <==> captured_rvalue(body, Rvalue::BinaryOp(op, a, b), known, ty) is Some,
{
    let (signed, bits) = int_info(ty)->0;
    lemma_info_width(ty);
    vstd::arithmetic::power2::lemma_pow2_pos(bits as nat);
    law_operation_names_mean_the_operations(op, signed, bits as nat, 0, 0);
}

/// Whether a terminator goes on straight to the block `b`: a jump, or an assertion that holds.
pub open spec fn goes_straight_to(kind: TerminatorKind, b: int) -> bool {
    match kind {
        TerminatorKind::Goto { target } => b == target.0,
        TerminatorKind::Assert { target, .. } => b == target.0,
        _ => false,
    }
}

/// Whether `p` is a straight line from the block `at` to a return.
pub open spec fn line_to_return(body: Body, at: int, p: Seq<int>) -> bool {
    &&& p.len() > 0
    &&& p[0] == at
    &&& forall|i: int| 0 <= i < p.len() ==> 0 <= #[trigger] p[i] < body.blocks@.len()
    &&& forall|i: int|
        0 <= i < p.len() - 1 ==> goes_straight_to(
            body.blocks@[#[trigger] p[i]].terminator.kind,
            p[i + 1],
        )
    &&& body.blocks@[p.last()].terminator.kind is Return
}

proof fn lemma_line_returns(
    body: Body,
    p: Seq<int>,
    i: int,
    known: Known,
    start: Known,
    ty: Seq<char>,
)
    requires
        line_to_return(body, p[0], p),
        0 <= i < p.len(),
        known == known_along(body, p.take(i), start, ty),
    ensures
        returned_from(body, p[i], (p.len() - i) as nat, known, ty) == entry(
            known_along(body, p, start, ty).whole,
            0,
        ),
    decreases p.len() - i,
{
    let block = body.blocks@[p[i]];
    let after = after_statements(body, known, block.statements@, ty);
    assert(p.take(i + 1).drop_last() =~= p.take(i));
    assert(p.take(i + 1).last() == p[i]);
    if i == p.len() - 1 {
        assert(p.take(i + 1) =~= p);
        assert(block.terminator.kind is Return);
    } else {
        assert(goes_straight_to(block.terminator.kind, p[i + 1]));
        lemma_line_returns(body, p, i + 1, after, start, ty);
    }
}

/// What a straight line returns is captured: if the body goes by jumps and assertions to a return,
/// and the statements on the way leave a term for the return slot, then that term is the captured
/// return value.
pub proof fn law_straight_lines_are_captured(body: Body, ty: Seq<char>, p: Seq<int>)
    requires
        primitive_int_name(body.return_ty) == Some(ty),
        line_to_return(body, 0, p),
        known_along(body, p, entry_names(body, ty), ty).whole.contains_key(0),
    ensures
        body_effect(body) == Some(known_along(body, p, entry_names(body, ty), ty).whole[0]),
{
    let start = entry_names(body, ty);
    assert(p.take(0) =~= Seq::empty());
    lemma_line_returns(body, p, 0, start, start, ty);
    law_no_straight_line_is_cut_short(body, p.len(), start, ty);
}

} // verus!
