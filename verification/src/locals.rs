//! Facts about a body that need no flow analysis: the types and names of its operands, the locals
//! it writes, and the edges between its blocks.
use vstd::prelude::*;
use crate::mir_api::{
    BasicBlock, BasicBlockData, Body, IntTy, Local, Operand, Place, RigidTy, Statement,
    StatementKind, TerminatorKind, Ty, TyKind, UintTy,
};
use crate::text::opt_view;

verus! {

/// The name of a primitive integer type.
pub open spec fn primitive_int_name(ty: Ty) -> Option<Seq<char>> {
    match ty.kind {
        TyKind::RigidTy(RigidTy::Int(i)) => Some(
            match i {
                IntTy::Isize => "isize"@,
                IntTy::I8 => "i8"@,
                IntTy::I16 => "i16"@,
                IntTy::I32 => "i32"@,
                IntTy::I64 => "i64"@,
                IntTy::I128 => "i128"@,
            },
        ),
        TyKind::RigidTy(RigidTy::Uint(u)) => Some(
            match u {
                UintTy::Usize => "usize"@,
                UintTy::U8 => "u8"@,
                UintTy::U16 => "u16"@,
                UintTy::U32 => "u32"@,
                UintTy::U64 => "u64"@,
                UintTy::U128 => "u128"@,
            },
        ),
        _ => None,
    }
}

/// The name of `ty`, if it is a primitive integer type.
pub fn primitive_int_name_from_ty(ty: &Ty) -> (r: Option<String>)
    ensures
        opt_view(r) == primitive_int_name(*ty),
{
    let name = match &ty.kind {
        TyKind::RigidTy(RigidTy::Int(i)) => match i {
            IntTy::Isize => "isize",
            IntTy::I8 => "i8",
            IntTy::I16 => "i16",
            IntTy::I32 => "i32",
            IntTy::I64 => "i64",
            IntTy::I128 => "i128",
        },
        TyKind::RigidTy(RigidTy::Uint(u)) => match u {
            UintTy::Usize => "usize",
            UintTy::U8 => "u8",
            UintTy::U16 => "u16",
            UintTy::U32 => "u32",
            UintTy::U64 => "u64",
            UintTy::U128 => "u128",
        },
        _ => return None,
    };
    Some(name.to_owned())
}

/// The place that an operand reads, unless it is a constant.
pub open spec fn place_of(op: Operand) -> Option<Place> {
    match op {
        Operand::Copy(p) => Some(p),
        Operand::Move(p) => Some(p),
        Operand::Constant(_) => None,
    }
}

/// The local that an operand reads whole.
pub open spec fn bare_local(op: Operand) -> Option<Local> {
    match place_of(op) {
        Some(p) => if p.projection@.len() == 0 {
            Some(p.local)
        } else {
            None
        },
        None => None,
    }
}

/// The local that `op` reads whole.
pub fn bare_local_of(op: &Operand) -> (r: Option<Local>)
    ensures
        r == bare_local(*op),
{
    match op {
        Operand::Constant(_) => None,
        Operand::Copy(p) => {
            if p.projection.len() == 0 {
                Some(p.local)
            } else {
                None
            }
        },
        Operand::Move(p) => {
            if p.projection.len() == 0 {
                Some(p.local)
            } else {
                None
            }
        },
    }
}

/// The name of the primitive integer type that the local `l` is declared with.
pub open spec fn local_int_name(body: Body, l: int) -> Option<Seq<char>> {
    if 0 <= l < body.locals@.len() {
        primitive_int_name(body.locals@[l].ty)
    } else {
        None
    }
}

/// The name of the primitive integer type that the local `l` of `body` is declared with.
pub fn local_primitive_int_name(body: &Body, l: usize) -> (r: Option<String>)
    ensures
        opt_view(r) == local_int_name(*body, l as int),
{
    if l < body.locals.len() {
        primitive_int_name_from_ty(&body.locals[l].ty)
    } else {
        None
    }
}

/// The name of the primitive integer type of an operand: that of the constant, or of the local
/// that is read whole.
pub open spec fn operand_int_name(body: Body, op: Operand) -> Option<Seq<char>> {
    match op {
        Operand::Constant(c) => primitive_int_name(c.ty),
        _ => match bare_local(op) {
            Some(l) => local_int_name(body, l.0 as int),
            None => None,
        },
    }
}

/// The name of the primitive integer type of `op`, where it can be told.
pub fn operand_primitive_int_name(body: &Body, op: &Operand) -> (r: Option<String>)
    ensures
        opt_view(r) == operand_int_name(*body, *op),
{
    match op {
        Operand::Constant(c) => primitive_int_name_from_ty(&c.ty),
        _ => match bare_local_of(op) {
            Some(l) => local_primitive_int_name(body, l.0 as usize),
            None => None,
        },
    }
}

/// The source name of the parameter that is the local `l`, if it is one and has a name.
pub open spec fn arg_name(body: Body, l: int) -> Option<Seq<char>> {
    if 1 <= l <= body.arg_names@.len() && body.arg_names@[l - 1]@.len() > 0 {
        Some(body.arg_names@[l - 1]@)
    } else {
        None
    }
}

/// The source name of the parameter that is the local `local`.
pub fn local_arg_name(body: &Body, local: Local) -> (r: Option<String>)
    ensures
        opt_view(r) == arg_name(*body, local.0 as int),
{
    let l: usize = local.0 as usize;
    if l == 0 || l > body.arg_names.len() {
        return None;
    }
    let name = &body.arg_names[l - 1];
    if name.as_str().is_empty() {
        None
    } else {
        Some(name.clone())
    }
}

/// The source name of the parameter that an operand reads whole.
pub open spec fn operand_arg(body: Body, op: Operand) -> Option<Seq<char>> {
    match bare_local(op) {
        Some(l) => arg_name(body, l.0 as int),
        None => None,
    }
}

/// The source name of the parameter that `op` reads whole.
pub fn operand_arg_name(body: &Body, op: &Operand) -> (r: Option<String>)
    ensures
        opt_view(r) == operand_arg(*body, *op),
{
    match bare_local_of(op) {
        Some(l) => local_arg_name(body, l),
        None => None,
    }
}

// ---------------------------------------------------------------------------
// Names that must be unambiguous.
// ---------------------------------------------------------------------------

/// Whether `t` is the name at position `i`, and at no other.
pub open spec fn sole_at(names: Seq<String>, t: Seq<char>, i: int) -> bool {
    0 <= i < names.len() && names[i]@ == t && forall|j: int|
        0 <= j < names.len() && j != i ==> (#[trigger] names[j])@ != t
}

/// The one position of the name `t`, if it has just one.
pub open spec fn sole_index(names: Seq<String>, t: Seq<char>) -> Option<int> {
    if exists|i: int| sole_at(names, t, i) {
        Some(choose|i: int| sole_at(names, t, i))
    } else {
        None
    }
}

/// The one position of the name `t` among `names`, if it has just one.
pub fn find_sole(names: &Vec<String>, t: &str) -> (r: Option<usize>)
    ensures
        match r {
            Some(i) => sole_index(names@, t@) == Some(i as int) && sole_at(names@, t@, i as int),
            None => sole_index(names@, t@) is None,
        },
{
    let mut found: Option<usize> = None;
    let mut i: usize = 0;
    while i < names.len()
        invariant
            i <= names@.len(),
            match found {
                Some(k) => k < i && names@[k as int]@ == t@ && forall|j: int|
                    0 <= j < i && j != k ==> (#[trigger] names@[j])@ != t@,
                None => forall|j: int| 0 <= j < i ==> (#[trigger] names@[j])@ != t@,
            },
        decreases names@.len() - i,
    {
        if crate::text::same(names[i].as_str(), t) {
            match found {
                Some(k) => {
                    proof {
                        assert forall|m: int| !sole_at(names@, t@, m) by {
                            if sole_at(names@, t@, m) {
                                assert(names@[k as int]@ == t@ && names@[i as int]@ == t@);
                            }
                        }
                    }
                    return None;
                },
                None => {
                    found = Some(i);
                },
            }
        }
        i += 1;
    }
    proof {
        match found {
            Some(k) => {
                assert(sole_at(names@, t@, k as int));
                let c = choose|m: int| sole_at(names@, t@, m);
                assert(sole_at(names@, t@, c));
                if c != k {
                    assert(names@[c]@ == t@);
                }
            },
            None => {
                assert forall|m: int| !sole_at(names@, t@, m) by {
                    if 0 <= m < names@.len() {
                        assert(names@[m]@ != t@);
                    }
                }
            },
        }
    }
    found
}

// ---------------------------------------------------------------------------
// Written locals.
// ---------------------------------------------------------------------------

/// The local that a statement stores to, or whose provenance it changes.
pub open spec fn statement_target(stmt: Statement) -> Option<u32> {
    match stmt.kind {
        StatementKind::Assign(place, _) => Some(place.local.0),
        StatementKind::SetDiscriminant { place, .. } => Some(place.local.0),
        StatementKind::Deinit(place) => Some(place.local.0),
        StatementKind::Retag(_, place) => Some(place.local.0),
        _ => None,
    }
}

/// The local that a terminator stores to: a call's destination.
pub open spec fn terminator_target(kind: TerminatorKind) -> Option<u32> {
    match kind {
        TerminatorKind::Call { destination, .. } => Some(destination.local.0),
        _ => None,
    }
}

/// Whether a block stores to the local `l`.
pub open spec fn block_writes(block: BasicBlockData, l: u32) -> bool {
    terminator_target(block.terminator.kind) == Some(l) || exists|i: int|
        0 <= i < block.statements@.len() && statement_target(#[trigger] block.statements@[i])
            == Some(l)
}

/// Whether some block of `blocks` stores to the local `l`.
pub open spec fn writes(blocks: Seq<BasicBlockData>, l: u32) -> bool {
    exists|b: int| 0 <= b < blocks.len() && block_writes(#[trigger] blocks[b], l)
}

fn target_of(stmt: &Statement) -> (r: Option<u32>)
    ensures
        r == statement_target(*stmt),
{
    match &stmt.kind {
        StatementKind::Assign(place, _) => Some(place.local.0),
        StatementKind::SetDiscriminant { place, .. } => Some(place.local.0),
        StatementKind::Deinit(place) => Some(place.local.0),
        StatementKind::Retag(_, place) => Some(place.local.0),
        StatementKind::FakeRead(_) => None,
        StatementKind::PlaceMention(_) => None,
        StatementKind::AscribeUserType(_) => None,
        StatementKind::StorageLive(_) => None,
        StatementKind::StorageDead(_) => None,
        StatementKind::Coverage => None,
        StatementKind::Intrinsic(_) => None,
        StatementKind::ConstEvalCounter => None,
        StatementKind::Nop => None,
    }
}

/// Every local that `body` ever stores to.
pub fn assigned_locals(body: &Body) -> (r: Vec<u32>)
    ensures
        forall|l: u32| #[trigger] r@.contains(l) <==> writes(body.blocks@, l),
{
    let mut written: Vec<u32> = Vec::new();
    let mut b: usize = 0;
    while b < body.blocks.len()
        invariant
            b <= body.blocks@.len(),
            forall|l: u32| #[trigger]
                written@.contains(l) <==> exists|k: int|
                    0 <= k < b && block_writes(#[trigger] body.blocks@[k], l),
        decreases body.blocks@.len() - b,
    {
        let block = &body.blocks[b];
        let ghost base = written@;
        let mut i: usize = 0;
        while i < block.statements.len()
            invariant
                i <= block.statements@.len(),
                forall|l: u32| #[trigger]
                    written@.contains(l) <==> base.contains(l) || exists|k: int|
                        0 <= k < i && statement_target(#[trigger] block.statements@[k]) == Some(l),
            decreases block.statements@.len() - i,
        {
            let ghost before = written@;
            if let Some(l) = target_of(&block.statements[i]) {
                written.push(l);
                assert(written@.last() == l);
                assert forall|m: u32| #[trigger]
                    written@.contains(m) <==> before.contains(m) || m == l by {
                    if before.contains(m) {
                        let j = choose|j: int| 0 <= j < before.len() && before[j] == m;
                        assert(written@[j] == m);
                    }
                    if m == l {
                        assert(written@[before.len() as int] == m);
                    }
                }
            }
            i += 1;
        }
        let ghost before = written@;
        if let TerminatorKind::Call { destination, .. } = &block.terminator.kind {
            written.push(destination.local.0);
            assert forall|m: u32| #[trigger]
                written@.contains(m) <==> before.contains(m) || m == destination.local.0 by {
                if before.contains(m) {
                    let j = choose|j: int| 0 <= j < before.len() && before[j] == m;
                    assert(written@[j] == m);
                }
                if m == destination.local.0 {
                    assert(written@[before.len() as int] == m);
                }
            }
        }
        proof {
            assert forall|l: u32| #[trigger]
                written@.contains(l) <==> exists|k: int|
                    0 <= k < b + 1 && block_writes(#[trigger] body.blocks@[k], l) by {
                if base.contains(l) {
                    let k = choose|k: int|
                        0 <= k < b && block_writes(#[trigger] body.blocks@[k], l);
                    assert(block_writes(body.blocks@[k], l));
                }
                if block_writes(*block, l) {
                    assert(block_writes(body.blocks@[b as int], l));
                }
            }
        }
        b += 1;
    }
    written
}

// ---------------------------------------------------------------------------
// Edges.
// ---------------------------------------------------------------------------

/// The blocks that a terminator can go on to, one entry per edge.
pub open spec fn successors(kind: TerminatorKind) -> Seq<u32> {
    match kind {
        TerminatorKind::Goto { target } => seq![target.0],
        TerminatorKind::Drop { target, .. } => seq![target.0],
        TerminatorKind::Assert { target, .. } => seq![target.0],
        TerminatorKind::SwitchInt { targets, .. } => targets@.map_values(|t: BasicBlock| t.0),
        TerminatorKind::Call { target, .. } => match target {
            Some(t) => seq![t.0],
            None => seq![],
        },
        TerminatorKind::Yield { resume, .. } => seq![resume.0],
        TerminatorKind::FalseEdge { real_target } => seq![real_target.0],
        TerminatorKind::FalseUnwind { real_target } => seq![real_target.0],
        _ => seq![],
    }
}

/// The blocks that a terminator can go on to, one entry per edge.
pub fn terminator_successors(kind: &TerminatorKind) -> (r: Vec<u32>)
    ensures
        r@ == successors(*kind),
{
    let mut r: Vec<u32> = Vec::new();
    match kind {
        TerminatorKind::Goto { target } => {
            r.push(target.0);
        },
        TerminatorKind::Drop { target, .. } => {
            r.push(target.0);
        },
        TerminatorKind::Assert { target, .. } => {
            r.push(target.0);
        },
        TerminatorKind::SwitchInt { targets, .. } => {
            let mut i: usize = 0;
            while i < targets.len()
                invariant
                    i <= targets@.len(),
                    r@ =~= targets@.map_values(|t: BasicBlock| t.0).take(i as int),
                decreases targets@.len() - i,
            {
                r.push(targets[i].0);
                i += 1;
            }
        },
        TerminatorKind::Call { target, .. } => {
            if let Some(t) = target {
                r.push(t.0);
            }
        },
        TerminatorKind::Yield { resume, .. } => {
            r.push(resume.0);
        },
        TerminatorKind::FalseEdge { real_target } => {
            r.push(real_target.0);
        },
        TerminatorKind::FalseUnwind { real_target } => {
            r.push(real_target.0);
        },
        TerminatorKind::UnwindResume => {},
        TerminatorKind::UnwindTerminate => {},
        TerminatorKind::Return => {},
        TerminatorKind::Unreachable => {},
        TerminatorKind::TailCall { .. } => {},
        TerminatorKind::CoroutineDrop => {},
        TerminatorKind::InlineAsm { .. } => {},
    }
    assert(r@ =~= successors(*kind));
    r
}

/// How often `b` stands in `targets`.
pub open spec fn edges_to(targets: Seq<u32>, b: int) -> nat
    decreases targets.len(),
{
    if targets.len() == 0 {
        0
    } else {
        edges_to(targets.drop_last(), b) + if targets.last() == b {
            1nat
        } else {
            0nat
        }
    }
}

/// How many edges of `blocks` lead to the block `b`.
pub open spec fn in_edges(blocks: Seq<BasicBlockData>, b: int) -> nat
    decreases blocks.len(),
{
    if blocks.len() == 0 {
        0
    } else {
        in_edges(blocks.drop_last(), b) + edges_to(successors(blocks.last().terminator.kind), b)
    }
}

/// A count as a `usize` can hold it.
pub open spec fn capped(n: nat) -> nat {
    if n <= usize::MAX {
        n
    } else {
        usize::MAX as nat
    }
}

/// How many edges lead to each block. A target outside the body leads to none.
pub fn block_in_edge_counts(blocks: &Vec<BasicBlockData>) -> (r: Vec<usize>)
    ensures
        r@.len() == blocks@.len(),
        forall|b: int| 0 <= b < r@.len() ==> #[trigger] r@[b] == capped(in_edges(blocks@, b)),
{
    let n: usize = blocks.len();
    let mut counts: Vec<usize> = Vec::new();
    let mut i: usize = 0;
    while i < n
        invariant
            i <= n,
            counts@.len() == i,
            forall|b: int| 0 <= b < i ==> #[trigger] counts@[b] == 0,
        decreases n - i,
    {
        counts.push(0);
        i += 1;
    }
    let mut k: usize = 0;
    assert(blocks@.take(0) =~= Seq::empty());
    while k < n
        invariant
            k <= n,
            n == blocks@.len(),
            counts@.len() == n,
            forall|b: int|
                0 <= b < n ==> #[trigger] counts@[b] == capped(in_edges(blocks@.take(k as int), b)),
        decreases n - k,
    {
        let targets = terminator_successors(&blocks[k].terminator.kind);
        let mut j: usize = 0;
        assert(targets@.take(0) =~= Seq::empty());
        while j < targets.len()
            invariant
                j <= targets@.len(),
                k < n,
                n == blocks@.len(),
                counts@.len() == n,
                forall|b: int|
                    0 <= b < n ==> #[trigger] counts@[b] == capped(
                        in_edges(blocks@.take(k as int), b) + edges_to(targets@.take(j as int), b),
                    ),
            decreases targets@.len() - j,
        {
            let target: usize = targets[j] as usize;
            proof {
                assert(targets@.take(j + 1).drop_last() =~= targets@.take(j as int));
                assert(targets@.take(j + 1).last() == targets@[j as int]);
            }
            if target < n {
                let count: usize = counts[target];
                let more: usize = if count == usize::MAX {
                    count
                } else {
                    count + 1
                };
                counts.set(target, more);
            }
            j += 1;
        }
        proof {
            assert(targets@.take(j as int) =~= targets@);
            assert(blocks@.take(k + 1).drop_last() =~= blocks@.take(k as int));
            assert(blocks@.take(k + 1).last() == blocks@[k as int]);
        }
        k += 1;
    }
    assert(blocks@.take(n as int) =~= blocks@);
    counts
}

} // verus!
