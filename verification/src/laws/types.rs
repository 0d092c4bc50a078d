//! What holds of the rules on types, and of the estimate of their sizes.
use vstd::prelude::*;
use crate::mir_api::{AdtDef, FloatTy, IntTy, RigidTy, Ty, TyKind, UintTy};
use crate::paths::root_suffix;
use crate::rules::RuleId;
use crate::text::begins;
use crate::types::{adt_rule, min_size, min_total, oversized};

verus! {

/// The rule of a broken rule.
pub open spec fn rule_of(r: Option<(RuleId, Seq<char>)>) -> Option<RuleId> {
    match r {
        Some((rule, _)) => Some(rule),
        None => None,
    }
}

/// What follows a root is what was put behind it.
pub proof fn lemma_root_suffix(rest: Seq<char>)
    ensures
        root_suffix("core::"@ + rest) == Some(rest),
        root_suffix("std::"@ + rest) == Some(rest),
        root_suffix("alloc::"@ + rest) == Some(rest),
{
    reveal_strlit("core::");
    reveal_strlit("std::");
    reveal_strlit("alloc::");
    let a = "core::"@ + rest;
    let b = "std::"@ + rest;
    let c = "alloc::"@ + rest;
    assert(a.subrange(0, 6) =~= "core::"@);
    assert(a.skip(6) =~= rest);
    assert(b.subrange(0, 5) =~= "std::"@);
    assert(b.skip(5) =~= rest);
    assert(b[0] == 's');
    assert(c.subrange(0, 7) =~= "alloc::"@);
    assert(c.skip(7) =~= rest);
    assert(c[0] == 'a');
    assert(!begins(b, "core::")) by {
        if begins(b, "core::") {
            assert(b.subrange(0, 6)[0] == 'c');
        }
    }
    assert(!begins(c, "core::")) by {
        if begins(c, "core::") {
            assert(c.subrange(0, 6)[0] == 'c');
        }
    }
    assert(!begins(c, "std::")) by {
        if begins(c, "std::") {
            assert(c.subrange(0, 5)[0] == 's');
        }
    }
}

/// A standard library type breaks the same rule whichever root it is named through.
pub proof fn law_roots_are_interchangeable(
    via_core: AdtDef,
    via_std: AdtDef,
    via_alloc: AdtDef,
    rest: Seq<char>,
)
    requires
        via_core.path@ == "core::"@ + rest,
        via_std.path@ == "std::"@ + rest,
        via_alloc.path@ == "alloc::"@ + rest,
        via_core.is_union == via_std.is_union,
        via_std.is_union == via_alloc.is_union,
    ensures
        rule_of(adt_rule(via_core)) == rule_of(adt_rule(via_std)),
        rule_of(adt_rule(via_std)) == rule_of(adt_rule(via_alloc)),
{
    lemma_root_suffix(rest);
}

/// Every placeholder type is refused, known or not, but for the one of the type `!`.
pub proof fn law_placeholders_fail_closed(adt: AdtDef)
    requires
        begins(adt.path@, "__pitbull_"),
    ensures
        adt_rule(adt) is None <==> !adt.is_union && adt.path@ == "__pitbull_never"@,
{
    reveal_strlit("__pitbull_");
    reveal_strlit("__pitbull_never");
    reveal_strlit("never");
    reveal_strlit("core::");
    reveal_strlit("std::");
    reveal_strlit("alloc::");
    let p = adt.path@;
    assert(p.subrange(0, 10)[0] == '_');
    assert(root_suffix(p) is None) by {
        if begins(p, "core::") {
            assert(p.subrange(0, 6)[0] == 'c');
        }
        if begins(p, "std::") {
            assert(p.subrange(0, 5)[0] == 's');
        }
        if begins(p, "alloc::") {
            assert(p.subrange(0, 7)[0] == 'a');
        }
    }
    if p == "__pitbull_never"@ {
        assert(p.skip(10) =~= "never"@);
    }
    if p.skip(10) == "never"@ {
        assert(p =~= p.subrange(0, 10) + p.skip(10));
        assert("__pitbull_"@ + "never"@ =~= "__pitbull_never"@);
    }
}

/// A type that is not a placeholder and not in the standard library breaks no rule, unless it is a
/// union.
pub proof fn law_other_types_are_accepted(adt: AdtDef)
    requires
        !adt.is_union,
        root_suffix(adt.path@) is None,
        !begins(adt.path@, "__pitbull_"),
    ensures
        adt_rule(adt) is None,
{
}

// ---------------------------------------------------------------------------
// Sizes.
// ---------------------------------------------------------------------------

/// Whether `layout` is how a target with pointers of `ptr` bytes may lay out types: scalars have
/// their widths, a pointer takes a word at least, an array is its elements one after the other, and
/// a tuple is no smaller than its fields together.
pub open spec fn is_layout(layout: spec_fn(Ty) -> nat, ptr: nat) -> bool {
    forall|ty: Ty| #[trigger] layout_holds(layout, ty, ptr)
}

/// The sum of the sizes of the first `n` types of `tys`.
pub open spec fn laid_out(layout: spec_fn(Ty) -> nat, tys: Vec<Ty>, n: nat) -> nat
    decreases n,
{
    if n == 0 || n > tys@.len() {
        0
    } else {
        laid_out(layout, tys, (n - 1) as nat) + layout(tys@[n - 1])
    }
}

/// What a layout owes to one type.
pub open spec fn layout_holds(layout: spec_fn(Ty) -> nat, ty: Ty, ptr: nat) -> bool {
    match ty.kind {
        TyKind::RigidTy(rigid) => match rigid {
            RigidTy::Bool => layout(ty) == 1,
            RigidTy::Char => layout(ty) == 4,
            RigidTy::Int(i) => layout(ty) == (match i {
                IntTy::I8 => 1nat,
                IntTy::I16 => 2,
                IntTy::I32 => 4,
                IntTy::I64 => 8,
                IntTy::I128 => 16,
                IntTy::Isize => ptr,
            }),
            RigidTy::Uint(u) => layout(ty) == (match u {
                UintTy::U8 => 1nat,
                UintTy::U16 => 2,
                UintTy::U32 => 4,
                UintTy::U64 => 8,
                UintTy::U128 => 16,
                UintTy::Usize => ptr,
            }),
            RigidTy::Float(f) => layout(ty) == (match f {
                FloatTy::F16 => 2nat,
                FloatTy::F32 => 4,
                FloatTy::F64 => 8,
                FloatTy::F128 => 16,
            }),
            RigidTy::Ref(_, _) => layout(ty) >= ptr,
            RigidTy::RawPtr(_, _) => layout(ty) >= ptr,
            RigidTy::FnPtr => layout(ty) >= ptr,
            RigidTy::Array(elem, count) => layout(ty) == count as nat * layout(*elem),
            RigidTy::Tuple(elems) => layout(ty) >= laid_out(layout, elems, elems@.len()),
            _ => true,
        },
        _ => true,
    }
}

/// The estimate of a size is never more than what the type takes, however the target lays it out.
pub proof fn law_size_is_a_lower_bound(ty: Ty, layout: spec_fn(Ty) -> nat, ptr: nat)
    requires
        is_layout(layout, ptr),
    ensures
        min_size(ty, ptr) matches Some(n) ==> n <= layout(ty),
    decreases ty, 0nat,
{
    assert(layout_holds(layout, ty, ptr));
    match ty.kind {
        TyKind::RigidTy(RigidTy::Array(elem, count)) => {
            law_size_is_a_lower_bound(*elem, layout, ptr);
            if let Some(n) = min_size(*elem, ptr) {
                assert(count as nat * n <= count as nat * layout(*elem)) by (nonlinear_arith)
                    requires
                        n <= layout(*elem),
                ;
            }
        },
        TyKind::RigidTy(RigidTy::Tuple(elems)) => {
            lemma_total_is_a_lower_bound(elems, elems@.len(), layout, ptr);
        },
        _ => {},
    }
}

/// The estimate of a sum of sizes is never more than the sum.
proof fn lemma_total_is_a_lower_bound(
    tys: Vec<Ty>,
    n: nat,
    layout: spec_fn(Ty) -> nat,
    ptr: nat,
)
    requires
        is_layout(layout, ptr),
        n <= tys@.len(),
    ensures
        min_total(tys, n, ptr) matches Some(total) ==> total <= laid_out(layout, tys, n),
    decreases tys, n,
{
    if n > 0 {
        lemma_total_is_a_lower_bound(tys, (n - 1) as nat, layout, ptr);
        law_size_is_a_lower_bound(tys@[n - 1], layout, ptr);
    }
}

/// No local is refused for its size that would fit the limit, however the target lays it out: only
/// a local that takes more than the limit, or whose size no `u64` counts, is.
pub proof fn law_no_false_size_violation(ty: Ty, layout: spec_fn(Ty) -> nat, ptr: nat, limit: u64)
    requires
        is_layout(layout, ptr),
        oversized(min_size(ty, ptr), limit),
    ensures
        layout(ty) > limit || layout(ty) >= u64::MAX,
{
    law_size_is_a_lower_bound(ty, layout, ptr);
}

/// A size that is beyond the range of the estimate is over every limit.
pub proof fn law_huge_sizes_are_refused(size: nat, limit: u64)
    requires
        size > u64::MAX,
    ensures
        oversized(Some(size), limit),
{
}

/// Below the top of the range, a size is refused just if it is over the limit.
pub proof fn law_limit_is_exact(size: nat, limit: u64)
    requires
        size < u64::MAX,
    ensures
        oversized(Some(size), limit) <==> size > limit,
{
}

} // verus!
