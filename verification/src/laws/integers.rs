//! What holds of the method families of the primitive integers.
use vstd::prelude::*;
use crate::paths::{
    on_option_or_result, panicking_call, panicking_int_method, panicking_iterator_method,
    trusted_total_library_call,
};
use crate::text::{ends, holds, occurs_at};

verus! {

/// The path of the method `x` of the primitive integer type `ty`.
pub open spec fn int_method(ty: Seq<char>, x: Seq<char>) -> Seq<char> {
    "core::num::<impl "@ + ty + ">::"@ + x
}

/// The names of the signed primitive integer types.
pub open spec fn is_signed_name(ty: Seq<char>) -> bool {
    ty == "i8"@ || ty == "i16"@ || ty == "i32"@ || ty == "i64"@ || ty == "i128"@ || ty == "isize"@
}

/// The names of the unsigned primitive integer types.
pub open spec fn is_unsigned_name(ty: Seq<char>) -> bool {
    ty == "u8"@ || ty == "u16"@ || ty == "u32"@ || ty == "u64"@ || ty == "u128"@ || ty == "usize"@
}

/// The names of the primitive integer types.
pub open spec fn is_int_name(ty: Seq<char>) -> bool {
    is_signed_name(ty) || is_unsigned_name(ty)
}

/// The operations that divide, and so panic on a zero divisor.
pub open spec fn divides(m: Seq<char>) -> bool {
    m == "div"@ || m == "rem"@ || m == "div_euclid"@ || m == "rem_euclid"@
}

/// The operations that the method families are made over.
pub open spec fn is_operation(m: Seq<char>) -> bool {
    divides(m) || m == "add"@ || m == "sub"@ || m == "mul"@ || m == "neg"@ || m == "abs"@ || m
        == "pow"@ || m == "shl"@ || m == "shr"@
}

/// Whether `s` has no colon.
pub open spec fn no_colon(s: Seq<char>) -> bool {
    forall|i: int| 0 <= i < s.len() ==> #[trigger] s[i] != ':'
}

/// What is known of the name of a primitive integer type.
pub proof fn lemma_int_name(ty: Seq<char>)
    requires
        is_int_name(ty),
    ensures
        ty.len() > 0,
        no_colon(ty),
        forall|i: int| 0 <= i < ty.len() ==> #[trigger] ty[i] != '<',
        is_signed_name(ty) <==> ty[0] == 'i',
        is_unsigned_name(ty) <==> ty[0] == 'u',
{
    reveal_strlit("i8");
    reveal_strlit("i16");
    reveal_strlit("i32");
    reveal_strlit("i64");
    reveal_strlit("i128");
    reveal_strlit("isize");
    reveal_strlit("u8");
    reveal_strlit("u16");
    reveal_strlit("u32");
    reveal_strlit("u64");
    reveal_strlit("u128");
    reveal_strlit("usize");
}

/// The fixed parts of a path, character by character: where its colons and its angle bracket are.
proof fn lemma_int_path(ty: Seq<char>, x: Seq<char>)
    requires
        is_int_name(ty),
        no_colon(x),
    ensures
        ({
            let q = int_method(ty, x);
            let at = ty.len() as int + 20;
            &&& q.len() == at + x.len()
            &&& q.take(17) == "core::num::<impl "@
            &&& forall|i: int| 0 <= i < ty.len() ==> #[trigger] q[17 + i] == ty[i]
            &&& q[at - 3] == '>'
            &&& q.skip(at) == x
            &&& forall|i: int|
                0 <= i < q.len() ==> (#[trigger] q[i] == ':' <==> i == 4 || i == 5 || i == 9 || i
                    == 10 || i == at - 2 || i == at - 1)
        }),
{
    reveal_strlit("core::num::<impl ");
    reveal_strlit(">::");
    lemma_int_name(ty);
    let q = int_method(ty, x);
    let at: int = ty.len() as int + 20;
    assert(q.take(17) =~= "core::num::<impl "@);
    assert(q.skip(at) =~= x);
    assert forall|i: int| 0 <= i < q.len() implies (#[trigger] q[i] == ':' <==> i == 4 || i == 5
        || i == 9 || i == 10 || i == at - 2 || i == at - 1) by {
        if 17 <= i < at - 3 {
            assert(q[i] == ty[i - 17]);
        } else if i >= at {
            assert(q[i] == x[i - at]);
        }
    }
}

/// A text that starts with two colons stands in the path just if what follows them starts the
/// method's name.
proof fn lemma_segment(ty: Seq<char>, x: Seq<char>, w: &str)
    requires
        is_int_name(ty),
        no_colon(x),
        w@.len() > 2,
        w@[0] == ':',
        w@[1] == ':',
        w@[2] != 'n',
        w@[2] != '<',
        w@[2] != ':',
    ensures
        holds(int_method(ty, x), w) <==> w@.skip(2).is_prefix_of(x),
{
    reveal_strlit("core::num::<impl ");
    lemma_int_path(ty, x);
    let q = int_method(ty, x);
    let at: int = ty.len() as int + 20;
    let n = w@.len() as int;
    let rest = w@.skip(2);
    if holds(q, w) {
        let i = choose|i: int| occurs_at(q, w@, i);
        let s = q.subrange(i, i + n);
        assert(s[0] == q[i] && s[1] == q[i + 1] && s[2] == q[i + 2]);
        assert(q.take(17)[6] == 'n' && q.take(17)[11] == '<');
        assert(i == at - 2);
        assert(x.subrange(0, n - 2) =~= q.skip(at).subrange(0, n - 2));
        assert(x.subrange(0, n - 2) =~= s.skip(2));
    }
    if rest.is_prefix_of(x) {
        assert(q.subrange(at - 2, at - 2 + n) =~= w@) by {
            assert forall|k: int| 0 <= k < n implies q.subrange(at - 2, at - 2 + n)[k] == w@[k] by {
                if k >= 2 {
                    assert(q[at - 2 + k] == q.skip(at)[k - 2]);
                    assert(x.subrange(0, n - 2)[k - 2] == rest[k - 2]);
                }
            }
        }
        assert(occurs_at(q, w@, at - 2));
    }
}

/// A path ends in two colons and a name just if that is the method's name.
proof fn lemma_method(ty: Seq<char>, x: Seq<char>, w: &str)
    requires
        is_int_name(ty),
        no_colon(x),
        w@.len() > 2,
        w@[0] == ':',
        w@[1] == ':',
        no_colon(w@.skip(2)),
    ensures
        ends(int_method(ty, x), w) <==> x == w@.skip(2),
{
    lemma_int_path(ty, x);
    let q = int_method(ty, x);
    let at: int = ty.len() as int + 20;
    let n = w@.len() as int;
    let rest = w@.skip(2);
    if ends(q, w) {
        let i = q.len() - n;
        let s = q.subrange(i, q.len() as int);
        assert(s =~= w@);
        assert(s[0] == q[i] && s[1] == q[i + 1]);
        assert forall|k: int| i + 2 <= k < q.len() implies #[trigger] q[k] != ':' by {
            assert(s[k - i] == q[k]);
            assert(rest[k - i - 2] == w@[k - i]);
        }
        assert(i == at - 2) by {
            if i != at - 2 {
                assert(q[at - 1] == ':');
            }
        }
        assert(x =~= rest) by {
            assert forall|k: int| 0 <= k < x.len() implies x[k] == rest[k] by {
                assert(q.skip(at)[k] == q[at + k]);
                assert(s[k + 2] == q[at + k]);
            }
        }
    }
    if x == rest {
        assert(q.subrange(q.len() - n, q.len() as int) =~= w@) by {
            assert forall|k: int| 0 <= k < n implies q.subrange(
                q.len() - n,
                q.len() as int,
            )[k] == w@[k] by {
                if k >= 2 {
                    assert(q[at - 2 + k] == q.skip(at)[k - 2]);
                }
            }
        }
    }
}

/// What ends in a longer text ends in what that one ends in.
proof fn lemma_ends_shorter(p: Seq<char>, long: &str, short: &str)
    requires
        ends(p, long),
        ends(long@, short),
    ensures
        ends(p, short),
{
    let n = p.len() as int;
    let l = long@.len() as int;
    let s = short@.len() as int;
    assert(p.subrange(n - s, n) =~= p.subrange(n - l, n).subrange(l - s, l));
}

/// What holds a longer text holds what that one holds.
proof fn lemma_holds_shorter(p: Seq<char>, long: &str, short: &str, k: int)
    requires
        holds(p, long),
        occurs_at(long@, short@, k),
    ensures
        holds(p, short),
{
    let i = choose|i: int| occurs_at(p, long@, i);
    let s = short@.len() as int;
    assert(p.subrange(i + k, i + k + s) =~= p.subrange(i, i + long@.len()).subrange(k, k + s));
    assert(occurs_at(p, short@, i + k));
}

/// A path ends in a text that is no longer than the method's name just if that name does.
proof fn lemma_tail(ty: Seq<char>, x: Seq<char>, w: &str)
    requires
        is_int_name(ty),
        no_colon(x),
        w@.len() <= x.len(),
    ensures
        ends(int_method(ty, x), w) <==> ends(x, w),
{
    lemma_int_path(ty, x);
    let q = int_method(ty, x);
    let n = w@.len() as int;
    let at: int = ty.len() as int + 20;
    assert(q.subrange(q.len() - n, q.len() as int) =~= q.skip(at).subrange(
        x.len() - n,
        x.len() as int,
    ));
}

/// Every such path is that of a method of a primitive integer.
proof fn lemma_is_int_impl(ty: Seq<char>, x: Seq<char>)
    requires
        is_int_name(ty),
        no_colon(x),
    ensures
        holds(int_method(ty, x), "num::<impl"),
        holds(int_method(ty, x), "num::<impl i") <==> is_signed_name(ty),
        holds(int_method(ty, x), "num::<impl u") <==> is_unsigned_name(ty),
{
    reveal_strlit("core::num::<impl ");
    reveal_strlit("num::<impl");
    reveal_strlit("num::<impl i");
    reveal_strlit("num::<impl u");
    lemma_int_path(ty, x);
    lemma_int_name(ty);
    let q = int_method(ty, x);
    let lead = "core::num::<impl "@;
    assert(forall|k: int| 0 <= k < 17 ==> q.take(17)[k] == q[k]);
    assert(forall|k: int| 0 <= k < 17 ==> #[trigger] q[k] == lead[k]);
    assert(q.subrange(6, 16) =~= "num::<impl"@);
    assert(occurs_at(q, "num::<impl"@, 6));
    let first: int = 0;
    assert(q[17 + first] == ty[first]);
    assert("num::<impl i"@.take(11) =~= lead.skip(6));
    assert("num::<impl u"@.take(11) =~= lead.skip(6));
    lemma_sign(ty, x, "num::<impl i");
    lemma_sign(ty, x, "num::<impl u");
}

/// The text of an impl and one more character stands in the path just if the type starts with it.
proof fn lemma_sign(ty: Seq<char>, x: Seq<char>, w: &str)
    requires
        is_int_name(ty),
        no_colon(x),
        w@.len() == 12,
        w@.take(11) == "core::num::<impl "@.skip(6),
    ensures
        holds(int_method(ty, x), w) <==> ty[0] == w@[11],
{
    reveal_strlit("core::num::<impl ");
    lemma_int_path(ty, x);
    lemma_int_name(ty);
    let q = int_method(ty, x);
    let lead = "core::num::<impl "@;
    assert(forall|k: int| 0 <= k < 17 ==> q.take(17)[k] == q[k]);
    assert(forall|k: int| 0 <= k < 11 ==> w@.take(11)[k] == w@[k]);
    let first: int = 0;
    assert(q[17 + first] == ty[first]);
    if holds(q, w) {
        let i = choose|i: int| occurs_at(q, w@, i);
        let s = q.subrange(i, i + 12);
        assert(s[3] == q[i + 3] && s[4] == q[i + 4] && s[5] == q[i + 5] && s[0] == q[i] && s[11]
            == q[i + 11]);
        assert(w@[0] == 'n' && w@[3] == ':' && w@[4] == ':' && w@[5] == '<');
        let at: int = ty.len() as int + 20;
        assert(i + 3 == 4 || i + 3 == 9 || i + 3 == at - 2);
        assert(i == 6) by {
            if i + 3 == at - 2 {
                assert(q[at - 3] == '>');
                assert(s[2] == q[i + 2]);
                assert(w@[2] == 'm');
            }
        }
    }
    if ty[0] == w@[11] {
        assert(q.subrange(6, 18) =~= w@) by {
            assert forall|k: int| 0 <= k < 12 implies q.subrange(6, 18)[k] == w@[k] by {
                if k < 11 {
                    assert(w@[k] == lead.skip(6)[k]);
                    assert(q[6 + k] == lead[6 + k]);
                }
            }
        }
        assert(occurs_at(q, w@, 6));
    }
}

/// The families of methods that each operation has a member of.
pub open spec fn is_family(f: Seq<char>) -> bool {
    is_taming(f) || f == "checked_"@ || f == "strict_"@
}

/// The families that give overflow a meaning, and leave a zero divisor to panic.
pub open spec fn is_taming(f: Seq<char>) -> bool {
    f == "wrapping_"@ || f == "overflowing_"@ || f == "saturating_"@
}

/// What is known of the name of a family.
proof fn lemma_family(f: Seq<char>, m: Seq<char>)
    requires
        is_family(f),
        is_operation(m),
    ensures
        no_colon(f + m),
        f.len() >= 7,
        f.last() == '_',
        m.len() >= 3,
        (f + m)[0] == f[0],
        (f + m)[1] == f[1],
        (f + m)[2] == f[2],
{
    reveal_families();
    reveal_operations();
    let x = f + m;
    assert forall|i: int| 0 <= i < x.len() implies #[trigger] x[i] != ':' by {
        if i < f.len() {
            assert(x[i] == f[i]);
        } else {
            assert(x[i] == m[i - f.len()]);
        }
    }
}

/// The names of the families, character by character.
proof fn reveal_families()
    ensures
        "wrapping_"@ == seq!['w', 'r', 'a', 'p', 'p', 'i', 'n', 'g', '_'],
        "overflowing_"@ == seq!['o', 'v', 'e', 'r', 'f', 'l', 'o', 'w', 'i', 'n', 'g', '_'],
        "saturating_"@ == seq!['s', 'a', 't', 'u', 'r', 'a', 't', 'i', 'n', 'g', '_'],
        "checked_"@ == seq!['c', 'h', 'e', 'c', 'k', 'e', 'd', '_'],
        "strict_"@ == seq!['s', 't', 'r', 'i', 'c', 't', '_'],
{
    reveal_strlit("wrapping_");
    reveal_strlit("overflowing_");
    reveal_strlit("saturating_");
    reveal_strlit("checked_");
    reveal_strlit("strict_");
    assert("wrapping_"@ =~= seq!['w', 'r', 'a', 'p', 'p', 'i', 'n', 'g', '_']);
    assert("overflowing_"@ =~= seq!['o', 'v', 'e', 'r', 'f', 'l', 'o', 'w', 'i', 'n', 'g', '_']);
    assert("saturating_"@ =~= seq!['s', 'a', 't', 'u', 'r', 'a', 't', 'i', 'n', 'g', '_']);
    assert("checked_"@ =~= seq!['c', 'h', 'e', 'c', 'k', 'e', 'd', '_']);
    assert("strict_"@ =~= seq!['s', 't', 'r', 'i', 'c', 't', '_']);
}

/// The names of the operations, character by character.
proof fn reveal_operations()
    ensures
        "div"@ == seq!['d', 'i', 'v'],
        "rem"@ == seq!['r', 'e', 'm'],
        "div_euclid"@ == seq!['d', 'i', 'v', '_', 'e', 'u', 'c', 'l', 'i', 'd'],
        "rem_euclid"@ == seq!['r', 'e', 'm', '_', 'e', 'u', 'c', 'l', 'i', 'd'],
        "add"@ == seq!['a', 'd', 'd'],
        "sub"@ == seq!['s', 'u', 'b'],
        "mul"@ == seq!['m', 'u', 'l'],
        "neg"@ == seq!['n', 'e', 'g'],
        "abs"@ == seq!['a', 'b', 's'],
        "pow"@ == seq!['p', 'o', 'w'],
        "shl"@ == seq!['s', 'h', 'l'],
        "shr"@ == seq!['s', 'h', 'r'],
{
    reveal_strlit("div");
    reveal_strlit("rem");
    reveal_strlit("div_euclid");
    reveal_strlit("rem_euclid");
    reveal_strlit("add");
    reveal_strlit("sub");
    reveal_strlit("mul");
    reveal_strlit("neg");
    reveal_strlit("abs");
    reveal_strlit("pow");
    reveal_strlit("shl");
    reveal_strlit("shr");
    assert("div"@ =~= seq!['d', 'i', 'v']);
    assert("rem"@ =~= seq!['r', 'e', 'm']);
    assert("div_euclid"@ =~= seq!['d', 'i', 'v', '_', 'e', 'u', 'c', 'l', 'i', 'd']);
    assert("rem_euclid"@ =~= seq!['r', 'e', 'm', '_', 'e', 'u', 'c', 'l', 'i', 'd']);
    assert("add"@ =~= seq!['a', 'd', 'd']);
    assert("sub"@ =~= seq!['s', 'u', 'b']);
    assert("mul"@ =~= seq!['m', 'u', 'l']);
    assert("neg"@ =~= seq!['n', 'e', 'g']);
    assert("abs"@ =~= seq!['a', 'b', 's']);
    assert("pow"@ =~= seq!['p', 'o', 'w']);
    assert("shl"@ =~= seq!['s', 'h', 'l']);
    assert("shr"@ =~= seq!['s', 'h', 'r']);
}

/// A member of a family is none of the methods that stand alone.
proof fn lemma_not_alone(ty: Seq<char>, x: Seq<char>, w: &str)
    requires
        is_int_name(ty),
        no_colon(x),
        x.len() > 2,
        w@.len() > 2,
        w@[0] == ':',
        w@[1] == ':',
        no_colon(w@.skip(2)),
        w@.len() < 5 || x[0] != w@[2] || x[1] != w@[3] || x[2] != w@[4],
    ensures
        !ends(int_method(ty, x), w),
{
    lemma_method(ty, x, w);
    let rest = w@.skip(2);
    if x == rest {
        assert(w@.len() >= 5);
        assert(rest[0] == w@[2] && rest[1] == w@[3] && rest[2] == w@[4]);
    }
}

/// The iterator adapters are no methods of integers.
proof fn lemma_not_iterator(ty: Seq<char>, x: Seq<char>)
    requires
        is_int_name(ty),
        no_colon(x),
        x.len() > 2,
        !(x[0] == 's' && x[1] == 'u' && x[2] == 'm'),
        !(x[0] == 'p' && x[1] == 'r' && x[2] == 'o'),
        !(x[0] == 's' && x[1] == 't' && x[2] == 'e'),
    ensures
        !panicking_iterator_method(int_method(ty, x)),
{
    let q = int_method(ty, x);
    reveal_strlit("iter::Iterator::sum");
    reveal_strlit("iter::Iterator::product");
    reveal_strlit("iter::Iterator::step_by");
    reveal_strlit("::sum");
    reveal_strlit("::product");
    reveal_strlit("::step_by");
    lemma_not_alone(ty, x, "::sum");
    lemma_not_alone(ty, x, "::product");
    lemma_not_alone(ty, x, "::step_by");
    assert("iter::Iterator::sum"@.subrange(14, 19) =~= "::sum"@);
    assert("iter::Iterator::product"@.subrange(14, 23) =~= "::product"@);
    assert("iter::Iterator::step_by"@.subrange(14, 23) =~= "::step_by"@);
    if ends(q, "iter::Iterator::sum") {
        lemma_ends_shorter(q, "iter::Iterator::sum", "::sum");
    }
    if ends(q, "iter::Iterator::product") {
        lemma_ends_shorter(q, "iter::Iterator::product", "::product");
    }
    if ends(q, "iter::Iterator::step_by") {
        lemma_ends_shorter(q, "iter::Iterator::step_by", "::step_by");
    }
}

/// A member of a family is none of the panicking methods that stand alone, nor `isqrt`.
proof fn lemma_members_stand_apart(ty: Seq<char>, f: Seq<char>, m: Seq<char>)
    requires
        is_int_name(ty),
        is_family(f),
        is_operation(m),
    ensures
        ({
            let q = int_method(ty, f + m);
            &&& !panicking_iterator_method(q)
            &&& !ends(q, "::isqrt")
            &&& !ends(q, "::pow")
            &&& !ends(q, "::abs")
            &&& !ends(q, "::div_euclid")
            &&& !ends(q, "::rem_euclid")
            &&& !ends(q, "::div_ceil")
            &&& !ends(q, "::div_floor")
            &&& !ends(q, "::next_power_of_two")
            &&& !ends(q, "::next_multiple_of")
            &&& !ends(q, "::ilog")
            &&& !ends(q, "::ilog2")
            &&& !ends(q, "::ilog10")
            &&& !ends(q, "::from_str_radix")
        }),
{
    reveal_families();
    lemma_family(f, m);
    let x = f + m;
    lemma_not_iterator(ty, x);
    reveal_strlit("::isqrt");
    reveal_strlit("::pow");
    reveal_strlit("::abs");
    reveal_strlit("::div_euclid");
    reveal_strlit("::rem_euclid");
    reveal_strlit("::div_ceil");
    reveal_strlit("::div_floor");
    reveal_strlit("::next_power_of_two");
    reveal_strlit("::next_multiple_of");
    reveal_strlit("::ilog");
    reveal_strlit("::ilog2");
    reveal_strlit("::ilog10");
    reveal_strlit("::from_str_radix");
    lemma_not_alone(ty, x, "::isqrt");
    lemma_not_alone(ty, x, "::pow");
    lemma_not_alone(ty, x, "::abs");
    lemma_not_alone(ty, x, "::div_euclid");
    lemma_not_alone(ty, x, "::rem_euclid");
    lemma_not_alone(ty, x, "::div_ceil");
    lemma_not_alone(ty, x, "::div_floor");
    lemma_not_alone(ty, x, "::next_power_of_two");
    lemma_not_alone(ty, x, "::next_multiple_of");
    lemma_not_alone(ty, x, "::ilog");
    lemma_not_alone(ty, x, "::ilog2");
    lemma_not_alone(ty, x, "::ilog10");
    lemma_not_alone(ty, x, "::from_str_radix");
}

/// The family of a member can be read off its path.
proof fn lemma_family_of(ty: Seq<char>, f: Seq<char>, m: Seq<char>)
    requires
        is_int_name(ty),
        is_family(f),
        is_operation(m),
    ensures
        ({
            let q = int_method(ty, f + m);
            &&& holds(q, "::wrapping_") <==> f == "wrapping_"@
            &&& holds(q, "::overflowing_") <==> f == "overflowing_"@
            &&& holds(q, "::saturating_") <==> f == "saturating_"@
            &&& holds(q, "::checked_") <==> f == "checked_"@
            &&& holds(q, "::strict_") <==> f == "strict_"@
        }),
{
    reveal_families();
    lemma_family(f, m);
    let x = f + m;
    reveal_strlit("::wrapping_");
    reveal_strlit("::overflowing_");
    reveal_strlit("::saturating_");
    reveal_strlit("::checked_");
    reveal_strlit("::strict_");
    assert("::wrapping_"@.skip(2) =~= "wrapping_"@);
    assert("::overflowing_"@.skip(2) =~= "overflowing_"@);
    assert("::saturating_"@.skip(2) =~= "saturating_"@);
    assert("::checked_"@.skip(2) =~= "checked_"@);
    assert("::strict_"@.skip(2) =~= "strict_"@);
    lemma_segment(ty, x, "::wrapping_");
    lemma_segment(ty, x, "::overflowing_");
    lemma_segment(ty, x, "::saturating_");
    lemma_segment(ty, x, "::checked_");
    lemma_segment(ty, x, "::strict_");
    lemma_prefix(f, m, "wrapping_"@);
    lemma_prefix(f, m, "overflowing_"@);
    lemma_prefix(f, m, "saturating_"@);
    lemma_prefix(f, m, "checked_"@);
    lemma_prefix(f, m, "strict_"@);
}

/// A member starts with the name of its own family, and of no other.
proof fn lemma_prefix(f: Seq<char>, m: Seq<char>, g: Seq<char>)
    requires
        is_family(f),
        is_family(g),
    ensures
        g.is_prefix_of(f + m) <==> f == g,
{
    reveal_families();
    let x = f + m;
    assert(x[0] == f[0] && x[1] == f[1]);
    if g.is_prefix_of(x) {
        assert(x.subrange(0, g.len() as int)[0] == g[0]);
        assert(x.subrange(0, g.len() as int)[1] == g[1]);
    }
    if f == g {
        assert(x.subrange(0, g.len() as int) =~= g);
    }
}

/// A member divides just if its operation does.
proof fn lemma_dividing_members(ty: Seq<char>, f: Seq<char>, m: Seq<char>)
    requires
        is_int_name(ty),
        is_family(f),
        is_operation(m),
    ensures
        ({
            let q = int_method(ty, f + m);
            (ends(q, "_div") || ends(q, "_rem") || ends(q, "_div_euclid") || ends(
                q,
                "_rem_euclid",
            )) <==> divides(m)
        }),
{
    reveal_operations();
    reveal_strlit("_div");
    reveal_strlit("_rem");
    reveal_strlit("_div_euclid");
    reveal_strlit("_rem_euclid");
    lemma_family(f, m);
    let x = f + m;
    let n = x.len() as int;
    lemma_last_characters(f, m);
    lemma_tail(ty, x, "_div");
    lemma_tail(ty, x, "_rem");
    if ends(x, "_div") {
        let s = x.subrange(n - 4, n);
        assert(s[1] == x[n - 3] && s[2] == x[n - 2] && s[3] == x[n - 1]);
    }
    if ends(x, "_rem") {
        let s = x.subrange(n - 4, n);
        assert(s[1] == x[n - 3] && s[2] == x[n - 2] && s[3] == x[n - 1]);
    }
    if m == "div"@ {
        assert(x.subrange(n - 4, n) =~= "_div"@);
    }
    if m == "rem"@ {
        assert(x.subrange(n - 4, n) =~= "_rem"@);
    }
    if m == "div_euclid"@ {
        lemma_tail(ty, x, "_div_euclid");
        assert(x.subrange(n - 11, n) =~= "_div_euclid"@);
    }
    if m == "rem_euclid"@ {
        lemma_tail(ty, x, "_rem_euclid");
        assert(x.subrange(n - 11, n) =~= "_rem_euclid"@);
    }
    let q = int_method(ty, x);
    assert("_div_euclid"@.subrange(8, 11) =~= seq!['l', 'i', 'd']);
    assert("_rem_euclid"@.subrange(8, 11) =~= seq!['l', 'i', 'd']);
    lemma_int_path(ty, x);
    let z = q.len() as int;
    assert(q.skip(ty.len() as int + 20)[n - 2] == x[n - 2]);
    assert(q[z - 2] == x[n - 2]);
    assert(q.skip(ty.len() as int + 20)[n - 1] == x[n - 1]);
    assert(q[z - 1] == x[n - 1]);
    if ends(q, "_div_euclid") {
        assert(q.subrange(z - 11, z)[9] == q[z - 2]);
        assert(q.subrange(z - 11, z)[10] == q[z - 1]);
    }
    if ends(q, "_rem_euclid") {
        assert(q.subrange(z - 11, z)[9] == q[z - 2]);
        assert(q.subrange(z - 11, z)[10] == q[z - 1]);
    }
}

/// The last characters of a member are those of its operation, behind the family's underscore.
proof fn lemma_last_characters(f: Seq<char>, m: Seq<char>)
    requires
        f.len() >= 7,
        f.last() == '_',
        m.len() >= 3,
    ensures
        ({
            let x = f + m;
            let n = x.len() as int;
            let k = m.len() as int;
            &&& x[n - 1] == m[k - 1]
            &&& x[n - 2] == m[k - 2]
            &&& x[n - 3] == m[k - 3]
            &&& x[n - k - 1] == '_'
            &&& forall|i: int| 0 <= i < k ==> #[trigger] x[n - k + i] == m[i]
        }),
{
}

/// Of the methods that give overflow a meaning (`wrapping_`, `overflowing_` and `saturating_`),
/// just the divisions and remainders can panic. No `checked_` method can, and every `strict_`
/// method can. This is so for every primitive integer type.
pub proof fn law_integer_method_families(ty: Seq<char>, m: Seq<char>)
    requires
        is_int_name(ty),
        is_operation(m),
    ensures
        panicking_int_method(int_method(ty, "wrapping_"@ + m)) <==> divides(m),
        panicking_int_method(int_method(ty, "overflowing_"@ + m)) <==> divides(m),
        panicking_int_method(int_method(ty, "saturating_"@ + m)) <==> divides(m),
        !panicking_int_method(int_method(ty, "checked_"@ + m)),
        panicking_int_method(int_method(ty, "strict_"@ + m)),
{
    reveal_families();
    lemma_family_member(ty, "wrapping_"@, m);
    lemma_family_member(ty, "overflowing_"@, m);
    lemma_family_member(ty, "saturating_"@, m);
    lemma_family_member(ty, "checked_"@, m);
    lemma_family_member(ty, "strict_"@, m);
    assert("wrapping_"@[0] != "checked_"@[0]);
    assert("checked_"@[0] != "overflowing_"@[0]);
    assert("checked_"@[0] != "saturating_"@[0]);
    assert("strict_"@[0] != "checked_"@[0]);
    assert("strict_"@[0] != "wrapping_"@[0]);
    assert("strict_"@[0] != "overflowing_"@[0]);
    assert("strict_"@[1] != "saturating_"@[1]);
}

/// Which members of the families can panic.
proof fn lemma_family_member(ty: Seq<char>, f: Seq<char>, m: Seq<char>)
    requires
        is_int_name(ty),
        is_family(f),
        is_operation(m),
    ensures
        panicking_int_method(int_method(ty, f + m)) <==> f == "strict_"@ || (is_taming(f)
            && divides(m)),
{
    lemma_family(f, m);
    lemma_is_int_impl(ty, f + m);
    lemma_members_stand_apart(ty, f, m);
    lemma_family_of(ty, f, m);
    lemma_dividing_members(ty, f, m);
}

/// The square root can panic just on the signed types, where its argument may be negative.
pub proof fn law_square_roots_panic_on_signed_types(ty: Seq<char>)
    requires
        is_int_name(ty),
    ensures
        panicking_int_method(int_method(ty, "isqrt"@)) <==> is_signed_name(ty),
        is_signed_name(ty) <==> ty[0] == 'i',
{
    reveal_strlit("isqrt");
    reveal_strlit("::isqrt");
    let x = "isqrt"@;
    assert("::isqrt"@.skip(2) =~= x);
    lemma_int_name(ty);
    lemma_is_int_impl(ty, x);
    lemma_method(ty, x, "::isqrt");
    lemma_not_iterator(ty, x);
}

// ---------------------------------------------------------------------------
// Trust.
// ---------------------------------------------------------------------------

/// A text with a colon in it does not start the name of a method.
proof fn lemma_colon_is_no_prefix(x: Seq<char>, w: Seq<char>, k: int)
    requires
        no_colon(x),
        0 <= k < w.len(),
        w[k] == ':',
    ensures
        !w.is_prefix_of(x),
{
    if w.is_prefix_of(x) {
        assert(x.subrange(0, w.len() as int)[k] == x[k]);
    }
}

/// A method of an integer is taken for none of another type, unless its name starts like one.
proof fn lemma_integer_only(ty: Seq<char>, x: Seq<char>)
    requires
        is_int_name(ty),
        no_colon(x),
        x.len() > 2,
        x[0] != 'O',
        x[0] != 'R',
        !(x[0] == 'c' && x[1] == 'l' && x[2] == 'a'),
        !(x[0] == 'i' && x[1] == 'n' && x[2] == 'd'),
        !(x[0] == 'f' && x[1] == 'r' && x[2] == 'o'),
    ensures
        !on_option_or_result(int_method(ty, x)),
        panicking_call(int_method(ty, x)) <==> panicking_int_method(int_method(ty, x)),
{
    let q = int_method(ty, x);
    lemma_not_option(ty, x);
    lemma_not_slice_or_char(ty, x);
    reveal_strlit("::cmp::Ord::clamp");
    reveal_strlit("ops::Index::index");
    reveal_strlit("ops::IndexMut::index_mut");
    reveal_strlit("char::from_digit");
    reveal_strlit("::clamp");
    reveal_strlit("::index");
    reveal_strlit("::index_mut");
    reveal_strlit("::from_digit");
    lemma_not_alone(ty, x, "::clamp");
    lemma_not_alone(ty, x, "::index");
    lemma_not_alone(ty, x, "::index_mut");
    lemma_not_alone(ty, x, "::from_digit");
    assert("::cmp::Ord::clamp"@.subrange(10, 17) =~= "::clamp"@);
    assert("ops::Index::index"@.subrange(10, 17) =~= "::index"@);
    assert("ops::IndexMut::index_mut"@.subrange(13, 24) =~= "::index_mut"@);
    assert("char::from_digit"@.subrange(4, 16) =~= "::from_digit"@);
    if ends(q, "::cmp::Ord::clamp") {
        lemma_ends_shorter(q, "::cmp::Ord::clamp", "::clamp");
    }
    if ends(q, "ops::Index::index") {
        lemma_ends_shorter(q, "ops::Index::index", "::index");
    }
    if ends(q, "ops::IndexMut::index_mut") {
        lemma_ends_shorter(q, "ops::IndexMut::index_mut", "::index_mut");
    }
    if ends(q, "char::from_digit") {
        lemma_ends_shorter(q, "char::from_digit", "::from_digit");
    }
}

proof fn lemma_not_option(ty: Seq<char>, x: Seq<char>)
    requires
        is_int_name(ty),
        no_colon(x),
        x.len() > 0,
        x[0] != 'O',
        x[0] != 'R',
    ensures
        !on_option_or_result(int_method(ty, x)),
{
    let q = int_method(ty, x);
    reveal_strlit("option::Option");
    reveal_strlit("result::Result");
    reveal_strlit("::Option");
    reveal_strlit("::Result");
    lemma_segment(ty, x, "::Option");
    lemma_segment(ty, x, "::Result");
    assert("option::Option"@.subrange(6, 14) =~= "::Option"@);
    assert("result::Result"@.subrange(6, 14) =~= "::Result"@);
    let a = "::Option"@.skip(2);
    let b = "::Result"@.skip(2);
    if a.is_prefix_of(x) {
        assert(x.subrange(0, a.len() as int)[0] == x[0]);
    }
    if b.is_prefix_of(x) {
        assert(x.subrange(0, b.len() as int)[0] == x[0]);
    }
    if holds(q, "option::Option") {
        lemma_holds_shorter(q, "option::Option", "::Option", 6);
    }
    if holds(q, "result::Result") {
        lemma_holds_shorter(q, "result::Result", "::Result", 6);
    }
}

proof fn lemma_not_slice_or_char(ty: Seq<char>, x: Seq<char>)
    requires
        is_int_name(ty),
        no_colon(x),
    ensures
        !holds(int_method(ty, x), "::slice::<impl"),
        !holds(int_method(ty, x), "::str::<impl"),
        !holds(int_method(ty, x), "char::methods::<impl char>"),
{
    let q = int_method(ty, x);
    reveal_strlit("::slice::<impl");
    reveal_strlit("::str::<impl");
    reveal_strlit("char::methods::<impl char>");
    reveal_strlit("::methods::<impl char>");
    lemma_segment(ty, x, "::slice::<impl");
    lemma_segment(ty, x, "::str::<impl");
    lemma_segment(ty, x, "::methods::<impl char>");
    lemma_colon_is_no_prefix(x, "::slice::<impl"@.skip(2), 5);
    lemma_colon_is_no_prefix(x, "::str::<impl"@.skip(2), 3);
    lemma_colon_is_no_prefix(x, "::methods::<impl char>"@.skip(2), 7);
    assert("char::methods::<impl char>"@.subrange(4, 26) =~= "::methods::<impl char>"@);
    if holds(q, "char::methods::<impl char>") {
        lemma_holds_shorter(q, "char::methods::<impl char>", "::methods::<impl char>", 4);
    }
}

/// A member of a family other than `strict_` is trusted to be total just if it cannot panic.
proof fn lemma_member_trust(ty: Seq<char>, f: Seq<char>, m: Seq<char>)
    requires
        is_int_name(ty),
        is_taming(f) || f == "checked_"@,
        is_operation(m),
    ensures
        trusted_total_library_call(int_method(ty, f + m)) <==> !panicking_int_method(
            int_method(ty, f + m),
        ),
{
    reveal_families();
    lemma_family(f, m);
    lemma_is_int_impl(ty, f + m);
    lemma_family_of(ty, f, m);
    lemma_integer_only(ty, f + m);
}

/// The methods that can panic are the ones that are not trusted: of `wrapping_`, `overflowing_` and
/// `saturating_` all but the divisions and remainders are trusted to be total, every `checked_`
/// method is, and no `strict_` method is.
pub proof fn law_integer_method_trust(ty: Seq<char>, m: Seq<char>)
    requires
        is_int_name(ty),
        is_operation(m),
    ensures
        trusted_total_library_call(int_method(ty, "wrapping_"@ + m)) <==> !divides(m),
        trusted_total_library_call(int_method(ty, "overflowing_"@ + m)) <==> !divides(m),
        trusted_total_library_call(int_method(ty, "saturating_"@ + m)) <==> !divides(m),
        trusted_total_library_call(int_method(ty, "checked_"@ + m)),
        !trusted_total_library_call(int_method(ty, "strict_"@ + m)),
{
    law_integer_method_families(ty, m);
    lemma_member_trust(ty, "wrapping_"@, m);
    lemma_member_trust(ty, "overflowing_"@, m);
    lemma_member_trust(ty, "saturating_"@, m);
    lemma_member_trust(ty, "checked_"@, m);
}

/// The square root is trusted to be total just on the unsigned types.
pub proof fn law_square_roots_are_trusted_on_unsigned_types(ty: Seq<char>)
    requires
        is_int_name(ty),
    ensures
        trusted_total_library_call(int_method(ty, "isqrt"@)) <==> is_unsigned_name(ty),
{
    reveal_strlit("isqrt");
    reveal_strlit("::isqrt");
    let x = "isqrt"@;
    assert("::isqrt"@.skip(2) =~= x);
    law_square_roots_panic_on_signed_types(ty);
    lemma_int_name(ty);
    lemma_is_int_impl(ty, x);
    lemma_method(ty, x, "::isqrt");
    lemma_integer_only(ty, x);
}

} // verus!
