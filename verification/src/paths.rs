//! Classification of item paths: which calls panic, which are total, and which types the standard
//! library provides.
use vstd::prelude::*;
use crate::text::{begins, contains, ends, ends_with, holds, same, starts_with};

verus! {

/// Whether `p` is an entry point of the panic machinery.
pub open spec fn panic_call_path(p: Seq<char>) -> bool {
    begins(p, "core::panicking::")
        || begins(p, "std::panicking::")
        || p == "core::panic"@
        || p == "std::panic"@
        || p == "core::panic_any"@
        || p == "std::panic_any"@
        || p == "std::rt::panic_fmt"@
        || p == "std::rt::panic_display"@
        || p == "std::rt::begin_panic"@
        || p == "std::rt::begin_panic_fmt"@
}

/// Whether `p` is an entry point of the panic machinery.
#[must_use]
pub fn is_panic_call_path(p: &str) -> (r: bool)
    ensures
        r == panic_call_path(p@),
{
    starts_with(p, "core::panicking::")
        || starts_with(p, "std::panicking::")
        || same(p, "core::panic")
        || same(p, "std::panic")
        || same(p, "core::panic_any")
        || same(p, "std::panic_any")
        || same(p, "std::rt::panic_fmt")
        || same(p, "std::rt::panic_display")
        || same(p, "std::rt::begin_panic")
        || same(p, "std::rt::begin_panic_fmt")
}

/// Whether `p` is a method of `Option` or `Result`.
pub open spec fn on_option_or_result(p: Seq<char>) -> bool {
    holds(p, "option::Option") || holds(p, "result::Result")
}

/// Whether `p` is `Ord::clamp`, which panics on crossed bounds, or a method of `Option` or
/// `Result` that panics on the wrong variant.
pub open spec fn panicking_library_call(p: Seq<char>) -> bool {
    ends(p, "::cmp::Ord::clamp")
        || (on_option_or_result(p)
            && (ends(p, "::unwrap")
                || ends(p, "::expect")
                || ends(p, "::unwrap_err")
                || ends(p, "::expect_err")))
}

/// Whether `p` is a library call that panics on the wrong variant or on crossed bounds.
#[must_use]
pub fn is_panicking_library_call(p: &str) -> (r: bool)
    ensures
        r == panicking_library_call(p@),
{
    if ends_with(p, "::cmp::Ord::clamp") {
        return true;
    }
    if !(contains(p, "option::Option") || contains(p, "result::Result")) {
        return false;
    }
    ends_with(p, "::unwrap")
        || ends_with(p, "::expect")
        || ends_with(p, "::unwrap_err")
        || ends_with(p, "::expect_err")
}

/// Whether `p` is an iterator adapter that can panic: the folds on overflow, `step_by` on zero.
pub open spec fn panicking_iterator_method(p: Seq<char>) -> bool {
    ends(p, "iter::Iterator::sum")
        || ends(p, "iter::Iterator::product")
        || ends(p, "iter::Iterator::step_by")
}

/// Whether `p` is a division or remainder of a family that wraps, saturates or reports overflow:
/// each of them still panics on a zero divisor.
pub open spec fn dividing_family_method(p: Seq<char>) -> bool {
    (holds(p, "::wrapping_")
        || holds(p, "::overflowing_")
        || holds(p, "::saturating_"))
        && (ends(p, "_div")
            || ends(p, "_rem")
            || ends(p, "_div_euclid")
            || ends(p, "_rem_euclid"))
}

/// Whether `p` is a method of a primitive integer, or an iterator adapter, that can panic.
pub open spec fn panicking_int_method(p: Seq<char>) -> bool {
    panicking_iterator_method(p) || (holds(p, "num::<impl") && if ends(p, "::isqrt") {
        // total on the unsigned types
        holds(p, "num::<impl i")
    } else {
        ends(p, "::pow")
            || ends(p, "::abs")
            || ends(p, "::div_euclid")
            || ends(p, "::rem_euclid")
            || ends(p, "::div_ceil")
            || ends(p, "::div_floor")
            || ends(p, "::next_power_of_two")
            || ends(p, "::next_multiple_of")
            || ends(p, "::ilog")
            || ends(p, "::ilog2")
            || ends(p, "::ilog10")
            || ends(p, "::from_str_radix")
            || holds(p, "::strict_")
            || dividing_family_method(p)
    })
}

/// Whether `p` is a method of a primitive integer, or an iterator adapter, that can panic.
#[must_use]
pub fn is_panicking_int_method(p: &str) -> (r: bool)
    ensures
        r == panicking_int_method(p@),
{
    if ends_with(p, "iter::Iterator::sum")
        || ends_with(p, "iter::Iterator::product")
        || ends_with(p, "iter::Iterator::step_by")
    {
        return true;
    }
    if !contains(p, "num::<impl") {
        return false;
    }
    if ends_with(p, "::isqrt") {
        return contains(p, "num::<impl i");
    }
    ends_with(p, "::pow")
        || ends_with(p, "::abs")
        || ends_with(p, "::div_euclid")
        || ends_with(p, "::rem_euclid")
        || ends_with(p, "::div_ceil")
        || ends_with(p, "::div_floor")
        || ends_with(p, "::next_power_of_two")
        || ends_with(p, "::next_multiple_of")
        || ends_with(p, "::ilog")
        || ends_with(p, "::ilog2")
        || ends_with(p, "::ilog10")
        || ends_with(p, "::from_str_radix")
        || contains(p, "::strict_")
        || ((contains(p, "::wrapping_")
            || contains(p, "::overflowing_")
            || contains(p, "::saturating_"))
            && (ends_with(p, "_div")
                || ends_with(p, "_rem")
                || ends_with(p, "_div_euclid")
                || ends_with(p, "_rem_euclid")))
}

/// Whether `p` is a method of `char`, or `char::from_digit`, that panics on a bad radix or a short
/// buffer.
pub open spec fn panicking_char_method(p: Seq<char>) -> bool {
    ends(p, "char::from_digit")
        || (holds(p, "char::methods::<impl char>")
            && (ends(p, "::to_digit")
                || ends(p, "::is_digit")
                || ends(p, "::encode_utf8")
                || ends(p, "::encode_utf16")))
}

/// Whether `p` is a method of `char`, or `char::from_digit`, that panics on a bad radix or a short
/// buffer.
#[must_use]
pub fn is_panicking_char_method(p: &str) -> (r: bool)
    ensures
        r == panicking_char_method(p@),
{
    if ends_with(p, "char::from_digit") {
        return true;
    }
    if !contains(p, "char::methods::<impl char>") {
        return false;
    }
    ends_with(p, "::to_digit")
        || ends_with(p, "::is_digit")
        || ends_with(p, "::encode_utf8")
        || ends_with(p, "::encode_utf16")
}

/// Whether `p` indexes through a trait, or is a method of slices or `str` that panics on a bad
/// index, length, size or order.
pub open spec fn panicking_index_or_slice_call(p: Seq<char>) -> bool {
    ends(p, "ops::Index::index")
        || ends(p, "ops::IndexMut::index_mut")
        || ((holds(p, "::slice::<impl") || holds(p, "::str::<impl"))
            && (ends(p, "::split_at")
                || ends(p, "::split_at_mut")
                || ends(p, "::chunks")
                || ends(p, "::chunks_mut")
                || ends(p, "::chunks_exact")
                || ends(p, "::chunks_exact_mut")
                || ends(p, "::rchunks")
                || ends(p, "::rchunks_mut")
                || ends(p, "::rchunks_exact")
                || ends(p, "::rchunks_exact_mut")
                || ends(p, "::windows")
                || ends(p, "::swap")
                || ends(p, "::swap_with_slice")
                || ends(p, "::rotate_left")
                || ends(p, "::rotate_right")
                || ends(p, "::copy_from_slice")
                || ends(p, "::clone_from_slice")
                || ends(p, "::copy_within")
                || ends(p, "::select_nth_unstable")
                || ends(p, "::select_nth_unstable_by")
                || ends(p, "::select_nth_unstable_by_key")
                || ends(p, "::sort")
                || ends(p, "::sort_unstable")
                || ends(p, "::as_chunks")
                || ends(p, "::as_chunks_mut")
                || ends(p, "::as_rchunks")
                || ends(p, "::as_rchunks_mut")))
}

/// Whether `p` indexes through a trait, or is a method of slices or `str` that panics on a bad
/// index, length, size or order.
#[must_use]
pub fn is_panicking_index_or_slice_call(p: &str) -> (r: bool)
    ensures
        r == panicking_index_or_slice_call(p@),
{
    if ends_with(p, "ops::Index::index") || ends_with(p, "ops::IndexMut::index_mut") {
        return true;
    }
    let on_slice_or_str: bool = contains(p, "::slice::<impl") || contains(p, "::str::<impl");
    if !on_slice_or_str {
        return false;
    }
    ends_with(p, "::split_at")
        || ends_with(p, "::split_at_mut")
        || ends_with(p, "::chunks")
        || ends_with(p, "::chunks_mut")
        || ends_with(p, "::chunks_exact")
        || ends_with(p, "::chunks_exact_mut")
        || ends_with(p, "::rchunks")
        || ends_with(p, "::rchunks_mut")
        || ends_with(p, "::rchunks_exact")
        || ends_with(p, "::rchunks_exact_mut")
        || ends_with(p, "::windows")
        || ends_with(p, "::swap")
        || ends_with(p, "::swap_with_slice")
        || ends_with(p, "::rotate_left")
        || ends_with(p, "::rotate_right")
        || ends_with(p, "::copy_from_slice")
        || ends_with(p, "::clone_from_slice")
        || ends_with(p, "::copy_within")
        || ends_with(p, "::select_nth_unstable")
        || ends_with(p, "::select_nth_unstable_by")
        || ends_with(p, "::select_nth_unstable_by_key")
        || ends_with(p, "::sort")
        || ends_with(p, "::sort_unstable")
        || ends_with(p, "::as_chunks")
        || ends_with(p, "::as_chunks_mut")
        || ends_with(p, "::as_rchunks")
        || ends_with(p, "::as_rchunks_mut")
}

/// Whether `p` is a library call that is known to panic on some input.
pub open spec fn panicking_call(p: Seq<char>) -> bool {
    panicking_library_call(p) || panicking_int_method(p) || panicking_index_or_slice_call(p)
        || panicking_char_method(p)
}

/// Whether `p` is a library call that is known to panic on some input.
pub fn is_panicking_call(p: &str) -> (r: bool)
    ensures
        r == panicking_call(p@),
{
    is_panicking_library_call(p) || is_panicking_int_method(p)
        || is_panicking_index_or_slice_call(p) || is_panicking_char_method(p)
}

/// Whether `p` lies in the standard library.
pub open spec fn stdlib_namespace_path(p: Seq<char>) -> bool {
    begins(p, "core::") || begins(p, "std::") || begins(p, "alloc::")
}

/// Whether `p` lies in the standard library.
#[must_use]
pub fn is_stdlib_namespace_path(p: &str) -> (r: bool)
    ensures
        r == stdlib_namespace_path(p@),
{
    starts_with(p, "core::") || starts_with(p, "std::") || starts_with(p, "alloc::")
}

/// The methods of `Option` and `Result` that never panic by themselves.
pub open spec fn total_option_method(p: Seq<char>) -> bool {
    holds(p, "::unwrap_or")
        || ends(p, "::is_some")
        || ends(p, "::is_none")
        || ends(p, "::is_ok")
        || ends(p, "::is_err")
        || ends(p, "::is_some_and")
        || ends(p, "::is_none_or")
        || ends(p, "::is_ok_and")
        || ends(p, "::is_err_and")
        || ends(p, "::map")
        || ends(p, "::map_or")
        || ends(p, "::map_or_else")
        || ends(p, "::map_err")
        || ends(p, "::and_then")
        || ends(p, "::or_else")
        || ends(p, "::and")
        || ends(p, "::or")
        || ends(p, "::xor")
        || ends(p, "::zip")
        || ends(p, "::transpose")
        || ends(p, "::get_or_insert")
        || ends(p, "::ok")
        || ends(p, "::err")
        || ends(p, "::ok_or")
        || ends(p, "::ok_or_else")
        || ends(p, "::as_ref")
        || ends(p, "::as_mut")
        || ends(p, "::take")
        || ends(p, "::replace")
        || ends(p, "::filter")
        || ends(p, "::flatten")
        || ends(p, "::cloned")
        || ends(p, "::copied")
        || ends(p, "::unwrap_or_default")
}

/// The families and methods of the primitive integers that never panic, once those that do are set
/// aside.
pub open spec fn total_int_method(p: Seq<char>) -> bool {
    holds(p, "::wrapping_")
        || holds(p, "::checked_")
        || holds(p, "::saturating_")
        || holds(p, "::overflowing_")
        || holds(p, "::unbounded_")
        || holds(p, "::from_")
        || holds(p, "::to_")
        || ends(p, "::midpoint")
        || ends(p, "::abs_diff")
        || ends(p, "::unsigned_abs")
        || ends(p, "::signum")
        || ends(p, "::is_positive")
        || ends(p, "::is_negative")
        || ends(p, "::is_power_of_two")
        || ends(p, "::count_ones")
        || ends(p, "::count_zeros")
        || ends(p, "::leading_zeros")
        || ends(p, "::trailing_zeros")
        || ends(p, "::leading_ones")
        || ends(p, "::trailing_ones")
        || ends(p, "::rotate_left")
        || ends(p, "::rotate_right")
        || ends(p, "::swap_bytes")
        || ends(p, "::reverse_bits")
        || (ends(p, "::isqrt") && holds(p, "num::<impl u"))
}

/// The comparison functions and traits whose calls never panic.
pub open spec fn total_ordering_call(p: Seq<char>) -> bool {
    ends(p, "::cmp::Ord::min")
        || ends(p, "::cmp::Ord::max")
        || ends(p, "::cmp::Ord::cmp")
        || ends(p, "::cmp::min")
        || ends(p, "::cmp::max")
        || holds(p, "::cmp::PartialOrd::")
        || holds(p, "::cmp::PartialEq::")
        || holds(p, "::cmp::Ordering::")
}

/// The conversion traits, and `identity`.
pub open spec fn total_conversion(p: Seq<char>) -> bool {
    ends(p, "::convert::From::from")
        || ends(p, "::convert::Into::into")
        || ends(p, "::convert::TryFrom::try_from")
        || ends(p, "::convert::TryInto::try_into")
        || ends(p, "::convert::identity")
}

/// The methods of `char` that never panic, once those that do are set aside.
pub open spec fn total_char_method(p: Seq<char>) -> bool {
    holds(p, "::is_")
        || holds(p, "::to_")
        || holds(p, "::make_ascii_")
        || holds(p, "::eq_ignore_ascii_case")
        || ends(p, "::len_utf8")
        || ends(p, "::len_utf16")
}

/// The methods of slices and `str` that never panic.
pub open spec fn total_slice_method(p: Seq<char>) -> bool {
    ends(p, "::len")
        || ends(p, "::is_empty")
        || ends(p, "::first")
        || ends(p, "::last")
        || ends(p, "::first_chunk")
        || ends(p, "::last_chunk")
        || ends(p, "::split_first")
        || ends(p, "::split_last")
        || ends(p, "::split_first_chunk")
        || ends(p, "::split_last_chunk")
        || ends(p, "::get")
        || ends(p, "::get_mut")
        || ends(p, "::iter")
        || ends(p, "::iter_mut")
        || ends(p, "::split_at_checked")
        || ends(p, "::split_at_mut_checked")
        || ends(p, "::binary_search")
        || ends(p, "::as_ptr")
        || ends(p, "::as_mut_ptr")
        || ends(p, "::as_bytes")
        || ends(p, "::contains")
        || ends(p, "::starts_with")
        || ends(p, "::ends_with")
        || ends(p, "::fill")
        || ends(p, "::reverse")
}

/// Whether `p` is a library call that is trusted to be total. A call that is known to panic is
/// not; for the others, the receiver's family decides which list applies.
pub open spec fn trusted_total_library_call(p: Seq<char>) -> bool {
    !panicking_call(p) && if on_option_or_result(p) {
        total_option_method(p)
    } else if holds(p, "num::<impl") {
        total_int_method(p)
    } else if total_ordering_call(p) || total_conversion(p) {
        true
    } else if holds(p, "char::methods::<impl char>") {
        total_char_method(p)
    } else {
        ends(p, "char::from_u32")
            || ((holds(p, "::slice::<impl [T]>") || holds(p, "::str::<impl str>"))
                && total_slice_method(p))
    }
}

/// Whether `p` is a library call that is trusted to be total.
#[must_use]
pub fn is_trusted_total_library_call(p: &str) -> (r: bool)
    ensures
        r == trusted_total_library_call(p@),
{
    if is_panicking_call(p) {
        return false;
    }
    if contains(p, "option::Option") || contains(p, "result::Result") {
        return contains(p, "::unwrap_or")
            || ends_with(p, "::is_some")
            || ends_with(p, "::is_none")
            || ends_with(p, "::is_ok")
            || ends_with(p, "::is_err")
            || ends_with(p, "::is_some_and")
            || ends_with(p, "::is_none_or")
            || ends_with(p, "::is_ok_and")
            || ends_with(p, "::is_err_and")
            || ends_with(p, "::map")
            || ends_with(p, "::map_or")
            || ends_with(p, "::map_or_else")
            || ends_with(p, "::map_err")
            || ends_with(p, "::and_then")
            || ends_with(p, "::or_else")
            || ends_with(p, "::and")
            || ends_with(p, "::or")
            || ends_with(p, "::xor")
            || ends_with(p, "::zip")
            || ends_with(p, "::transpose")
            || ends_with(p, "::get_or_insert")
            || ends_with(p, "::ok")
            || ends_with(p, "::err")
            || ends_with(p, "::ok_or")
            || ends_with(p, "::ok_or_else")
            || ends_with(p, "::as_ref")
            || ends_with(p, "::as_mut")
            || ends_with(p, "::take")
            || ends_with(p, "::replace")
            || ends_with(p, "::filter")
            || ends_with(p, "::flatten")
            || ends_with(p, "::cloned")
            || ends_with(p, "::copied")
            || ends_with(p, "::unwrap_or_default");
    }
    if contains(p, "num::<impl") {
        return contains(p, "::wrapping_")
            || contains(p, "::checked_")
            || contains(p, "::saturating_")
            || contains(p, "::overflowing_")
            || contains(p, "::unbounded_")
            || contains(p, "::from_")
            || contains(p, "::to_")
            || ends_with(p, "::midpoint")
            || ends_with(p, "::abs_diff")
            || ends_with(p, "::unsigned_abs")
            || ends_with(p, "::signum")
            || ends_with(p, "::is_positive")
            || ends_with(p, "::is_negative")
            || ends_with(p, "::is_power_of_two")
            || ends_with(p, "::count_ones")
            || ends_with(p, "::count_zeros")
            || ends_with(p, "::leading_zeros")
            || ends_with(p, "::trailing_zeros")
            || ends_with(p, "::leading_ones")
            || ends_with(p, "::trailing_ones")
            || ends_with(p, "::rotate_left")
            || ends_with(p, "::rotate_right")
            || ends_with(p, "::swap_bytes")
            || ends_with(p, "::reverse_bits")
            || (ends_with(p, "::isqrt") && contains(p, "num::<impl u"));
    }
    if ends_with(p, "::cmp::Ord::min")
        || ends_with(p, "::cmp::Ord::max")
        || ends_with(p, "::cmp::Ord::cmp")
        || ends_with(p, "::cmp::min")
        || ends_with(p, "::cmp::max")
        || contains(p, "::cmp::PartialOrd::")
        || contains(p, "::cmp::PartialEq::")
        || contains(p, "::cmp::Ordering::")
    {
        return true;
    }
    if ends_with(p, "::convert::From::from")
        || ends_with(p, "::convert::Into::into")
        || ends_with(p, "::convert::TryFrom::try_from")
        || ends_with(p, "::convert::TryInto::try_into")
        || ends_with(p, "::convert::identity")
    {
        return true;
    }
    if contains(p, "char::methods::<impl char>") {
        return contains(p, "::is_")
            || contains(p, "::to_")
            || contains(p, "::make_ascii_")
            || contains(p, "::eq_ignore_ascii_case")
            || ends_with(p, "::len_utf8")
            || ends_with(p, "::len_utf16");
    }
    if ends_with(p, "char::from_u32") {
        return true;
    }
    if contains(p, "::slice::<impl [T]>") || contains(p, "::str::<impl str>") {
        return ends_with(p, "::len")
            || ends_with(p, "::is_empty")
            || ends_with(p, "::first")
            || ends_with(p, "::last")
            || ends_with(p, "::first_chunk")
            || ends_with(p, "::last_chunk")
            || ends_with(p, "::split_first")
            || ends_with(p, "::split_last")
            || ends_with(p, "::split_first_chunk")
            || ends_with(p, "::split_last_chunk")
            || ends_with(p, "::get")
            || ends_with(p, "::get_mut")
            || ends_with(p, "::iter")
            || ends_with(p, "::iter_mut")
            || ends_with(p, "::split_at_checked")
            || ends_with(p, "::split_at_mut_checked")
            || ends_with(p, "::binary_search")
            || ends_with(p, "::as_ptr")
            || ends_with(p, "::as_mut_ptr")
            || ends_with(p, "::as_bytes")
            || ends_with(p, "::contains")
            || ends_with(p, "::starts_with")
            || ends_with(p, "::ends_with")
            || ends_with(p, "::fill")
            || ends_with(p, "::reverse");
    }
    false
}

/// What follows the standard library root that `p` starts with, if it starts with one.
pub open spec fn root_suffix(p: Seq<char>) -> Option<Seq<char>> {
    if begins(p, "core::") {
        Some(p.skip(6))
    } else if begins(p, "std::") {
        Some(p.skip(5))
    } else if begins(p, "alloc::") {
        Some(p.skip(7))
    } else {
        None
    }
}

/// What follows the standard library root that `path` starts with, if it starts with one.
pub fn stdlib_root_suffix(path: &str) -> (r: Option<String>)
    ensures
        crate::text::opt_view(r) == root_suffix(path@),
{
    proof {
        reveal_strlit("core::");
        reveal_strlit("std::");
        reveal_strlit("alloc::");
    }
    let n: usize = path.unicode_len();
    if starts_with(path, "core::") {
        Some(path.substring_char(6, n).to_owned())
    } else if starts_with(path, "std::") {
        Some(path.substring_char(5, n).to_owned())
    } else if starts_with(path, "alloc::") {
        Some(path.substring_char(7, n).to_owned())
    } else {
        None
    }
}

} // verus!
