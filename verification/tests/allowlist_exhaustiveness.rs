//! Every member of each trusted method family: a member that can panic is caught by a deny matcher and
//! never trusted, and a total one is trusted and does not panic on the input that a careless sibling
//! would panic on.

use pitbull_subset::visitor::{
    is_panicking_char_method, is_panicking_index_or_slice_call, is_panicking_int_method,
    is_panicking_library_call, is_trusted_total_library_call,
};
use std::cmp::Ordering;
use std::hint::black_box;
use std::sync::atomic::{AtomicUsize, Ordering as AtomicOrdering};

#[derive(Clone, Copy, Debug)]
enum G {
    Total,
    Panics,
}

const TABLE: &[(&str, G, Option<fn()>)] = &[
    ("core::num::<impl i32>::wrapping_add", G::Total, Some(|| { let _ = i32::MAX.wrapping_add(black_box(1)); })),
    ("core::num::<impl i32>::wrapping_sub", G::Total, Some(|| { let _ = i32::MIN.wrapping_sub(black_box(1)); })),
    ("core::num::<impl i32>::wrapping_mul", G::Total, Some(|| { let _ = i32::MAX.wrapping_mul(black_box(2)); })),
    ("core::num::<impl i32>::wrapping_neg", G::Total, Some(|| { let _ = black_box(i32::MIN).wrapping_neg(); })),
    ("core::num::<impl i32>::wrapping_abs", G::Total, Some(|| { let _ = black_box(i32::MIN).wrapping_abs(); })),
    ("core::num::<impl i32>::wrapping_pow", G::Total, Some(|| { let _ = i32::MAX.wrapping_pow(black_box(2)); })),
    ("core::num::<impl i32>::wrapping_shl", G::Total, Some(|| { let _ = 1i32.wrapping_shl(black_box(100)); })),
    ("core::num::<impl i32>::wrapping_shr", G::Total, Some(|| { let _ = 256i32.wrapping_shr(black_box(100)); })),
    ("core::num::<impl i32>::wrapping_add_unsigned", G::Total, Some(|| { let _ = 5i32.wrapping_add_unsigned(black_box(3u32)); })),
    ("core::num::<impl i32>::wrapping_sub_unsigned", G::Total, Some(|| { let _ = 5i32.wrapping_sub_unsigned(black_box(3u32)); })),
    ("core::num::<impl u32>::wrapping_add_signed", G::Total, Some(|| { let _ = 5u32.wrapping_add_signed(black_box(-2i32)); })),
    ("core::num::<impl i32>::wrapping_div", G::Panics, None),
    ("core::num::<impl u32>::wrapping_rem", G::Panics, None),
    ("core::num::<impl i64>::wrapping_div_euclid", G::Panics, None),
    ("core::num::<impl i32>::wrapping_rem_euclid", G::Panics, None),

    ("core::num::<impl i32>::overflowing_add", G::Total, Some(|| { let _ = i32::MAX.overflowing_add(black_box(1)); })),
    ("core::num::<impl i32>::overflowing_sub", G::Total, Some(|| { let _ = i32::MIN.overflowing_sub(black_box(1)); })),
    ("core::num::<impl i32>::overflowing_mul", G::Total, Some(|| { let _ = i32::MAX.overflowing_mul(black_box(2)); })),
    ("core::num::<impl i32>::overflowing_neg", G::Total, Some(|| { let _ = black_box(i32::MIN).overflowing_neg(); })),
    ("core::num::<impl i32>::overflowing_abs", G::Total, Some(|| { let _ = black_box(i32::MIN).overflowing_abs(); })),
    ("core::num::<impl i32>::overflowing_pow", G::Total, Some(|| { let _ = i32::MAX.overflowing_pow(black_box(2)); })),
    ("core::num::<impl i32>::overflowing_shl", G::Total, Some(|| { let _ = 1i32.overflowing_shl(black_box(100)); })),
    ("core::num::<impl i32>::overflowing_shr", G::Total, Some(|| { let _ = 256i32.overflowing_shr(black_box(100)); })),
    ("core::num::<impl i32>::overflowing_add_unsigned", G::Total, Some(|| { let _ = 5i32.overflowing_add_unsigned(black_box(3u32)); })),
    ("core::num::<impl i32>::overflowing_sub_unsigned", G::Total, Some(|| { let _ = 5i32.overflowing_sub_unsigned(black_box(3u32)); })),
    ("core::num::<impl u32>::overflowing_add_signed", G::Total, Some(|| { let _ = 5u32.overflowing_add_signed(black_box(-2i32)); })),
    ("core::num::<impl u32>::overflowing_div", G::Panics, None),
    ("core::num::<impl i32>::overflowing_rem", G::Panics, None),
    ("core::num::<impl i32>::overflowing_div_euclid", G::Panics, None),
    ("core::num::<impl i64>::overflowing_rem_euclid", G::Panics, None),

    ("core::num::<impl i32>::saturating_add", G::Total, Some(|| { let _ = i32::MAX.saturating_add(black_box(1)); })),
    ("core::num::<impl i32>::saturating_sub", G::Total, Some(|| { let _ = i32::MIN.saturating_sub(black_box(1)); })),
    ("core::num::<impl i32>::saturating_mul", G::Total, Some(|| { let _ = i32::MAX.saturating_mul(black_box(2)); })),
    ("core::num::<impl i32>::saturating_neg", G::Total, Some(|| { let _ = black_box(i32::MIN).saturating_neg(); })),
    ("core::num::<impl i32>::saturating_abs", G::Total, Some(|| { let _ = black_box(i32::MIN).saturating_abs(); })),
    ("core::num::<impl i32>::saturating_pow", G::Total, Some(|| { let _ = i32::MAX.saturating_pow(black_box(2)); })),
    ("core::num::<impl i32>::saturating_add_unsigned", G::Total, Some(|| { let _ = 5i32.saturating_add_unsigned(black_box(3u32)); })),
    ("core::num::<impl i32>::saturating_sub_unsigned", G::Total, Some(|| { let _ = 5i32.saturating_sub_unsigned(black_box(3u32)); })),
    ("core::num::<impl u32>::saturating_add_signed", G::Total, Some(|| { let _ = 5u32.saturating_add_signed(black_box(-2i32)); })),
    ("core::num::<impl i32>::saturating_div", G::Panics, None),

    ("core::num::<impl i32>::checked_add", G::Total, Some(|| { let _ = i32::MAX.checked_add(black_box(1)); })),
    ("core::num::<impl i32>::checked_mul", G::Total, Some(|| { let _ = i32::MAX.checked_mul(black_box(2)); })),
    ("core::num::<impl i32>::checked_div", G::Total, Some(|| { let _ = 5i32.checked_div(black_box(0)); })),
    ("core::num::<impl u32>::checked_rem", G::Total, Some(|| { let _ = 5u32.checked_rem(black_box(0)); })),
    ("core::num::<impl i64>::checked_div_euclid", G::Total, Some(|| { let _ = 5i64.checked_div_euclid(black_box(0)); })),
    ("core::num::<impl i32>::checked_rem_euclid", G::Total, Some(|| { let _ = 5i32.checked_rem_euclid(black_box(0)); })),
    ("core::num::<impl i32>::checked_pow", G::Total, Some(|| { let _ = i32::MAX.checked_pow(black_box(2)); })),
    ("core::num::<impl i32>::checked_shl", G::Total, Some(|| { let _ = 1i32.checked_shl(black_box(100)); })),
    ("core::num::<impl u32>::checked_next_multiple_of", G::Total, Some(|| { let _ = 5u32.checked_next_multiple_of(black_box(0)); })),

    ("core::num::<impl u32>::unbounded_shl", G::Total, Some(|| { let _ = 1u32.unbounded_shl(black_box(100)); })),
    ("core::num::<impl u32>::unbounded_shr", G::Total, Some(|| { let _ = 256u32.unbounded_shr(black_box(100)); })),

    ("core::num::<impl u32>::from_le_bytes", G::Total, Some(|| { let _ = u32::from_le_bytes(black_box([1, 2, 3, 4])); })),
    ("core::num::<impl u32>::to_le_bytes", G::Total, Some(|| { let _ = 5u32.to_le_bytes(); })),
    ("core::num::<impl i32>::from_str_radix", G::Panics, None),

    ("core::num::<impl i32>::strict_add", G::Panics, None),
    ("core::num::<impl i32>::strict_sub", G::Panics, None),
    ("core::num::<impl i32>::strict_mul", G::Panics, None),
    ("core::num::<impl i32>::strict_neg", G::Panics, None),
    ("core::num::<impl i32>::strict_div", G::Panics, None),
    ("core::num::<impl i32>::strict_rem", G::Panics, None),
    ("core::num::<impl i32>::strict_pow", G::Panics, None),
    ("core::num::<impl i32>::strict_shl", G::Panics, None),
    ("core::num::<impl i32>::strict_add_unsigned", G::Panics, None),

    ("core::num::<impl u32>::pow", G::Panics, None),
    ("core::num::<impl i32>::abs", G::Panics, None),
    ("core::num::<impl i32>::div_euclid", G::Panics, None),
    ("core::num::<impl i32>::rem_euclid", G::Panics, None),
    ("core::num::<impl u32>::div_ceil", G::Panics, None),
    ("core::num::<impl u32>::next_multiple_of", G::Panics, None),
    ("core::num::<impl u32>::ilog2", G::Panics, None),
    ("core::num::<impl u32>::ilog10", G::Panics, None),
    ("core::num::<impl i32>::isqrt", G::Panics, None),

    ("core::num::<impl u32>::midpoint", G::Total, Some(|| { let _ = 4u32.midpoint(black_box(6)); })),
    ("core::num::<impl u32>::abs_diff", G::Total, Some(|| { let _ = 4u32.abs_diff(black_box(6)); })),
    ("core::num::<impl i32>::unsigned_abs", G::Total, Some(|| { let _ = black_box(i32::MIN).unsigned_abs(); })),
    ("core::num::<impl u32>::isqrt", G::Total, Some(|| { let _ = black_box(u32::MAX).isqrt(); })),
    ("core::num::<impl u32>::count_ones", G::Total, Some(|| { let _ = black_box(0xF0F0u32).count_ones(); })),
];

#[test]
fn int_family_allowlist_is_exhaustively_sound() {
    for &(path, g, probe) in TABLE {
        match g {
            G::Panics => {
                assert!(
                    is_panicking_int_method(path),
                    "DENY GAP: {path} panics but is_panicking_int_method misses it \
                     — it would fall through to the 'assume walked elsewhere' arm \
                     and be silently accepted",
                );
                assert!(
                    !is_trusted_total_library_call(path),
                    "SOUNDNESS (cardinal sin): panicking {path} is trusted-total — \
                     a false discharge; a broad allow-list glob is swallowing it",
                );
            }
            G::Total => {
                if let Some(probe) = probe {
                    probe();
                }
                assert!(
                    !is_panicking_int_method(path),
                    "FALSE REJECT: total {path} is flagged panicking by the deny \
                     matcher — provably safe code would be rejected",
                );
                assert!(
                    is_trusted_total_library_call(path),
                    "FALSE REJECT: total {path} is no longer trusted-total — a glob \
                     eviction over-reached and now rejects provably safe code",
                );
            }
        }
    }
}

#[test]
fn table_paths_are_well_formed_int_methods() {
    assert!(TABLE.len() >= 60, "exhaustiveness table shrank unexpectedly: {}", TABLE.len());
    for &(path, _, _) in TABLE {
        assert!(
            path.contains("num::<impl "),
            "table entry is not an int-method rendering (classifier keys on \
             `num::<impl`): {path}",
        );
    }
}

#[derive(PartialEq, Eq, Clone, Copy, Debug)]
struct Chaos(u32);
static CHAOS_TICK: AtomicUsize = AtomicUsize::new(0);
impl PartialOrd for Chaos {
    fn partial_cmp(&self, other: &Self) -> Option<Ordering> {
        Some(self.cmp(other))
    }
}
impl Ord for Chaos {
    fn cmp(&self, _other: &Self) -> Ordering {
        let t = CHAOS_TICK.fetch_add(1, AtomicOrdering::Relaxed) as u64;
        let mut x = t ^ 0x9E37_79B9_7F4A_7C15;
        x ^= x << 13;
        x ^= x >> 7;
        x ^= x << 17;
        match x % 3 {
            0 => Ordering::Less,
            1 => Ordering::Equal,
            _ => Ordering::Greater,
        }
    }
}

fn any_deny_matcher(path: &str) -> bool {
    is_panicking_library_call(path)
        || is_panicking_int_method(path)
        || is_panicking_index_or_slice_call(path)
        || is_panicking_char_method(path)
}

const NON_INT_TABLE: &[(&str, G, Option<fn()>)] = &[
    ("core::slice::<impl [T]>::split_at", G::Panics, None),
    ("core::slice::<impl [T]>::split_at_mut", G::Panics, None),
    ("core::slice::<impl [T]>::chunks", G::Panics, None),
    ("core::slice::<impl [T]>::chunks_exact", G::Panics, None),
    ("core::slice::<impl [T]>::rchunks", G::Panics, None),
    ("core::slice::<impl [T]>::rchunks_exact", G::Panics, None),
    ("core::slice::<impl [T]>::windows", G::Panics, None),
    ("core::slice::<impl [T]>::swap", G::Panics, None),
    ("core::slice::<impl [T]>::swap_with_slice", G::Panics, None),
    ("core::slice::<impl [T]>::rotate_left", G::Panics, None),
    ("core::slice::<impl [T]>::rotate_right", G::Panics, None),
    ("core::slice::<impl [T]>::copy_from_slice", G::Panics, None),
    ("core::slice::<impl [T]>::clone_from_slice", G::Panics, None),
    ("core::slice::<impl [T]>::copy_within", G::Panics, None),
    ("core::slice::<impl [T]>::select_nth_unstable", G::Panics, None),
    ("core::slice::<impl [T]>::as_chunks", G::Panics, None),
    ("core::slice::<impl [T]>::as_rchunks", G::Panics, None),

    ("core::slice::<impl [T]>::sort", G::Panics, None),
    ("core::slice::<impl [T]>::sort_unstable", G::Panics, None),

    ("core::slice::<impl [T]>::len", G::Total, Some(|| { let v = [1u8, 2, 3]; assert_eq!(black_box(v.len()), 3); })),
    ("core::slice::<impl [T]>::is_empty", G::Total, Some(|| { let v: [u8; 0] = []; let _ = black_box(black_box(v).is_empty()); })),
    ("core::slice::<impl [T]>::first", G::Total, Some(|| { let v: [u8; 0] = []; assert!(black_box(v.first()).is_none()); })),
    ("core::slice::<impl [T]>::last", G::Total, Some(|| { let v: [u8; 0] = []; assert!(black_box(v.last()).is_none()); })),
    ("core::slice::<impl [T]>::first_chunk", G::Total, Some(|| { let v = [1u8, 2, 3]; assert!(black_box(v.first_chunk::<8>()).is_none()); })),
    ("core::slice::<impl [T]>::last_chunk", G::Total, Some(|| { let v = [1u8, 2, 3]; assert!(black_box(v.last_chunk::<9>()).is_none()); })),
    ("core::slice::<impl [T]>::split_first", G::Total, Some(|| { let v: [u8; 0] = []; assert!(black_box(v.split_first()).is_none()); })),
    ("core::slice::<impl [T]>::split_last", G::Total, Some(|| { let v: [u8; 0] = []; assert!(black_box(v.split_last()).is_none()); })),
    ("core::slice::<impl [T]>::split_first_chunk", G::Total, Some(|| { let v = [1u8, 2, 3]; assert!(black_box(v.split_first_chunk::<9>()).is_none()); })),
    ("core::slice::<impl [T]>::split_last_chunk", G::Total, Some(|| { let v = [1u8, 2, 3]; assert!(black_box(v.split_last_chunk::<9>()).is_none()); })),
    ("core::slice::<impl [T]>::get", G::Total, Some(|| { let v = [1u8, 2, 3]; assert!(black_box(v.get(black_box(17))).is_none()); })),
    ("core::slice::<impl [T]>::get_mut", G::Total, Some(|| { let mut v = [1u8, 2, 3]; assert!(black_box(v.get_mut(black_box(9))).is_none()); })),
    ("core::slice::<impl [T]>::split_at_checked", G::Total, Some(|| { let v = [1u8, 2, 3]; assert!(black_box(v.split_at_checked(black_box(9))).is_none()); })),
    ("core::slice::<impl [T]>::split_at_mut_checked", G::Total, Some(|| { let mut v = [1u8, 2, 3]; assert!(black_box(v.split_at_mut_checked(black_box(9))).is_none()); })),

    ("core::slice::<impl [T]>::binary_search", G::Total, Some(|| { let v: Vec<Chaos> = (0..64).map(Chaos).collect(); let _ = black_box(v.binary_search(&Chaos(7))); })),
    ("core::slice::<impl [T]>::fill", G::Total, Some(|| { let mut v = [0u8; 4]; v.fill(black_box(7)); black_box(&v); })),
    ("core::slice::<impl [T]>::reverse", G::Total, Some(|| { let mut v = [1u8, 2, 3]; v.reverse(); black_box(&v); })),
    ("core::slice::<impl [T]>::contains", G::Total, Some(|| { let v = [1u8, 2, 3]; assert!(!black_box(v.contains(&9))); })),
    ("core::slice::<impl [T]>::starts_with", G::Total, Some(|| { let v = [1u8, 2, 3]; assert!(!black_box(v.starts_with(&[9]))); })),
    ("core::slice::<impl [T]>::ends_with", G::Total, Some(|| { let v = [1u8, 2, 3]; assert!(!black_box(v.ends_with(&[9]))); })),

    ("core::str::<impl str>::split_at", G::Panics, None),
    ("core::str::<impl str>::get", G::Total, Some(|| { let s = "é"; assert!(black_box(s.get(black_box(0..1))).is_none()); })),
    ("core::str::<impl str>::split_at_checked", G::Total, Some(|| { let s = "é"; assert!(black_box(s.split_at_checked(black_box(1))).is_none()); })),
    ("core::str::<impl str>::len", G::Total, Some(|| { assert_eq!(black_box("abc").len(), 3); })),
    ("core::str::<impl str>::is_empty", G::Total, Some(|| { assert!(!black_box("abc").is_empty()); })),
    ("core::str::<impl str>::as_bytes", G::Total, Some(|| { let _ = black_box(black_box("abc").as_bytes()); })),
    ("core::str::<impl str>::contains", G::Total, Some(|| { assert!(!black_box("abc").contains('x')); })),
    ("core::str::<impl str>::starts_with", G::Total, Some(|| { assert!(!black_box("abc").starts_with('x')); })),
    ("core::str::<impl str>::ends_with", G::Total, Some(|| { assert!(!black_box("abc").ends_with('x')); })),

    ("std::ops::Index::index", G::Panics, None),
    ("std::ops::IndexMut::index_mut", G::Panics, None),

    ("std::char::from_digit", G::Panics, None),
    ("std::char::methods::<impl char>::to_digit", G::Panics, None),
    ("std::char::methods::<impl char>::is_digit", G::Panics, None),
    ("std::char::methods::<impl char>::encode_utf8", G::Panics, None),
    ("std::char::methods::<impl char>::encode_utf16", G::Panics, None),
    ("std::char::methods::<impl char>::is_alphabetic", G::Total, Some(|| { assert!(black_box('a').is_alphabetic()); })),
    ("std::char::methods::<impl char>::to_ascii_uppercase", G::Total, Some(|| { let _ = black_box(black_box('a').to_ascii_uppercase()); })),
    ("std::char::methods::<impl char>::len_utf8", G::Total, Some(|| { assert_eq!(black_box('é').len_utf8(), 2); })),
    ("std::char::methods::<impl char>::len_utf16", G::Total, Some(|| { assert_eq!(black_box('é').len_utf16(), 1); })),
    ("std::char::methods::<impl char>::eq_ignore_ascii_case", G::Total, Some(|| { assert!(black_box('a').eq_ignore_ascii_case(&'A')); })),
    ("core::char::from_u32", G::Total, Some(|| { assert!(black_box(char::from_u32(black_box(0xD800))).is_none()); })),

    ("core::option::Option::<u32>::unwrap", G::Panics, None),
    ("core::option::Option::<u32>::expect", G::Panics, None),
    ("core::result::Result::<u32, u8>::unwrap", G::Panics, None),
    ("core::result::Result::<u32, u8>::unwrap_err", G::Panics, None),
    ("core::result::Result::<u32, u8>::expect", G::Panics, None),

    ("core::option::Option::<u32>::is_some", G::Total, Some(|| { let x: Option<u32> = black_box(None); let _ = black_box(x.is_some()); })),
    ("core::option::Option::<u32>::is_none", G::Total, Some(|| { let x: Option<u32> = black_box(None); let _ = black_box(x.is_none()); })),
    ("core::option::Option::<u32>::unwrap_or", G::Total, Some(|| { let x: Option<u32> = black_box(None); assert_eq!(x.unwrap_or(5), 5); })),
    ("core::option::Option::<u32>::unwrap_or_default", G::Total, Some(|| { let x: Option<u32> = black_box(None); assert_eq!(x.unwrap_or_default(), 0); })),
    ("core::option::Option::<u32>::map", G::Total, Some(|| { let x: Option<u32> = black_box(None); let _ = black_box(x.map(|v| v + 1)); })),
    ("core::option::Option::<u32>::and_then", G::Total, Some(|| { let x: Option<u32> = black_box(None); let _ = black_box(x.and_then(|v| v.checked_add(1))); })),
    ("core::option::Option::<u32>::filter", G::Total, Some(|| { let x: Option<u32> = black_box(None); let _ = black_box(x.filter(|v| *v > 0)); })),
    ("core::option::Option::<u32>::or", G::Total, Some(|| { let x: Option<u32> = black_box(None); let _ = black_box(x.or(Some(1))); })),
    ("core::option::Option::<u32>::xor", G::Total, Some(|| { let x: Option<u32> = black_box(None); let _ = black_box(x.xor(Some(1))); })),
    ("core::option::Option::<u32>::zip", G::Total, Some(|| { let x: Option<u32> = black_box(None); let _ = black_box(x.zip(Some(1u32))); })),
    ("core::option::Option::<u32>::take", G::Total, Some(|| { let mut x: Option<u32> = black_box(None); let _ = black_box(x.take()); })),
    ("core::option::Option::<u32>::replace", G::Total, Some(|| { let mut x: Option<u32> = black_box(None); let _ = black_box(x.replace(3)); })),
    ("core::option::Option::<u32>::get_or_insert", G::Total, Some(|| { let mut x: Option<u32> = black_box(None); let _ = black_box(*x.get_or_insert(9)); })),
    ("core::option::Option::<u32>::ok_or", G::Total, Some(|| { let x: Option<u32> = black_box(None); let _ = black_box(x.ok_or(1u8)); })),
    ("core::option::Option::<u32>::flatten", G::Total, Some(|| { let x: Option<Option<u32>> = black_box(Some(None)); let _ = black_box(x.flatten()); })),
    ("core::option::Option::<u32>::transpose", G::Total, Some(|| { let x: Option<Result<u32, u8>> = black_box(Some(Ok(1))); let _ = black_box(x.transpose()); })),
    ("core::result::Result::<u32, u8>::is_ok", G::Total, Some(|| { let r: Result<u32, u8> = black_box(Err(1)); let _ = black_box(r.is_ok()); })),
    ("core::result::Result::<u32, u8>::ok", G::Total, Some(|| { let r: Result<u32, u8> = black_box(Err(1)); assert!(black_box(r.ok()).is_none()); })),
    ("core::result::Result::<u32, u8>::err", G::Total, Some(|| { let r: Result<u32, u8> = black_box(Err(1)); assert!(black_box(r.err()).is_some()); })),
    ("core::result::Result::<u32, u8>::map_err", G::Total, Some(|| { let r: Result<u32, u8> = black_box(Err(1)); let _ = black_box(r.map_err(|e| e + 1)); })),
    ("core::result::Result::<u32, u8>::unwrap_or", G::Total, Some(|| { let r: Result<u32, u8> = black_box(Err(1)); assert_eq!(r.unwrap_or(7), 7); })),

    ("std::cmp::Ord::clamp", G::Panics, None),
    ("std::cmp::Ord::min", G::Total, Some(|| { let _ = black_box(std::cmp::min(Chaos(1), Chaos(2))); })),
    ("std::cmp::Ord::max", G::Total, Some(|| { let _ = black_box(std::cmp::max(Chaos(1), Chaos(2))); })),
    ("std::cmp::Ord::cmp", G::Total, Some(|| { let _ = black_box(Chaos(1).cmp(&Chaos(2))); })),
];

#[test]
fn non_int_allowlist_is_sound_against_runtime_truth() {
    for &(path, g, probe) in NON_INT_TABLE {
        match g {
            G::Panics => {
                assert!(
                    any_deny_matcher(path),
                    "DENY GAP: {path} panics but no is_panicking_* matcher catches it — \
                     it would fall through to the 'assume walked elsewhere' arm and be \
                     silently accepted",
                );
                assert!(
                    !is_trusted_total_library_call(path),
                    "SOUNDNESS (cardinal sin): panicking {path} is trusted-total — a \
                     false discharge",
                );
            }
            G::Total => {
                if let Some(probe) = probe {
                    probe();
                }
                assert!(
                    !any_deny_matcher(path),
                    "FALSE REJECT: total {path} is flagged panicking by a deny matcher",
                );
                assert!(
                    is_trusted_total_library_call(path),
                    "FALSE REJECT: total {path} is not trusted-total — provably safe code \
                     would be rejected",
                );
            }
        }
    }
}

#[test]
fn non_int_table_paths_are_classified_by_some_arm() {
    assert!(
        NON_INT_TABLE.len() >= 70,
        "non-integer exhaustiveness table shrank unexpectedly: {}",
        NON_INT_TABLE.len(),
    );
    for &(path, g, _) in NON_INT_TABLE {
        let recognized = any_deny_matcher(path) || is_trusted_total_library_call(path);
        assert!(
            recognized,
            "table entry `{path}` is recognized by NO classifier arm — the rendering is \
             probably wrong, which makes its {g:?} row vacuous",
        );
    }
}
