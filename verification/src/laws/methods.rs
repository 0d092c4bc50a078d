//! Which methods of the standard library panic, and which are trusted to be total, by their names.
//!
//! The names are written out here, and each law goes through all of them: a path that is made of a
//! standard library root, the place of the type or trait, and a name is classified just as the name
//! is.
use vstd::prelude::*;
use crate::laws::integers::{
    is_int_name, is_signed_name, is_unsigned_name, lemma_int_name, no_colon,
};
use crate::paths::{panicking_call, trusted_total_library_call};
use crate::text::{ends, holds, occurs_at};

verus! {

// ---------------------------------------------------------------------------
// Names.
// ---------------------------------------------------------------------------

/// The methods of slices and strings that panic on some argument, or that run a comparison of the
/// caller.
pub open spec fn slice_method_panics(x: Seq<char>) -> bool {
    x == "split_at"@ || x == "split_at_mut"@ || x == "chunks"@ || x == "chunks_mut"@
        || x == "chunks_exact"@ || x == "chunks_exact_mut"@ || x == "rchunks"@
        || x == "rchunks_mut"@ || x == "rchunks_exact"@ || x == "rchunks_exact_mut"@
        || x == "windows"@ || x == "swap"@ || x == "swap_with_slice"@ || x == "rotate_left"@
        || x == "rotate_right"@ || x == "copy_from_slice"@ || x == "clone_from_slice"@
        || x == "copy_within"@ || x == "select_nth_unstable"@ || x == "select_nth_unstable_by"@
        || x == "select_nth_unstable_by_key"@ || x == "sort"@ || x == "sort_unstable"@
        || x == "as_chunks"@ || x == "as_chunks_mut"@ || x == "as_rchunks"@
        || x == "as_rchunks_mut"@
}

/// The methods of slices and strings that are total.
pub open spec fn slice_method_is_total(x: Seq<char>) -> bool {
    x == "len"@ || x == "is_empty"@ || x == "first"@ || x == "last"@ || x == "first_chunk"@
        || x == "last_chunk"@ || x == "split_first"@ || x == "split_last"@
        || x == "split_first_chunk"@ || x == "split_last_chunk"@ || x == "get"@ || x == "get_mut"@
        || x == "iter"@ || x == "iter_mut"@ || x == "split_at_checked"@
        || x == "split_at_mut_checked"@ || x == "binary_search"@ || x == "as_ptr"@
        || x == "as_mut_ptr"@ || x == "as_bytes"@ || x == "contains"@ || x == "starts_with"@
        || x == "ends_with"@ || x == "fill"@ || x == "reverse"@
}

/// The methods of options and results that panic.
pub open spec fn option_method_panics(x: Seq<char>) -> bool {
    x == "unwrap"@ || x == "expect"@ || x == "unwrap_err"@ || x == "expect_err"@
}

/// The methods of options and results that are trusted.
pub open spec fn option_method_is_total(x: Seq<char>) -> bool {
    "unwrap_or"@.is_prefix_of(x)
        || x == "is_some"@ || x == "is_none"@ || x == "is_ok"@ || x == "is_err"@
            || x == "is_some_and"@ || x == "is_none_or"@ || x == "is_ok_and"@
            || x == "is_err_and"@ || x == "map"@ || x == "map_or"@ || x == "map_or_else"@
            || x == "map_err"@ || x == "and_then"@ || x == "or_else"@ || x == "and"@ || x == "or"@
            || x == "xor"@ || x == "zip"@ || x == "transpose"@ || x == "get_or_insert"@
            || x == "ok"@ || x == "err"@ || x == "ok_or"@ || x == "ok_or_else"@ || x == "as_ref"@
            || x == "as_mut"@ || x == "take"@ || x == "replace"@ || x == "filter"@
            || x == "flatten"@ || x == "cloned"@ || x == "copied"@ || x == "unwrap_or_default"@
}

/// The methods of characters that panic.
pub open spec fn char_method_panics(x: Seq<char>) -> bool {
    x == "to_digit"@ || x == "is_digit"@ || x == "encode_utf8"@ || x == "encode_utf16"@
}

/// The methods of characters that are trusted.
pub open spec fn char_method_is_total(x: Seq<char>) -> bool {
    "is_"@.is_prefix_of(x) || "to_"@.is_prefix_of(x) || "make_ascii_"@.is_prefix_of(x)
        || "eq_ignore_ascii_case"@.is_prefix_of(x) || x == "len_utf8"@ || x == "len_utf16"@
}

/// The roots of the standard library.
pub open spec fn is_root(root: Seq<char>) -> bool {
    root == "core"@ || root == "std"@ || root == "alloc"@
}

/// The path of the item `x` at the place `tail` behind `root`.
pub open spec fn item(root: Seq<char>, tail: Seq<char>, x: Seq<char>) -> Seq<char> {
    root + tail + x
}

// ---------------------------------------------------------------------------
// Paths, seam by seam.
// ---------------------------------------------------------------------------

proof fn lemma_root(root: Seq<char>)
    requires
        is_root(root),
    ensures
        root.len() >= 3,
        no_colon(root),
        root.last() == 'e' || root.last() == 'd' || root.last() == 'c',
{
    reveal_strlit("core");
    reveal_strlit("std");
    reveal_strlit("alloc");
}

/// Whether `tail` is a place: it starts and ends with a seam.
spec fn is_tail(tail: Seq<char>) -> bool {
    tail.len() >= 3 && tail[0] == ':' && tail[1] == ':' && tail[tail.len() - 2] == ':'
        && tail.last() == ':'
}

/// Whether `w`, with its seam at `k` laid on the seam `j` of `tail`, does not fit there.
spec fn misfits(root: Seq<char>, tail: Seq<char>, w: Seq<char>, k: int, j: int) -> bool {
    ||| k > 0 && w[k - 1] != (if j == 0 {
        root.last()
    } else {
        tail[j - 1]
    })
    ||| k > 1 && j > 1 && w[k - 2] != tail[j - 2]
    ||| k + 2 < w.len() && j + 2 < tail.len() && w[k + 2] != tail[j + 2]
    ||| k + 3 < w.len() && j + 3 < tail.len() && w[k + 3] != tail[j + 3]
    ||| j + 2 == tail.len() && exists|c: int| k + 2 <= c < w.len() && w[c] == ':'
}

/// A text that fits no seam of a path does not stand in it.
proof fn lemma_absent(root: Seq<char>, tail: Seq<char>, x: Seq<char>, w: &str, k: int)
    requires
        is_root(root),
        is_tail(tail),
        no_colon(x),
        0 <= k,
        k + 1 < w@.len(),
        w@[k] == ':',
        w@[k + 1] == ':',
        forall|j: int|
            0 <= j < tail.len() - 1 && #[trigger] tail[j] == ':' && tail[j + 1] == ':'
                ==> misfits(root, tail, w@, k, j),
    ensures
        !holds(item(root, tail, x), w),
{
    lemma_root(root);
    let p = item(root, tail, x);
    let r = root.len() as int;
    if holds(p, w) {
        let i = choose|i: int| occurs_at(p, w@, i);
        let s = p.subrange(i, i + w@.len());
        assert(s == w@);
        assert(s[k] == p[i + k] && s[k + 1] == p[i + k + 1]);
        let j = i + k - r;
        assert(j >= 0) by {
            if j < 0 {
                assert(p[i + k] == root[i + k]);
            }
        }
        assert(j + 1 < tail.len()) by {
            if j + 1 >= tail.len() {
                assert(p[i + k + 1] == x[j + 1 - tail.len()]);
            }
        }
        assert(tail[j] == ':' && tail[j + 1] == ':');
        assert(misfits(root, tail, w@, k, j));
        if k > 0 {
            assert(s[k - 1] == p[i + k - 1]);
        }
        if k > 1 {
            assert(s[k - 2] == p[i + k - 2]);
        }
        if k + 2 < w@.len() {
            assert(s[k + 2] == p[i + k + 2]);
        }
        if k + 3 < w@.len() {
            assert(s[k + 3] == p[i + k + 3]);
        }
        if j + 2 == tail.len() {
            assert forall|c: int| k + 2 <= c < w@.len() implies w@[c] != ':' by {
                assert(s[c] == p[i + c]);
                assert(p[i + c] == x[c - k - 2]);
            }
        }
    }
}

/// A path ends in a seam and a name just if that is its last name.
proof fn lemma_named(root: Seq<char>, tail: Seq<char>, x: Seq<char>, w: &str, name: &str)
    requires
        is_tail(tail),
        no_colon(x),
        no_colon(name@),
        w@ == "::"@ + name@,
    ensures
        ends(item(root, tail, x), w) <==> x == name@,
{
    reveal_strlit("::");
    lemma_last(root, tail, x, w, 0);
    assert(w@.skip(2) =~= name@);
    let lead = root + tail;
    assert(lead.subrange(lead.len() - 2, lead.len() as int) =~= w@.take(2));
}

/// A path ends in a text with its last seam at `k` just if the name is what follows that seam and
/// the place ends in what goes before.
proof fn lemma_last(root: Seq<char>, tail: Seq<char>, x: Seq<char>, w: &str, k: int)
    requires
        is_tail(tail),
        no_colon(x),
        0 <= k,
        k + 2 <= w@.len(),
        w@[k] == ':',
        w@[k + 1] == ':',
        no_colon(w@.skip(k + 2)),
    ensures
        ends(item(root, tail, x), w) <==> x == w@.skip(k + 2) && (root + tail).len() >= k + 2 && (
        root + tail).subrange((root + tail).len() - k - 2, (root + tail).len() as int) == w@.take(
            k + 2,
        ),
{
    let p = item(root, tail, x);
    let lead = root + tail;
    let n = w@.len() as int;
    let at = p.len() - n;
    let rest = w@.skip(k + 2);
    assert(lead[lead.len() - 1] == ':');
    if ends(p, w) {
        let s = p.subrange(at, p.len() as int);
        assert(s == w@);
        assert(x.len() == rest.len()) by {
            if x.len() > rest.len() {
                assert(s[k + 1] == p[at + k + 1]);
                assert(p[at + k + 1] == x[at + k + 1 - lead.len()]);
            } else if x.len() < rest.len() {
                let c = lead.len() - 1 - at;
                if c >= 0 {
                    assert(s[c] == p[at + c]);
                    assert(rest[c - k - 2] == w@[c]);
                }
            }
        }
        assert(x =~= rest) by {
            assert forall|c: int| 0 <= c < x.len() implies x[c] == rest[c] by {
                assert(s[c + k + 2] == p[lead.len() + c]);
            }
        }
        assert(lead.subrange(lead.len() - k - 2, lead.len() as int) =~= w@.take(k + 2)) by {
            let part = lead.subrange(lead.len() - k - 2, lead.len() as int);
            assert forall|c: int| 0 <= c < k + 2 implies #[trigger] part[c] == w@[c] by {
                assert(s[c] == p[at + c]);
            }
        }
    }
    if x == rest && lead.len() >= k + 2 && lead.subrange(
        lead.len() - k - 2,
        lead.len() as int,
    ) == w@.take(k + 2) {
        assert(p.subrange(at, p.len() as int) =~= lead.subrange(
            lead.len() - k - 2,
            lead.len() as int,
        ) + rest);
        assert(w@ =~= w@.take(k + 2) + rest);
    }
}

/// A path does not end in a text whose last seam follows another character.
proof fn lemma_elsewhere(root: Seq<char>, tail: Seq<char>, x: Seq<char>, w: &str, k: int)
    requires
        is_tail(tail),
        no_colon(x),
        1 <= k,
        k + 2 <= w@.len(),
        w@[k] == ':',
        w@[k + 1] == ':',
        no_colon(w@.skip(k + 2)),
        w@[k - 1] != tail[tail.len() - 3],
    ensures
        !ends(item(root, tail, x), w),
{
    lemma_last(root, tail, x, w, k);
    let lead = root + tail;
    if lead.len() >= k + 2 {
        let s = lead.subrange(lead.len() - k - 2, lead.len() as int);
        assert(s[k - 1] == lead[lead.len() - 3]);
        assert(w@.take(k + 2)[k - 1] == w@[k - 1]);
    }
}

/// A seam and the start of a name stand in a path just if its last name starts so.
proof fn lemma_starts(root: Seq<char>, tail: Seq<char>, x: Seq<char>, w: &str, start: &str)
    requires
        is_root(root),
        is_tail(tail),
        no_colon(x),
        no_colon(start@),
        start@.len() >= 2,
        w@ == "::"@ + start@,
        forall|j: int|
            0 <= j < tail.len() - 2 && #[trigger] tail[j] == ':' && tail[j + 1] == ':'
                ==> misfits(root, tail, w@, 0, j),
    ensures
        holds(item(root, tail, x), w) <==> start@.is_prefix_of(x),
{
    reveal_strlit("::");
    lemma_root(root);
    let p = item(root, tail, x);
    let r = root.len() as int;
    let m = r + tail.len();
    let n = w@.len() as int;
    if holds(p, w) {
        let i = choose|i: int| occurs_at(p, w@, i);
        let s = p.subrange(i, i + n);
        assert(s == w@);
        assert(s[0] == p[i] && s[1] == p[i + 1] && s[2] == p[i + 2] && s[3] == p[i + 3]);
        let j = i - r;
        assert(j >= 0) by {
            if j < 0 {
                assert(p[i] == root[i]);
            }
        }
        assert(j + 1 < tail.len()) by {
            if j + 1 >= tail.len() {
                assert(p[i + 1] == x[j + 1 - tail.len()]);
            }
        }
        assert(tail[j] == ':' && tail[j + 1] == ':');
        assert(j == tail.len() - 2) by {
            if j < tail.len() - 2 {
                assert(misfits(root, tail, w@, 0, j));
            }
        }
        assert(start@ =~= x.subrange(0, start@.len() as int)) by {
            assert forall|c: int| 0 <= c < start@.len() implies start@[c] == x[c] by {
                assert(s[c + 2] == p[i + c + 2]);
            }
        }
    }
    if start@.is_prefix_of(x) {
        assert(p.subrange(m - 2, m - 2 + n) =~= w@) by {
            assert forall|c: int| 0 <= c < n implies p.subrange(m - 2, m - 2 + n)[c] == w@[c] by {
                if c >= 2 {
                    assert(x.subrange(0, start@.len() as int)[c - 2] == start@[c - 2]);
                }
            }
        }
        assert(occurs_at(p, w@, m - 2));
    }
}

/// The panicking names of slices, at the end of a path.
proof fn lemma_panicking_slice_names(root: Seq<char>, tail: Seq<char>, x: Seq<char>)
    requires
        is_tail(tail),
        no_colon(x),
    ensures
        ends(root + tail + x, "::split_at") <==> x == "split_at"@,
        ends(root + tail + x, "::split_at_mut") <==> x == "split_at_mut"@,
        ends(root + tail + x, "::chunks") <==> x == "chunks"@,
        ends(root + tail + x, "::chunks_mut") <==> x == "chunks_mut"@,
        ends(root + tail + x, "::chunks_exact") <==> x == "chunks_exact"@,
        ends(root + tail + x, "::chunks_exact_mut") <==> x == "chunks_exact_mut"@,
        ends(root + tail + x, "::rchunks") <==> x == "rchunks"@,
        ends(root + tail + x, "::rchunks_mut") <==> x == "rchunks_mut"@,
        ends(root + tail + x, "::rchunks_exact") <==> x == "rchunks_exact"@,
        ends(root + tail + x, "::rchunks_exact_mut") <==> x == "rchunks_exact_mut"@,
        ends(root + tail + x, "::windows") <==> x == "windows"@,
        ends(root + tail + x, "::swap") <==> x == "swap"@,
        ends(root + tail + x, "::swap_with_slice") <==> x == "swap_with_slice"@,
        ends(root + tail + x, "::rotate_left") <==> x == "rotate_left"@,
        ends(root + tail + x, "::rotate_right") <==> x == "rotate_right"@,
        ends(root + tail + x, "::copy_from_slice") <==> x == "copy_from_slice"@,
        ends(root + tail + x, "::clone_from_slice") <==> x == "clone_from_slice"@,
        ends(root + tail + x, "::copy_within") <==> x == "copy_within"@,
        ends(root + tail + x, "::select_nth_unstable") <==> x == "select_nth_unstable"@,
        ends(root + tail + x, "::select_nth_unstable_by") <==> x == "select_nth_unstable_by"@,
        ends(root + tail + x, "::select_nth_unstable_by_key") <==> x
            == "select_nth_unstable_by_key"@,
        ends(root + tail + x, "::sort") <==> x == "sort"@,
        ends(root + tail + x, "::sort_unstable") <==> x == "sort_unstable"@,
        ends(root + tail + x, "::as_chunks") <==> x == "as_chunks"@,
        ends(root + tail + x, "::as_chunks_mut") <==> x == "as_chunks_mut"@,
        ends(root + tail + x, "::as_rchunks") <==> x == "as_rchunks"@,
        ends(root + tail + x, "::as_rchunks_mut") <==> x == "as_rchunks_mut"@,
{
    reveal_strlit("::");
    reveal_strlit("split_at");
    reveal_strlit("::split_at");
    assert("::split_at"@ =~= "::"@ + "split_at"@);
    lemma_named(root, tail, x, "::split_at", "split_at");
    reveal_strlit("split_at_mut");
    reveal_strlit("::split_at_mut");
    assert("::split_at_mut"@ =~= "::"@ + "split_at_mut"@);
    lemma_named(root, tail, x, "::split_at_mut", "split_at_mut");
    reveal_strlit("chunks");
    reveal_strlit("::chunks");
    assert("::chunks"@ =~= "::"@ + "chunks"@);
    lemma_named(root, tail, x, "::chunks", "chunks");
    reveal_strlit("chunks_mut");
    reveal_strlit("::chunks_mut");
    assert("::chunks_mut"@ =~= "::"@ + "chunks_mut"@);
    lemma_named(root, tail, x, "::chunks_mut", "chunks_mut");
    reveal_strlit("chunks_exact");
    reveal_strlit("::chunks_exact");
    assert("::chunks_exact"@ =~= "::"@ + "chunks_exact"@);
    lemma_named(root, tail, x, "::chunks_exact", "chunks_exact");
    reveal_strlit("chunks_exact_mut");
    reveal_strlit("::chunks_exact_mut");
    assert("::chunks_exact_mut"@ =~= "::"@ + "chunks_exact_mut"@);
    lemma_named(root, tail, x, "::chunks_exact_mut", "chunks_exact_mut");
    reveal_strlit("rchunks");
    reveal_strlit("::rchunks");
    assert("::rchunks"@ =~= "::"@ + "rchunks"@);
    lemma_named(root, tail, x, "::rchunks", "rchunks");
    reveal_strlit("rchunks_mut");
    reveal_strlit("::rchunks_mut");
    assert("::rchunks_mut"@ =~= "::"@ + "rchunks_mut"@);
    lemma_named(root, tail, x, "::rchunks_mut", "rchunks_mut");
    reveal_strlit("rchunks_exact");
    reveal_strlit("::rchunks_exact");
    assert("::rchunks_exact"@ =~= "::"@ + "rchunks_exact"@);
    lemma_named(root, tail, x, "::rchunks_exact", "rchunks_exact");
    reveal_strlit("rchunks_exact_mut");
    reveal_strlit("::rchunks_exact_mut");
    assert("::rchunks_exact_mut"@ =~= "::"@ + "rchunks_exact_mut"@);
    lemma_named(root, tail, x, "::rchunks_exact_mut", "rchunks_exact_mut");
    reveal_strlit("windows");
    reveal_strlit("::windows");
    assert("::windows"@ =~= "::"@ + "windows"@);
    lemma_named(root, tail, x, "::windows", "windows");
    reveal_strlit("swap");
    reveal_strlit("::swap");
    assert("::swap"@ =~= "::"@ + "swap"@);
    lemma_named(root, tail, x, "::swap", "swap");
    reveal_strlit("swap_with_slice");
    reveal_strlit("::swap_with_slice");
    assert("::swap_with_slice"@ =~= "::"@ + "swap_with_slice"@);
    lemma_named(root, tail, x, "::swap_with_slice", "swap_with_slice");
    reveal_strlit("rotate_left");
    reveal_strlit("::rotate_left");
    assert("::rotate_left"@ =~= "::"@ + "rotate_left"@);
    lemma_named(root, tail, x, "::rotate_left", "rotate_left");
    reveal_strlit("rotate_right");
    reveal_strlit("::rotate_right");
    assert("::rotate_right"@ =~= "::"@ + "rotate_right"@);
    lemma_named(root, tail, x, "::rotate_right", "rotate_right");
    reveal_strlit("copy_from_slice");
    reveal_strlit("::copy_from_slice");
    assert("::copy_from_slice"@ =~= "::"@ + "copy_from_slice"@);
    lemma_named(root, tail, x, "::copy_from_slice", "copy_from_slice");
    reveal_strlit("clone_from_slice");
    reveal_strlit("::clone_from_slice");
    assert("::clone_from_slice"@ =~= "::"@ + "clone_from_slice"@);
    lemma_named(root, tail, x, "::clone_from_slice", "clone_from_slice");
    reveal_strlit("copy_within");
    reveal_strlit("::copy_within");
    assert("::copy_within"@ =~= "::"@ + "copy_within"@);
    lemma_named(root, tail, x, "::copy_within", "copy_within");
    reveal_strlit("select_nth_unstable");
    reveal_strlit("::select_nth_unstable");
    assert("::select_nth_unstable"@ =~= "::"@ + "select_nth_unstable"@);
    lemma_named(root, tail, x, "::select_nth_unstable", "select_nth_unstable");
    reveal_strlit("select_nth_unstable_by");
    reveal_strlit("::select_nth_unstable_by");
    assert("::select_nth_unstable_by"@ =~= "::"@ + "select_nth_unstable_by"@);
    lemma_named(root, tail, x, "::select_nth_unstable_by", "select_nth_unstable_by");
    reveal_strlit("select_nth_unstable_by_key");
    reveal_strlit("::select_nth_unstable_by_key");
    assert("::select_nth_unstable_by_key"@ =~= "::"@ + "select_nth_unstable_by_key"@);
    lemma_named(root, tail, x, "::select_nth_unstable_by_key", "select_nth_unstable_by_key");
    reveal_strlit("sort");
    reveal_strlit("::sort");
    assert("::sort"@ =~= "::"@ + "sort"@);
    lemma_named(root, tail, x, "::sort", "sort");
    reveal_strlit("sort_unstable");
    reveal_strlit("::sort_unstable");
    assert("::sort_unstable"@ =~= "::"@ + "sort_unstable"@);
    lemma_named(root, tail, x, "::sort_unstable", "sort_unstable");
    reveal_strlit("as_chunks");
    reveal_strlit("::as_chunks");
    assert("::as_chunks"@ =~= "::"@ + "as_chunks"@);
    lemma_named(root, tail, x, "::as_chunks", "as_chunks");
    reveal_strlit("as_chunks_mut");
    reveal_strlit("::as_chunks_mut");
    assert("::as_chunks_mut"@ =~= "::"@ + "as_chunks_mut"@);
    lemma_named(root, tail, x, "::as_chunks_mut", "as_chunks_mut");
    reveal_strlit("as_rchunks");
    reveal_strlit("::as_rchunks");
    assert("::as_rchunks"@ =~= "::"@ + "as_rchunks"@);
    lemma_named(root, tail, x, "::as_rchunks", "as_rchunks");
    reveal_strlit("as_rchunks_mut");
    reveal_strlit("::as_rchunks_mut");
    assert("::as_rchunks_mut"@ =~= "::"@ + "as_rchunks_mut"@);
    lemma_named(root, tail, x, "::as_rchunks_mut", "as_rchunks_mut");
}

/// The total names of slices, at the end of a path.
proof fn lemma_total_slice_names(root: Seq<char>, tail: Seq<char>, x: Seq<char>)
    requires
        is_tail(tail),
        no_colon(x),
    ensures
        ends(root + tail + x, "::len") <==> x == "len"@,
        ends(root + tail + x, "::is_empty") <==> x == "is_empty"@,
        ends(root + tail + x, "::first") <==> x == "first"@,
        ends(root + tail + x, "::last") <==> x == "last"@,
        ends(root + tail + x, "::first_chunk") <==> x == "first_chunk"@,
        ends(root + tail + x, "::last_chunk") <==> x == "last_chunk"@,
        ends(root + tail + x, "::split_first") <==> x == "split_first"@,
        ends(root + tail + x, "::split_last") <==> x == "split_last"@,
        ends(root + tail + x, "::split_first_chunk") <==> x == "split_first_chunk"@,
        ends(root + tail + x, "::split_last_chunk") <==> x == "split_last_chunk"@,
        ends(root + tail + x, "::get") <==> x == "get"@,
        ends(root + tail + x, "::get_mut") <==> x == "get_mut"@,
        ends(root + tail + x, "::iter") <==> x == "iter"@,
        ends(root + tail + x, "::iter_mut") <==> x == "iter_mut"@,
        ends(root + tail + x, "::split_at_checked") <==> x == "split_at_checked"@,
        ends(root + tail + x, "::split_at_mut_checked") <==> x == "split_at_mut_checked"@,
        ends(root + tail + x, "::binary_search") <==> x == "binary_search"@,
        ends(root + tail + x, "::as_ptr") <==> x == "as_ptr"@,
        ends(root + tail + x, "::as_mut_ptr") <==> x == "as_mut_ptr"@,
        ends(root + tail + x, "::as_bytes") <==> x == "as_bytes"@,
        ends(root + tail + x, "::contains") <==> x == "contains"@,
        ends(root + tail + x, "::starts_with") <==> x == "starts_with"@,
        ends(root + tail + x, "::ends_with") <==> x == "ends_with"@,
        ends(root + tail + x, "::fill") <==> x == "fill"@,
        ends(root + tail + x, "::reverse") <==> x == "reverse"@,
{
    reveal_strlit("::");
    reveal_strlit("len");
    reveal_strlit("::len");
    assert("::len"@ =~= "::"@ + "len"@);
    lemma_named(root, tail, x, "::len", "len");
    reveal_strlit("is_empty");
    reveal_strlit("::is_empty");
    assert("::is_empty"@ =~= "::"@ + "is_empty"@);
    lemma_named(root, tail, x, "::is_empty", "is_empty");
    reveal_strlit("first");
    reveal_strlit("::first");
    assert("::first"@ =~= "::"@ + "first"@);
    lemma_named(root, tail, x, "::first", "first");
    reveal_strlit("last");
    reveal_strlit("::last");
    assert("::last"@ =~= "::"@ + "last"@);
    lemma_named(root, tail, x, "::last", "last");
    reveal_strlit("first_chunk");
    reveal_strlit("::first_chunk");
    assert("::first_chunk"@ =~= "::"@ + "first_chunk"@);
    lemma_named(root, tail, x, "::first_chunk", "first_chunk");
    reveal_strlit("last_chunk");
    reveal_strlit("::last_chunk");
    assert("::last_chunk"@ =~= "::"@ + "last_chunk"@);
    lemma_named(root, tail, x, "::last_chunk", "last_chunk");
    reveal_strlit("split_first");
    reveal_strlit("::split_first");
    assert("::split_first"@ =~= "::"@ + "split_first"@);
    lemma_named(root, tail, x, "::split_first", "split_first");
    reveal_strlit("split_last");
    reveal_strlit("::split_last");
    assert("::split_last"@ =~= "::"@ + "split_last"@);
    lemma_named(root, tail, x, "::split_last", "split_last");
    reveal_strlit("split_first_chunk");
    reveal_strlit("::split_first_chunk");
    assert("::split_first_chunk"@ =~= "::"@ + "split_first_chunk"@);
    lemma_named(root, tail, x, "::split_first_chunk", "split_first_chunk");
    reveal_strlit("split_last_chunk");
    reveal_strlit("::split_last_chunk");
    assert("::split_last_chunk"@ =~= "::"@ + "split_last_chunk"@);
    lemma_named(root, tail, x, "::split_last_chunk", "split_last_chunk");
    reveal_strlit("get");
    reveal_strlit("::get");
    assert("::get"@ =~= "::"@ + "get"@);
    lemma_named(root, tail, x, "::get", "get");
    reveal_strlit("get_mut");
    reveal_strlit("::get_mut");
    assert("::get_mut"@ =~= "::"@ + "get_mut"@);
    lemma_named(root, tail, x, "::get_mut", "get_mut");
    reveal_strlit("iter");
    reveal_strlit("::iter");
    assert("::iter"@ =~= "::"@ + "iter"@);
    lemma_named(root, tail, x, "::iter", "iter");
    reveal_strlit("iter_mut");
    reveal_strlit("::iter_mut");
    assert("::iter_mut"@ =~= "::"@ + "iter_mut"@);
    lemma_named(root, tail, x, "::iter_mut", "iter_mut");
    reveal_strlit("split_at_checked");
    reveal_strlit("::split_at_checked");
    assert("::split_at_checked"@ =~= "::"@ + "split_at_checked"@);
    lemma_named(root, tail, x, "::split_at_checked", "split_at_checked");
    reveal_strlit("split_at_mut_checked");
    reveal_strlit("::split_at_mut_checked");
    assert("::split_at_mut_checked"@ =~= "::"@ + "split_at_mut_checked"@);
    lemma_named(root, tail, x, "::split_at_mut_checked", "split_at_mut_checked");
    reveal_strlit("binary_search");
    reveal_strlit("::binary_search");
    assert("::binary_search"@ =~= "::"@ + "binary_search"@);
    lemma_named(root, tail, x, "::binary_search", "binary_search");
    reveal_strlit("as_ptr");
    reveal_strlit("::as_ptr");
    assert("::as_ptr"@ =~= "::"@ + "as_ptr"@);
    lemma_named(root, tail, x, "::as_ptr", "as_ptr");
    reveal_strlit("as_mut_ptr");
    reveal_strlit("::as_mut_ptr");
    assert("::as_mut_ptr"@ =~= "::"@ + "as_mut_ptr"@);
    lemma_named(root, tail, x, "::as_mut_ptr", "as_mut_ptr");
    reveal_strlit("as_bytes");
    reveal_strlit("::as_bytes");
    assert("::as_bytes"@ =~= "::"@ + "as_bytes"@);
    lemma_named(root, tail, x, "::as_bytes", "as_bytes");
    reveal_strlit("contains");
    reveal_strlit("::contains");
    assert("::contains"@ =~= "::"@ + "contains"@);
    lemma_named(root, tail, x, "::contains", "contains");
    reveal_strlit("starts_with");
    reveal_strlit("::starts_with");
    assert("::starts_with"@ =~= "::"@ + "starts_with"@);
    lemma_named(root, tail, x, "::starts_with", "starts_with");
    reveal_strlit("ends_with");
    reveal_strlit("::ends_with");
    assert("::ends_with"@ =~= "::"@ + "ends_with"@);
    lemma_named(root, tail, x, "::ends_with", "ends_with");
    reveal_strlit("fill");
    reveal_strlit("::fill");
    assert("::fill"@ =~= "::"@ + "fill"@);
    lemma_named(root, tail, x, "::fill", "fill");
    reveal_strlit("reverse");
    reveal_strlit("::reverse");
    assert("::reverse"@ =~= "::"@ + "reverse"@);
    lemma_named(root, tail, x, "::reverse", "reverse");
}

/// The names of options and results, at the end of a path.
proof fn lemma_option_names(root: Seq<char>, tail: Seq<char>, x: Seq<char>)
    requires
        is_tail(tail),
        no_colon(x),
    ensures
        ends(root + tail + x, "::unwrap") <==> x == "unwrap"@,
        ends(root + tail + x, "::expect") <==> x == "expect"@,
        ends(root + tail + x, "::unwrap_err") <==> x == "unwrap_err"@,
        ends(root + tail + x, "::expect_err") <==> x == "expect_err"@,
        ends(root + tail + x, "::is_some") <==> x == "is_some"@,
        ends(root + tail + x, "::is_none") <==> x == "is_none"@,
        ends(root + tail + x, "::is_ok") <==> x == "is_ok"@,
        ends(root + tail + x, "::is_err") <==> x == "is_err"@,
        ends(root + tail + x, "::is_some_and") <==> x == "is_some_and"@,
        ends(root + tail + x, "::is_none_or") <==> x == "is_none_or"@,
        ends(root + tail + x, "::is_ok_and") <==> x == "is_ok_and"@,
        ends(root + tail + x, "::is_err_and") <==> x == "is_err_and"@,
        ends(root + tail + x, "::map") <==> x == "map"@,
        ends(root + tail + x, "::map_or") <==> x == "map_or"@,
        ends(root + tail + x, "::map_or_else") <==> x == "map_or_else"@,
        ends(root + tail + x, "::map_err") <==> x == "map_err"@,
        ends(root + tail + x, "::and_then") <==> x == "and_then"@,
        ends(root + tail + x, "::or_else") <==> x == "or_else"@,
        ends(root + tail + x, "::and") <==> x == "and"@,
        ends(root + tail + x, "::or") <==> x == "or"@,
        ends(root + tail + x, "::xor") <==> x == "xor"@,
        ends(root + tail + x, "::zip") <==> x == "zip"@,
        ends(root + tail + x, "::transpose") <==> x == "transpose"@,
        ends(root + tail + x, "::get_or_insert") <==> x == "get_or_insert"@,
        ends(root + tail + x, "::ok") <==> x == "ok"@,
        ends(root + tail + x, "::err") <==> x == "err"@,
        ends(root + tail + x, "::ok_or") <==> x == "ok_or"@,
        ends(root + tail + x, "::ok_or_else") <==> x == "ok_or_else"@,
        ends(root + tail + x, "::as_ref") <==> x == "as_ref"@,
        ends(root + tail + x, "::as_mut") <==> x == "as_mut"@,
        ends(root + tail + x, "::take") <==> x == "take"@,
        ends(root + tail + x, "::replace") <==> x == "replace"@,
        ends(root + tail + x, "::filter") <==> x == "filter"@,
        ends(root + tail + x, "::flatten") <==> x == "flatten"@,
        ends(root + tail + x, "::cloned") <==> x == "cloned"@,
        ends(root + tail + x, "::copied") <==> x == "copied"@,
        ends(root + tail + x, "::unwrap_or_default") <==> x == "unwrap_or_default"@,
{
    reveal_strlit("::");
    reveal_strlit("unwrap");
    reveal_strlit("::unwrap");
    assert("::unwrap"@ =~= "::"@ + "unwrap"@);
    lemma_named(root, tail, x, "::unwrap", "unwrap");
    reveal_strlit("expect");
    reveal_strlit("::expect");
    assert("::expect"@ =~= "::"@ + "expect"@);
    lemma_named(root, tail, x, "::expect", "expect");
    reveal_strlit("unwrap_err");
    reveal_strlit("::unwrap_err");
    assert("::unwrap_err"@ =~= "::"@ + "unwrap_err"@);
    lemma_named(root, tail, x, "::unwrap_err", "unwrap_err");
    reveal_strlit("expect_err");
    reveal_strlit("::expect_err");
    assert("::expect_err"@ =~= "::"@ + "expect_err"@);
    lemma_named(root, tail, x, "::expect_err", "expect_err");
    reveal_strlit("is_some");
    reveal_strlit("::is_some");
    assert("::is_some"@ =~= "::"@ + "is_some"@);
    lemma_named(root, tail, x, "::is_some", "is_some");
    reveal_strlit("is_none");
    reveal_strlit("::is_none");
    assert("::is_none"@ =~= "::"@ + "is_none"@);
    lemma_named(root, tail, x, "::is_none", "is_none");
    reveal_strlit("is_ok");
    reveal_strlit("::is_ok");
    assert("::is_ok"@ =~= "::"@ + "is_ok"@);
    lemma_named(root, tail, x, "::is_ok", "is_ok");
    reveal_strlit("is_err");
    reveal_strlit("::is_err");
    assert("::is_err"@ =~= "::"@ + "is_err"@);
    lemma_named(root, tail, x, "::is_err", "is_err");
    reveal_strlit("is_some_and");
    reveal_strlit("::is_some_and");
    assert("::is_some_and"@ =~= "::"@ + "is_some_and"@);
    lemma_named(root, tail, x, "::is_some_and", "is_some_and");
    reveal_strlit("is_none_or");
    reveal_strlit("::is_none_or");
    assert("::is_none_or"@ =~= "::"@ + "is_none_or"@);
    lemma_named(root, tail, x, "::is_none_or", "is_none_or");
    reveal_strlit("is_ok_and");
    reveal_strlit("::is_ok_and");
    assert("::is_ok_and"@ =~= "::"@ + "is_ok_and"@);
    lemma_named(root, tail, x, "::is_ok_and", "is_ok_and");
    reveal_strlit("is_err_and");
    reveal_strlit("::is_err_and");
    assert("::is_err_and"@ =~= "::"@ + "is_err_and"@);
    lemma_named(root, tail, x, "::is_err_and", "is_err_and");
    reveal_strlit("map");
    reveal_strlit("::map");
    assert("::map"@ =~= "::"@ + "map"@);
    lemma_named(root, tail, x, "::map", "map");
    reveal_strlit("map_or");
    reveal_strlit("::map_or");
    assert("::map_or"@ =~= "::"@ + "map_or"@);
    lemma_named(root, tail, x, "::map_or", "map_or");
    reveal_strlit("map_or_else");
    reveal_strlit("::map_or_else");
    assert("::map_or_else"@ =~= "::"@ + "map_or_else"@);
    lemma_named(root, tail, x, "::map_or_else", "map_or_else");
    reveal_strlit("map_err");
    reveal_strlit("::map_err");
    assert("::map_err"@ =~= "::"@ + "map_err"@);
    lemma_named(root, tail, x, "::map_err", "map_err");
    reveal_strlit("and_then");
    reveal_strlit("::and_then");
    assert("::and_then"@ =~= "::"@ + "and_then"@);
    lemma_named(root, tail, x, "::and_then", "and_then");
    reveal_strlit("or_else");
    reveal_strlit("::or_else");
    assert("::or_else"@ =~= "::"@ + "or_else"@);
    lemma_named(root, tail, x, "::or_else", "or_else");
    reveal_strlit("and");
    reveal_strlit("::and");
    assert("::and"@ =~= "::"@ + "and"@);
    lemma_named(root, tail, x, "::and", "and");
    reveal_strlit("or");
    reveal_strlit("::or");
    assert("::or"@ =~= "::"@ + "or"@);
    lemma_named(root, tail, x, "::or", "or");
    reveal_strlit("xor");
    reveal_strlit("::xor");
    assert("::xor"@ =~= "::"@ + "xor"@);
    lemma_named(root, tail, x, "::xor", "xor");
    reveal_strlit("zip");
    reveal_strlit("::zip");
    assert("::zip"@ =~= "::"@ + "zip"@);
    lemma_named(root, tail, x, "::zip", "zip");
    reveal_strlit("transpose");
    reveal_strlit("::transpose");
    assert("::transpose"@ =~= "::"@ + "transpose"@);
    lemma_named(root, tail, x, "::transpose", "transpose");
    reveal_strlit("get_or_insert");
    reveal_strlit("::get_or_insert");
    assert("::get_or_insert"@ =~= "::"@ + "get_or_insert"@);
    lemma_named(root, tail, x, "::get_or_insert", "get_or_insert");
    reveal_strlit("ok");
    reveal_strlit("::ok");
    assert("::ok"@ =~= "::"@ + "ok"@);
    lemma_named(root, tail, x, "::ok", "ok");
    reveal_strlit("err");
    reveal_strlit("::err");
    assert("::err"@ =~= "::"@ + "err"@);
    lemma_named(root, tail, x, "::err", "err");
    reveal_strlit("ok_or");
    reveal_strlit("::ok_or");
    assert("::ok_or"@ =~= "::"@ + "ok_or"@);
    lemma_named(root, tail, x, "::ok_or", "ok_or");
    reveal_strlit("ok_or_else");
    reveal_strlit("::ok_or_else");
    assert("::ok_or_else"@ =~= "::"@ + "ok_or_else"@);
    lemma_named(root, tail, x, "::ok_or_else", "ok_or_else");
    reveal_strlit("as_ref");
    reveal_strlit("::as_ref");
    assert("::as_ref"@ =~= "::"@ + "as_ref"@);
    lemma_named(root, tail, x, "::as_ref", "as_ref");
    reveal_strlit("as_mut");
    reveal_strlit("::as_mut");
    assert("::as_mut"@ =~= "::"@ + "as_mut"@);
    lemma_named(root, tail, x, "::as_mut", "as_mut");
    reveal_strlit("take");
    reveal_strlit("::take");
    assert("::take"@ =~= "::"@ + "take"@);
    lemma_named(root, tail, x, "::take", "take");
    reveal_strlit("replace");
    reveal_strlit("::replace");
    assert("::replace"@ =~= "::"@ + "replace"@);
    lemma_named(root, tail, x, "::replace", "replace");
    reveal_strlit("filter");
    reveal_strlit("::filter");
    assert("::filter"@ =~= "::"@ + "filter"@);
    lemma_named(root, tail, x, "::filter", "filter");
    reveal_strlit("flatten");
    reveal_strlit("::flatten");
    assert("::flatten"@ =~= "::"@ + "flatten"@);
    lemma_named(root, tail, x, "::flatten", "flatten");
    reveal_strlit("cloned");
    reveal_strlit("::cloned");
    assert("::cloned"@ =~= "::"@ + "cloned"@);
    lemma_named(root, tail, x, "::cloned", "cloned");
    reveal_strlit("copied");
    reveal_strlit("::copied");
    assert("::copied"@ =~= "::"@ + "copied"@);
    lemma_named(root, tail, x, "::copied", "copied");
    reveal_strlit("unwrap_or_default");
    reveal_strlit("::unwrap_or_default");
    assert("::unwrap_or_default"@ =~= "::"@ + "unwrap_or_default"@);
    lemma_named(root, tail, x, "::unwrap_or_default", "unwrap_or_default");
}

/// The names of characters, at the end of a path.
proof fn lemma_char_names(root: Seq<char>, tail: Seq<char>, x: Seq<char>)
    requires
        is_tail(tail),
        no_colon(x),
    ensures
        ends(root + tail + x, "::to_digit") <==> x == "to_digit"@,
        ends(root + tail + x, "::is_digit") <==> x == "is_digit"@,
        ends(root + tail + x, "::encode_utf8") <==> x == "encode_utf8"@,
        ends(root + tail + x, "::encode_utf16") <==> x == "encode_utf16"@,
        ends(root + tail + x, "::len_utf8") <==> x == "len_utf8"@,
        ends(root + tail + x, "::len_utf16") <==> x == "len_utf16"@,
{
    reveal_strlit("::");
    reveal_strlit("to_digit");
    reveal_strlit("::to_digit");
    assert("::to_digit"@ =~= "::"@ + "to_digit"@);
    lemma_named(root, tail, x, "::to_digit", "to_digit");
    reveal_strlit("is_digit");
    reveal_strlit("::is_digit");
    assert("::is_digit"@ =~= "::"@ + "is_digit"@);
    lemma_named(root, tail, x, "::is_digit", "is_digit");
    reveal_strlit("encode_utf8");
    reveal_strlit("::encode_utf8");
    assert("::encode_utf8"@ =~= "::"@ + "encode_utf8"@);
    lemma_named(root, tail, x, "::encode_utf8", "encode_utf8");
    reveal_strlit("encode_utf16");
    reveal_strlit("::encode_utf16");
    assert("::encode_utf16"@ =~= "::"@ + "encode_utf16"@);
    lemma_named(root, tail, x, "::encode_utf16", "encode_utf16");
    reveal_strlit("len_utf8");
    reveal_strlit("::len_utf8");
    assert("::len_utf8"@ =~= "::"@ + "len_utf8"@);
    lemma_named(root, tail, x, "::len_utf8", "len_utf8");
    reveal_strlit("len_utf16");
    reveal_strlit("::len_utf16");
    assert("::len_utf16"@ =~= "::"@ + "len_utf16"@);
    lemma_named(root, tail, x, "::len_utf16", "len_utf16");
}

// ---------------------------------------------------------------------------
// Slices and strings.
// ---------------------------------------------------------------------------

/// A method of slices panics just if its name is one of those that panic, and it is trusted just if
/// its name is one of the total ones.
pub proof fn law_methods_of_slices(root: Seq<char>, x: Seq<char>)
    requires
        is_root(root),
        no_colon(x),
    ensures
        ({
            let p = item(root, "::slice::<impl [T]>::"@, x);
            &&& panicking_call(p) <==> slice_method_panics(x)
            &&& trusted_total_library_call(p)
                <==> slice_method_is_total(x) && !slice_method_panics(x)
            &&& slice_method_panics(x) ==> !trusted_total_library_call(p)
        }),
{
    lemma_root(root);
    reveal_strlit("::slice::<impl [T]>::");
    let tail = "::slice::<impl [T]>::"@;
    let lead = root + tail;
    let p = item(root, tail, x);
    let r = root.len() as int;
    let n = lead.len() as int;
    assert forall|j: int| 0 <= j < tail.len() - 1 && #[trigger] tail[j] == ':' && tail[j + 1]
        == ':' implies j == 0 || j == 7 || j == 19 by {
    }
    reveal_strlit("::cmp::Ord::clamp");
    lemma_elsewhere(root, tail, x, "::cmp::Ord::clamp", 10);
    reveal_strlit("iter::Iterator::sum");
    lemma_elsewhere(root, tail, x, "iter::Iterator::sum", 14);
    reveal_strlit("iter::Iterator::product");
    lemma_elsewhere(root, tail, x, "iter::Iterator::product", 14);
    reveal_strlit("iter::Iterator::step_by");
    lemma_elsewhere(root, tail, x, "iter::Iterator::step_by", 14);
    reveal_strlit("char::from_digit");
    lemma_elsewhere(root, tail, x, "char::from_digit", 4);
    reveal_strlit("ops::Index::index");
    lemma_elsewhere(root, tail, x, "ops::Index::index", 10);
    reveal_strlit("ops::IndexMut::index_mut");
    lemma_elsewhere(root, tail, x, "ops::IndexMut::index_mut", 13);
    reveal_strlit("::cmp::Ord::min");
    lemma_elsewhere(root, tail, x, "::cmp::Ord::min", 10);
    reveal_strlit("::cmp::Ord::max");
    lemma_elsewhere(root, tail, x, "::cmp::Ord::max", 10);
    reveal_strlit("::cmp::Ord::cmp");
    lemma_elsewhere(root, tail, x, "::cmp::Ord::cmp", 10);
    reveal_strlit("::cmp::min");
    lemma_elsewhere(root, tail, x, "::cmp::min", 5);
    reveal_strlit("::cmp::max");
    lemma_elsewhere(root, tail, x, "::cmp::max", 5);
    reveal_strlit("::convert::From::from");
    lemma_elsewhere(root, tail, x, "::convert::From::from", 15);
    reveal_strlit("::convert::Into::into");
    lemma_elsewhere(root, tail, x, "::convert::Into::into", 15);
    reveal_strlit("::convert::TryFrom::try_from");
    lemma_elsewhere(root, tail, x, "::convert::TryFrom::try_from", 18);
    reveal_strlit("::convert::TryInto::try_into");
    lemma_elsewhere(root, tail, x, "::convert::TryInto::try_into", 18);
    reveal_strlit("::convert::identity");
    lemma_elsewhere(root, tail, x, "::convert::identity", 9);
    reveal_strlit("char::from_u32");
    lemma_elsewhere(root, tail, x, "char::from_u32", 4);
    reveal_strlit("option::Option");
    lemma_absent(root, tail, x, "option::Option", 6);
    reveal_strlit("result::Result");
    lemma_absent(root, tail, x, "result::Result", 6);
    reveal_strlit("num::<impl");
    lemma_absent(root, tail, x, "num::<impl", 3);
    reveal_strlit("char::methods::<impl char>");
    assert("char::methods::<impl char>"@[13] == ':');
    lemma_absent(root, tail, x, "char::methods::<impl char>", 4);
    reveal_strlit("::cmp::PartialOrd::");
    assert("::cmp::PartialOrd::"@[5] == ':');
    lemma_absent(root, tail, x, "::cmp::PartialOrd::", 0);
    reveal_strlit("::cmp::PartialEq::");
    assert("::cmp::PartialEq::"@[5] == ':');
    lemma_absent(root, tail, x, "::cmp::PartialEq::", 0);
    reveal_strlit("::cmp::Ordering::");
    assert("::cmp::Ordering::"@[5] == ':');
    lemma_absent(root, tail, x, "::cmp::Ordering::", 0);
    reveal_strlit("::slice::<impl");
    assert(p.subrange(r + 0, r + 14) =~= "::slice::<impl"@);
    assert(occurs_at(p, "::slice::<impl"@, r + 0));
    reveal_strlit("::slice::<impl [T]>");
    assert(p.subrange(r + 0, r + 19) =~= "::slice::<impl [T]>"@);
    assert(occurs_at(p, "::slice::<impl [T]>"@, r + 0));
    lemma_panicking_slice_names(root, tail, x);
    lemma_total_slice_names(root, tail, x);
}

/// A method of strings panics just if its name is one of those that panic, and it is trusted
/// just if its name is one of the total ones.
pub proof fn law_methods_of_strings(root: Seq<char>, x: Seq<char>)
    requires
        is_root(root),
        no_colon(x),
    ensures
        ({
            let p = item(root, "::str::<impl str>::"@, x);
            &&& panicking_call(p) <==> slice_method_panics(x)
            &&& trusted_total_library_call(p)
                <==> slice_method_is_total(x) && !slice_method_panics(x)
            &&& slice_method_panics(x) ==> !trusted_total_library_call(p)
        }),
{
    lemma_root(root);
    reveal_strlit("::str::<impl str>::");
    let tail = "::str::<impl str>::"@;
    let lead = root + tail;
    let p = item(root, tail, x);
    let r = root.len() as int;
    let n = lead.len() as int;
    assert forall|j: int| 0 <= j < tail.len() - 1 && #[trigger] tail[j] == ':' && tail[j + 1]
        == ':' implies j == 0 || j == 5 || j == 17 by {
    }
    reveal_strlit("::cmp::Ord::clamp");
    lemma_elsewhere(root, tail, x, "::cmp::Ord::clamp", 10);
    reveal_strlit("iter::Iterator::sum");
    lemma_elsewhere(root, tail, x, "iter::Iterator::sum", 14);
    reveal_strlit("iter::Iterator::product");
    lemma_elsewhere(root, tail, x, "iter::Iterator::product", 14);
    reveal_strlit("iter::Iterator::step_by");
    lemma_elsewhere(root, tail, x, "iter::Iterator::step_by", 14);
    reveal_strlit("char::from_digit");
    lemma_elsewhere(root, tail, x, "char::from_digit", 4);
    reveal_strlit("ops::Index::index");
    lemma_elsewhere(root, tail, x, "ops::Index::index", 10);
    reveal_strlit("ops::IndexMut::index_mut");
    lemma_elsewhere(root, tail, x, "ops::IndexMut::index_mut", 13);
    reveal_strlit("::cmp::Ord::min");
    lemma_elsewhere(root, tail, x, "::cmp::Ord::min", 10);
    reveal_strlit("::cmp::Ord::max");
    lemma_elsewhere(root, tail, x, "::cmp::Ord::max", 10);
    reveal_strlit("::cmp::Ord::cmp");
    lemma_elsewhere(root, tail, x, "::cmp::Ord::cmp", 10);
    reveal_strlit("::cmp::min");
    lemma_elsewhere(root, tail, x, "::cmp::min", 5);
    reveal_strlit("::cmp::max");
    lemma_elsewhere(root, tail, x, "::cmp::max", 5);
    reveal_strlit("::convert::From::from");
    lemma_elsewhere(root, tail, x, "::convert::From::from", 15);
    reveal_strlit("::convert::Into::into");
    lemma_elsewhere(root, tail, x, "::convert::Into::into", 15);
    reveal_strlit("::convert::TryFrom::try_from");
    lemma_elsewhere(root, tail, x, "::convert::TryFrom::try_from", 18);
    reveal_strlit("::convert::TryInto::try_into");
    lemma_elsewhere(root, tail, x, "::convert::TryInto::try_into", 18);
    reveal_strlit("::convert::identity");
    lemma_elsewhere(root, tail, x, "::convert::identity", 9);
    reveal_strlit("char::from_u32");
    lemma_elsewhere(root, tail, x, "char::from_u32", 4);
    reveal_strlit("option::Option");
    lemma_absent(root, tail, x, "option::Option", 6);
    reveal_strlit("result::Result");
    lemma_absent(root, tail, x, "result::Result", 6);
    reveal_strlit("num::<impl");
    lemma_absent(root, tail, x, "num::<impl", 3);
    reveal_strlit("char::methods::<impl char>");
    assert("char::methods::<impl char>"@[13] == ':');
    lemma_absent(root, tail, x, "char::methods::<impl char>", 4);
    reveal_strlit("::cmp::PartialOrd::");
    assert("::cmp::PartialOrd::"@[5] == ':');
    lemma_absent(root, tail, x, "::cmp::PartialOrd::", 0);
    reveal_strlit("::cmp::PartialEq::");
    assert("::cmp::PartialEq::"@[5] == ':');
    lemma_absent(root, tail, x, "::cmp::PartialEq::", 0);
    reveal_strlit("::cmp::Ordering::");
    assert("::cmp::Ordering::"@[5] == ':');
    lemma_absent(root, tail, x, "::cmp::Ordering::", 0);
    reveal_strlit("::str::<impl");
    assert(p.subrange(r + 0, r + 12) =~= "::str::<impl"@);
    assert(occurs_at(p, "::str::<impl"@, r + 0));
    reveal_strlit("::str::<impl str>");
    assert(p.subrange(r + 0, r + 17) =~= "::str::<impl str>"@);
    assert(occurs_at(p, "::str::<impl str>"@, r + 0));
    lemma_panicking_slice_names(root, tail, x);
    lemma_total_slice_names(root, tail, x);
}

/// The methods that have a form with `_mut` behind the name and share their panics with it.
pub open spec fn has_mutable_form(x: Seq<char>) -> bool {
    x == "split_at"@ || x == "chunks"@ || x == "chunks_exact"@ || x == "rchunks"@
        || x == "rchunks_exact"@ || x == "as_chunks"@ || x == "as_rchunks"@
}

// ---------------------------------------------------------------------------
// Characters.
// ---------------------------------------------------------------------------

/// A method of characters panics just if its name is one of those that panic, and it is trusted
/// just if its name is one of the total ones.
pub proof fn law_methods_of_characters(root: Seq<char>, x: Seq<char>)
    requires
        is_root(root),
        no_colon(x),
    ensures
        ({
            let p = item(root, "::char::methods::<impl char>::"@, x);
            &&& panicking_call(p) <==> char_method_panics(x)
            &&& trusted_total_library_call(p)
                <==> char_method_is_total(x) && !char_method_panics(x)
        }),
{
    lemma_root(root);
    reveal_strlit("::char::methods::<impl char>::");
    let tail = "::char::methods::<impl char>::"@;
    let lead = root + tail;
    let p = item(root, tail, x);
    let r = root.len() as int;
    let n = lead.len() as int;
    assert forall|j: int| 0 <= j < tail.len() - 1 && #[trigger] tail[j] == ':' && tail[j + 1]
        == ':' implies j == 0 || j == 6 || j == 15 || j == 28 by {
    }
    reveal_strlit("::cmp::Ord::clamp");
    lemma_elsewhere(root, tail, x, "::cmp::Ord::clamp", 10);
    reveal_strlit("iter::Iterator::sum");
    lemma_elsewhere(root, tail, x, "iter::Iterator::sum", 14);
    reveal_strlit("iter::Iterator::product");
    lemma_elsewhere(root, tail, x, "iter::Iterator::product", 14);
    reveal_strlit("iter::Iterator::step_by");
    lemma_elsewhere(root, tail, x, "iter::Iterator::step_by", 14);
    reveal_strlit("char::from_digit");
    lemma_elsewhere(root, tail, x, "char::from_digit", 4);
    reveal_strlit("ops::Index::index");
    lemma_elsewhere(root, tail, x, "ops::Index::index", 10);
    reveal_strlit("ops::IndexMut::index_mut");
    lemma_elsewhere(root, tail, x, "ops::IndexMut::index_mut", 13);
    reveal_strlit("::cmp::Ord::min");
    lemma_elsewhere(root, tail, x, "::cmp::Ord::min", 10);
    reveal_strlit("::cmp::Ord::max");
    lemma_elsewhere(root, tail, x, "::cmp::Ord::max", 10);
    reveal_strlit("::cmp::Ord::cmp");
    lemma_elsewhere(root, tail, x, "::cmp::Ord::cmp", 10);
    reveal_strlit("::cmp::min");
    lemma_elsewhere(root, tail, x, "::cmp::min", 5);
    reveal_strlit("::cmp::max");
    lemma_elsewhere(root, tail, x, "::cmp::max", 5);
    reveal_strlit("::convert::From::from");
    lemma_elsewhere(root, tail, x, "::convert::From::from", 15);
    reveal_strlit("::convert::Into::into");
    lemma_elsewhere(root, tail, x, "::convert::Into::into", 15);
    reveal_strlit("::convert::TryFrom::try_from");
    lemma_elsewhere(root, tail, x, "::convert::TryFrom::try_from", 18);
    reveal_strlit("::convert::TryInto::try_into");
    lemma_elsewhere(root, tail, x, "::convert::TryInto::try_into", 18);
    reveal_strlit("::convert::identity");
    lemma_elsewhere(root, tail, x, "::convert::identity", 9);
    reveal_strlit("char::from_u32");
    lemma_elsewhere(root, tail, x, "char::from_u32", 4);
    reveal_strlit("option::Option");
    lemma_absent(root, tail, x, "option::Option", 6);
    reveal_strlit("result::Result");
    lemma_absent(root, tail, x, "result::Result", 6);
    reveal_strlit("num::<impl");
    lemma_absent(root, tail, x, "num::<impl", 3);
    reveal_strlit("char::methods::<impl char>");
    assert(p.subrange(r + 2, r + 28) =~= "char::methods::<impl char>"@);
    assert(occurs_at(p, "char::methods::<impl char>"@, r + 2));
    reveal_strlit("::slice::<impl");
    assert("::slice::<impl"@[7] == ':');
    lemma_absent(root, tail, x, "::slice::<impl", 0);
    reveal_strlit("::str::<impl");
    assert("::str::<impl"@[5] == ':');
    lemma_absent(root, tail, x, "::str::<impl", 0);
    reveal_strlit("::cmp::PartialOrd::");
    assert("::cmp::PartialOrd::"@[5] == ':');
    lemma_absent(root, tail, x, "::cmp::PartialOrd::", 0);
    reveal_strlit("::cmp::PartialEq::");
    assert("::cmp::PartialEq::"@[5] == ':');
    lemma_absent(root, tail, x, "::cmp::PartialEq::", 0);
    reveal_strlit("::cmp::Ordering::");
    assert("::cmp::Ordering::"@[5] == ':');
    lemma_absent(root, tail, x, "::cmp::Ordering::", 0);
    lemma_char_names(root, tail, x);
    reveal_strlit("::");
    reveal_strlit("is_");
    reveal_strlit("::is_");
    assert("::is_"@ =~= "::"@ + "is_"@);
    lemma_starts(root, tail, x, "::is_", "is_");
    reveal_strlit("to_");
    reveal_strlit("::to_");
    assert("::to_"@ =~= "::"@ + "to_"@);
    lemma_starts(root, tail, x, "::to_", "to_");
    reveal_strlit("make_ascii_");
    reveal_strlit("::make_ascii_");
    assert("::make_ascii_"@ =~= "::"@ + "make_ascii_"@);
    lemma_starts(root, tail, x, "::make_ascii_", "make_ascii_");
    reveal_strlit("eq_ignore_ascii_case");
    reveal_strlit("::eq_ignore_ascii_case");
    assert("::eq_ignore_ascii_case"@ =~= "::"@ + "eq_ignore_ascii_case"@);
    lemma_starts(root, tail, x, "::eq_ignore_ascii_case", "eq_ignore_ascii_case");
}

/// Of the conversions to a character, the one from a digit panics, and the one from a code point is
/// trusted.
pub proof fn law_conversions_to_characters(root: Seq<char>, x: Seq<char>)
    requires
        is_root(root),
        no_colon(x),
    ensures
        ({
            let p = item(root, "::char::"@, x);
            &&& panicking_call(p) <==> x == "from_digit"@
            &&& trusted_total_library_call(p) <==> x == "from_u32"@
        }),
{
    lemma_root(root);
    reveal_strlit("::char::");
    let tail = "::char::"@;
    let lead = root + tail;
    let p = item(root, tail, x);
    let r = root.len() as int;
    let n = lead.len() as int;
    assert forall|j: int| 0 <= j < tail.len() - 1 && #[trigger] tail[j] == ':' && tail[j + 1]
        == ':' implies j == 0 || j == 6 by {
    }
    reveal_strlit("::cmp::Ord::clamp");
    lemma_elsewhere(root, tail, x, "::cmp::Ord::clamp", 10);
    reveal_strlit("iter::Iterator::sum");
    lemma_last(root, tail, x, "iter::Iterator::sum", 14);
    if n >= 16 {
        let s = lead.subrange(n - 16, n);
        assert(s[12] == tail[tail.len() - 4]);
        assert("iter::Iterator::sum"@.take(16)[12] == "iter::Iterator::sum"@[12]);
    }
    reveal_strlit("iter::Iterator::product");
    lemma_last(root, tail, x, "iter::Iterator::product", 14);
    if n >= 16 {
        let s = lead.subrange(n - 16, n);
        assert(s[12] == tail[tail.len() - 4]);
        assert("iter::Iterator::product"@.take(16)[12] == "iter::Iterator::product"@[12]);
    }
    reveal_strlit("iter::Iterator::step_by");
    lemma_last(root, tail, x, "iter::Iterator::step_by", 14);
    if n >= 16 {
        let s = lead.subrange(n - 16, n);
        assert(s[12] == tail[tail.len() - 4]);
        assert("iter::Iterator::step_by"@.take(16)[12] == "iter::Iterator::step_by"@[12]);
    }
    reveal_strlit("char::from_digit");
    lemma_last(root, tail, x, "char::from_digit", 4);
    reveal_strlit("from_digit");
    assert("char::from_digit"@.skip(6) =~= "from_digit"@);
    assert(lead.subrange(n - 6, n) =~= "char::from_digit"@.take(6));
    reveal_strlit("ops::Index::index");
    lemma_elsewhere(root, tail, x, "ops::Index::index", 10);
    reveal_strlit("ops::IndexMut::index_mut");
    lemma_elsewhere(root, tail, x, "ops::IndexMut::index_mut", 13);
    reveal_strlit("::cmp::Ord::min");
    lemma_elsewhere(root, tail, x, "::cmp::Ord::min", 10);
    reveal_strlit("::cmp::Ord::max");
    lemma_elsewhere(root, tail, x, "::cmp::Ord::max", 10);
    reveal_strlit("::cmp::Ord::cmp");
    lemma_elsewhere(root, tail, x, "::cmp::Ord::cmp", 10);
    reveal_strlit("::cmp::min");
    lemma_elsewhere(root, tail, x, "::cmp::min", 5);
    reveal_strlit("::cmp::max");
    lemma_elsewhere(root, tail, x, "::cmp::max", 5);
    reveal_strlit("::convert::From::from");
    lemma_elsewhere(root, tail, x, "::convert::From::from", 15);
    reveal_strlit("::convert::Into::into");
    lemma_elsewhere(root, tail, x, "::convert::Into::into", 15);
    reveal_strlit("::convert::TryFrom::try_from");
    lemma_elsewhere(root, tail, x, "::convert::TryFrom::try_from", 18);
    reveal_strlit("::convert::TryInto::try_into");
    lemma_elsewhere(root, tail, x, "::convert::TryInto::try_into", 18);
    reveal_strlit("::convert::identity");
    lemma_elsewhere(root, tail, x, "::convert::identity", 9);
    reveal_strlit("char::from_u32");
    lemma_last(root, tail, x, "char::from_u32", 4);
    reveal_strlit("from_u32");
    assert("char::from_u32"@.skip(6) =~= "from_u32"@);
    assert(lead.subrange(n - 6, n) =~= "char::from_u32"@.take(6));
    reveal_strlit("option::Option");
    lemma_absent(root, tail, x, "option::Option", 6);
    reveal_strlit("result::Result");
    lemma_absent(root, tail, x, "result::Result", 6);
    reveal_strlit("num::<impl");
    lemma_absent(root, tail, x, "num::<impl", 3);
    reveal_strlit("char::methods::<impl char>");
    assert("char::methods::<impl char>"@[13] == ':');
    lemma_absent(root, tail, x, "char::methods::<impl char>", 4);
    reveal_strlit("::slice::<impl");
    assert("::slice::<impl"@[7] == ':');
    lemma_absent(root, tail, x, "::slice::<impl", 0);
    reveal_strlit("::str::<impl");
    assert("::str::<impl"@[5] == ':');
    lemma_absent(root, tail, x, "::str::<impl", 0);
    reveal_strlit("::slice::<impl [T]>");
    assert("::slice::<impl [T]>"@[7] == ':');
    lemma_absent(root, tail, x, "::slice::<impl [T]>", 0);
    reveal_strlit("::str::<impl str>");
    assert("::str::<impl str>"@[5] == ':');
    lemma_absent(root, tail, x, "::str::<impl str>", 0);
    reveal_strlit("::cmp::PartialOrd::");
    assert("::cmp::PartialOrd::"@[5] == ':');
    lemma_absent(root, tail, x, "::cmp::PartialOrd::", 0);
    reveal_strlit("::cmp::PartialEq::");
    assert("::cmp::PartialEq::"@[5] == ':');
    lemma_absent(root, tail, x, "::cmp::PartialEq::", 0);
    reveal_strlit("::cmp::Ordering::");
    assert("::cmp::Ordering::"@[5] == ':');
    lemma_absent(root, tail, x, "::cmp::Ordering::", 0);
    assert("from_digit"@.len() != "from_u32"@.len());
}

// ---------------------------------------------------------------------------
// Options and results.
// ---------------------------------------------------------------------------

/// A method of an option panics just if its name is one of those that panic, and it is trusted
/// just if its name is one of the total ones, whatever the type is of.
pub proof fn law_methods_of_options(root: Seq<char>, t: Seq<char>, x: Seq<char>)
    requires
        is_root(root),
        no_colon(t),
        no_colon(x),
    ensures
        ({
            let p = item(root, "::option::Option::<"@ + t + ">::"@, x);
            &&& panicking_call(p) <==> option_method_panics(x)
            &&& trusted_total_library_call(p)
                <==> option_method_is_total(x) && !option_method_panics(x)
        }),
{
    lemma_root(root);
    reveal_strlit("::option::Option::<");
    reveal_strlit(">::");
    let tail = "::option::Option::<"@ + t + ">::"@;
    let lead = root + tail;
    let p = item(root, tail, x);
    let r = root.len() as int;
    let n = lead.len() as int;
    assert forall|j: int| 0 <= j < tail.len() - 1 && #[trigger] tail[j] == ':' && tail[j + 1]
        == ':' implies j == 0 || j == 8 || j == 16 || j == tail.len() - 2 by {
        if 19 <= j < 19 + t.len() {
            assert(tail[j] == t[j - 19]);
        }
        if 19 <= j + 1 < 19 + t.len() {
            assert(tail[j + 1] == t[j + 1 - 19]);
        }
    }
    reveal_strlit("::cmp::Ord::clamp");
    lemma_elsewhere(root, tail, x, "::cmp::Ord::clamp", 10);
    reveal_strlit("iter::Iterator::sum");
    lemma_elsewhere(root, tail, x, "iter::Iterator::sum", 14);
    reveal_strlit("iter::Iterator::product");
    lemma_elsewhere(root, tail, x, "iter::Iterator::product", 14);
    reveal_strlit("iter::Iterator::step_by");
    lemma_elsewhere(root, tail, x, "iter::Iterator::step_by", 14);
    reveal_strlit("char::from_digit");
    lemma_elsewhere(root, tail, x, "char::from_digit", 4);
    reveal_strlit("ops::Index::index");
    lemma_elsewhere(root, tail, x, "ops::Index::index", 10);
    reveal_strlit("ops::IndexMut::index_mut");
    lemma_elsewhere(root, tail, x, "ops::IndexMut::index_mut", 13);
    reveal_strlit("num::<impl");
    lemma_absent(root, tail, x, "num::<impl", 3);
    reveal_strlit("char::methods::<impl char>");
    assert("char::methods::<impl char>"@[13] == ':');
    lemma_absent(root, tail, x, "char::methods::<impl char>", 4);
    reveal_strlit("::slice::<impl");
    assert("::slice::<impl"@[7] == ':');
    lemma_absent(root, tail, x, "::slice::<impl", 0);
    reveal_strlit("::str::<impl");
    assert("::str::<impl"@[5] == ':');
    lemma_absent(root, tail, x, "::str::<impl", 0);
    reveal_strlit("option::Option");
    assert(p.subrange(r + 2, r + 16) =~= "option::Option"@);
    assert(occurs_at(p, "option::Option"@, r + 2));
    lemma_option_names(root, tail, x);
    reveal_strlit("::");
    reveal_strlit("unwrap_or");
    reveal_strlit("::unwrap_or");
    assert("::unwrap_or"@ =~= "::"@ + "unwrap_or"@);
    lemma_starts(root, tail, x, "::unwrap_or", "unwrap_or");
}

/// A method of a result panics just if its name is one of those that panic, and it is trusted
/// just if its name is one of the total ones, whatever the type is of.
pub proof fn law_methods_of_results(root: Seq<char>, t: Seq<char>, x: Seq<char>)
    requires
        is_root(root),
        no_colon(t),
        no_colon(x),
    ensures
        ({
            let p = item(root, "::result::Result::<"@ + t + ">::"@, x);
            &&& panicking_call(p) <==> option_method_panics(x)
            &&& trusted_total_library_call(p)
                <==> option_method_is_total(x) && !option_method_panics(x)
        }),
{
    lemma_root(root);
    reveal_strlit("::result::Result::<");
    reveal_strlit(">::");
    let tail = "::result::Result::<"@ + t + ">::"@;
    let lead = root + tail;
    let p = item(root, tail, x);
    let r = root.len() as int;
    let n = lead.len() as int;
    assert forall|j: int| 0 <= j < tail.len() - 1 && #[trigger] tail[j] == ':' && tail[j + 1]
        == ':' implies j == 0 || j == 8 || j == 16 || j == tail.len() - 2 by {
        if 19 <= j < 19 + t.len() {
            assert(tail[j] == t[j - 19]);
        }
        if 19 <= j + 1 < 19 + t.len() {
            assert(tail[j + 1] == t[j + 1 - 19]);
        }
    }
    reveal_strlit("::cmp::Ord::clamp");
    lemma_elsewhere(root, tail, x, "::cmp::Ord::clamp", 10);
    reveal_strlit("iter::Iterator::sum");
    lemma_elsewhere(root, tail, x, "iter::Iterator::sum", 14);
    reveal_strlit("iter::Iterator::product");
    lemma_elsewhere(root, tail, x, "iter::Iterator::product", 14);
    reveal_strlit("iter::Iterator::step_by");
    lemma_elsewhere(root, tail, x, "iter::Iterator::step_by", 14);
    reveal_strlit("char::from_digit");
    lemma_elsewhere(root, tail, x, "char::from_digit", 4);
    reveal_strlit("ops::Index::index");
    lemma_elsewhere(root, tail, x, "ops::Index::index", 10);
    reveal_strlit("ops::IndexMut::index_mut");
    lemma_elsewhere(root, tail, x, "ops::IndexMut::index_mut", 13);
    reveal_strlit("num::<impl");
    lemma_absent(root, tail, x, "num::<impl", 3);
    reveal_strlit("char::methods::<impl char>");
    assert("char::methods::<impl char>"@[13] == ':');
    lemma_absent(root, tail, x, "char::methods::<impl char>", 4);
    reveal_strlit("::slice::<impl");
    assert("::slice::<impl"@[7] == ':');
    lemma_absent(root, tail, x, "::slice::<impl", 0);
    reveal_strlit("::str::<impl");
    assert("::str::<impl"@[5] == ':');
    lemma_absent(root, tail, x, "::str::<impl", 0);
    reveal_strlit("result::Result");
    assert(p.subrange(r + 2, r + 16) =~= "result::Result"@);
    assert(occurs_at(p, "result::Result"@, r + 2));
    lemma_option_names(root, tail, x);
    reveal_strlit("::");
    reveal_strlit("unwrap_or");
    reveal_strlit("::unwrap_or");
    assert("::unwrap_or"@ =~= "::"@ + "unwrap_or"@);
    lemma_starts(root, tail, x, "::unwrap_or", "unwrap_or");
}

// ---------------------------------------------------------------------------
// Traits and free functions.
// ---------------------------------------------------------------------------

/// Of the methods of a total order, clamping panics, and the least, the greatest and the comparison
/// are trusted.
pub proof fn law_ordering_methods(root: Seq<char>, x: Seq<char>)
    requires
        is_root(root),
        no_colon(x),
    ensures
        ({
            let p = item(root, "::cmp::Ord::"@, x);
            &&& panicking_call(p) <==> x == "clamp"@
            &&& trusted_total_library_call(p) <==> x == "min"@ || x == "max"@ || x == "cmp"@
        }),
{
    lemma_root(root);
    reveal_strlit("::cmp::Ord::");
    let tail = "::cmp::Ord::"@;
    let lead = root + tail;
    let p = item(root, tail, x);
    let r = root.len() as int;
    let n = lead.len() as int;
    assert forall|j: int| 0 <= j < tail.len() - 1 && #[trigger] tail[j] == ':' && tail[j + 1]
        == ':' implies j == 0 || j == 5 || j == 10 by {
    }
    reveal_strlit("::cmp::Ord::clamp");
    lemma_last(root, tail, x, "::cmp::Ord::clamp", 10);
    reveal_strlit("clamp");
    assert("::cmp::Ord::clamp"@.skip(12) =~= "clamp"@);
    assert(lead.subrange(n - 12, n) =~= "::cmp::Ord::clamp"@.take(12));
    reveal_strlit("iter::Iterator::sum");
    lemma_elsewhere(root, tail, x, "iter::Iterator::sum", 14);
    reveal_strlit("iter::Iterator::product");
    lemma_elsewhere(root, tail, x, "iter::Iterator::product", 14);
    reveal_strlit("iter::Iterator::step_by");
    lemma_elsewhere(root, tail, x, "iter::Iterator::step_by", 14);
    reveal_strlit("char::from_digit");
    lemma_elsewhere(root, tail, x, "char::from_digit", 4);
    reveal_strlit("ops::Index::index");
    lemma_elsewhere(root, tail, x, "ops::Index::index", 10);
    reveal_strlit("ops::IndexMut::index_mut");
    lemma_elsewhere(root, tail, x, "ops::IndexMut::index_mut", 13);
    reveal_strlit("::cmp::Ord::min");
    lemma_last(root, tail, x, "::cmp::Ord::min", 10);
    reveal_strlit("min");
    assert("::cmp::Ord::min"@.skip(12) =~= "min"@);
    assert(lead.subrange(n - 12, n) =~= "::cmp::Ord::min"@.take(12));
    reveal_strlit("::cmp::Ord::max");
    lemma_last(root, tail, x, "::cmp::Ord::max", 10);
    reveal_strlit("max");
    assert("::cmp::Ord::max"@.skip(12) =~= "max"@);
    assert(lead.subrange(n - 12, n) =~= "::cmp::Ord::max"@.take(12));
    reveal_strlit("::cmp::Ord::cmp");
    lemma_last(root, tail, x, "::cmp::Ord::cmp", 10);
    reveal_strlit("cmp");
    assert("::cmp::Ord::cmp"@.skip(12) =~= "cmp"@);
    assert(lead.subrange(n - 12, n) =~= "::cmp::Ord::cmp"@.take(12));
    reveal_strlit("::cmp::min");
    lemma_elsewhere(root, tail, x, "::cmp::min", 5);
    reveal_strlit("::cmp::max");
    lemma_elsewhere(root, tail, x, "::cmp::max", 5);
    reveal_strlit("::convert::From::from");
    lemma_elsewhere(root, tail, x, "::convert::From::from", 15);
    reveal_strlit("::convert::Into::into");
    lemma_elsewhere(root, tail, x, "::convert::Into::into", 15);
    reveal_strlit("::convert::TryFrom::try_from");
    lemma_elsewhere(root, tail, x, "::convert::TryFrom::try_from", 18);
    reveal_strlit("::convert::TryInto::try_into");
    lemma_elsewhere(root, tail, x, "::convert::TryInto::try_into", 18);
    reveal_strlit("::convert::identity");
    lemma_elsewhere(root, tail, x, "::convert::identity", 9);
    reveal_strlit("char::from_u32");
    lemma_elsewhere(root, tail, x, "char::from_u32", 4);
    reveal_strlit("option::Option");
    lemma_absent(root, tail, x, "option::Option", 6);
    reveal_strlit("result::Result");
    lemma_absent(root, tail, x, "result::Result", 6);
    reveal_strlit("num::<impl");
    lemma_absent(root, tail, x, "num::<impl", 3);
    reveal_strlit("char::methods::<impl char>");
    assert("char::methods::<impl char>"@[13] == ':');
    lemma_absent(root, tail, x, "char::methods::<impl char>", 4);
    reveal_strlit("::slice::<impl");
    assert("::slice::<impl"@[7] == ':');
    lemma_absent(root, tail, x, "::slice::<impl", 0);
    reveal_strlit("::str::<impl");
    assert("::str::<impl"@[5] == ':');
    lemma_absent(root, tail, x, "::str::<impl", 0);
    reveal_strlit("::slice::<impl [T]>");
    assert("::slice::<impl [T]>"@[7] == ':');
    lemma_absent(root, tail, x, "::slice::<impl [T]>", 0);
    reveal_strlit("::str::<impl str>");
    assert("::str::<impl str>"@[5] == ':');
    lemma_absent(root, tail, x, "::str::<impl str>", 0);
    reveal_strlit("::cmp::PartialOrd::");
    assert("::cmp::PartialOrd::"@[17] == ':');
    lemma_absent(root, tail, x, "::cmp::PartialOrd::", 5);
    reveal_strlit("::cmp::PartialEq::");
    assert("::cmp::PartialEq::"@[16] == ':');
    lemma_absent(root, tail, x, "::cmp::PartialEq::", 5);
    reveal_strlit("::cmp::Ordering::");
    lemma_absent(root, tail, x, "::cmp::Ordering::", 15);
    assert("clamp"@.len() != "min"@.len());
}

/// The free functions for the least and the greatest of two are trusted.
pub proof fn law_ordering_functions(root: Seq<char>, x: Seq<char>)
    requires
        is_root(root),
        no_colon(x),
    ensures
        ({
            let p = item(root, "::cmp::"@, x);
            &&& !panicking_call(p)
            &&& trusted_total_library_call(p) <==> x == "min"@ || x == "max"@
        }),
{
    lemma_root(root);
    reveal_strlit("::cmp::");
    let tail = "::cmp::"@;
    let lead = root + tail;
    let p = item(root, tail, x);
    let r = root.len() as int;
    let n = lead.len() as int;
    assert forall|j: int| 0 <= j < tail.len() - 1 && #[trigger] tail[j] == ':' && tail[j + 1]
        == ':' implies j == 0 || j == 5 by {
    }
    reveal_strlit("::cmp::Ord::clamp");
    lemma_elsewhere(root, tail, x, "::cmp::Ord::clamp", 10);
    reveal_strlit("iter::Iterator::sum");
    lemma_elsewhere(root, tail, x, "iter::Iterator::sum", 14);
    reveal_strlit("iter::Iterator::product");
    lemma_elsewhere(root, tail, x, "iter::Iterator::product", 14);
    reveal_strlit("iter::Iterator::step_by");
    lemma_elsewhere(root, tail, x, "iter::Iterator::step_by", 14);
    reveal_strlit("char::from_digit");
    lemma_elsewhere(root, tail, x, "char::from_digit", 4);
    reveal_strlit("ops::Index::index");
    lemma_elsewhere(root, tail, x, "ops::Index::index", 10);
    reveal_strlit("ops::IndexMut::index_mut");
    lemma_elsewhere(root, tail, x, "ops::IndexMut::index_mut", 13);
    reveal_strlit("::cmp::Ord::min");
    lemma_elsewhere(root, tail, x, "::cmp::Ord::min", 10);
    reveal_strlit("::cmp::Ord::max");
    lemma_elsewhere(root, tail, x, "::cmp::Ord::max", 10);
    reveal_strlit("::cmp::Ord::cmp");
    lemma_elsewhere(root, tail, x, "::cmp::Ord::cmp", 10);
    reveal_strlit("::cmp::min");
    lemma_last(root, tail, x, "::cmp::min", 5);
    reveal_strlit("min");
    assert("::cmp::min"@.skip(7) =~= "min"@);
    assert(lead.subrange(n - 7, n) =~= "::cmp::min"@.take(7));
    reveal_strlit("::cmp::max");
    lemma_last(root, tail, x, "::cmp::max", 5);
    reveal_strlit("max");
    assert("::cmp::max"@.skip(7) =~= "max"@);
    assert(lead.subrange(n - 7, n) =~= "::cmp::max"@.take(7));
    reveal_strlit("::convert::From::from");
    lemma_elsewhere(root, tail, x, "::convert::From::from", 15);
    reveal_strlit("::convert::Into::into");
    lemma_elsewhere(root, tail, x, "::convert::Into::into", 15);
    reveal_strlit("::convert::TryFrom::try_from");
    lemma_elsewhere(root, tail, x, "::convert::TryFrom::try_from", 18);
    reveal_strlit("::convert::TryInto::try_into");
    lemma_elsewhere(root, tail, x, "::convert::TryInto::try_into", 18);
    reveal_strlit("::convert::identity");
    lemma_elsewhere(root, tail, x, "::convert::identity", 9);
    reveal_strlit("char::from_u32");
    lemma_elsewhere(root, tail, x, "char::from_u32", 4);
    reveal_strlit("option::Option");
    lemma_absent(root, tail, x, "option::Option", 6);
    reveal_strlit("result::Result");
    lemma_absent(root, tail, x, "result::Result", 6);
    reveal_strlit("num::<impl");
    lemma_absent(root, tail, x, "num::<impl", 3);
    reveal_strlit("char::methods::<impl char>");
    assert("char::methods::<impl char>"@[13] == ':');
    lemma_absent(root, tail, x, "char::methods::<impl char>", 4);
    reveal_strlit("::slice::<impl");
    assert("::slice::<impl"@[7] == ':');
    lemma_absent(root, tail, x, "::slice::<impl", 0);
    reveal_strlit("::str::<impl");
    assert("::str::<impl"@[5] == ':');
    lemma_absent(root, tail, x, "::str::<impl", 0);
    reveal_strlit("::slice::<impl [T]>");
    assert("::slice::<impl [T]>"@[7] == ':');
    lemma_absent(root, tail, x, "::slice::<impl [T]>", 0);
    reveal_strlit("::str::<impl str>");
    assert("::str::<impl str>"@[5] == ':');
    lemma_absent(root, tail, x, "::str::<impl str>", 0);
    reveal_strlit("::cmp::PartialOrd::");
    assert("::cmp::PartialOrd::"@[17] == ':');
    lemma_absent(root, tail, x, "::cmp::PartialOrd::", 5);
    reveal_strlit("::cmp::PartialEq::");
    assert("::cmp::PartialEq::"@[16] == ':');
    lemma_absent(root, tail, x, "::cmp::PartialEq::", 5);
    reveal_strlit("::cmp::Ordering::");
    assert("::cmp::Ordering::"@[15] == ':');
    lemma_absent(root, tail, x, "::cmp::Ordering::", 5);
}

/// The methods of `PartialOrd` are trusted.
pub proof fn law_partial_order_methods(root: Seq<char>, x: Seq<char>)
    requires
        is_root(root),
        no_colon(x),
    ensures
        ({
            let p = item(root, "::cmp::PartialOrd::"@, x);
            &&& !panicking_call(p)
            &&& trusted_total_library_call(p)
        }),
{
    lemma_root(root);
    reveal_strlit("::cmp::PartialOrd::");
    let tail = "::cmp::PartialOrd::"@;
    let lead = root + tail;
    let p = item(root, tail, x);
    let r = root.len() as int;
    let n = lead.len() as int;
    assert forall|j: int| 0 <= j < tail.len() - 1 && #[trigger] tail[j] == ':' && tail[j + 1]
        == ':' implies j == 0 || j == 5 || j == 17 by {
    }
    reveal_strlit("::cmp::Ord::clamp");
    lemma_last(root, tail, x, "::cmp::Ord::clamp", 10);
    if n >= 12 {
        let s = lead.subrange(n - 12, n);
        assert(s[6] == tail[tail.len() - 6]);
        assert("::cmp::Ord::clamp"@.take(12)[6] == "::cmp::Ord::clamp"@[6]);
    }
    reveal_strlit("iter::Iterator::sum");
    lemma_elsewhere(root, tail, x, "iter::Iterator::sum", 14);
    reveal_strlit("iter::Iterator::product");
    lemma_elsewhere(root, tail, x, "iter::Iterator::product", 14);
    reveal_strlit("iter::Iterator::step_by");
    lemma_elsewhere(root, tail, x, "iter::Iterator::step_by", 14);
    reveal_strlit("char::from_digit");
    lemma_elsewhere(root, tail, x, "char::from_digit", 4);
    reveal_strlit("ops::Index::index");
    lemma_elsewhere(root, tail, x, "ops::Index::index", 10);
    reveal_strlit("ops::IndexMut::index_mut");
    lemma_elsewhere(root, tail, x, "ops::IndexMut::index_mut", 13);
    reveal_strlit("::cmp::Ord::min");
    lemma_last(root, tail, x, "::cmp::Ord::min", 10);
    if n >= 12 {
        let s = lead.subrange(n - 12, n);
        assert(s[6] == tail[tail.len() - 6]);
        assert("::cmp::Ord::min"@.take(12)[6] == "::cmp::Ord::min"@[6]);
    }
    reveal_strlit("::cmp::Ord::max");
    lemma_last(root, tail, x, "::cmp::Ord::max", 10);
    if n >= 12 {
        let s = lead.subrange(n - 12, n);
        assert(s[6] == tail[tail.len() - 6]);
        assert("::cmp::Ord::max"@.take(12)[6] == "::cmp::Ord::max"@[6]);
    }
    reveal_strlit("::cmp::Ord::cmp");
    lemma_last(root, tail, x, "::cmp::Ord::cmp", 10);
    if n >= 12 {
        let s = lead.subrange(n - 12, n);
        assert(s[6] == tail[tail.len() - 6]);
        assert("::cmp::Ord::cmp"@.take(12)[6] == "::cmp::Ord::cmp"@[6]);
    }
    reveal_strlit("::cmp::min");
    lemma_elsewhere(root, tail, x, "::cmp::min", 5);
    reveal_strlit("::cmp::max");
    lemma_elsewhere(root, tail, x, "::cmp::max", 5);
    reveal_strlit("::convert::From::from");
    lemma_elsewhere(root, tail, x, "::convert::From::from", 15);
    reveal_strlit("::convert::Into::into");
    lemma_elsewhere(root, tail, x, "::convert::Into::into", 15);
    reveal_strlit("::convert::TryFrom::try_from");
    lemma_elsewhere(root, tail, x, "::convert::TryFrom::try_from", 18);
    reveal_strlit("::convert::TryInto::try_into");
    lemma_elsewhere(root, tail, x, "::convert::TryInto::try_into", 18);
    reveal_strlit("::convert::identity");
    lemma_elsewhere(root, tail, x, "::convert::identity", 9);
    reveal_strlit("char::from_u32");
    lemma_elsewhere(root, tail, x, "char::from_u32", 4);
    reveal_strlit("option::Option");
    lemma_absent(root, tail, x, "option::Option", 6);
    reveal_strlit("result::Result");
    lemma_absent(root, tail, x, "result::Result", 6);
    reveal_strlit("num::<impl");
    lemma_absent(root, tail, x, "num::<impl", 3);
    reveal_strlit("char::methods::<impl char>");
    assert("char::methods::<impl char>"@[13] == ':');
    lemma_absent(root, tail, x, "char::methods::<impl char>", 4);
    reveal_strlit("::slice::<impl");
    assert("::slice::<impl"@[7] == ':');
    lemma_absent(root, tail, x, "::slice::<impl", 0);
    reveal_strlit("::str::<impl");
    assert("::str::<impl"@[5] == ':');
    lemma_absent(root, tail, x, "::str::<impl", 0);
    reveal_strlit("::slice::<impl [T]>");
    assert("::slice::<impl [T]>"@[7] == ':');
    lemma_absent(root, tail, x, "::slice::<impl [T]>", 0);
    reveal_strlit("::str::<impl str>");
    assert("::str::<impl str>"@[5] == ':');
    lemma_absent(root, tail, x, "::str::<impl str>", 0);
    reveal_strlit("::cmp::PartialOrd::");
    assert(p.subrange(r + 0, r + 19) =~= "::cmp::PartialOrd::"@);
    assert(occurs_at(p, "::cmp::PartialOrd::"@, r + 0));
}

/// The methods of `PartialEq` are trusted.
pub proof fn law_equality_methods(root: Seq<char>, x: Seq<char>)
    requires
        is_root(root),
        no_colon(x),
    ensures
        ({
            let p = item(root, "::cmp::PartialEq::"@, x);
            &&& !panicking_call(p)
            &&& trusted_total_library_call(p)
        }),
{
    lemma_root(root);
    reveal_strlit("::cmp::PartialEq::");
    let tail = "::cmp::PartialEq::"@;
    let lead = root + tail;
    let p = item(root, tail, x);
    let r = root.len() as int;
    let n = lead.len() as int;
    assert forall|j: int| 0 <= j < tail.len() - 1 && #[trigger] tail[j] == ':' && tail[j + 1]
        == ':' implies j == 0 || j == 5 || j == 16 by {
    }
    reveal_strlit("::cmp::Ord::clamp");
    lemma_elsewhere(root, tail, x, "::cmp::Ord::clamp", 10);
    reveal_strlit("iter::Iterator::sum");
    lemma_elsewhere(root, tail, x, "iter::Iterator::sum", 14);
    reveal_strlit("iter::Iterator::product");
    lemma_elsewhere(root, tail, x, "iter::Iterator::product", 14);
    reveal_strlit("iter::Iterator::step_by");
    lemma_elsewhere(root, tail, x, "iter::Iterator::step_by", 14);
    reveal_strlit("char::from_digit");
    lemma_elsewhere(root, tail, x, "char::from_digit", 4);
    reveal_strlit("ops::Index::index");
    lemma_elsewhere(root, tail, x, "ops::Index::index", 10);
    reveal_strlit("ops::IndexMut::index_mut");
    lemma_elsewhere(root, tail, x, "ops::IndexMut::index_mut", 13);
    reveal_strlit("::cmp::Ord::min");
    lemma_elsewhere(root, tail, x, "::cmp::Ord::min", 10);
    reveal_strlit("::cmp::Ord::max");
    lemma_elsewhere(root, tail, x, "::cmp::Ord::max", 10);
    reveal_strlit("::cmp::Ord::cmp");
    lemma_elsewhere(root, tail, x, "::cmp::Ord::cmp", 10);
    reveal_strlit("::cmp::min");
    lemma_elsewhere(root, tail, x, "::cmp::min", 5);
    reveal_strlit("::cmp::max");
    lemma_elsewhere(root, tail, x, "::cmp::max", 5);
    reveal_strlit("::convert::From::from");
    lemma_elsewhere(root, tail, x, "::convert::From::from", 15);
    reveal_strlit("::convert::Into::into");
    lemma_elsewhere(root, tail, x, "::convert::Into::into", 15);
    reveal_strlit("::convert::TryFrom::try_from");
    lemma_elsewhere(root, tail, x, "::convert::TryFrom::try_from", 18);
    reveal_strlit("::convert::TryInto::try_into");
    lemma_elsewhere(root, tail, x, "::convert::TryInto::try_into", 18);
    reveal_strlit("::convert::identity");
    lemma_elsewhere(root, tail, x, "::convert::identity", 9);
    reveal_strlit("char::from_u32");
    lemma_elsewhere(root, tail, x, "char::from_u32", 4);
    reveal_strlit("option::Option");
    lemma_absent(root, tail, x, "option::Option", 6);
    reveal_strlit("result::Result");
    lemma_absent(root, tail, x, "result::Result", 6);
    reveal_strlit("num::<impl");
    lemma_absent(root, tail, x, "num::<impl", 3);
    reveal_strlit("char::methods::<impl char>");
    assert("char::methods::<impl char>"@[13] == ':');
    lemma_absent(root, tail, x, "char::methods::<impl char>", 4);
    reveal_strlit("::slice::<impl");
    assert("::slice::<impl"@[7] == ':');
    lemma_absent(root, tail, x, "::slice::<impl", 0);
    reveal_strlit("::str::<impl");
    assert("::str::<impl"@[5] == ':');
    lemma_absent(root, tail, x, "::str::<impl", 0);
    reveal_strlit("::slice::<impl [T]>");
    assert("::slice::<impl [T]>"@[7] == ':');
    lemma_absent(root, tail, x, "::slice::<impl [T]>", 0);
    reveal_strlit("::str::<impl str>");
    assert("::str::<impl str>"@[5] == ':');
    lemma_absent(root, tail, x, "::str::<impl str>", 0);
    reveal_strlit("::cmp::PartialEq::");
    assert(p.subrange(r + 0, r + 18) =~= "::cmp::PartialEq::"@);
    assert(occurs_at(p, "::cmp::PartialEq::"@, r + 0));
}

/// The methods of `Ordering` are trusted.
pub proof fn law_ordering_value_methods(root: Seq<char>, x: Seq<char>)
    requires
        is_root(root),
        no_colon(x),
    ensures
        ({
            let p = item(root, "::cmp::Ordering::"@, x);
            &&& !panicking_call(p)
            &&& trusted_total_library_call(p)
        }),
{
    lemma_root(root);
    reveal_strlit("::cmp::Ordering::");
    let tail = "::cmp::Ordering::"@;
    let lead = root + tail;
    let p = item(root, tail, x);
    let r = root.len() as int;
    let n = lead.len() as int;
    assert forall|j: int| 0 <= j < tail.len() - 1 && #[trigger] tail[j] == ':' && tail[j + 1]
        == ':' implies j == 0 || j == 5 || j == 15 by {
    }
    reveal_strlit("::cmp::Ord::clamp");
    lemma_elsewhere(root, tail, x, "::cmp::Ord::clamp", 10);
    reveal_strlit("iter::Iterator::sum");
    lemma_elsewhere(root, tail, x, "iter::Iterator::sum", 14);
    reveal_strlit("iter::Iterator::product");
    lemma_elsewhere(root, tail, x, "iter::Iterator::product", 14);
    reveal_strlit("iter::Iterator::step_by");
    lemma_elsewhere(root, tail, x, "iter::Iterator::step_by", 14);
    reveal_strlit("char::from_digit");
    lemma_elsewhere(root, tail, x, "char::from_digit", 4);
    reveal_strlit("ops::Index::index");
    lemma_elsewhere(root, tail, x, "ops::Index::index", 10);
    reveal_strlit("ops::IndexMut::index_mut");
    lemma_elsewhere(root, tail, x, "ops::IndexMut::index_mut", 13);
    reveal_strlit("::cmp::Ord::min");
    lemma_elsewhere(root, tail, x, "::cmp::Ord::min", 10);
    reveal_strlit("::cmp::Ord::max");
    lemma_elsewhere(root, tail, x, "::cmp::Ord::max", 10);
    reveal_strlit("::cmp::Ord::cmp");
    lemma_elsewhere(root, tail, x, "::cmp::Ord::cmp", 10);
    reveal_strlit("::cmp::min");
    lemma_elsewhere(root, tail, x, "::cmp::min", 5);
    reveal_strlit("::cmp::max");
    lemma_elsewhere(root, tail, x, "::cmp::max", 5);
    reveal_strlit("::convert::From::from");
    lemma_elsewhere(root, tail, x, "::convert::From::from", 15);
    reveal_strlit("::convert::Into::into");
    lemma_elsewhere(root, tail, x, "::convert::Into::into", 15);
    reveal_strlit("::convert::TryFrom::try_from");
    lemma_elsewhere(root, tail, x, "::convert::TryFrom::try_from", 18);
    reveal_strlit("::convert::TryInto::try_into");
    lemma_elsewhere(root, tail, x, "::convert::TryInto::try_into", 18);
    reveal_strlit("::convert::identity");
    lemma_elsewhere(root, tail, x, "::convert::identity", 9);
    reveal_strlit("char::from_u32");
    lemma_elsewhere(root, tail, x, "char::from_u32", 4);
    reveal_strlit("option::Option");
    lemma_absent(root, tail, x, "option::Option", 6);
    reveal_strlit("result::Result");
    lemma_absent(root, tail, x, "result::Result", 6);
    reveal_strlit("num::<impl");
    lemma_absent(root, tail, x, "num::<impl", 3);
    reveal_strlit("char::methods::<impl char>");
    assert("char::methods::<impl char>"@[13] == ':');
    lemma_absent(root, tail, x, "char::methods::<impl char>", 4);
    reveal_strlit("::slice::<impl");
    assert("::slice::<impl"@[7] == ':');
    lemma_absent(root, tail, x, "::slice::<impl", 0);
    reveal_strlit("::str::<impl");
    assert("::str::<impl"@[5] == ':');
    lemma_absent(root, tail, x, "::str::<impl", 0);
    reveal_strlit("::slice::<impl [T]>");
    assert("::slice::<impl [T]>"@[7] == ':');
    lemma_absent(root, tail, x, "::slice::<impl [T]>", 0);
    reveal_strlit("::str::<impl str>");
    assert("::str::<impl str>"@[5] == ':');
    lemma_absent(root, tail, x, "::str::<impl str>", 0);
    reveal_strlit("::cmp::Ordering::");
    assert(p.subrange(r + 0, r + 17) =~= "::cmp::Ordering::"@);
    assert(occurs_at(p, "::cmp::Ordering::"@, r + 0));
}

/// The conversion through `From` is trusted.
pub proof fn law_from_conversion(root: Seq<char>, x: Seq<char>)
    requires
        is_root(root),
        no_colon(x),
    ensures
        ({
            let p = item(root, "::convert::From::"@, x);
            &&& !panicking_call(p)
            &&& trusted_total_library_call(p) <==> x == "from"@
        }),
{
    lemma_root(root);
    reveal_strlit("::convert::From::");
    let tail = "::convert::From::"@;
    let lead = root + tail;
    let p = item(root, tail, x);
    let r = root.len() as int;
    let n = lead.len() as int;
    assert forall|j: int| 0 <= j < tail.len() - 1 && #[trigger] tail[j] == ':' && tail[j + 1]
        == ':' implies j == 0 || j == 9 || j == 15 by {
    }
    reveal_strlit("::cmp::Ord::clamp");
    lemma_elsewhere(root, tail, x, "::cmp::Ord::clamp", 10);
    reveal_strlit("iter::Iterator::sum");
    lemma_elsewhere(root, tail, x, "iter::Iterator::sum", 14);
    reveal_strlit("iter::Iterator::product");
    lemma_elsewhere(root, tail, x, "iter::Iterator::product", 14);
    reveal_strlit("iter::Iterator::step_by");
    lemma_elsewhere(root, tail, x, "iter::Iterator::step_by", 14);
    reveal_strlit("char::from_digit");
    lemma_elsewhere(root, tail, x, "char::from_digit", 4);
    reveal_strlit("ops::Index::index");
    lemma_elsewhere(root, tail, x, "ops::Index::index", 10);
    reveal_strlit("ops::IndexMut::index_mut");
    lemma_elsewhere(root, tail, x, "ops::IndexMut::index_mut", 13);
    reveal_strlit("::cmp::Ord::min");
    lemma_elsewhere(root, tail, x, "::cmp::Ord::min", 10);
    reveal_strlit("::cmp::Ord::max");
    lemma_elsewhere(root, tail, x, "::cmp::Ord::max", 10);
    reveal_strlit("::cmp::Ord::cmp");
    lemma_elsewhere(root, tail, x, "::cmp::Ord::cmp", 10);
    reveal_strlit("::cmp::min");
    lemma_elsewhere(root, tail, x, "::cmp::min", 5);
    reveal_strlit("::cmp::max");
    lemma_elsewhere(root, tail, x, "::cmp::max", 5);
    reveal_strlit("::convert::From::from");
    lemma_last(root, tail, x, "::convert::From::from", 15);
    reveal_strlit("from");
    assert("::convert::From::from"@.skip(17) =~= "from"@);
    assert(lead.subrange(n - 17, n) =~= "::convert::From::from"@.take(17));
    reveal_strlit("::convert::Into::into");
    lemma_elsewhere(root, tail, x, "::convert::Into::into", 15);
    reveal_strlit("::convert::TryFrom::try_from");
    lemma_last(root, tail, x, "::convert::TryFrom::try_from", 18);
    if n >= 20 {
        let s = lead.subrange(n - 20, n);
        assert(s[13] == tail[tail.len() - 7]);
        assert("::convert::TryFrom::try_from"@.take(20)[13] == "::convert::TryFrom::try_from"@[13]);
    }
    reveal_strlit("::convert::TryInto::try_into");
    lemma_elsewhere(root, tail, x, "::convert::TryInto::try_into", 18);
    reveal_strlit("::convert::identity");
    lemma_elsewhere(root, tail, x, "::convert::identity", 9);
    reveal_strlit("char::from_u32");
    lemma_elsewhere(root, tail, x, "char::from_u32", 4);
    reveal_strlit("option::Option");
    lemma_absent(root, tail, x, "option::Option", 6);
    reveal_strlit("result::Result");
    lemma_absent(root, tail, x, "result::Result", 6);
    reveal_strlit("num::<impl");
    lemma_absent(root, tail, x, "num::<impl", 3);
    reveal_strlit("char::methods::<impl char>");
    assert("char::methods::<impl char>"@[13] == ':');
    lemma_absent(root, tail, x, "char::methods::<impl char>", 4);
    reveal_strlit("::slice::<impl");
    assert("::slice::<impl"@[7] == ':');
    lemma_absent(root, tail, x, "::slice::<impl", 0);
    reveal_strlit("::str::<impl");
    assert("::str::<impl"@[5] == ':');
    lemma_absent(root, tail, x, "::str::<impl", 0);
    reveal_strlit("::slice::<impl [T]>");
    assert("::slice::<impl [T]>"@[7] == ':');
    lemma_absent(root, tail, x, "::slice::<impl [T]>", 0);
    reveal_strlit("::str::<impl str>");
    assert("::str::<impl str>"@[5] == ':');
    lemma_absent(root, tail, x, "::str::<impl str>", 0);
    reveal_strlit("::cmp::PartialOrd::");
    assert("::cmp::PartialOrd::"@[5] == ':');
    lemma_absent(root, tail, x, "::cmp::PartialOrd::", 0);
    reveal_strlit("::cmp::PartialEq::");
    assert("::cmp::PartialEq::"@[5] == ':');
    lemma_absent(root, tail, x, "::cmp::PartialEq::", 0);
    reveal_strlit("::cmp::Ordering::");
    assert("::cmp::Ordering::"@[5] == ':');
    lemma_absent(root, tail, x, "::cmp::Ordering::", 0);
}

/// The conversion through `Into` is trusted.
pub proof fn law_into_conversion(root: Seq<char>, x: Seq<char>)
    requires
        is_root(root),
        no_colon(x),
    ensures
        ({
            let p = item(root, "::convert::Into::"@, x);
            &&& !panicking_call(p)
            &&& trusted_total_library_call(p) <==> x == "into"@
        }),
{
    lemma_root(root);
    reveal_strlit("::convert::Into::");
    let tail = "::convert::Into::"@;
    let lead = root + tail;
    let p = item(root, tail, x);
    let r = root.len() as int;
    let n = lead.len() as int;
    assert forall|j: int| 0 <= j < tail.len() - 1 && #[trigger] tail[j] == ':' && tail[j + 1]
        == ':' implies j == 0 || j == 9 || j == 15 by {
    }
    reveal_strlit("::cmp::Ord::clamp");
    lemma_elsewhere(root, tail, x, "::cmp::Ord::clamp", 10);
    reveal_strlit("iter::Iterator::sum");
    lemma_elsewhere(root, tail, x, "iter::Iterator::sum", 14);
    reveal_strlit("iter::Iterator::product");
    lemma_elsewhere(root, tail, x, "iter::Iterator::product", 14);
    reveal_strlit("iter::Iterator::step_by");
    lemma_elsewhere(root, tail, x, "iter::Iterator::step_by", 14);
    reveal_strlit("char::from_digit");
    lemma_elsewhere(root, tail, x, "char::from_digit", 4);
    reveal_strlit("ops::Index::index");
    lemma_elsewhere(root, tail, x, "ops::Index::index", 10);
    reveal_strlit("ops::IndexMut::index_mut");
    lemma_elsewhere(root, tail, x, "ops::IndexMut::index_mut", 13);
    reveal_strlit("::cmp::Ord::min");
    lemma_elsewhere(root, tail, x, "::cmp::Ord::min", 10);
    reveal_strlit("::cmp::Ord::max");
    lemma_elsewhere(root, tail, x, "::cmp::Ord::max", 10);
    reveal_strlit("::cmp::Ord::cmp");
    lemma_elsewhere(root, tail, x, "::cmp::Ord::cmp", 10);
    reveal_strlit("::cmp::min");
    lemma_elsewhere(root, tail, x, "::cmp::min", 5);
    reveal_strlit("::cmp::max");
    lemma_elsewhere(root, tail, x, "::cmp::max", 5);
    reveal_strlit("::convert::From::from");
    lemma_elsewhere(root, tail, x, "::convert::From::from", 15);
    reveal_strlit("::convert::Into::into");
    lemma_last(root, tail, x, "::convert::Into::into", 15);
    reveal_strlit("into");
    assert("::convert::Into::into"@.skip(17) =~= "into"@);
    assert(lead.subrange(n - 17, n) =~= "::convert::Into::into"@.take(17));
    reveal_strlit("::convert::TryFrom::try_from");
    lemma_elsewhere(root, tail, x, "::convert::TryFrom::try_from", 18);
    reveal_strlit("::convert::TryInto::try_into");
    lemma_last(root, tail, x, "::convert::TryInto::try_into", 18);
    if n >= 20 {
        let s = lead.subrange(n - 20, n);
        assert(s[13] == tail[tail.len() - 7]);
        assert("::convert::TryInto::try_into"@.take(20)[13] == "::convert::TryInto::try_into"@[13]);
    }
    reveal_strlit("::convert::identity");
    lemma_elsewhere(root, tail, x, "::convert::identity", 9);
    reveal_strlit("char::from_u32");
    lemma_elsewhere(root, tail, x, "char::from_u32", 4);
    reveal_strlit("option::Option");
    lemma_absent(root, tail, x, "option::Option", 6);
    reveal_strlit("result::Result");
    lemma_absent(root, tail, x, "result::Result", 6);
    reveal_strlit("num::<impl");
    lemma_absent(root, tail, x, "num::<impl", 3);
    reveal_strlit("char::methods::<impl char>");
    assert("char::methods::<impl char>"@[13] == ':');
    lemma_absent(root, tail, x, "char::methods::<impl char>", 4);
    reveal_strlit("::slice::<impl");
    assert("::slice::<impl"@[7] == ':');
    lemma_absent(root, tail, x, "::slice::<impl", 0);
    reveal_strlit("::str::<impl");
    assert("::str::<impl"@[5] == ':');
    lemma_absent(root, tail, x, "::str::<impl", 0);
    reveal_strlit("::slice::<impl [T]>");
    assert("::slice::<impl [T]>"@[7] == ':');
    lemma_absent(root, tail, x, "::slice::<impl [T]>", 0);
    reveal_strlit("::str::<impl str>");
    assert("::str::<impl str>"@[5] == ':');
    lemma_absent(root, tail, x, "::str::<impl str>", 0);
    reveal_strlit("::cmp::PartialOrd::");
    assert("::cmp::PartialOrd::"@[5] == ':');
    lemma_absent(root, tail, x, "::cmp::PartialOrd::", 0);
    reveal_strlit("::cmp::PartialEq::");
    assert("::cmp::PartialEq::"@[5] == ':');
    lemma_absent(root, tail, x, "::cmp::PartialEq::", 0);
    reveal_strlit("::cmp::Ordering::");
    assert("::cmp::Ordering::"@[5] == ':');
    lemma_absent(root, tail, x, "::cmp::Ordering::", 0);
}

/// The conversion through `TryFrom` is trusted.
pub proof fn law_try_from_conversion(root: Seq<char>, x: Seq<char>)
    requires
        is_root(root),
        no_colon(x),
    ensures
        ({
            let p = item(root, "::convert::TryFrom::"@, x);
            &&& !panicking_call(p)
            &&& trusted_total_library_call(p) <==> x == "try_from"@
        }),
{
    lemma_root(root);
    reveal_strlit("::convert::TryFrom::");
    let tail = "::convert::TryFrom::"@;
    let lead = root + tail;
    let p = item(root, tail, x);
    let r = root.len() as int;
    let n = lead.len() as int;
    assert forall|j: int| 0 <= j < tail.len() - 1 && #[trigger] tail[j] == ':' && tail[j + 1]
        == ':' implies j == 0 || j == 9 || j == 18 by {
    }
    reveal_strlit("::cmp::Ord::clamp");
    lemma_elsewhere(root, tail, x, "::cmp::Ord::clamp", 10);
    reveal_strlit("iter::Iterator::sum");
    lemma_elsewhere(root, tail, x, "iter::Iterator::sum", 14);
    reveal_strlit("iter::Iterator::product");
    lemma_elsewhere(root, tail, x, "iter::Iterator::product", 14);
    reveal_strlit("iter::Iterator::step_by");
    lemma_elsewhere(root, tail, x, "iter::Iterator::step_by", 14);
    reveal_strlit("char::from_digit");
    lemma_elsewhere(root, tail, x, "char::from_digit", 4);
    reveal_strlit("ops::Index::index");
    lemma_elsewhere(root, tail, x, "ops::Index::index", 10);
    reveal_strlit("ops::IndexMut::index_mut");
    lemma_elsewhere(root, tail, x, "ops::IndexMut::index_mut", 13);
    reveal_strlit("::cmp::Ord::min");
    lemma_elsewhere(root, tail, x, "::cmp::Ord::min", 10);
    reveal_strlit("::cmp::Ord::max");
    lemma_elsewhere(root, tail, x, "::cmp::Ord::max", 10);
    reveal_strlit("::cmp::Ord::cmp");
    lemma_elsewhere(root, tail, x, "::cmp::Ord::cmp", 10);
    reveal_strlit("::cmp::min");
    lemma_elsewhere(root, tail, x, "::cmp::min", 5);
    reveal_strlit("::cmp::max");
    lemma_elsewhere(root, tail, x, "::cmp::max", 5);
    reveal_strlit("::convert::From::from");
    lemma_last(root, tail, x, "::convert::From::from", 15);
    if n >= 17 {
        let s = lead.subrange(n - 17, n);
        assert(s[10] == tail[tail.len() - 7]);
        assert("::convert::From::from"@.take(17)[10] == "::convert::From::from"@[10]);
    }
    reveal_strlit("::convert::Into::into");
    lemma_elsewhere(root, tail, x, "::convert::Into::into", 15);
    reveal_strlit("::convert::TryFrom::try_from");
    lemma_last(root, tail, x, "::convert::TryFrom::try_from", 18);
    reveal_strlit("try_from");
    assert("::convert::TryFrom::try_from"@.skip(20) =~= "try_from"@);
    assert(lead.subrange(n - 20, n) =~= "::convert::TryFrom::try_from"@.take(20));
    reveal_strlit("::convert::TryInto::try_into");
    lemma_elsewhere(root, tail, x, "::convert::TryInto::try_into", 18);
    reveal_strlit("::convert::identity");
    lemma_elsewhere(root, tail, x, "::convert::identity", 9);
    reveal_strlit("char::from_u32");
    lemma_elsewhere(root, tail, x, "char::from_u32", 4);
    reveal_strlit("option::Option");
    lemma_absent(root, tail, x, "option::Option", 6);
    reveal_strlit("result::Result");
    lemma_absent(root, tail, x, "result::Result", 6);
    reveal_strlit("num::<impl");
    lemma_absent(root, tail, x, "num::<impl", 3);
    reveal_strlit("char::methods::<impl char>");
    assert("char::methods::<impl char>"@[13] == ':');
    lemma_absent(root, tail, x, "char::methods::<impl char>", 4);
    reveal_strlit("::slice::<impl");
    assert("::slice::<impl"@[7] == ':');
    lemma_absent(root, tail, x, "::slice::<impl", 0);
    reveal_strlit("::str::<impl");
    assert("::str::<impl"@[5] == ':');
    lemma_absent(root, tail, x, "::str::<impl", 0);
    reveal_strlit("::slice::<impl [T]>");
    assert("::slice::<impl [T]>"@[7] == ':');
    lemma_absent(root, tail, x, "::slice::<impl [T]>", 0);
    reveal_strlit("::str::<impl str>");
    assert("::str::<impl str>"@[5] == ':');
    lemma_absent(root, tail, x, "::str::<impl str>", 0);
    reveal_strlit("::cmp::PartialOrd::");
    assert("::cmp::PartialOrd::"@[5] == ':');
    lemma_absent(root, tail, x, "::cmp::PartialOrd::", 0);
    reveal_strlit("::cmp::PartialEq::");
    assert("::cmp::PartialEq::"@[5] == ':');
    lemma_absent(root, tail, x, "::cmp::PartialEq::", 0);
    reveal_strlit("::cmp::Ordering::");
    assert("::cmp::Ordering::"@[5] == ':');
    lemma_absent(root, tail, x, "::cmp::Ordering::", 0);
}

/// The conversion through `TryInto` is trusted.
pub proof fn law_try_into_conversion(root: Seq<char>, x: Seq<char>)
    requires
        is_root(root),
        no_colon(x),
    ensures
        ({
            let p = item(root, "::convert::TryInto::"@, x);
            &&& !panicking_call(p)
            &&& trusted_total_library_call(p) <==> x == "try_into"@
        }),
{
    lemma_root(root);
    reveal_strlit("::convert::TryInto::");
    let tail = "::convert::TryInto::"@;
    let lead = root + tail;
    let p = item(root, tail, x);
    let r = root.len() as int;
    let n = lead.len() as int;
    assert forall|j: int| 0 <= j < tail.len() - 1 && #[trigger] tail[j] == ':' && tail[j + 1]
        == ':' implies j == 0 || j == 9 || j == 18 by {
    }
    reveal_strlit("::cmp::Ord::clamp");
    lemma_elsewhere(root, tail, x, "::cmp::Ord::clamp", 10);
    reveal_strlit("iter::Iterator::sum");
    lemma_elsewhere(root, tail, x, "iter::Iterator::sum", 14);
    reveal_strlit("iter::Iterator::product");
    lemma_elsewhere(root, tail, x, "iter::Iterator::product", 14);
    reveal_strlit("iter::Iterator::step_by");
    lemma_elsewhere(root, tail, x, "iter::Iterator::step_by", 14);
    reveal_strlit("char::from_digit");
    lemma_elsewhere(root, tail, x, "char::from_digit", 4);
    reveal_strlit("ops::Index::index");
    lemma_elsewhere(root, tail, x, "ops::Index::index", 10);
    reveal_strlit("ops::IndexMut::index_mut");
    lemma_elsewhere(root, tail, x, "ops::IndexMut::index_mut", 13);
    reveal_strlit("::cmp::Ord::min");
    lemma_elsewhere(root, tail, x, "::cmp::Ord::min", 10);
    reveal_strlit("::cmp::Ord::max");
    lemma_elsewhere(root, tail, x, "::cmp::Ord::max", 10);
    reveal_strlit("::cmp::Ord::cmp");
    lemma_elsewhere(root, tail, x, "::cmp::Ord::cmp", 10);
    reveal_strlit("::cmp::min");
    lemma_elsewhere(root, tail, x, "::cmp::min", 5);
    reveal_strlit("::cmp::max");
    lemma_elsewhere(root, tail, x, "::cmp::max", 5);
    reveal_strlit("::convert::From::from");
    lemma_elsewhere(root, tail, x, "::convert::From::from", 15);
    reveal_strlit("::convert::Into::into");
    lemma_last(root, tail, x, "::convert::Into::into", 15);
    if n >= 17 {
        let s = lead.subrange(n - 17, n);
        assert(s[10] == tail[tail.len() - 7]);
        assert("::convert::Into::into"@.take(17)[10] == "::convert::Into::into"@[10]);
    }
    reveal_strlit("::convert::TryFrom::try_from");
    lemma_elsewhere(root, tail, x, "::convert::TryFrom::try_from", 18);
    reveal_strlit("::convert::TryInto::try_into");
    lemma_last(root, tail, x, "::convert::TryInto::try_into", 18);
    reveal_strlit("try_into");
    assert("::convert::TryInto::try_into"@.skip(20) =~= "try_into"@);
    assert(lead.subrange(n - 20, n) =~= "::convert::TryInto::try_into"@.take(20));
    reveal_strlit("::convert::identity");
    lemma_elsewhere(root, tail, x, "::convert::identity", 9);
    reveal_strlit("char::from_u32");
    lemma_elsewhere(root, tail, x, "char::from_u32", 4);
    reveal_strlit("option::Option");
    lemma_absent(root, tail, x, "option::Option", 6);
    reveal_strlit("result::Result");
    lemma_absent(root, tail, x, "result::Result", 6);
    reveal_strlit("num::<impl");
    lemma_absent(root, tail, x, "num::<impl", 3);
    reveal_strlit("char::methods::<impl char>");
    assert("char::methods::<impl char>"@[13] == ':');
    lemma_absent(root, tail, x, "char::methods::<impl char>", 4);
    reveal_strlit("::slice::<impl");
    assert("::slice::<impl"@[7] == ':');
    lemma_absent(root, tail, x, "::slice::<impl", 0);
    reveal_strlit("::str::<impl");
    assert("::str::<impl"@[5] == ':');
    lemma_absent(root, tail, x, "::str::<impl", 0);
    reveal_strlit("::slice::<impl [T]>");
    assert("::slice::<impl [T]>"@[7] == ':');
    lemma_absent(root, tail, x, "::slice::<impl [T]>", 0);
    reveal_strlit("::str::<impl str>");
    assert("::str::<impl str>"@[5] == ':');
    lemma_absent(root, tail, x, "::str::<impl str>", 0);
    reveal_strlit("::cmp::PartialOrd::");
    assert("::cmp::PartialOrd::"@[5] == ':');
    lemma_absent(root, tail, x, "::cmp::PartialOrd::", 0);
    reveal_strlit("::cmp::PartialEq::");
    assert("::cmp::PartialEq::"@[5] == ':');
    lemma_absent(root, tail, x, "::cmp::PartialEq::", 0);
    reveal_strlit("::cmp::Ordering::");
    assert("::cmp::Ordering::"@[5] == ':');
    lemma_absent(root, tail, x, "::cmp::Ordering::", 0);
}

/// The conversion of a value to itself is trusted.
pub proof fn law_identity_conversion(root: Seq<char>, x: Seq<char>)
    requires
        is_root(root),
        no_colon(x),
    ensures
        ({
            let p = item(root, "::convert::"@, x);
            &&& !panicking_call(p)
            &&& trusted_total_library_call(p) <==> x == "identity"@
        }),
{
    lemma_root(root);
    reveal_strlit("::convert::");
    let tail = "::convert::"@;
    let lead = root + tail;
    let p = item(root, tail, x);
    let r = root.len() as int;
    let n = lead.len() as int;
    assert forall|j: int| 0 <= j < tail.len() - 1 && #[trigger] tail[j] == ':' && tail[j + 1]
        == ':' implies j == 0 || j == 9 by {
    }
    reveal_strlit("::cmp::Ord::clamp");
    lemma_elsewhere(root, tail, x, "::cmp::Ord::clamp", 10);
    reveal_strlit("iter::Iterator::sum");
    lemma_elsewhere(root, tail, x, "iter::Iterator::sum", 14);
    reveal_strlit("iter::Iterator::product");
    lemma_elsewhere(root, tail, x, "iter::Iterator::product", 14);
    reveal_strlit("iter::Iterator::step_by");
    lemma_elsewhere(root, tail, x, "iter::Iterator::step_by", 14);
    reveal_strlit("char::from_digit");
    lemma_elsewhere(root, tail, x, "char::from_digit", 4);
    reveal_strlit("ops::Index::index");
    lemma_elsewhere(root, tail, x, "ops::Index::index", 10);
    reveal_strlit("ops::IndexMut::index_mut");
    lemma_last(root, tail, x, "ops::IndexMut::index_mut", 13);
    if n >= 15 {
        let s = lead.subrange(n - 15, n);
        assert(s[11] == tail[tail.len() - 4]);
        assert("ops::IndexMut::index_mut"@.take(15)[11] == "ops::IndexMut::index_mut"@[11]);
    }
    reveal_strlit("::cmp::Ord::min");
    lemma_elsewhere(root, tail, x, "::cmp::Ord::min", 10);
    reveal_strlit("::cmp::Ord::max");
    lemma_elsewhere(root, tail, x, "::cmp::Ord::max", 10);
    reveal_strlit("::cmp::Ord::cmp");
    lemma_elsewhere(root, tail, x, "::cmp::Ord::cmp", 10);
    reveal_strlit("::cmp::min");
    lemma_elsewhere(root, tail, x, "::cmp::min", 5);
    reveal_strlit("::cmp::max");
    lemma_elsewhere(root, tail, x, "::cmp::max", 5);
    reveal_strlit("::convert::From::from");
    lemma_elsewhere(root, tail, x, "::convert::From::from", 15);
    reveal_strlit("::convert::Into::into");
    lemma_elsewhere(root, tail, x, "::convert::Into::into", 15);
    reveal_strlit("::convert::TryFrom::try_from");
    lemma_elsewhere(root, tail, x, "::convert::TryFrom::try_from", 18);
    reveal_strlit("::convert::TryInto::try_into");
    lemma_elsewhere(root, tail, x, "::convert::TryInto::try_into", 18);
    reveal_strlit("::convert::identity");
    lemma_last(root, tail, x, "::convert::identity", 9);
    reveal_strlit("identity");
    assert("::convert::identity"@.skip(11) =~= "identity"@);
    assert(lead.subrange(n - 11, n) =~= "::convert::identity"@.take(11));
    reveal_strlit("char::from_u32");
    lemma_elsewhere(root, tail, x, "char::from_u32", 4);
    reveal_strlit("option::Option");
    lemma_absent(root, tail, x, "option::Option", 6);
    reveal_strlit("result::Result");
    lemma_absent(root, tail, x, "result::Result", 6);
    reveal_strlit("num::<impl");
    lemma_absent(root, tail, x, "num::<impl", 3);
    reveal_strlit("char::methods::<impl char>");
    assert("char::methods::<impl char>"@[13] == ':');
    lemma_absent(root, tail, x, "char::methods::<impl char>", 4);
    reveal_strlit("::slice::<impl");
    assert("::slice::<impl"@[7] == ':');
    lemma_absent(root, tail, x, "::slice::<impl", 0);
    reveal_strlit("::str::<impl");
    assert("::str::<impl"@[5] == ':');
    lemma_absent(root, tail, x, "::str::<impl", 0);
    reveal_strlit("::slice::<impl [T]>");
    assert("::slice::<impl [T]>"@[7] == ':');
    lemma_absent(root, tail, x, "::slice::<impl [T]>", 0);
    reveal_strlit("::str::<impl str>");
    assert("::str::<impl str>"@[5] == ':');
    lemma_absent(root, tail, x, "::str::<impl str>", 0);
    reveal_strlit("::cmp::PartialOrd::");
    assert("::cmp::PartialOrd::"@[5] == ':');
    lemma_absent(root, tail, x, "::cmp::PartialOrd::", 0);
    reveal_strlit("::cmp::PartialEq::");
    assert("::cmp::PartialEq::"@[5] == ':');
    lemma_absent(root, tail, x, "::cmp::PartialEq::", 0);
    reveal_strlit("::cmp::Ordering::");
    assert("::cmp::Ordering::"@[5] == ':');
    lemma_absent(root, tail, x, "::cmp::Ordering::", 0);
}

/// Sums, products and strides over an iterator panic on some input, and none of its methods is
/// trusted.
pub proof fn law_iterator_methods(root: Seq<char>, x: Seq<char>)
    requires
        is_root(root),
        no_colon(x),
    ensures
        ({
            let p = item(root, "::iter::Iterator::"@, x);
            &&& panicking_call(p) <==> x == "sum"@ || x == "product"@ || x == "step_by"@
            &&& !trusted_total_library_call(p)
        }),
{
    lemma_root(root);
    reveal_strlit("::iter::Iterator::");
    let tail = "::iter::Iterator::"@;
    let lead = root + tail;
    let p = item(root, tail, x);
    let r = root.len() as int;
    let n = lead.len() as int;
    assert forall|j: int| 0 <= j < tail.len() - 1 && #[trigger] tail[j] == ':' && tail[j + 1]
        == ':' implies j == 0 || j == 6 || j == 16 by {
    }
    reveal_strlit("::cmp::Ord::clamp");
    lemma_elsewhere(root, tail, x, "::cmp::Ord::clamp", 10);
    reveal_strlit("iter::Iterator::sum");
    lemma_last(root, tail, x, "iter::Iterator::sum", 14);
    reveal_strlit("sum");
    assert("iter::Iterator::sum"@.skip(16) =~= "sum"@);
    assert(lead.subrange(n - 16, n) =~= "iter::Iterator::sum"@.take(16));
    reveal_strlit("iter::Iterator::product");
    lemma_last(root, tail, x, "iter::Iterator::product", 14);
    reveal_strlit("product");
    assert("iter::Iterator::product"@.skip(16) =~= "product"@);
    assert(lead.subrange(n - 16, n) =~= "iter::Iterator::product"@.take(16));
    reveal_strlit("iter::Iterator::step_by");
    lemma_last(root, tail, x, "iter::Iterator::step_by", 14);
    reveal_strlit("step_by");
    assert("iter::Iterator::step_by"@.skip(16) =~= "step_by"@);
    assert(lead.subrange(n - 16, n) =~= "iter::Iterator::step_by"@.take(16));
    reveal_strlit("char::from_digit");
    lemma_last(root, tail, x, "char::from_digit", 4);
    if n >= 6 {
        let s = lead.subrange(n - 6, n);
        assert(s[2] == tail[tail.len() - 4]);
        assert("char::from_digit"@.take(6)[2] == "char::from_digit"@[2]);
    }
    reveal_strlit("ops::Index::index");
    lemma_elsewhere(root, tail, x, "ops::Index::index", 10);
    reveal_strlit("ops::IndexMut::index_mut");
    lemma_elsewhere(root, tail, x, "ops::IndexMut::index_mut", 13);
    reveal_strlit("::cmp::Ord::min");
    lemma_elsewhere(root, tail, x, "::cmp::Ord::min", 10);
    reveal_strlit("::cmp::Ord::max");
    lemma_elsewhere(root, tail, x, "::cmp::Ord::max", 10);
    reveal_strlit("::cmp::Ord::cmp");
    lemma_elsewhere(root, tail, x, "::cmp::Ord::cmp", 10);
    reveal_strlit("::cmp::min");
    lemma_elsewhere(root, tail, x, "::cmp::min", 5);
    reveal_strlit("::cmp::max");
    lemma_elsewhere(root, tail, x, "::cmp::max", 5);
    reveal_strlit("::convert::From::from");
    lemma_elsewhere(root, tail, x, "::convert::From::from", 15);
    reveal_strlit("::convert::Into::into");
    lemma_elsewhere(root, tail, x, "::convert::Into::into", 15);
    reveal_strlit("::convert::TryFrom::try_from");
    lemma_elsewhere(root, tail, x, "::convert::TryFrom::try_from", 18);
    reveal_strlit("::convert::TryInto::try_into");
    lemma_elsewhere(root, tail, x, "::convert::TryInto::try_into", 18);
    reveal_strlit("::convert::identity");
    lemma_elsewhere(root, tail, x, "::convert::identity", 9);
    reveal_strlit("char::from_u32");
    lemma_last(root, tail, x, "char::from_u32", 4);
    if n >= 6 {
        let s = lead.subrange(n - 6, n);
        assert(s[2] == tail[tail.len() - 4]);
        assert("char::from_u32"@.take(6)[2] == "char::from_u32"@[2]);
    }
    reveal_strlit("option::Option");
    lemma_absent(root, tail, x, "option::Option", 6);
    reveal_strlit("result::Result");
    lemma_absent(root, tail, x, "result::Result", 6);
    reveal_strlit("num::<impl");
    lemma_absent(root, tail, x, "num::<impl", 3);
    reveal_strlit("char::methods::<impl char>");
    assert("char::methods::<impl char>"@[13] == ':');
    lemma_absent(root, tail, x, "char::methods::<impl char>", 4);
    reveal_strlit("::slice::<impl");
    assert("::slice::<impl"@[7] == ':');
    lemma_absent(root, tail, x, "::slice::<impl", 0);
    reveal_strlit("::str::<impl");
    assert("::str::<impl"@[5] == ':');
    lemma_absent(root, tail, x, "::str::<impl", 0);
    reveal_strlit("::slice::<impl [T]>");
    assert("::slice::<impl [T]>"@[7] == ':');
    lemma_absent(root, tail, x, "::slice::<impl [T]>", 0);
    reveal_strlit("::str::<impl str>");
    assert("::str::<impl str>"@[5] == ':');
    lemma_absent(root, tail, x, "::str::<impl str>", 0);
    reveal_strlit("::cmp::PartialOrd::");
    assert("::cmp::PartialOrd::"@[5] == ':');
    lemma_absent(root, tail, x, "::cmp::PartialOrd::", 0);
    reveal_strlit("::cmp::PartialEq::");
    assert("::cmp::PartialEq::"@[5] == ':');
    lemma_absent(root, tail, x, "::cmp::PartialEq::", 0);
    reveal_strlit("::cmp::Ordering::");
    assert("::cmp::Ordering::"@[5] == ':');
    lemma_absent(root, tail, x, "::cmp::Ordering::", 0);
}

/// Indexing through the trait panics out of bounds.
pub proof fn law_indexing(root: Seq<char>, x: Seq<char>)
    requires
        is_root(root),
        no_colon(x),
    ensures
        ({
            let p = item(root, "::ops::Index::"@, x);
            &&& panicking_call(p) <==> x == "index"@
            &&& !trusted_total_library_call(p)
        }),
{
    lemma_root(root);
    reveal_strlit("::ops::Index::");
    let tail = "::ops::Index::"@;
    let lead = root + tail;
    let p = item(root, tail, x);
    let r = root.len() as int;
    let n = lead.len() as int;
    assert forall|j: int| 0 <= j < tail.len() - 1 && #[trigger] tail[j] == ':' && tail[j + 1]
        == ':' implies j == 0 || j == 5 || j == 12 by {
    }
    reveal_strlit("::cmp::Ord::clamp");
    lemma_elsewhere(root, tail, x, "::cmp::Ord::clamp", 10);
    reveal_strlit("iter::Iterator::sum");
    lemma_elsewhere(root, tail, x, "iter::Iterator::sum", 14);
    reveal_strlit("iter::Iterator::product");
    lemma_elsewhere(root, tail, x, "iter::Iterator::product", 14);
    reveal_strlit("iter::Iterator::step_by");
    lemma_elsewhere(root, tail, x, "iter::Iterator::step_by", 14);
    reveal_strlit("char::from_digit");
    lemma_elsewhere(root, tail, x, "char::from_digit", 4);
    reveal_strlit("ops::Index::index");
    lemma_last(root, tail, x, "ops::Index::index", 10);
    reveal_strlit("index");
    assert("ops::Index::index"@.skip(12) =~= "index"@);
    assert(lead.subrange(n - 12, n) =~= "ops::Index::index"@.take(12));
    reveal_strlit("ops::IndexMut::index_mut");
    lemma_elsewhere(root, tail, x, "ops::IndexMut::index_mut", 13);
    reveal_strlit("::cmp::Ord::min");
    lemma_elsewhere(root, tail, x, "::cmp::Ord::min", 10);
    reveal_strlit("::cmp::Ord::max");
    lemma_elsewhere(root, tail, x, "::cmp::Ord::max", 10);
    reveal_strlit("::cmp::Ord::cmp");
    lemma_elsewhere(root, tail, x, "::cmp::Ord::cmp", 10);
    reveal_strlit("::cmp::min");
    lemma_elsewhere(root, tail, x, "::cmp::min", 5);
    reveal_strlit("::cmp::max");
    lemma_elsewhere(root, tail, x, "::cmp::max", 5);
    reveal_strlit("::convert::From::from");
    lemma_elsewhere(root, tail, x, "::convert::From::from", 15);
    reveal_strlit("::convert::Into::into");
    lemma_elsewhere(root, tail, x, "::convert::Into::into", 15);
    reveal_strlit("::convert::TryFrom::try_from");
    lemma_elsewhere(root, tail, x, "::convert::TryFrom::try_from", 18);
    reveal_strlit("::convert::TryInto::try_into");
    lemma_elsewhere(root, tail, x, "::convert::TryInto::try_into", 18);
    reveal_strlit("::convert::identity");
    lemma_elsewhere(root, tail, x, "::convert::identity", 9);
    reveal_strlit("char::from_u32");
    lemma_elsewhere(root, tail, x, "char::from_u32", 4);
    reveal_strlit("option::Option");
    lemma_absent(root, tail, x, "option::Option", 6);
    reveal_strlit("result::Result");
    lemma_absent(root, tail, x, "result::Result", 6);
    reveal_strlit("num::<impl");
    lemma_absent(root, tail, x, "num::<impl", 3);
    reveal_strlit("char::methods::<impl char>");
    assert("char::methods::<impl char>"@[13] == ':');
    lemma_absent(root, tail, x, "char::methods::<impl char>", 4);
    reveal_strlit("::slice::<impl");
    assert("::slice::<impl"@[7] == ':');
    lemma_absent(root, tail, x, "::slice::<impl", 0);
    reveal_strlit("::str::<impl");
    assert("::str::<impl"@[5] == ':');
    lemma_absent(root, tail, x, "::str::<impl", 0);
    reveal_strlit("::slice::<impl [T]>");
    assert("::slice::<impl [T]>"@[7] == ':');
    lemma_absent(root, tail, x, "::slice::<impl [T]>", 0);
    reveal_strlit("::str::<impl str>");
    assert("::str::<impl str>"@[5] == ':');
    lemma_absent(root, tail, x, "::str::<impl str>", 0);
    reveal_strlit("::cmp::PartialOrd::");
    assert("::cmp::PartialOrd::"@[5] == ':');
    lemma_absent(root, tail, x, "::cmp::PartialOrd::", 0);
    reveal_strlit("::cmp::PartialEq::");
    assert("::cmp::PartialEq::"@[5] == ':');
    lemma_absent(root, tail, x, "::cmp::PartialEq::", 0);
    reveal_strlit("::cmp::Ordering::");
    assert("::cmp::Ordering::"@[5] == ':');
    lemma_absent(root, tail, x, "::cmp::Ordering::", 0);
}

/// Mutable indexing through the trait panics out of bounds.
pub proof fn law_mutable_indexing(root: Seq<char>, x: Seq<char>)
    requires
        is_root(root),
        no_colon(x),
    ensures
        ({
            let p = item(root, "::ops::IndexMut::"@, x);
            &&& panicking_call(p) <==> x == "index_mut"@
            &&& !trusted_total_library_call(p)
        }),
{
    lemma_root(root);
    reveal_strlit("::ops::IndexMut::");
    let tail = "::ops::IndexMut::"@;
    let lead = root + tail;
    let p = item(root, tail, x);
    let r = root.len() as int;
    let n = lead.len() as int;
    assert forall|j: int| 0 <= j < tail.len() - 1 && #[trigger] tail[j] == ':' && tail[j + 1]
        == ':' implies j == 0 || j == 5 || j == 15 by {
    }
    reveal_strlit("::cmp::Ord::clamp");
    lemma_elsewhere(root, tail, x, "::cmp::Ord::clamp", 10);
    reveal_strlit("iter::Iterator::sum");
    lemma_elsewhere(root, tail, x, "iter::Iterator::sum", 14);
    reveal_strlit("iter::Iterator::product");
    lemma_elsewhere(root, tail, x, "iter::Iterator::product", 14);
    reveal_strlit("iter::Iterator::step_by");
    lemma_elsewhere(root, tail, x, "iter::Iterator::step_by", 14);
    reveal_strlit("char::from_digit");
    lemma_elsewhere(root, tail, x, "char::from_digit", 4);
    reveal_strlit("ops::Index::index");
    lemma_elsewhere(root, tail, x, "ops::Index::index", 10);
    reveal_strlit("ops::IndexMut::index_mut");
    lemma_last(root, tail, x, "ops::IndexMut::index_mut", 13);
    reveal_strlit("index_mut");
    assert("ops::IndexMut::index_mut"@.skip(15) =~= "index_mut"@);
    assert(lead.subrange(n - 15, n) =~= "ops::IndexMut::index_mut"@.take(15));
    reveal_strlit("::cmp::Ord::min");
    lemma_elsewhere(root, tail, x, "::cmp::Ord::min", 10);
    reveal_strlit("::cmp::Ord::max");
    lemma_elsewhere(root, tail, x, "::cmp::Ord::max", 10);
    reveal_strlit("::cmp::Ord::cmp");
    lemma_elsewhere(root, tail, x, "::cmp::Ord::cmp", 10);
    reveal_strlit("::cmp::min");
    lemma_elsewhere(root, tail, x, "::cmp::min", 5);
    reveal_strlit("::cmp::max");
    lemma_elsewhere(root, tail, x, "::cmp::max", 5);
    reveal_strlit("::convert::From::from");
    lemma_elsewhere(root, tail, x, "::convert::From::from", 15);
    reveal_strlit("::convert::Into::into");
    lemma_elsewhere(root, tail, x, "::convert::Into::into", 15);
    reveal_strlit("::convert::TryFrom::try_from");
    lemma_elsewhere(root, tail, x, "::convert::TryFrom::try_from", 18);
    reveal_strlit("::convert::TryInto::try_into");
    lemma_elsewhere(root, tail, x, "::convert::TryInto::try_into", 18);
    reveal_strlit("::convert::identity");
    lemma_last(root, tail, x, "::convert::identity", 9);
    if n >= 11 {
        let s = lead.subrange(n - 11, n);
        assert(s[7] == tail[tail.len() - 4]);
        assert("::convert::identity"@.take(11)[7] == "::convert::identity"@[7]);
    }
    reveal_strlit("char::from_u32");
    lemma_elsewhere(root, tail, x, "char::from_u32", 4);
    reveal_strlit("option::Option");
    lemma_absent(root, tail, x, "option::Option", 6);
    reveal_strlit("result::Result");
    lemma_absent(root, tail, x, "result::Result", 6);
    reveal_strlit("num::<impl");
    lemma_absent(root, tail, x, "num::<impl", 3);
    reveal_strlit("char::methods::<impl char>");
    assert("char::methods::<impl char>"@[13] == ':');
    lemma_absent(root, tail, x, "char::methods::<impl char>", 4);
    reveal_strlit("::slice::<impl");
    assert("::slice::<impl"@[7] == ':');
    lemma_absent(root, tail, x, "::slice::<impl", 0);
    reveal_strlit("::str::<impl");
    assert("::str::<impl"@[5] == ':');
    lemma_absent(root, tail, x, "::str::<impl", 0);
    reveal_strlit("::slice::<impl [T]>");
    assert("::slice::<impl [T]>"@[7] == ':');
    lemma_absent(root, tail, x, "::slice::<impl [T]>", 0);
    reveal_strlit("::str::<impl str>");
    assert("::str::<impl str>"@[5] == ':');
    lemma_absent(root, tail, x, "::str::<impl str>", 0);
    reveal_strlit("::cmp::PartialOrd::");
    assert("::cmp::PartialOrd::"@[5] == ':');
    lemma_absent(root, tail, x, "::cmp::PartialOrd::", 0);
    reveal_strlit("::cmp::PartialEq::");
    assert("::cmp::PartialEq::"@[5] == ':');
    lemma_absent(root, tail, x, "::cmp::PartialEq::", 0);
    reveal_strlit("::cmp::Ordering::");
    assert("::cmp::Ordering::"@[5] == ':');
    lemma_absent(root, tail, x, "::cmp::Ordering::", 0);
}

// ---------------------------------------------------------------------------
// Integers.
// ---------------------------------------------------------------------------

/// The methods of integers that panic and belong to no family.
pub open spec fn int_method_panics_alone(x: Seq<char>) -> bool {
    x == "pow"@ || x == "abs"@ || x == "div_euclid"@ || x == "rem_euclid"@ || x == "div_ceil"@
        || x == "div_floor"@ || x == "next_power_of_two"@ || x == "next_multiple_of"@
        || x == "ilog"@ || x == "ilog2"@ || x == "ilog10"@ || x == "from_str_radix"@
}

/// The methods of integers that are total and belong to no family.
pub open spec fn int_method_is_total_alone(x: Seq<char>) -> bool {
    x == "midpoint"@ || x == "abs_diff"@ || x == "unsigned_abs"@ || x == "signum"@
        || x == "is_positive"@ || x == "is_negative"@ || x == "is_power_of_two"@
        || x == "count_ones"@ || x == "count_zeros"@ || x == "leading_zeros"@
        || x == "trailing_zeros"@ || x == "leading_ones"@ || x == "trailing_ones"@
        || x == "rotate_left"@ || x == "rotate_right"@ || x == "swap_bytes"@
        || x == "reverse_bits"@
}

/// Whether a name belongs to one of the families that wrap, saturate or tell of an overflow, for an
/// operation that divides: these panic on a zero divisor all the same.
pub open spec fn divides_in_family(x: Seq<char>) -> bool {
    ("wrapping_"@.is_prefix_of(x) || "overflowing_"@.is_prefix_of(x) || "saturating_"@.is_prefix_of(
        x,
    )) && (ends(x, "_div") || ends(x, "_rem") || ends(x, "_div_euclid") || ends(x, "_rem_euclid"))
}

/// Whether a method of the integer type `ty` panics on some input, by its name.
pub open spec fn int_method_panics(ty: Seq<char>, x: Seq<char>) -> bool {
    if x == "isqrt"@ {
        is_signed_name(ty)
    } else {
        int_method_panics_alone(x) || "strict_"@.is_prefix_of(x) || divides_in_family(x)
    }
}

/// Whether a method of the integer type `ty` is of a total family or a total one that stands alone.
pub open spec fn int_method_is_total(ty: Seq<char>, x: Seq<char>) -> bool {
    int_method_is_total_alone(x) || "wrapping_"@.is_prefix_of(x) || "checked_"@.is_prefix_of(x)
        || "saturating_"@.is_prefix_of(x) || "overflowing_"@.is_prefix_of(x)
        || "unbounded_"@.is_prefix_of(x) || "from_"@.is_prefix_of(x) || "to_"@.is_prefix_of(x) || (x
        == "isqrt"@ && is_unsigned_name(ty))
}

/// A path ends in a text without a seam just if its last name does.
proof fn lemma_tail_of_name(root: Seq<char>, tail: Seq<char>, x: Seq<char>, w: &str)
    requires
        is_tail(tail),
        no_colon(x),
        no_colon(w@),
    ensures
        ends(item(root, tail, x), w) <==> ends(x, w),
{
    let p = item(root, tail, x);
    let n = w@.len() as int;
    if n <= x.len() {
        assert(p.subrange(p.len() - n, p.len() as int) =~= x.subrange(
            x.len() - n,
            x.len() as int,
        ));
    } else if ends(p, w) {
        let s = p.subrange(p.len() - n, p.len() as int);
        let c = n - x.len() - 1;
        assert(s[c] == p[p.len() - x.len() - 1]);
        assert(w@[c] == ':');
    }
}

/// The text of an impl and the first character of a type stand in the path of its method just if
/// the type starts with that character.
proof fn lemma_sign_of_impl(root: Seq<char>, t: Seq<char>, x: Seq<char>, w: &str)
    requires
        is_root(root),
        is_int_name(t),
        no_colon(x),
        w@.len() == 12,
        w@.take(11) == "num::<impl "@,
    ensures
        holds(item(root, "::num::<impl "@ + t + ">::"@, x), w) <==> t[0] == w@[11],
{
    lemma_root(root);
    lemma_int_name(t);
    reveal_strlit("::num::<impl ");
    reveal_strlit("num::<impl ");
    reveal_strlit(">::");
    let tail = "::num::<impl "@ + t + ">::"@;
    let p = item(root, tail, x);
    let r = root.len() as int;
    assert(forall|c: int| 0 <= c < 11 ==> #[trigger] w@[c] == w@.take(11)[c]);
    assert(p[r + 13] == t[0]) by {
        assert(tail[13] == t[0]);
    }
    if holds(p, w) {
        let i = choose|i: int| occurs_at(p, w@, i);
        let s = p.subrange(i, i + 12);
        assert(s == w@);
        assert(s[2] == p[i + 2] && s[3] == p[i + 3] && s[4] == p[i + 4] && s[11] == p[i + 11]);
        let j = i + 3 - r;
        assert(j >= 0) by {
            if j < 0 {
                assert(p[i + 3] == root[i + 3]);
            }
        }
        assert(j + 1 < tail.len()) by {
            if j + 1 >= tail.len() {
                assert(p[i + 4] == x[j + 1 - tail.len()]);
            }
        }
        assert(tail[j] == ':' && tail[j + 1] == ':');
        assert(j == 0 || j == 5 || j == tail.len() - 2) by {
            if 13 <= j < 13 + t.len() {
                assert(tail[j] == t[j - 13]);
            }
        }
        assert(j == 5);
    }
    if t[0] == w@[11] {
        assert(p.subrange(r + 2, r + 14) =~= w@);
        assert(occurs_at(p, w@, r + 2));
    }
}

/// The names of integer methods, at the end of a path.
proof fn lemma_int_names(root: Seq<char>, tail: Seq<char>, x: Seq<char>)
    requires
        is_tail(tail),
        no_colon(x),
    ensures
        ends(root + tail + x, "::pow") <==> x == "pow"@,
        ends(root + tail + x, "::abs") <==> x == "abs"@,
        ends(root + tail + x, "::div_euclid") <==> x == "div_euclid"@,
        ends(root + tail + x, "::rem_euclid") <==> x == "rem_euclid"@,
        ends(root + tail + x, "::div_ceil") <==> x == "div_ceil"@,
        ends(root + tail + x, "::div_floor") <==> x == "div_floor"@,
        ends(root + tail + x, "::next_power_of_two") <==> x == "next_power_of_two"@,
        ends(root + tail + x, "::next_multiple_of") <==> x == "next_multiple_of"@,
        ends(root + tail + x, "::ilog") <==> x == "ilog"@,
        ends(root + tail + x, "::ilog2") <==> x == "ilog2"@,
        ends(root + tail + x, "::ilog10") <==> x == "ilog10"@,
        ends(root + tail + x, "::from_str_radix") <==> x == "from_str_radix"@,
        ends(root + tail + x, "::midpoint") <==> x == "midpoint"@,
        ends(root + tail + x, "::abs_diff") <==> x == "abs_diff"@,
        ends(root + tail + x, "::unsigned_abs") <==> x == "unsigned_abs"@,
        ends(root + tail + x, "::signum") <==> x == "signum"@,
        ends(root + tail + x, "::is_positive") <==> x == "is_positive"@,
        ends(root + tail + x, "::is_negative") <==> x == "is_negative"@,
        ends(root + tail + x, "::is_power_of_two") <==> x == "is_power_of_two"@,
        ends(root + tail + x, "::count_ones") <==> x == "count_ones"@,
        ends(root + tail + x, "::count_zeros") <==> x == "count_zeros"@,
        ends(root + tail + x, "::leading_zeros") <==> x == "leading_zeros"@,
        ends(root + tail + x, "::trailing_zeros") <==> x == "trailing_zeros"@,
        ends(root + tail + x, "::leading_ones") <==> x == "leading_ones"@,
        ends(root + tail + x, "::trailing_ones") <==> x == "trailing_ones"@,
        ends(root + tail + x, "::rotate_left") <==> x == "rotate_left"@,
        ends(root + tail + x, "::rotate_right") <==> x == "rotate_right"@,
        ends(root + tail + x, "::swap_bytes") <==> x == "swap_bytes"@,
        ends(root + tail + x, "::reverse_bits") <==> x == "reverse_bits"@,
        ends(root + tail + x, "::isqrt") <==> x == "isqrt"@,
{
    reveal_strlit("::");
    reveal_strlit("pow");
    reveal_strlit("::pow");
    assert("::pow"@ =~= "::"@ + "pow"@);
    lemma_named(root, tail, x, "::pow", "pow");
    reveal_strlit("abs");
    reveal_strlit("::abs");
    assert("::abs"@ =~= "::"@ + "abs"@);
    lemma_named(root, tail, x, "::abs", "abs");
    reveal_strlit("div_euclid");
    reveal_strlit("::div_euclid");
    assert("::div_euclid"@ =~= "::"@ + "div_euclid"@);
    lemma_named(root, tail, x, "::div_euclid", "div_euclid");
    reveal_strlit("rem_euclid");
    reveal_strlit("::rem_euclid");
    assert("::rem_euclid"@ =~= "::"@ + "rem_euclid"@);
    lemma_named(root, tail, x, "::rem_euclid", "rem_euclid");
    reveal_strlit("div_ceil");
    reveal_strlit("::div_ceil");
    assert("::div_ceil"@ =~= "::"@ + "div_ceil"@);
    lemma_named(root, tail, x, "::div_ceil", "div_ceil");
    reveal_strlit("div_floor");
    reveal_strlit("::div_floor");
    assert("::div_floor"@ =~= "::"@ + "div_floor"@);
    lemma_named(root, tail, x, "::div_floor", "div_floor");
    reveal_strlit("next_power_of_two");
    reveal_strlit("::next_power_of_two");
    assert("::next_power_of_two"@ =~= "::"@ + "next_power_of_two"@);
    lemma_named(root, tail, x, "::next_power_of_two", "next_power_of_two");
    reveal_strlit("next_multiple_of");
    reveal_strlit("::next_multiple_of");
    assert("::next_multiple_of"@ =~= "::"@ + "next_multiple_of"@);
    lemma_named(root, tail, x, "::next_multiple_of", "next_multiple_of");
    reveal_strlit("ilog");
    reveal_strlit("::ilog");
    assert("::ilog"@ =~= "::"@ + "ilog"@);
    lemma_named(root, tail, x, "::ilog", "ilog");
    reveal_strlit("ilog2");
    reveal_strlit("::ilog2");
    assert("::ilog2"@ =~= "::"@ + "ilog2"@);
    lemma_named(root, tail, x, "::ilog2", "ilog2");
    reveal_strlit("ilog10");
    reveal_strlit("::ilog10");
    assert("::ilog10"@ =~= "::"@ + "ilog10"@);
    lemma_named(root, tail, x, "::ilog10", "ilog10");
    reveal_strlit("from_str_radix");
    reveal_strlit("::from_str_radix");
    assert("::from_str_radix"@ =~= "::"@ + "from_str_radix"@);
    lemma_named(root, tail, x, "::from_str_radix", "from_str_radix");
    reveal_strlit("midpoint");
    reveal_strlit("::midpoint");
    assert("::midpoint"@ =~= "::"@ + "midpoint"@);
    lemma_named(root, tail, x, "::midpoint", "midpoint");
    reveal_strlit("abs_diff");
    reveal_strlit("::abs_diff");
    assert("::abs_diff"@ =~= "::"@ + "abs_diff"@);
    lemma_named(root, tail, x, "::abs_diff", "abs_diff");
    reveal_strlit("unsigned_abs");
    reveal_strlit("::unsigned_abs");
    assert("::unsigned_abs"@ =~= "::"@ + "unsigned_abs"@);
    lemma_named(root, tail, x, "::unsigned_abs", "unsigned_abs");
    reveal_strlit("signum");
    reveal_strlit("::signum");
    assert("::signum"@ =~= "::"@ + "signum"@);
    lemma_named(root, tail, x, "::signum", "signum");
    reveal_strlit("is_positive");
    reveal_strlit("::is_positive");
    assert("::is_positive"@ =~= "::"@ + "is_positive"@);
    lemma_named(root, tail, x, "::is_positive", "is_positive");
    reveal_strlit("is_negative");
    reveal_strlit("::is_negative");
    assert("::is_negative"@ =~= "::"@ + "is_negative"@);
    lemma_named(root, tail, x, "::is_negative", "is_negative");
    reveal_strlit("is_power_of_two");
    reveal_strlit("::is_power_of_two");
    assert("::is_power_of_two"@ =~= "::"@ + "is_power_of_two"@);
    lemma_named(root, tail, x, "::is_power_of_two", "is_power_of_two");
    reveal_strlit("count_ones");
    reveal_strlit("::count_ones");
    assert("::count_ones"@ =~= "::"@ + "count_ones"@);
    lemma_named(root, tail, x, "::count_ones", "count_ones");
    reveal_strlit("count_zeros");
    reveal_strlit("::count_zeros");
    assert("::count_zeros"@ =~= "::"@ + "count_zeros"@);
    lemma_named(root, tail, x, "::count_zeros", "count_zeros");
    reveal_strlit("leading_zeros");
    reveal_strlit("::leading_zeros");
    assert("::leading_zeros"@ =~= "::"@ + "leading_zeros"@);
    lemma_named(root, tail, x, "::leading_zeros", "leading_zeros");
    reveal_strlit("trailing_zeros");
    reveal_strlit("::trailing_zeros");
    assert("::trailing_zeros"@ =~= "::"@ + "trailing_zeros"@);
    lemma_named(root, tail, x, "::trailing_zeros", "trailing_zeros");
    reveal_strlit("leading_ones");
    reveal_strlit("::leading_ones");
    assert("::leading_ones"@ =~= "::"@ + "leading_ones"@);
    lemma_named(root, tail, x, "::leading_ones", "leading_ones");
    reveal_strlit("trailing_ones");
    reveal_strlit("::trailing_ones");
    assert("::trailing_ones"@ =~= "::"@ + "trailing_ones"@);
    lemma_named(root, tail, x, "::trailing_ones", "trailing_ones");
    reveal_strlit("rotate_left");
    reveal_strlit("::rotate_left");
    assert("::rotate_left"@ =~= "::"@ + "rotate_left"@);
    lemma_named(root, tail, x, "::rotate_left", "rotate_left");
    reveal_strlit("rotate_right");
    reveal_strlit("::rotate_right");
    assert("::rotate_right"@ =~= "::"@ + "rotate_right"@);
    lemma_named(root, tail, x, "::rotate_right", "rotate_right");
    reveal_strlit("swap_bytes");
    reveal_strlit("::swap_bytes");
    assert("::swap_bytes"@ =~= "::"@ + "swap_bytes"@);
    lemma_named(root, tail, x, "::swap_bytes", "swap_bytes");
    reveal_strlit("reverse_bits");
    reveal_strlit("::reverse_bits");
    assert("::reverse_bits"@ =~= "::"@ + "reverse_bits"@);
    lemma_named(root, tail, x, "::reverse_bits", "reverse_bits");
    reveal_strlit("isqrt");
    reveal_strlit("::isqrt");
    assert("::isqrt"@ =~= "::"@ + "isqrt"@);
    lemma_named(root, tail, x, "::isqrt", "isqrt");
}

/// A method of a primitive integer panics on some input just if its name says so, and it is trusted
/// just if its name is a total one and does not.
pub proof fn law_methods_of_integers(root: Seq<char>, t: Seq<char>, x: Seq<char>)
    requires
        is_root(root),
        is_int_name(t),
        no_colon(x),
    ensures
        ({
            let p = item(root, "::num::<impl "@ + t + ">::"@, x);
            &&& panicking_call(p) <==> int_method_panics(t, x)
            &&& trusted_total_library_call(p)
                <==> int_method_is_total(t, x) && !int_method_panics(t, x)
        }),
{
    lemma_root(root);
    lemma_int_name(t);
    reveal_strlit("::num::<impl ");
    reveal_strlit(">::");
    let tail = "::num::<impl "@ + t + ">::"@;
    let lead = root + tail;
    let p = item(root, tail, x);
    let r = root.len() as int;
    let n = lead.len() as int;
    assert forall|j: int| 0 <= j < tail.len() - 1 && #[trigger] tail[j] == ':' && tail[j + 1]
        == ':' implies j == 0 || j == 5 || j == tail.len() - 2 by {
        if 13 <= j < 13 + t.len() {
            assert(tail[j] == t[j - 13]);
        }
        if 13 <= j + 1 < 13 + t.len() {
            assert(tail[j + 1] == t[j + 1 - 13]);
        }
    }
    reveal_strlit("::cmp::Ord::clamp");
    lemma_elsewhere(root, tail, x, "::cmp::Ord::clamp", 10);
    reveal_strlit("iter::Iterator::sum");
    lemma_elsewhere(root, tail, x, "iter::Iterator::sum", 14);
    reveal_strlit("iter::Iterator::product");
    lemma_elsewhere(root, tail, x, "iter::Iterator::product", 14);
    reveal_strlit("iter::Iterator::step_by");
    lemma_elsewhere(root, tail, x, "iter::Iterator::step_by", 14);
    reveal_strlit("char::from_digit");
    lemma_elsewhere(root, tail, x, "char::from_digit", 4);
    reveal_strlit("ops::Index::index");
    lemma_elsewhere(root, tail, x, "ops::Index::index", 10);
    reveal_strlit("ops::IndexMut::index_mut");
    lemma_elsewhere(root, tail, x, "ops::IndexMut::index_mut", 13);
    reveal_strlit("option::Option");
    lemma_absent(root, tail, x, "option::Option", 6);
    reveal_strlit("result::Result");
    lemma_absent(root, tail, x, "result::Result", 6);
    reveal_strlit("num::<impl");
    assert(p.subrange(r + 2, r + 12) =~= "num::<impl"@);
    assert(occurs_at(p, "num::<impl"@, r + 2));
    reveal_strlit("char::methods::<impl char>");
    assert("char::methods::<impl char>"@[13] == ':');
    lemma_absent(root, tail, x, "char::methods::<impl char>", 4);
    reveal_strlit("::slice::<impl");
    assert("::slice::<impl"@[7] == ':');
    lemma_absent(root, tail, x, "::slice::<impl", 0);
    reveal_strlit("::str::<impl");
    assert("::str::<impl"@[5] == ':');
    lemma_absent(root, tail, x, "::str::<impl", 0);
    lemma_int_names(root, tail, x);
    reveal_strlit("::");
    reveal_strlit("wrapping_");
    reveal_strlit("::wrapping_");
    assert("::wrapping_"@ =~= "::"@ + "wrapping_"@);
    lemma_starts(root, tail, x, "::wrapping_", "wrapping_");
    reveal_strlit("checked_");
    reveal_strlit("::checked_");
    assert("::checked_"@ =~= "::"@ + "checked_"@);
    lemma_starts(root, tail, x, "::checked_", "checked_");
    reveal_strlit("saturating_");
    reveal_strlit("::saturating_");
    assert("::saturating_"@ =~= "::"@ + "saturating_"@);
    lemma_starts(root, tail, x, "::saturating_", "saturating_");
    reveal_strlit("overflowing_");
    reveal_strlit("::overflowing_");
    assert("::overflowing_"@ =~= "::"@ + "overflowing_"@);
    lemma_starts(root, tail, x, "::overflowing_", "overflowing_");
    reveal_strlit("unbounded_");
    reveal_strlit("::unbounded_");
    assert("::unbounded_"@ =~= "::"@ + "unbounded_"@);
    lemma_starts(root, tail, x, "::unbounded_", "unbounded_");
    reveal_strlit("from_");
    reveal_strlit("::from_");
    assert("::from_"@ =~= "::"@ + "from_"@);
    lemma_starts(root, tail, x, "::from_", "from_");
    reveal_strlit("to_");
    reveal_strlit("::to_");
    assert("::to_"@ =~= "::"@ + "to_"@);
    lemma_starts(root, tail, x, "::to_", "to_");
    reveal_strlit("strict_");
    reveal_strlit("::strict_");
    assert("::strict_"@ =~= "::"@ + "strict_"@);
    lemma_starts(root, tail, x, "::strict_", "strict_");
    reveal_strlit("_div");
    lemma_tail_of_name(root, tail, x, "_div");
    reveal_strlit("_rem");
    lemma_tail_of_name(root, tail, x, "_rem");
    reveal_strlit("_div_euclid");
    lemma_tail_of_name(root, tail, x, "_div_euclid");
    reveal_strlit("_rem_euclid");
    lemma_tail_of_name(root, tail, x, "_rem_euclid");
    reveal_strlit("num::<impl ");
    reveal_strlit("num::<impl i");
    assert("num::<impl i"@.take(11) =~= "num::<impl "@);
    lemma_sign_of_impl(root, t, x, "num::<impl i");
    reveal_strlit("num::<impl u");
    assert("num::<impl u"@.take(11) =~= "num::<impl "@);
    lemma_sign_of_impl(root, t, x, "num::<impl u");
}

// ---------------------------------------------------------------------------
// Forms of one method.
// ---------------------------------------------------------------------------

/// The form of a slice method that gives mutable parts panics just if the form that gives shared
/// ones does.
pub proof fn law_mutable_forms_panic_alike(root: Seq<char>, x: Seq<char>)
    requires
        is_root(root),
        has_mutable_form(x),
    ensures
        panicking_call(item(root, "::slice::<impl [T]>::"@, x)),
        panicking_call(item(root, "::slice::<impl [T]>::"@, x + "_mut"@)),
        !trusted_total_library_call(item(root, "::slice::<impl [T]>::"@, x)),
        !trusted_total_library_call(item(root, "::slice::<impl [T]>::"@, x + "_mut"@)),
{
    reveal_strlit("_mut");
    reveal_strlit("split_at");
    reveal_strlit("split_at_mut");
    assert("split_at"@ + "_mut"@ =~= "split_at_mut"@);
    reveal_strlit("chunks");
    reveal_strlit("chunks_mut");
    assert("chunks"@ + "_mut"@ =~= "chunks_mut"@);
    reveal_strlit("chunks_exact");
    reveal_strlit("chunks_exact_mut");
    assert("chunks_exact"@ + "_mut"@ =~= "chunks_exact_mut"@);
    reveal_strlit("rchunks");
    reveal_strlit("rchunks_mut");
    assert("rchunks"@ + "_mut"@ =~= "rchunks_mut"@);
    reveal_strlit("rchunks_exact");
    reveal_strlit("rchunks_exact_mut");
    assert("rchunks_exact"@ + "_mut"@ =~= "rchunks_exact_mut"@);
    reveal_strlit("as_chunks");
    reveal_strlit("as_chunks_mut");
    assert("as_chunks"@ + "_mut"@ =~= "as_chunks_mut"@);
    reveal_strlit("as_rchunks");
    reveal_strlit("as_rchunks_mut");
    assert("as_rchunks"@ + "_mut"@ =~= "as_rchunks_mut"@);
    law_methods_of_slices(root, x);
    law_methods_of_slices(root, x + "_mut"@);
}

/// No mutable form panics whose shared form does not.
pub proof fn law_only_panicking_methods_have_panicking_mutable_forms(root: Seq<char>, x: Seq<char>)
    requires
        is_root(root),
        no_colon(x),
        panicking_call(item(root, "::slice::<impl [T]>::"@, x + "_mut"@)),
    ensures
        panicking_call(item(root, "::slice::<impl [T]>::"@, x)),
{
    reveal_strlit("_mut");
    let y = x + "_mut"@;
    assert forall|i: int| 0 <= i < y.len() implies #[trigger] y[i] != ':' by {
        if i < x.len() {
            assert(y[i] == x[i]);
        }
    }
    law_methods_of_slices(root, x);
    law_methods_of_slices(root, y);
    assert(y.take(y.len() - 4) =~= x);
    assert(y[y.len() - 4] == '_' && y[y.len() - 3] == 'm' && y[y.len() - 2] == 'u' && y[y.len() - 1]
        == 't');
    reveal_strlit("split_at");
    reveal_strlit("split_at_mut");
    reveal_strlit("chunks");
    reveal_strlit("chunks_mut");
    reveal_strlit("chunks_exact");
    reveal_strlit("chunks_exact_mut");
    reveal_strlit("rchunks");
    reveal_strlit("rchunks_mut");
    reveal_strlit("rchunks_exact");
    reveal_strlit("rchunks_exact_mut");
    reveal_strlit("windows");
    reveal_strlit("swap");
    reveal_strlit("swap_with_slice");
    reveal_strlit("rotate_left");
    reveal_strlit("rotate_right");
    reveal_strlit("copy_from_slice");
    reveal_strlit("clone_from_slice");
    reveal_strlit("copy_within");
    reveal_strlit("select_nth_unstable");
    reveal_strlit("select_nth_unstable_by");
    reveal_strlit("select_nth_unstable_by_key");
    reveal_strlit("sort");
    reveal_strlit("sort_unstable");
    reveal_strlit("as_chunks");
    reveal_strlit("as_chunks_mut");
    reveal_strlit("as_rchunks");
    reveal_strlit("as_rchunks_mut");
    assert("split_at_mut"@.take(8) =~= "split_at"@);
    assert("chunks_mut"@.take(6) =~= "chunks"@);
    assert("chunks_exact_mut"@.take(12) =~= "chunks_exact"@);
    assert("rchunks_mut"@.take(7) =~= "rchunks"@);
    assert("rchunks_exact_mut"@.take(13) =~= "rchunks_exact"@);
    assert("as_chunks_mut"@.take(9) =~= "as_chunks"@);
    assert("as_rchunks_mut"@.take(10) =~= "as_rchunks"@);
}

/// A slice or string method that panics does so wherever its impl stands: any path that has the
/// mark of such an impl in it and ends in a seam and the name is a panicking call, and not trusted.
pub proof fn law_slice_panics_are_seen_everywhere(
    before: Seq<char>,
    inside: Seq<char>,
    x: Seq<char>,
)
    requires
        slice_method_panics(x),
    ensures
        panicking_call(before + "::slice::<impl"@ + inside + "::"@ + x),
        panicking_call(before + "::str::<impl"@ + inside + "::"@ + x),
        !trusted_total_library_call(before + "::slice::<impl"@ + inside + "::"@ + x),
        !trusted_total_library_call(before + "::str::<impl"@ + inside + "::"@ + x),
{
    reveal_strlit("::");
    reveal_strlit("::slice::<impl");
    reveal_strlit("::str::<impl");
    let p = before + "::slice::<impl"@ + inside + "::"@ + x;
    let q = before + "::str::<impl"@ + inside + "::"@ + x;
    let b = before.len() as int;
    assert(p.subrange(b, b + 14) =~= "::slice::<impl"@);
    assert(occurs_at(p, "::slice::<impl"@, b));
    assert(q.subrange(b, b + 12) =~= "::str::<impl"@);
    assert(occurs_at(q, "::str::<impl"@, b));
    assert(p.subrange(p.len() - x.len() - 2, p.len() as int) =~= "::"@ + x);
    assert(q.subrange(q.len() - x.len() - 2, q.len() as int) =~= "::"@ + x);
    lemma_panics_at_the_end(p, x);
    lemma_panics_at_the_end(q, x);
}

/// A path of a slice or string impl that ends in a seam and a panicking name.
proof fn lemma_panics_at_the_end(p: Seq<char>, x: Seq<char>)
    requires
        slice_method_panics(x),
        holds(p, "::slice::<impl") || holds(p, "::str::<impl"),
        p.len() >= x.len() + 2,
        p.subrange(p.len() - x.len() - 2, p.len() as int) == "::"@ + x,
    ensures
        panicking_call(p),
{
    reveal_strlit("::");
    if x == "split_at"@ {
        reveal_strlit("split_at");
        reveal_strlit("::split_at");
        assert("::"@ + "split_at"@ =~= "::split_at"@);
        assert(ends(p, "::split_at"));
    } else if x == "split_at_mut"@ {
        reveal_strlit("split_at_mut");
        reveal_strlit("::split_at_mut");
        assert("::"@ + "split_at_mut"@ =~= "::split_at_mut"@);
        assert(ends(p, "::split_at_mut"));
    } else if x == "chunks"@ {
        reveal_strlit("chunks");
        reveal_strlit("::chunks");
        assert("::"@ + "chunks"@ =~= "::chunks"@);
        assert(ends(p, "::chunks"));
    } else if x == "chunks_mut"@ {
        reveal_strlit("chunks_mut");
        reveal_strlit("::chunks_mut");
        assert("::"@ + "chunks_mut"@ =~= "::chunks_mut"@);
        assert(ends(p, "::chunks_mut"));
    } else if x == "chunks_exact"@ {
        reveal_strlit("chunks_exact");
        reveal_strlit("::chunks_exact");
        assert("::"@ + "chunks_exact"@ =~= "::chunks_exact"@);
        assert(ends(p, "::chunks_exact"));
    } else if x == "chunks_exact_mut"@ {
        reveal_strlit("chunks_exact_mut");
        reveal_strlit("::chunks_exact_mut");
        assert("::"@ + "chunks_exact_mut"@ =~= "::chunks_exact_mut"@);
        assert(ends(p, "::chunks_exact_mut"));
    } else if x == "rchunks"@ {
        reveal_strlit("rchunks");
        reveal_strlit("::rchunks");
        assert("::"@ + "rchunks"@ =~= "::rchunks"@);
        assert(ends(p, "::rchunks"));
    } else if x == "rchunks_mut"@ {
        reveal_strlit("rchunks_mut");
        reveal_strlit("::rchunks_mut");
        assert("::"@ + "rchunks_mut"@ =~= "::rchunks_mut"@);
        assert(ends(p, "::rchunks_mut"));
    } else if x == "rchunks_exact"@ {
        reveal_strlit("rchunks_exact");
        reveal_strlit("::rchunks_exact");
        assert("::"@ + "rchunks_exact"@ =~= "::rchunks_exact"@);
        assert(ends(p, "::rchunks_exact"));
    } else if x == "rchunks_exact_mut"@ {
        reveal_strlit("rchunks_exact_mut");
        reveal_strlit("::rchunks_exact_mut");
        assert("::"@ + "rchunks_exact_mut"@ =~= "::rchunks_exact_mut"@);
        assert(ends(p, "::rchunks_exact_mut"));
    } else if x == "windows"@ {
        reveal_strlit("windows");
        reveal_strlit("::windows");
        assert("::"@ + "windows"@ =~= "::windows"@);
        assert(ends(p, "::windows"));
    } else if x == "swap"@ {
        reveal_strlit("swap");
        reveal_strlit("::swap");
        assert("::"@ + "swap"@ =~= "::swap"@);
        assert(ends(p, "::swap"));
    } else if x == "swap_with_slice"@ {
        reveal_strlit("swap_with_slice");
        reveal_strlit("::swap_with_slice");
        assert("::"@ + "swap_with_slice"@ =~= "::swap_with_slice"@);
        assert(ends(p, "::swap_with_slice"));
    } else if x == "rotate_left"@ {
        reveal_strlit("rotate_left");
        reveal_strlit("::rotate_left");
        assert("::"@ + "rotate_left"@ =~= "::rotate_left"@);
        assert(ends(p, "::rotate_left"));
    } else if x == "rotate_right"@ {
        reveal_strlit("rotate_right");
        reveal_strlit("::rotate_right");
        assert("::"@ + "rotate_right"@ =~= "::rotate_right"@);
        assert(ends(p, "::rotate_right"));
    } else if x == "copy_from_slice"@ {
        reveal_strlit("copy_from_slice");
        reveal_strlit("::copy_from_slice");
        assert("::"@ + "copy_from_slice"@ =~= "::copy_from_slice"@);
        assert(ends(p, "::copy_from_slice"));
    } else if x == "clone_from_slice"@ {
        reveal_strlit("clone_from_slice");
        reveal_strlit("::clone_from_slice");
        assert("::"@ + "clone_from_slice"@ =~= "::clone_from_slice"@);
        assert(ends(p, "::clone_from_slice"));
    } else if x == "copy_within"@ {
        reveal_strlit("copy_within");
        reveal_strlit("::copy_within");
        assert("::"@ + "copy_within"@ =~= "::copy_within"@);
        assert(ends(p, "::copy_within"));
    } else if x == "select_nth_unstable"@ {
        reveal_strlit("select_nth_unstable");
        reveal_strlit("::select_nth_unstable");
        assert("::"@ + "select_nth_unstable"@ =~= "::select_nth_unstable"@);
        assert(ends(p, "::select_nth_unstable"));
    } else if x == "select_nth_unstable_by"@ {
        reveal_strlit("select_nth_unstable_by");
        reveal_strlit("::select_nth_unstable_by");
        assert("::"@ + "select_nth_unstable_by"@ =~= "::select_nth_unstable_by"@);
        assert(ends(p, "::select_nth_unstable_by"));
    } else if x == "select_nth_unstable_by_key"@ {
        reveal_strlit("select_nth_unstable_by_key");
        reveal_strlit("::select_nth_unstable_by_key");
        assert("::"@ + "select_nth_unstable_by_key"@ =~= "::select_nth_unstable_by_key"@);
        assert(ends(p, "::select_nth_unstable_by_key"));
    } else if x == "sort"@ {
        reveal_strlit("sort");
        reveal_strlit("::sort");
        assert("::"@ + "sort"@ =~= "::sort"@);
        assert(ends(p, "::sort"));
    } else if x == "sort_unstable"@ {
        reveal_strlit("sort_unstable");
        reveal_strlit("::sort_unstable");
        assert("::"@ + "sort_unstable"@ =~= "::sort_unstable"@);
        assert(ends(p, "::sort_unstable"));
    } else if x == "as_chunks"@ {
        reveal_strlit("as_chunks");
        reveal_strlit("::as_chunks");
        assert("::"@ + "as_chunks"@ =~= "::as_chunks"@);
        assert(ends(p, "::as_chunks"));
    } else if x == "as_chunks_mut"@ {
        reveal_strlit("as_chunks_mut");
        reveal_strlit("::as_chunks_mut");
        assert("::"@ + "as_chunks_mut"@ =~= "::as_chunks_mut"@);
        assert(ends(p, "::as_chunks_mut"));
    } else if x == "as_rchunks"@ {
        reveal_strlit("as_rchunks");
        reveal_strlit("::as_rchunks");
        assert("::"@ + "as_rchunks"@ =~= "::as_rchunks"@);
        assert(ends(p, "::as_rchunks"));
    } else if x == "as_rchunks_mut"@ {
        reveal_strlit("as_rchunks_mut");
        reveal_strlit("::as_rchunks_mut");
        assert("::"@ + "as_rchunks_mut"@ =~= "::as_rchunks_mut"@);
        assert(ends(p, "::as_rchunks_mut"));
    }
}

} // verus!
