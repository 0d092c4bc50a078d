//! Which types and functions of the standard library break a rule, by their written-out paths.
use vstd::prelude::*;
use crate::findings::Finding;
use crate::laws::methods::is_root;
use crate::laws::types::{lemma_root_suffix, rule_of};
use crate::mir_api::{AdtDef, Span};
use crate::paths::panic_call_path;
use crate::rules;
use crate::rules::RuleId;
use crate::text::begins;
use crate::types::adt_rule;
use crate::walk::{path_findings, Scope};

verus! {

// ---------------------------------------------------------------------------
// Types.
// ---------------------------------------------------------------------------

/// The types of the collections module, each with the module that it is defined in.
pub open spec fn is_collection_of(name: Seq<char>, home: Seq<char>) -> bool {
    ||| name == "VecDeque"@ && home == "vec_deque"@
    ||| name == "BTreeMap"@ && home == "btree_map"@
    ||| name == "BTreeSet"@ && home == "btree_set"@
    ||| name == "HashMap"@ && home == "hash_map"@
    ||| name == "HashSet"@ && home == "hash_set"@
    ||| name == "LinkedList"@ && home == "linked_list"@
    ||| name == "BinaryHeap"@ && home == "binary_heap"@
}

/// Whether `rest` is the short or the full path of a type of the collections module.
pub open spec fn is_collection_path(rest: Seq<char>) -> bool {
    exists|name: Seq<char>, home: Seq<char>| #[trigger]
        is_collection_of(name, home) && (rest == "collections::"@ + name || rest
            == "collections::"@ + home + "::"@ + name)
}

/// The other types of the standard library that own memory on the heap.
pub open spec fn is_owned_buffer(rest: Seq<char>) -> bool {
    rest == "vec::Vec"@ || rest == "string::String"@ || rest == "borrow::Cow"@
        || rest == "ffi::CString"@ || rest == "ffi::c_str::CString"@ || rest == "ffi::OsString"@
        || rest == "ffi::os_str::OsString"@ || rest == "path::PathBuf"@
}

/// The rule that a type of the standard library breaks, by its path behind the root.
pub open spec fn library_type_rule(rest: Seq<char>) -> Option<RuleId> {
    if rest == "mem::MaybeUninit"@ || rest == "mem::maybe_uninit::MaybeUninit"@ {
        Some(rules::PB008)
    } else if rest == "boxed::Box"@ {
        Some(rules::PB011)
    } else if is_collection_path(rest) || is_owned_buffer(rest) {
        Some(rules::PB012)
    } else if rest == "rc::Rc"@ || rest == "rc::Weak"@ || rest == "sync::Arc"@ || rest
        == "sync::Weak"@ {
        Some(rules::PB015)
    } else if rest == "cell::UnsafeCell"@ {
        Some(rules::PB022)
    } else if is_cell(rest) {
        Some(rules::PB021)
    } else if "sync::atomic::Atomic"@.is_prefix_of(rest) {
        Some(rules::PB023)
    } else if is_lock(rest) {
        Some(rules::PB024)
    } else if "sync::mpsc::"@.is_prefix_of(rest) || "sync::mpmc::"@.is_prefix_of(rest) {
        Some(rules::PB030)
    } else {
        None
    }
}

/// The cells that share mutable state.
pub open spec fn is_cell(rest: Seq<char>) -> bool {
    rest == "cell::Cell"@ || rest == "cell::RefCell"@ || rest == "cell::OnceCell"@
        || rest == "cell::LazyCell"@ || rest == "cell::SyncUnsafeCell"@
}

/// The types that synchronise threads.
pub open spec fn is_lock(rest: Seq<char>) -> bool {
    rest == "sync::Mutex"@ || rest == "sync::RwLock"@ || rest == "sync::Once"@
        || rest == "sync::OnceLock"@ || rest == "sync::Barrier"@ || rest == "sync::Condvar"@
        || rest == "sync::poison::Mutex"@ || rest == "sync::poison::RwLock"@
        || rest == "sync::poison::Once"@
}

/// What is a path behind a root starts with a text just if it has it as a prefix.
proof fn lemma_begins_is_prefix(rest: Seq<char>, w: &str)
    ensures
        begins(rest, w) <==> w@.is_prefix_of(rest),
{
}

/// The paths of the collections are those that are written out.
proof fn lemma_collection_paths(rest: Seq<char>)
    ensures
        crate::types::collection(rest) <==> is_collection_path(rest) || is_owned_buffer(rest),
{
    reveal_strlit("collections::");
    reveal_strlit("::");
    reveal_strlit("VecDeque");
    reveal_strlit("vec_deque");
    reveal_strlit("collections::VecDeque");
    reveal_strlit("collections::vec_deque::VecDeque");
    assert("collections::"@ + "VecDeque"@ =~= "collections::VecDeque"@);
    assert("collections::"@ + "vec_deque"@ + "::"@ + "VecDeque"@
        =~= "collections::vec_deque::VecDeque"@);
    assert(is_collection_of("VecDeque"@, "vec_deque"@));
    reveal_strlit("BTreeMap");
    reveal_strlit("btree_map");
    reveal_strlit("collections::BTreeMap");
    reveal_strlit("collections::btree_map::BTreeMap");
    assert("collections::"@ + "BTreeMap"@ =~= "collections::BTreeMap"@);
    assert("collections::"@ + "btree_map"@ + "::"@ + "BTreeMap"@
        =~= "collections::btree_map::BTreeMap"@);
    assert(is_collection_of("BTreeMap"@, "btree_map"@));
    reveal_strlit("BTreeSet");
    reveal_strlit("btree_set");
    reveal_strlit("collections::BTreeSet");
    reveal_strlit("collections::btree_set::BTreeSet");
    assert("collections::"@ + "BTreeSet"@ =~= "collections::BTreeSet"@);
    assert("collections::"@ + "btree_set"@ + "::"@ + "BTreeSet"@
        =~= "collections::btree_set::BTreeSet"@);
    assert(is_collection_of("BTreeSet"@, "btree_set"@));
    reveal_strlit("HashMap");
    reveal_strlit("hash_map");
    reveal_strlit("collections::HashMap");
    reveal_strlit("collections::hash_map::HashMap");
    assert("collections::"@ + "HashMap"@ =~= "collections::HashMap"@);
    assert("collections::"@ + "hash_map"@ + "::"@ + "HashMap"@
        =~= "collections::hash_map::HashMap"@);
    assert(is_collection_of("HashMap"@, "hash_map"@));
    reveal_strlit("HashSet");
    reveal_strlit("hash_set");
    reveal_strlit("collections::HashSet");
    reveal_strlit("collections::hash_set::HashSet");
    assert("collections::"@ + "HashSet"@ =~= "collections::HashSet"@);
    assert("collections::"@ + "hash_set"@ + "::"@ + "HashSet"@
        =~= "collections::hash_set::HashSet"@);
    assert(is_collection_of("HashSet"@, "hash_set"@));
    reveal_strlit("LinkedList");
    reveal_strlit("linked_list");
    reveal_strlit("collections::LinkedList");
    reveal_strlit("collections::linked_list::LinkedList");
    assert("collections::"@ + "LinkedList"@ =~= "collections::LinkedList"@);
    assert("collections::"@ + "linked_list"@ + "::"@ + "LinkedList"@
        =~= "collections::linked_list::LinkedList"@);
    assert(is_collection_of("LinkedList"@, "linked_list"@));
    reveal_strlit("BinaryHeap");
    reveal_strlit("binary_heap");
    reveal_strlit("collections::BinaryHeap");
    reveal_strlit("collections::binary_heap::BinaryHeap");
    assert("collections::"@ + "BinaryHeap"@ =~= "collections::BinaryHeap"@);
    assert("collections::"@ + "binary_heap"@ + "::"@ + "BinaryHeap"@
        =~= "collections::binary_heap::BinaryHeap"@);
    assert(is_collection_of("BinaryHeap"@, "binary_heap"@));
}

/// A type of the standard library breaks the rule that is written down for its path, by whichever
/// root it is named; one that none is written down for breaks none.
pub proof fn law_library_types_break_their_rules(adt: AdtDef, root: Seq<char>, rest: Seq<char>)
    requires
        is_root(root),
        !adt.is_union,
        adt.path@ == root + "::"@ + rest,
    ensures
        rule_of(adt_rule(adt)) == library_type_rule(rest),
{
    reveal_strlit("::");
    reveal_strlit("core");
    reveal_strlit("std");
    reveal_strlit("alloc");
    reveal_strlit("core::");
    reveal_strlit("std::");
    reveal_strlit("alloc::");
    assert("core"@ + "::"@ =~= "core::"@);
    assert("std"@ + "::"@ =~= "std::"@);
    assert("alloc"@ + "::"@ =~= "alloc::"@);
    lemma_root_suffix(rest);
    lemma_collection_paths(rest);
    reveal_strlit("cell::UnsafeCell");
    reveal_strlit("cell::Cell");
    reveal_strlit("cell::RefCell");
    reveal_strlit("cell::OnceCell");
    reveal_strlit("cell::LazyCell");
    reveal_strlit("cell::SyncUnsafeCell");
    assert("cell::UnsafeCell"@.len() != "cell::Cell"@.len());
    assert("cell::UnsafeCell"@.len() != "cell::RefCell"@.len());
    assert("cell::UnsafeCell"@.len() != "cell::OnceCell"@.len());
    assert("cell::UnsafeCell"@.len() != "cell::LazyCell"@.len());
    assert("cell::UnsafeCell"@.len() != "cell::SyncUnsafeCell"@.len());
}

/// Every type of the collections module is refused: by its short and by its full path, and under
/// each root.
pub proof fn law_collections_are_refused(
    adt: AdtDef,
    root: Seq<char>,
    name: Seq<char>,
    home: Seq<char>,
)
    requires
        is_root(root),
        is_collection_of(name, home),
        !adt.is_union,
        adt.path@ == root + "::collections::"@ + name || adt.path@ == root + "::collections::"@
            + home + "::"@ + name,
    ensures
        rule_of(adt_rule(adt)) == Some(rules::PB012),
{
    reveal_strlit("::");
    reveal_strlit("collections::");
    reveal_strlit("::collections::");
    reveal_strlit("mem::MaybeUninit");
    reveal_strlit("mem::maybe_uninit::MaybeUninit");
    reveal_strlit("boxed::Box");
    let short = "collections::"@ + name;
    let full = "collections::"@ + home + "::"@ + name;
    assert(root + "::collections::"@ + name =~= root + "::"@ + short);
    assert(root + "::collections::"@ + home + "::"@ + name =~= root + "::"@ + full);
    let rest = if adt.path@ == root + "::collections::"@ + name {
        short
    } else {
        full
    };
    assert(is_collection_path(rest));
    assert(rest[0] == 'c' && rest[1] == 'o');
    law_library_types_break_their_rules(adt, root, rest);
}

/// A placeholder breaks the rule on what it stands for: a trait object, the state of a coroutine, a
/// foreign type, or a type that could not be analysed, which is any other.
pub proof fn law_placeholders_break_their_rules(adt: AdtDef, kind: Seq<char>)
    requires
        !adt.is_union,
        adt.path@ == "__pitbull_"@ + kind,
    ensures
        kind == "never"@ ==> adt_rule(adt) is None,
        kind == "dyn_trait_fallback"@ ==> rule_of(adt_rule(adt)) == Some(rules::PB031),
        kind == "coroutine_witness"@ ==> rule_of(adt_rule(adt)) == Some(rules::PB027),
        kind == "foreign"@ ==> rule_of(adt_rule(adt)) == Some(rules::PB056),
        kind != "never"@ && kind != "dyn_trait_fallback"@ && kind != "coroutine_witness"@ && kind
            != "foreign"@ ==> rule_of(adt_rule(adt)) == Some(rules::PB039),
{
    reveal_strlit("__pitbull_");
    reveal_strlit("never");
    reveal_strlit("dyn_trait_fallback");
    reveal_strlit("coroutine_witness");
    reveal_strlit("foreign");
    reveal_strlit("core::");
    reveal_strlit("std::");
    reveal_strlit("alloc::");
    let p = adt.path@;
    assert(p[0] == '_');
    lemma_other_start(p, "core::", 0);
    lemma_other_start(p, "std::", 0);
    lemma_other_start(p, "alloc::", 0);
    assert(p.subrange(0, 10) =~= "__pitbull_"@);
    assert(p.skip(10) =~= kind);
    assert("never"@.len() != "dyn_trait_fallback"@.len());
    assert("never"@.len() != "coroutine_witness"@.len());
    assert("never"@.len() != "foreign"@.len());
    assert("dyn_trait_fallback"@.len() != "coroutine_witness"@.len());
    assert("dyn_trait_fallback"@.len() != "foreign"@.len());
    assert("coroutine_witness"@.len() != "foreign"@.len());
}

/// A union is refused as such, whatever it is called.
pub proof fn law_unions_are_refused(adt: AdtDef)
    requires
        adt.is_union,
    ensures
        rule_of(adt_rule(adt)) == Some(rules::PB005),
{
}

// ---------------------------------------------------------------------------
// Functions.
// ---------------------------------------------------------------------------

/// Whether findings are one violation of `rule`.
pub open spec fn breaks(fs: Seq<Finding>, rule: RuleId) -> bool {
    fs.len() == 1 && (fs[0] matches Finding::Violation { rule: found, .. } && found == rule)
}

/// A text that starts otherwise does not start with `w`.
proof fn lemma_other_start(p: Seq<char>, w: &str, k: int)
    requires
        0 <= k < p.len(),
        k < w@.len(),
        p[k] != w@[k],
    ensures
        !begins(p, w),
        p != w@,
{
    if begins(p, w) {
        assert(p.subrange(0, w@.len() as int)[k] == p[k]);
    }
}

/// A text that is longer or shorter than `w` is not `w`, and a shorter one does not start with it.
proof fn lemma_other_length(p: Seq<char>, w: &str)
    requires
        p.len() != w@.len(),
    ensures
        p != w@,
        p.len() < w@.len() ==> !begins(p, w),
{
}

/// Every form of `transmute` is refused, by either root.
pub proof fn law_transmutes_are_refused(sc: Scope, root: Seq<char>, place: Seq<char>, span: Span)
    requires
        root == "core"@ || root == "std"@,
        place == "::mem::transmute"@ || place == "::intrinsics::transmute"@
            || place == "::intrinsics::transmute_unchecked"@,
    ensures
        breaks(path_findings(sc, root + place, span), rules::PB007),
{
    let p = root + place;
    if root == "core"@ && place == "::mem::transmute"@ {
        reveal_strlit("core");
        reveal_strlit("::mem::transmute");
        reveal_strlit("core::mem::transmute");
        assert("core"@ + "::mem::transmute"@ =~= "core::mem::transmute"@);
        reveal_strlit("core::mem::transmute");
        reveal_strlit("core::panicking::");
        lemma_other_start(p, "core::panicking::", 6);
        reveal_strlit("std::panicking::");
        lemma_other_start(p, "std::panicking::", 0);
        reveal_strlit("core::panic");
        lemma_other_start(p, "core::panic", 6);
        reveal_strlit("std::panic");
        lemma_other_start(p, "std::panic", 0);
        reveal_strlit("core::panic_any");
        lemma_other_start(p, "core::panic_any", 6);
        reveal_strlit("std::panic_any");
        lemma_other_start(p, "std::panic_any", 0);
        reveal_strlit("std::rt::panic_fmt");
        lemma_other_start(p, "std::rt::panic_fmt", 0);
        reveal_strlit("std::rt::panic_display");
        lemma_other_start(p, "std::rt::panic_display", 0);
        reveal_strlit("std::rt::begin_panic");
        lemma_other_start(p, "std::rt::begin_panic", 0);
        reveal_strlit("std::rt::begin_panic_fmt");
        lemma_other_start(p, "std::rt::begin_panic_fmt", 0);
        reveal_strlit("alloc::alloc::");
        lemma_other_start(p, "alloc::alloc::", 0);
        reveal_strlit("std::alloc::");
        lemma_other_start(p, "std::alloc::", 0);
        reveal_strlit("core::alloc::Allocator::");
        lemma_other_start(p, "core::alloc::Allocator::", 6);
        reveal_strlit("std::alloc::Allocator::");
        lemma_other_start(p, "std::alloc::Allocator::", 0);
    }
    if root == "core"@ && place == "::intrinsics::transmute"@ {
        reveal_strlit("core");
        reveal_strlit("::intrinsics::transmute");
        reveal_strlit("core::intrinsics::transmute");
        assert("core"@ + "::intrinsics::transmute"@ =~= "core::intrinsics::transmute"@);
        reveal_strlit("core::intrinsics::transmute");
        reveal_strlit("core::panicking::");
        lemma_other_start(p, "core::panicking::", 6);
        reveal_strlit("std::panicking::");
        lemma_other_start(p, "std::panicking::", 0);
        reveal_strlit("core::panic");
        lemma_other_start(p, "core::panic", 6);
        reveal_strlit("std::panic");
        lemma_other_start(p, "std::panic", 0);
        reveal_strlit("core::panic_any");
        lemma_other_start(p, "core::panic_any", 6);
        reveal_strlit("std::panic_any");
        lemma_other_start(p, "std::panic_any", 0);
        reveal_strlit("std::rt::panic_fmt");
        lemma_other_start(p, "std::rt::panic_fmt", 0);
        reveal_strlit("std::rt::panic_display");
        lemma_other_start(p, "std::rt::panic_display", 0);
        reveal_strlit("std::rt::begin_panic");
        lemma_other_start(p, "std::rt::begin_panic", 0);
        reveal_strlit("std::rt::begin_panic_fmt");
        lemma_other_start(p, "std::rt::begin_panic_fmt", 0);
        reveal_strlit("alloc::alloc::");
        lemma_other_start(p, "alloc::alloc::", 0);
        reveal_strlit("std::alloc::");
        lemma_other_start(p, "std::alloc::", 0);
        reveal_strlit("core::alloc::Allocator::");
        lemma_other_start(p, "core::alloc::Allocator::", 6);
        reveal_strlit("std::alloc::Allocator::");
        lemma_other_start(p, "std::alloc::Allocator::", 0);
    }
    if root == "core"@ && place == "::intrinsics::transmute_unchecked"@ {
        reveal_strlit("core");
        reveal_strlit("::intrinsics::transmute_unchecked");
        reveal_strlit("core::intrinsics::transmute_unchecked");
        assert("core"@ + "::intrinsics::transmute_unchecked"@
            =~= "core::intrinsics::transmute_unchecked"@);
        reveal_strlit("core::intrinsics::transmute_unchecked");
        reveal_strlit("core::panicking::");
        lemma_other_start(p, "core::panicking::", 6);
        reveal_strlit("std::panicking::");
        lemma_other_start(p, "std::panicking::", 0);
        reveal_strlit("core::panic");
        lemma_other_start(p, "core::panic", 6);
        reveal_strlit("std::panic");
        lemma_other_start(p, "std::panic", 0);
        reveal_strlit("core::panic_any");
        lemma_other_start(p, "core::panic_any", 6);
        reveal_strlit("std::panic_any");
        lemma_other_start(p, "std::panic_any", 0);
        reveal_strlit("std::rt::panic_fmt");
        lemma_other_start(p, "std::rt::panic_fmt", 0);
        reveal_strlit("std::rt::panic_display");
        lemma_other_start(p, "std::rt::panic_display", 0);
        reveal_strlit("std::rt::begin_panic");
        lemma_other_start(p, "std::rt::begin_panic", 0);
        reveal_strlit("std::rt::begin_panic_fmt");
        lemma_other_start(p, "std::rt::begin_panic_fmt", 0);
        reveal_strlit("alloc::alloc::");
        lemma_other_start(p, "alloc::alloc::", 0);
        reveal_strlit("std::alloc::");
        lemma_other_start(p, "std::alloc::", 0);
        reveal_strlit("core::alloc::Allocator::");
        lemma_other_start(p, "core::alloc::Allocator::", 6);
        reveal_strlit("std::alloc::Allocator::");
        lemma_other_start(p, "std::alloc::Allocator::", 0);
    }
    if root == "std"@ && place == "::mem::transmute"@ {
        reveal_strlit("std");
        reveal_strlit("::mem::transmute");
        reveal_strlit("std::mem::transmute");
        assert("std"@ + "::mem::transmute"@ =~= "std::mem::transmute"@);
        reveal_strlit("std::mem::transmute");
        reveal_strlit("core::panicking::");
        lemma_other_start(p, "core::panicking::", 0);
        reveal_strlit("std::panicking::");
        lemma_other_start(p, "std::panicking::", 5);
        reveal_strlit("core::panic");
        lemma_other_start(p, "core::panic", 0);
        reveal_strlit("std::panic");
        lemma_other_start(p, "std::panic", 5);
        reveal_strlit("core::panic_any");
        lemma_other_start(p, "core::panic_any", 0);
        reveal_strlit("std::panic_any");
        lemma_other_start(p, "std::panic_any", 5);
        reveal_strlit("std::rt::panic_fmt");
        lemma_other_start(p, "std::rt::panic_fmt", 5);
        reveal_strlit("std::rt::panic_display");
        lemma_other_start(p, "std::rt::panic_display", 5);
        reveal_strlit("std::rt::begin_panic");
        lemma_other_start(p, "std::rt::begin_panic", 5);
        reveal_strlit("std::rt::begin_panic_fmt");
        lemma_other_start(p, "std::rt::begin_panic_fmt", 5);
        reveal_strlit("alloc::alloc::");
        lemma_other_start(p, "alloc::alloc::", 0);
        reveal_strlit("std::alloc::");
        lemma_other_start(p, "std::alloc::", 5);
        reveal_strlit("core::alloc::Allocator::");
        lemma_other_start(p, "core::alloc::Allocator::", 0);
        reveal_strlit("std::alloc::Allocator::");
        lemma_other_start(p, "std::alloc::Allocator::", 5);
    }
    if root == "std"@ && place == "::intrinsics::transmute"@ {
        reveal_strlit("std");
        reveal_strlit("::intrinsics::transmute");
        reveal_strlit("std::intrinsics::transmute");
        assert("std"@ + "::intrinsics::transmute"@ =~= "std::intrinsics::transmute"@);
        reveal_strlit("std::intrinsics::transmute");
        reveal_strlit("core::panicking::");
        lemma_other_start(p, "core::panicking::", 0);
        reveal_strlit("std::panicking::");
        lemma_other_start(p, "std::panicking::", 5);
        reveal_strlit("core::panic");
        lemma_other_start(p, "core::panic", 0);
        reveal_strlit("std::panic");
        lemma_other_start(p, "std::panic", 5);
        reveal_strlit("core::panic_any");
        lemma_other_start(p, "core::panic_any", 0);
        reveal_strlit("std::panic_any");
        lemma_other_start(p, "std::panic_any", 5);
        reveal_strlit("std::rt::panic_fmt");
        lemma_other_start(p, "std::rt::panic_fmt", 5);
        reveal_strlit("std::rt::panic_display");
        lemma_other_start(p, "std::rt::panic_display", 5);
        reveal_strlit("std::rt::begin_panic");
        lemma_other_start(p, "std::rt::begin_panic", 5);
        reveal_strlit("std::rt::begin_panic_fmt");
        lemma_other_start(p, "std::rt::begin_panic_fmt", 5);
        reveal_strlit("alloc::alloc::");
        lemma_other_start(p, "alloc::alloc::", 0);
        reveal_strlit("std::alloc::");
        lemma_other_start(p, "std::alloc::", 5);
        reveal_strlit("core::alloc::Allocator::");
        lemma_other_start(p, "core::alloc::Allocator::", 0);
        reveal_strlit("std::alloc::Allocator::");
        lemma_other_start(p, "std::alloc::Allocator::", 5);
    }
    if root == "std"@ && place == "::intrinsics::transmute_unchecked"@ {
        reveal_strlit("std");
        reveal_strlit("::intrinsics::transmute_unchecked");
        reveal_strlit("std::intrinsics::transmute_unchecked");
        assert("std"@ + "::intrinsics::transmute_unchecked"@
            =~= "std::intrinsics::transmute_unchecked"@);
        reveal_strlit("std::intrinsics::transmute_unchecked");
        reveal_strlit("core::panicking::");
        lemma_other_start(p, "core::panicking::", 0);
        reveal_strlit("std::panicking::");
        lemma_other_start(p, "std::panicking::", 5);
        reveal_strlit("core::panic");
        lemma_other_start(p, "core::panic", 0);
        reveal_strlit("std::panic");
        lemma_other_start(p, "std::panic", 5);
        reveal_strlit("core::panic_any");
        lemma_other_start(p, "core::panic_any", 0);
        reveal_strlit("std::panic_any");
        lemma_other_start(p, "std::panic_any", 5);
        reveal_strlit("std::rt::panic_fmt");
        lemma_other_start(p, "std::rt::panic_fmt", 5);
        reveal_strlit("std::rt::panic_display");
        lemma_other_start(p, "std::rt::panic_display", 5);
        reveal_strlit("std::rt::begin_panic");
        lemma_other_start(p, "std::rt::begin_panic", 5);
        reveal_strlit("std::rt::begin_panic_fmt");
        lemma_other_start(p, "std::rt::begin_panic_fmt", 5);
        reveal_strlit("alloc::alloc::");
        lemma_other_start(p, "alloc::alloc::", 0);
        reveal_strlit("std::alloc::");
        lemma_other_start(p, "std::alloc::", 5);
        reveal_strlit("core::alloc::Allocator::");
        lemma_other_start(p, "core::alloc::Allocator::", 0);
        reveal_strlit("std::alloc::Allocator::");
        lemma_other_start(p, "std::alloc::Allocator::", 5);
    }
}

/// Every volatile access is refused, by either root.
pub proof fn law_volatile_accesses_are_refused(
    sc: Scope,
    root: Seq<char>,
    place: Seq<char>,
    span: Span,
)
    requires
        root == "core"@ || root == "std"@,
        place == "::ptr::read_volatile"@ || place == "::ptr::write_volatile"@,
    ensures
        breaks(path_findings(sc, root + place, span), rules::PB025),
{
    let p = root + place;
    if root == "core"@ && place == "::ptr::read_volatile"@ {
        reveal_strlit("core");
        reveal_strlit("::ptr::read_volatile");
        reveal_strlit("core::ptr::read_volatile");
        assert("core"@ + "::ptr::read_volatile"@ =~= "core::ptr::read_volatile"@);
        reveal_strlit("core::ptr::read_volatile");
        reveal_strlit("core::panicking::");
        lemma_other_start(p, "core::panicking::", 7);
        reveal_strlit("std::panicking::");
        lemma_other_start(p, "std::panicking::", 0);
        reveal_strlit("core::panic");
        lemma_other_start(p, "core::panic", 7);
        reveal_strlit("std::panic");
        lemma_other_start(p, "std::panic", 0);
        reveal_strlit("core::panic_any");
        lemma_other_start(p, "core::panic_any", 7);
        reveal_strlit("std::panic_any");
        lemma_other_start(p, "std::panic_any", 0);
        reveal_strlit("std::rt::panic_fmt");
        lemma_other_start(p, "std::rt::panic_fmt", 0);
        reveal_strlit("std::rt::panic_display");
        lemma_other_start(p, "std::rt::panic_display", 0);
        reveal_strlit("std::rt::begin_panic");
        lemma_other_start(p, "std::rt::begin_panic", 0);
        reveal_strlit("std::rt::begin_panic_fmt");
        lemma_other_start(p, "std::rt::begin_panic_fmt", 0);
        reveal_strlit("alloc::alloc::");
        lemma_other_start(p, "alloc::alloc::", 0);
        reveal_strlit("std::alloc::");
        lemma_other_start(p, "std::alloc::", 0);
        reveal_strlit("core::alloc::Allocator::");
        lemma_other_start(p, "core::alloc::Allocator::", 6);
        reveal_strlit("std::alloc::Allocator::");
        lemma_other_start(p, "std::alloc::Allocator::", 0);
        reveal_strlit("core::mem::transmute");
        lemma_other_start(p, "core::mem::transmute", 6);
        reveal_strlit("std::mem::transmute");
        lemma_other_start(p, "std::mem::transmute", 0);
        reveal_strlit("core::intrinsics::transmute");
        lemma_other_start(p, "core::intrinsics::transmute", 6);
        reveal_strlit("std::intrinsics::transmute");
        lemma_other_start(p, "std::intrinsics::transmute", 0);
        reveal_strlit("core::intrinsics::transmute_unchecked");
        lemma_other_start(p, "core::intrinsics::transmute_unchecked", 6);
        reveal_strlit("std::intrinsics::transmute_unchecked");
        lemma_other_start(p, "std::intrinsics::transmute_unchecked", 0);
    }
    if root == "core"@ && place == "::ptr::write_volatile"@ {
        reveal_strlit("core");
        reveal_strlit("::ptr::write_volatile");
        reveal_strlit("core::ptr::write_volatile");
        assert("core"@ + "::ptr::write_volatile"@ =~= "core::ptr::write_volatile"@);
        reveal_strlit("core::ptr::write_volatile");
        reveal_strlit("core::panicking::");
        lemma_other_start(p, "core::panicking::", 7);
        reveal_strlit("std::panicking::");
        lemma_other_start(p, "std::panicking::", 0);
        reveal_strlit("core::panic");
        lemma_other_start(p, "core::panic", 7);
        reveal_strlit("std::panic");
        lemma_other_start(p, "std::panic", 0);
        reveal_strlit("core::panic_any");
        lemma_other_start(p, "core::panic_any", 7);
        reveal_strlit("std::panic_any");
        lemma_other_start(p, "std::panic_any", 0);
        reveal_strlit("std::rt::panic_fmt");
        lemma_other_start(p, "std::rt::panic_fmt", 0);
        reveal_strlit("std::rt::panic_display");
        lemma_other_start(p, "std::rt::panic_display", 0);
        reveal_strlit("std::rt::begin_panic");
        lemma_other_start(p, "std::rt::begin_panic", 0);
        reveal_strlit("std::rt::begin_panic_fmt");
        lemma_other_start(p, "std::rt::begin_panic_fmt", 0);
        reveal_strlit("alloc::alloc::");
        lemma_other_start(p, "alloc::alloc::", 0);
        reveal_strlit("std::alloc::");
        lemma_other_start(p, "std::alloc::", 0);
        reveal_strlit("core::alloc::Allocator::");
        lemma_other_start(p, "core::alloc::Allocator::", 6);
        reveal_strlit("std::alloc::Allocator::");
        lemma_other_start(p, "std::alloc::Allocator::", 0);
        reveal_strlit("core::mem::transmute");
        lemma_other_start(p, "core::mem::transmute", 6);
        reveal_strlit("std::mem::transmute");
        lemma_other_start(p, "std::mem::transmute", 0);
        reveal_strlit("core::intrinsics::transmute");
        lemma_other_start(p, "core::intrinsics::transmute", 6);
        reveal_strlit("std::intrinsics::transmute");
        lemma_other_start(p, "std::intrinsics::transmute", 0);
        reveal_strlit("core::intrinsics::transmute_unchecked");
        lemma_other_start(p, "core::intrinsics::transmute_unchecked", 6);
        reveal_strlit("std::intrinsics::transmute_unchecked");
        lemma_other_start(p, "std::intrinsics::transmute_unchecked", 0);
    }
    if root == "std"@ && place == "::ptr::read_volatile"@ {
        reveal_strlit("std");
        reveal_strlit("::ptr::read_volatile");
        reveal_strlit("std::ptr::read_volatile");
        assert("std"@ + "::ptr::read_volatile"@ =~= "std::ptr::read_volatile"@);
        reveal_strlit("std::ptr::read_volatile");
        reveal_strlit("core::panicking::");
        lemma_other_start(p, "core::panicking::", 0);
        reveal_strlit("std::panicking::");
        lemma_other_start(p, "std::panicking::", 6);
        reveal_strlit("core::panic");
        lemma_other_start(p, "core::panic", 0);
        reveal_strlit("std::panic");
        lemma_other_start(p, "std::panic", 6);
        reveal_strlit("core::panic_any");
        lemma_other_start(p, "core::panic_any", 0);
        reveal_strlit("std::panic_any");
        lemma_other_start(p, "std::panic_any", 6);
        reveal_strlit("std::rt::panic_fmt");
        lemma_other_start(p, "std::rt::panic_fmt", 5);
        reveal_strlit("std::rt::panic_display");
        lemma_other_start(p, "std::rt::panic_display", 5);
        reveal_strlit("std::rt::begin_panic");
        lemma_other_start(p, "std::rt::begin_panic", 5);
        reveal_strlit("std::rt::begin_panic_fmt");
        lemma_other_start(p, "std::rt::begin_panic_fmt", 5);
        reveal_strlit("alloc::alloc::");
        lemma_other_start(p, "alloc::alloc::", 0);
        reveal_strlit("std::alloc::");
        lemma_other_start(p, "std::alloc::", 5);
        reveal_strlit("core::alloc::Allocator::");
        lemma_other_start(p, "core::alloc::Allocator::", 0);
        reveal_strlit("std::alloc::Allocator::");
        lemma_other_start(p, "std::alloc::Allocator::", 5);
        reveal_strlit("core::mem::transmute");
        lemma_other_start(p, "core::mem::transmute", 0);
        reveal_strlit("std::mem::transmute");
        lemma_other_start(p, "std::mem::transmute", 5);
        reveal_strlit("core::intrinsics::transmute");
        lemma_other_start(p, "core::intrinsics::transmute", 0);
        reveal_strlit("std::intrinsics::transmute");
        lemma_other_start(p, "std::intrinsics::transmute", 5);
        reveal_strlit("core::intrinsics::transmute_unchecked");
        lemma_other_start(p, "core::intrinsics::transmute_unchecked", 0);
        reveal_strlit("std::intrinsics::transmute_unchecked");
        lemma_other_start(p, "std::intrinsics::transmute_unchecked", 5);
    }
    if root == "std"@ && place == "::ptr::write_volatile"@ {
        reveal_strlit("std");
        reveal_strlit("::ptr::write_volatile");
        reveal_strlit("std::ptr::write_volatile");
        assert("std"@ + "::ptr::write_volatile"@ =~= "std::ptr::write_volatile"@);
        reveal_strlit("std::ptr::write_volatile");
        reveal_strlit("core::panicking::");
        lemma_other_start(p, "core::panicking::", 0);
        reveal_strlit("std::panicking::");
        lemma_other_start(p, "std::panicking::", 6);
        reveal_strlit("core::panic");
        lemma_other_start(p, "core::panic", 0);
        reveal_strlit("std::panic");
        lemma_other_start(p, "std::panic", 6);
        reveal_strlit("core::panic_any");
        lemma_other_start(p, "core::panic_any", 0);
        reveal_strlit("std::panic_any");
        lemma_other_start(p, "std::panic_any", 6);
        reveal_strlit("std::rt::panic_fmt");
        lemma_other_start(p, "std::rt::panic_fmt", 5);
        reveal_strlit("std::rt::panic_display");
        lemma_other_start(p, "std::rt::panic_display", 5);
        reveal_strlit("std::rt::begin_panic");
        lemma_other_start(p, "std::rt::begin_panic", 5);
        reveal_strlit("std::rt::begin_panic_fmt");
        lemma_other_start(p, "std::rt::begin_panic_fmt", 5);
        reveal_strlit("alloc::alloc::");
        lemma_other_start(p, "alloc::alloc::", 0);
        reveal_strlit("std::alloc::");
        lemma_other_start(p, "std::alloc::", 5);
        reveal_strlit("core::alloc::Allocator::");
        lemma_other_start(p, "core::alloc::Allocator::", 0);
        reveal_strlit("std::alloc::Allocator::");
        lemma_other_start(p, "std::alloc::Allocator::", 5);
        reveal_strlit("core::mem::transmute");
        lemma_other_start(p, "core::mem::transmute", 0);
        reveal_strlit("std::mem::transmute");
        lemma_other_start(p, "std::mem::transmute", 5);
        reveal_strlit("core::intrinsics::transmute");
        lemma_other_start(p, "core::intrinsics::transmute", 0);
        reveal_strlit("std::intrinsics::transmute");
        lemma_other_start(p, "std::intrinsics::transmute", 5);
        reveal_strlit("core::intrinsics::transmute_unchecked");
        lemma_other_start(p, "core::intrinsics::transmute_unchecked", 0);
        reveal_strlit("std::intrinsics::transmute_unchecked");
        lemma_other_start(p, "std::intrinsics::transmute_unchecked", 5);
    }
}

/// Every operation on an atomic is refused, by either root.
pub proof fn law_atomic_operations_are_refused(sc: Scope, root: Seq<char>, x: Seq<char>, span: Span)
    requires
        root == "core"@ || root == "std"@,
    ensures
        breaks(path_findings(sc, root + "::sync::atomic::"@ + x, span), rules::PB023),
{
    let p = root + "::sync::atomic::"@ + x;
    if root == "core"@ {
        reveal_strlit("core");
        reveal_strlit("::sync::atomic::");
        reveal_strlit("core::sync::atomic::");
        assert("core"@ + "::sync::atomic::"@ =~= "core::sync::atomic::"@);
        reveal_strlit("core::sync::atomic::");
        reveal_strlit("core::panicking::");
        lemma_other_start(p, "core::panicking::", 6);
        reveal_strlit("std::panicking::");
        lemma_other_start(p, "std::panicking::", 0);
        reveal_strlit("core::panic");
        lemma_other_start(p, "core::panic", 6);
        reveal_strlit("std::panic");
        lemma_other_start(p, "std::panic", 0);
        reveal_strlit("core::panic_any");
        lemma_other_start(p, "core::panic_any", 6);
        reveal_strlit("std::panic_any");
        lemma_other_start(p, "std::panic_any", 0);
        reveal_strlit("std::rt::panic_fmt");
        lemma_other_start(p, "std::rt::panic_fmt", 0);
        reveal_strlit("std::rt::panic_display");
        lemma_other_start(p, "std::rt::panic_display", 0);
        reveal_strlit("std::rt::begin_panic");
        lemma_other_start(p, "std::rt::begin_panic", 0);
        reveal_strlit("std::rt::begin_panic_fmt");
        lemma_other_start(p, "std::rt::begin_panic_fmt", 0);
        reveal_strlit("alloc::alloc::");
        lemma_other_start(p, "alloc::alloc::", 0);
        reveal_strlit("std::alloc::");
        lemma_other_start(p, "std::alloc::", 0);
        reveal_strlit("core::alloc::Allocator::");
        lemma_other_start(p, "core::alloc::Allocator::", 6);
        reveal_strlit("std::alloc::Allocator::");
        lemma_other_start(p, "std::alloc::Allocator::", 0);
        reveal_strlit("core::mem::transmute");
        lemma_other_start(p, "core::mem::transmute", 6);
        reveal_strlit("std::mem::transmute");
        lemma_other_start(p, "std::mem::transmute", 0);
        reveal_strlit("core::intrinsics::transmute");
        lemma_other_start(p, "core::intrinsics::transmute", 6);
        reveal_strlit("std::intrinsics::transmute");
        lemma_other_start(p, "std::intrinsics::transmute", 0);
        reveal_strlit("core::intrinsics::transmute_unchecked");
        lemma_other_start(p, "core::intrinsics::transmute_unchecked", 6);
        reveal_strlit("std::intrinsics::transmute_unchecked");
        lemma_other_start(p, "std::intrinsics::transmute_unchecked", 0);
        reveal_strlit("core::ptr::read_volatile");
        lemma_other_start(p, "core::ptr::read_volatile", 6);
        reveal_strlit("std::ptr::read_volatile");
        lemma_other_start(p, "std::ptr::read_volatile", 0);
        reveal_strlit("core::ptr::write_volatile");
        lemma_other_start(p, "core::ptr::write_volatile", 6);
        reveal_strlit("std::ptr::write_volatile");
        lemma_other_start(p, "std::ptr::write_volatile", 0);
        assert(p.subrange(0, 20) =~= "core::sync::atomic::"@);
    }
    if root == "std"@ {
        reveal_strlit("std");
        reveal_strlit("::sync::atomic::");
        reveal_strlit("std::sync::atomic::");
        assert("std"@ + "::sync::atomic::"@ =~= "std::sync::atomic::"@);
        reveal_strlit("std::sync::atomic::");
        reveal_strlit("core::panicking::");
        lemma_other_start(p, "core::panicking::", 0);
        reveal_strlit("std::panicking::");
        lemma_other_start(p, "std::panicking::", 5);
        reveal_strlit("core::panic");
        lemma_other_start(p, "core::panic", 0);
        reveal_strlit("std::panic");
        lemma_other_start(p, "std::panic", 5);
        reveal_strlit("core::panic_any");
        lemma_other_start(p, "core::panic_any", 0);
        reveal_strlit("std::panic_any");
        lemma_other_start(p, "std::panic_any", 5);
        reveal_strlit("std::rt::panic_fmt");
        lemma_other_start(p, "std::rt::panic_fmt", 5);
        reveal_strlit("std::rt::panic_display");
        lemma_other_start(p, "std::rt::panic_display", 5);
        reveal_strlit("std::rt::begin_panic");
        lemma_other_start(p, "std::rt::begin_panic", 5);
        reveal_strlit("std::rt::begin_panic_fmt");
        lemma_other_start(p, "std::rt::begin_panic_fmt", 5);
        reveal_strlit("alloc::alloc::");
        lemma_other_start(p, "alloc::alloc::", 0);
        reveal_strlit("std::alloc::");
        lemma_other_start(p, "std::alloc::", 5);
        reveal_strlit("core::alloc::Allocator::");
        lemma_other_start(p, "core::alloc::Allocator::", 0);
        reveal_strlit("std::alloc::Allocator::");
        lemma_other_start(p, "std::alloc::Allocator::", 5);
        reveal_strlit("core::mem::transmute");
        lemma_other_start(p, "core::mem::transmute", 0);
        reveal_strlit("std::mem::transmute");
        lemma_other_start(p, "std::mem::transmute", 5);
        reveal_strlit("core::intrinsics::transmute");
        lemma_other_start(p, "core::intrinsics::transmute", 0);
        reveal_strlit("std::intrinsics::transmute");
        lemma_other_start(p, "std::intrinsics::transmute", 5);
        reveal_strlit("core::intrinsics::transmute_unchecked");
        lemma_other_start(p, "core::intrinsics::transmute_unchecked", 0);
        reveal_strlit("std::intrinsics::transmute_unchecked");
        lemma_other_start(p, "std::intrinsics::transmute_unchecked", 5);
        reveal_strlit("core::ptr::read_volatile");
        lemma_other_start(p, "core::ptr::read_volatile", 0);
        reveal_strlit("std::ptr::read_volatile");
        lemma_other_start(p, "std::ptr::read_volatile", 5);
        reveal_strlit("core::ptr::write_volatile");
        lemma_other_start(p, "core::ptr::write_volatile", 0);
        reveal_strlit("std::ptr::write_volatile");
        lemma_other_start(p, "std::ptr::write_volatile", 5);
        assert(p.subrange(0, 19) =~= "std::sync::atomic::"@);
    }
}

/// Every call into the allocator interface is refused.
pub proof fn law_allocator_calls_are_refused(sc: Scope, place: Seq<char>, x: Seq<char>, span: Span)
    requires
        place == "alloc::alloc::"@ || place == "std::alloc::"@
            || place == "core::alloc::Allocator::"@,
    ensures
        breaks(path_findings(sc, place + x, span), rules::PB011),
{
    let p = place + x;
    if place == "alloc::alloc::"@ {
        reveal_strlit("alloc::alloc::");
        reveal_strlit("core::panicking::");
        lemma_other_start(p, "core::panicking::", 0);
        reveal_strlit("std::panicking::");
        lemma_other_start(p, "std::panicking::", 0);
        reveal_strlit("core::panic");
        lemma_other_start(p, "core::panic", 0);
        reveal_strlit("std::panic");
        lemma_other_start(p, "std::panic", 0);
        reveal_strlit("core::panic_any");
        lemma_other_start(p, "core::panic_any", 0);
        reveal_strlit("std::panic_any");
        lemma_other_start(p, "std::panic_any", 0);
        reveal_strlit("std::rt::panic_fmt");
        lemma_other_start(p, "std::rt::panic_fmt", 0);
        reveal_strlit("std::rt::panic_display");
        lemma_other_start(p, "std::rt::panic_display", 0);
        reveal_strlit("std::rt::begin_panic");
        lemma_other_start(p, "std::rt::begin_panic", 0);
        reveal_strlit("std::rt::begin_panic_fmt");
        lemma_other_start(p, "std::rt::begin_panic_fmt", 0);
        assert(p.subrange(0, 14) =~= "alloc::alloc::"@);
    }
    if place == "std::alloc::"@ {
        reveal_strlit("std::alloc::");
        reveal_strlit("core::panicking::");
        lemma_other_start(p, "core::panicking::", 0);
        reveal_strlit("std::panicking::");
        lemma_other_start(p, "std::panicking::", 5);
        reveal_strlit("core::panic");
        lemma_other_start(p, "core::panic", 0);
        reveal_strlit("std::panic");
        lemma_other_start(p, "std::panic", 5);
        reveal_strlit("core::panic_any");
        lemma_other_start(p, "core::panic_any", 0);
        reveal_strlit("std::panic_any");
        lemma_other_start(p, "std::panic_any", 5);
        reveal_strlit("std::rt::panic_fmt");
        lemma_other_start(p, "std::rt::panic_fmt", 5);
        reveal_strlit("std::rt::panic_display");
        lemma_other_start(p, "std::rt::panic_display", 5);
        reveal_strlit("std::rt::begin_panic");
        lemma_other_start(p, "std::rt::begin_panic", 5);
        reveal_strlit("std::rt::begin_panic_fmt");
        lemma_other_start(p, "std::rt::begin_panic_fmt", 5);
        assert(p.subrange(0, 12) =~= "std::alloc::"@);
    }
    if place == "core::alloc::Allocator::"@ {
        reveal_strlit("core::alloc::Allocator::");
        reveal_strlit("core::panicking::");
        lemma_other_start(p, "core::panicking::", 6);
        reveal_strlit("std::panicking::");
        lemma_other_start(p, "std::panicking::", 0);
        reveal_strlit("core::panic");
        lemma_other_start(p, "core::panic", 6);
        reveal_strlit("std::panic");
        lemma_other_start(p, "std::panic", 0);
        reveal_strlit("core::panic_any");
        lemma_other_start(p, "core::panic_any", 6);
        reveal_strlit("std::panic_any");
        lemma_other_start(p, "std::panic_any", 0);
        reveal_strlit("std::rt::panic_fmt");
        lemma_other_start(p, "std::rt::panic_fmt", 0);
        reveal_strlit("std::rt::panic_display");
        lemma_other_start(p, "std::rt::panic_display", 0);
        reveal_strlit("std::rt::begin_panic");
        lemma_other_start(p, "std::rt::begin_panic", 0);
        reveal_strlit("std::rt::begin_panic_fmt");
        lemma_other_start(p, "std::rt::begin_panic_fmt", 0);
        assert(p.subrange(0, 24) =~= "core::alloc::Allocator::"@);
    }
}

/// Spawning a thread is refused, by itself and through a builder.
pub proof fn law_spawning_is_refused(sc: Scope, x: Seq<char>, builder: bool, span: Span)
    requires
        builder || x.len() == 0,
    ensures
        breaks(path_findings(sc, (if builder {
            "std::thread::Builder::spawn"@
        } else {
            "std::thread::spawn"@
        }) + x, span), rules::PB028),
{
    let p = (if builder {
            "std::thread::Builder::spawn"@
        } else {
            "std::thread::spawn"@
        }) + x;
    if builder {
        reveal_strlit("std::thread::Builder::spawn");
        reveal_strlit("core::panicking::");
        lemma_other_start(p, "core::panicking::", 0);
        reveal_strlit("std::panicking::");
        lemma_other_start(p, "std::panicking::", 5);
        reveal_strlit("core::panic");
        lemma_other_start(p, "core::panic", 0);
        reveal_strlit("std::panic");
        lemma_other_start(p, "std::panic", 5);
        reveal_strlit("core::panic_any");
        lemma_other_start(p, "core::panic_any", 0);
        reveal_strlit("std::panic_any");
        lemma_other_start(p, "std::panic_any", 5);
        reveal_strlit("std::rt::panic_fmt");
        lemma_other_start(p, "std::rt::panic_fmt", 5);
        reveal_strlit("std::rt::panic_display");
        lemma_other_start(p, "std::rt::panic_display", 5);
        reveal_strlit("std::rt::begin_panic");
        lemma_other_start(p, "std::rt::begin_panic", 5);
        reveal_strlit("std::rt::begin_panic_fmt");
        lemma_other_start(p, "std::rt::begin_panic_fmt", 5);
        reveal_strlit("alloc::alloc::");
        lemma_other_start(p, "alloc::alloc::", 0);
        reveal_strlit("std::alloc::");
        lemma_other_start(p, "std::alloc::", 5);
        reveal_strlit("core::alloc::Allocator::");
        lemma_other_start(p, "core::alloc::Allocator::", 0);
        reveal_strlit("std::alloc::Allocator::");
        lemma_other_start(p, "std::alloc::Allocator::", 5);
        reveal_strlit("core::mem::transmute");
        lemma_other_start(p, "core::mem::transmute", 0);
        reveal_strlit("std::mem::transmute");
        lemma_other_start(p, "std::mem::transmute", 5);
        reveal_strlit("core::intrinsics::transmute");
        lemma_other_start(p, "core::intrinsics::transmute", 0);
        reveal_strlit("std::intrinsics::transmute");
        lemma_other_start(p, "std::intrinsics::transmute", 5);
        reveal_strlit("core::intrinsics::transmute_unchecked");
        lemma_other_start(p, "core::intrinsics::transmute_unchecked", 0);
        reveal_strlit("std::intrinsics::transmute_unchecked");
        lemma_other_start(p, "std::intrinsics::transmute_unchecked", 5);
        reveal_strlit("core::ptr::read_volatile");
        lemma_other_start(p, "core::ptr::read_volatile", 0);
        reveal_strlit("std::ptr::read_volatile");
        lemma_other_start(p, "std::ptr::read_volatile", 5);
        reveal_strlit("core::ptr::write_volatile");
        lemma_other_start(p, "core::ptr::write_volatile", 0);
        reveal_strlit("std::ptr::write_volatile");
        lemma_other_start(p, "std::ptr::write_volatile", 5);
        reveal_strlit("core::sync::atomic::");
        lemma_other_start(p, "core::sync::atomic::", 0);
        reveal_strlit("std::sync::atomic::");
        lemma_other_start(p, "std::sync::atomic::", 5);
        assert(p.subrange(0, 27) =~= "std::thread::Builder::spawn"@);
    }
    if !builder {
        assert(p =~= "std::thread::spawn"@);
        reveal_strlit("std::thread::spawn");
        reveal_strlit("core::panicking::");
        lemma_other_start(p, "core::panicking::", 0);
        reveal_strlit("std::panicking::");
        lemma_other_start(p, "std::panicking::", 5);
        reveal_strlit("core::panic");
        lemma_other_start(p, "core::panic", 0);
        reveal_strlit("std::panic");
        lemma_other_start(p, "std::panic", 5);
        reveal_strlit("core::panic_any");
        lemma_other_start(p, "core::panic_any", 0);
        reveal_strlit("std::panic_any");
        lemma_other_start(p, "std::panic_any", 5);
        reveal_strlit("std::rt::panic_fmt");
        lemma_other_start(p, "std::rt::panic_fmt", 5);
        reveal_strlit("std::rt::panic_display");
        lemma_other_start(p, "std::rt::panic_display", 5);
        reveal_strlit("std::rt::begin_panic");
        lemma_other_start(p, "std::rt::begin_panic", 5);
        reveal_strlit("std::rt::begin_panic_fmt");
        lemma_other_start(p, "std::rt::begin_panic_fmt", 5);
        reveal_strlit("alloc::alloc::");
        lemma_other_start(p, "alloc::alloc::", 0);
        reveal_strlit("std::alloc::");
        lemma_other_start(p, "std::alloc::", 5);
        reveal_strlit("core::alloc::Allocator::");
        lemma_other_start(p, "core::alloc::Allocator::", 0);
        reveal_strlit("std::alloc::Allocator::");
        lemma_other_start(p, "std::alloc::Allocator::", 5);
        reveal_strlit("core::mem::transmute");
        lemma_other_start(p, "core::mem::transmute", 0);
        reveal_strlit("std::mem::transmute");
        lemma_other_start(p, "std::mem::transmute", 5);
        reveal_strlit("core::intrinsics::transmute");
        lemma_other_start(p, "core::intrinsics::transmute", 0);
        reveal_strlit("std::intrinsics::transmute");
        lemma_other_start(p, "std::intrinsics::transmute", 5);
        reveal_strlit("core::intrinsics::transmute_unchecked");
        lemma_other_start(p, "core::intrinsics::transmute_unchecked", 0);
        reveal_strlit("std::intrinsics::transmute_unchecked");
        lemma_other_start(p, "std::intrinsics::transmute_unchecked", 5);
        reveal_strlit("core::ptr::read_volatile");
        lemma_other_start(p, "core::ptr::read_volatile", 0);
        reveal_strlit("std::ptr::read_volatile");
        lemma_other_start(p, "std::ptr::read_volatile", 5);
        reveal_strlit("core::ptr::write_volatile");
        lemma_other_start(p, "core::ptr::write_volatile", 0);
        reveal_strlit("std::ptr::write_volatile");
        lemma_other_start(p, "std::ptr::write_volatile", 5);
        reveal_strlit("core::sync::atomic::");
        lemma_other_start(p, "core::sync::atomic::", 0);
        reveal_strlit("std::sync::atomic::");
        lemma_other_start(p, "std::sync::atomic::", 5);
    }
}

/// The functions that a panic goes through are known as such: those of the panicking module of
/// either root, its two macros' own, and those of the runtime.
pub proof fn law_panic_entry_points_are_known(root: Seq<char>, x: Seq<char>)
    requires
        root == "core"@ || root == "std"@,
    ensures
        panic_call_path(root + "::panicking::"@ + x),
        panic_call_path(root + "::panic"@),
        panic_call_path(root + "::panic_any"@),
        x == "panic_fmt"@ || x == "panic_display"@ || x == "begin_panic"@ || x
            == "begin_panic_fmt"@ ==> panic_call_path("std::rt::"@ + x),
{
    reveal_strlit("std::rt::");
    reveal_strlit("core");
    reveal_strlit("::panicking::");
    reveal_strlit("core::panicking::");
    assert("core"@ + "::panicking::"@ =~= "core::panicking::"@);
    reveal_strlit("core");
    reveal_strlit("::panic");
    reveal_strlit("core::panic");
    assert("core"@ + "::panic"@ =~= "core::panic"@);
    reveal_strlit("core");
    reveal_strlit("::panic_any");
    reveal_strlit("core::panic_any");
    assert("core"@ + "::panic_any"@ =~= "core::panic_any"@);
    reveal_strlit("std");
    reveal_strlit("::panicking::");
    reveal_strlit("std::panicking::");
    assert("std"@ + "::panicking::"@ =~= "std::panicking::"@);
    reveal_strlit("std");
    reveal_strlit("::panic");
    reveal_strlit("std::panic");
    assert("std"@ + "::panic"@ =~= "std::panic"@);
    reveal_strlit("std");
    reveal_strlit("::panic_any");
    reveal_strlit("std::panic_any");
    assert("std"@ + "::panic_any"@ =~= "std::panic_any"@);
    reveal_strlit("panic_fmt");
    reveal_strlit("std::rt::panic_fmt");
    assert("std::rt::"@ + "panic_fmt"@ =~= "std::rt::panic_fmt"@);
    reveal_strlit("panic_display");
    reveal_strlit("std::rt::panic_display");
    assert("std::rt::"@ + "panic_display"@ =~= "std::rt::panic_display"@);
    reveal_strlit("begin_panic");
    reveal_strlit("std::rt::begin_panic");
    assert("std::rt::"@ + "begin_panic"@ =~= "std::rt::begin_panic"@);
    reveal_strlit("begin_panic_fmt");
    reveal_strlit("std::rt::begin_panic_fmt");
    assert("std::rt::"@ + "begin_panic_fmt"@ =~= "std::rt::begin_panic_fmt"@);
    let p = root + "::panicking::"@ + x;
    if root == "core"@ {
        assert(p.subrange(0, 17) =~= "core::panicking::"@);
    } else {
        assert(p.subrange(0, 16) =~= "std::panicking::"@);
    }
}

/// The rules on calls are on no other functions: a call that breaks one of them by its path is of a
/// function that the rule is written down for.
pub proof fn law_no_other_calls_are_refused(sc: Scope, p: Seq<char>, span: Span, rule: RuleId)
    requires
        breaks(path_findings(sc, p, span), rule),
    ensures
        rule == rules::PB043 || rule == rules::PB011 || rule == rules::PB007 || rule == rules::PB025
            || rule == rules::PB023 || rule == rules::PB028,
        rule == rules::PB011 ==> "alloc::alloc::"@.is_prefix_of(p)
            || "std::alloc::"@.is_prefix_of(p) || "core::alloc::Allocator::"@.is_prefix_of(p),
        rule == rules::PB007 ==> p == "core::mem::transmute"@ || p == "std::mem::transmute"@ || p
            == "core::intrinsics::transmute"@ || p == "std::intrinsics::transmute"@ || p
            == "core::intrinsics::transmute_unchecked"@ || p
            == "std::intrinsics::transmute_unchecked"@,
        rule == rules::PB025 ==> p == "core::ptr::read_volatile"@ || p
            == "std::ptr::read_volatile"@ || p == "core::ptr::write_volatile"@ || p
            == "std::ptr::write_volatile"@,
        rule == rules::PB023 ==> "core::sync::atomic::"@.is_prefix_of(p)
            || "std::sync::atomic::"@.is_prefix_of(p),
        rule == rules::PB028 ==> p == "std::thread::spawn"@
            || "std::thread::Builder::spawn"@.is_prefix_of(p),
{
    reveal_strlit("std::alloc::");
    reveal_strlit("std::alloc::Allocator::");
    lemma_begins_is_prefix(p, "alloc::alloc::");
    lemma_begins_is_prefix(p, "std::alloc::");
    lemma_begins_is_prefix(p, "std::alloc::Allocator::");
    lemma_begins_is_prefix(p, "core::alloc::Allocator::");
    lemma_begins_is_prefix(p, "core::sync::atomic::");
    lemma_begins_is_prefix(p, "std::sync::atomic::");
    lemma_begins_is_prefix(p, "std::thread::Builder::spawn");
    if begins(p, "std::alloc::Allocator::") {
        assert(p.subrange(0, 12) =~= p.subrange(0, 23).subrange(0, 12));
        assert("std::alloc::Allocator::"@.subrange(0, 12) =~= "std::alloc::"@);
    }
}

/// No other function is taken for one that a panic goes through.
pub proof fn law_no_other_paths_are_panics(p: Seq<char>)
    requires
        panic_call_path(p),
    ensures
        "core::panicking::"@.is_prefix_of(p) || "std::panicking::"@.is_prefix_of(p) || p
            == "core::panic"@ || p == "std::panic"@ || p == "core::panic_any"@ || p
            == "std::panic_any"@ || p == "std::rt::panic_fmt"@ || p == "std::rt::panic_display"@
            || p == "std::rt::begin_panic"@ || p == "std::rt::begin_panic_fmt"@,
{
    lemma_begins_is_prefix(p, "core::panicking::");
    lemma_begins_is_prefix(p, "std::panicking::");
}

} // verus!
