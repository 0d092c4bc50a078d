//! Which rules a type breaks, and the least size that it has.
use vstd::prelude::*;
use crate::findings::{violation, Finding};
use crate::mir_api::{AdtDef, FloatTy, IntTy, RigidTy, Span, Ty, TyKind, UintTy};
use crate::paths::{root_suffix, stdlib_root_suffix};
use crate::rules;
use crate::rules::RuleId;
use crate::text::{begins, cat3, same, starts_with};

verus! {

// ---------------------------------------------------------------------------
// Structs, enums and unions by path.
// ---------------------------------------------------------------------------

/// The paths of `MaybeUninit` behind a standard library root.
pub open spec fn maybe_uninit(rest: Seq<char>) -> bool {
    rest == "mem::MaybeUninit"@
        || rest == "mem::maybe_uninit::MaybeUninit"@
}

fn is_maybe_uninit(rest: &str) -> (r: bool)
    ensures
        r == maybe_uninit(rest@),
{
    same(rest, "mem::MaybeUninit")
        || same(rest, "mem::maybe_uninit::MaybeUninit")
}

/// The paths behind a standard library root of the types that own a heap buffer.
pub open spec fn collection(rest: Seq<char>) -> bool {
    rest == "vec::Vec"@
        || rest == "string::String"@
        || rest == "collections::VecDeque"@
        || rest == "collections::vec_deque::VecDeque"@
        || rest == "collections::BTreeMap"@
        || rest == "collections::btree_map::BTreeMap"@
        || rest == "collections::BTreeSet"@
        || rest == "collections::btree_set::BTreeSet"@
        || rest == "collections::HashMap"@
        || rest == "collections::hash_map::HashMap"@
        || rest == "collections::HashSet"@
        || rest == "collections::hash_set::HashSet"@
        || rest == "collections::LinkedList"@
        || rest == "collections::linked_list::LinkedList"@
        || rest == "collections::BinaryHeap"@
        || rest == "collections::binary_heap::BinaryHeap"@
        || rest == "borrow::Cow"@
        || rest == "ffi::CString"@
        || rest == "ffi::c_str::CString"@
        || rest == "ffi::OsString"@
        || rest == "ffi::os_str::OsString"@
        || rest == "path::PathBuf"@
}

fn is_collection(rest: &str) -> (r: bool)
    ensures
        r == collection(rest@),
{
    same(rest, "vec::Vec")
        || same(rest, "string::String")
        || same(rest, "collections::VecDeque")
        || same(rest, "collections::vec_deque::VecDeque")
        || same(rest, "collections::BTreeMap")
        || same(rest, "collections::btree_map::BTreeMap")
        || same(rest, "collections::BTreeSet")
        || same(rest, "collections::btree_set::BTreeSet")
        || same(rest, "collections::HashMap")
        || same(rest, "collections::hash_map::HashMap")
        || same(rest, "collections::HashSet")
        || same(rest, "collections::hash_set::HashSet")
        || same(rest, "collections::LinkedList")
        || same(rest, "collections::linked_list::LinkedList")
        || same(rest, "collections::BinaryHeap")
        || same(rest, "collections::binary_heap::BinaryHeap")
        || same(rest, "borrow::Cow")
        || same(rest, "ffi::CString")
        || same(rest, "ffi::c_str::CString")
        || same(rest, "ffi::OsString")
        || same(rest, "ffi::os_str::OsString")
        || same(rest, "path::PathBuf")
}

/// The paths of the reference-counting types behind a standard library root.
pub open spec fn reference_counted(rest: Seq<char>) -> bool {
    rest == "rc::Rc"@
        || rest == "rc::Weak"@
        || rest == "sync::Arc"@
        || rest == "sync::Weak"@
}

fn is_reference_counted(rest: &str) -> (r: bool)
    ensures
        r == reference_counted(rest@),
{
    same(rest, "rc::Rc")
        || same(rest, "rc::Weak")
        || same(rest, "sync::Arc")
        || same(rest, "sync::Weak")
}

/// The paths of the cells behind a standard library root.
pub open spec fn cell_type(rest: Seq<char>) -> bool {
    rest == "cell::Cell"@
        || rest == "cell::RefCell"@
        || rest == "cell::OnceCell"@
        || rest == "cell::LazyCell"@
        || rest == "cell::SyncUnsafeCell"@
}

fn is_cell_type(rest: &str) -> (r: bool)
    ensures
        r == cell_type(rest@),
{
    same(rest, "cell::Cell")
        || same(rest, "cell::RefCell")
        || same(rest, "cell::OnceCell")
        || same(rest, "cell::LazyCell")
        || same(rest, "cell::SyncUnsafeCell")
}

/// The paths of the synchronisation primitives behind a standard library root.
pub open spec fn sync_primitive(rest: Seq<char>) -> bool {
    rest == "sync::Mutex"@
        || rest == "sync::RwLock"@
        || rest == "sync::Once"@
        || rest == "sync::OnceLock"@
        || rest == "sync::Barrier"@
        || rest == "sync::Condvar"@
        || rest == "sync::poison::Mutex"@
        || rest == "sync::poison::RwLock"@
        || rest == "sync::poison::Once"@
}

fn is_sync_primitive(rest: &str) -> (r: bool)
    ensures
        r == sync_primitive(rest@),
{
    same(rest, "sync::Mutex")
        || same(rest, "sync::RwLock")
        || same(rest, "sync::Once")
        || same(rest, "sync::OnceLock")
        || same(rest, "sync::Barrier")
        || same(rest, "sync::Condvar")
        || same(rest, "sync::poison::Mutex")
        || same(rest, "sync::poison::RwLock")
        || same(rest, "sync::poison::Once")
}

/// A rule and what to say of the type `path` that breaks it.
pub open spec fn naming(rule: RuleId, what: &str, path: Seq<char>) -> Option<(RuleId, Seq<char>)> {
    Some((rule, what@ + path + "`"@))
}

/// The rule that the standard library type `path` breaks, by what follows its root: the root that
/// it was named through does not matter.
pub open spec fn stdlib_type_rule(rest: Seq<char>, path: Seq<char>) -> Option<
    (RuleId, Seq<char>),
> {
    if maybe_uninit(rest) {
        Some((rules::PB008, "`MaybeUninit`"@))
    } else if rest == "boxed::Box"@ {
        Some((rules::PB011, "`Box<_>`"@))
    } else if collection(rest) {
        naming(rules::PB012, "collection type `", path)
    } else if reference_counted(rest) {
        naming(rules::PB015, "reference-counted type `", path)
    } else if cell_type(rest) {
        naming(rules::PB021, "cell type `", path)
    } else if rest == "cell::UnsafeCell"@ {
        Some((rules::PB022, "`UnsafeCell`"@))
    } else if begins(rest, "sync::atomic::Atomic") {
        naming(rules::PB023, "atomic type `", path)
    } else if sync_primitive(rest) {
        naming(rules::PB024, "synchronization primitive `", path)
    } else if begins(rest, "sync::mpsc::") || begins(rest, "sync::mpmc::") {
        naming(rules::PB030, "channel type `", path)
    } else {
        None
    }
}

/// The rule that a placeholder type breaks, by what follows `__pitbull_`. The type `!` is accepted;
/// a placeholder that is not known is not.
pub open spec fn placeholder_rule(kind: Seq<char>) -> Option<(RuleId, Seq<char>)> {
    if kind == "never"@ {
        None
    } else if kind == "dyn_trait_fallback"@ {
        Some((rules::PB031, "`dyn Trait` type (rigid-ty fallback)"@))
    } else if kind == "coroutine_witness"@ {
        Some((rules::PB027, "coroutine witness type"@))
    } else if kind == "foreign"@ {
        Some((rules::PB056, "foreign (`extern`) type"@))
    } else if kind == "unrigid"@ {
        Some((rules::PB039, "unanalyzable type (non-rigid pattern inner)"@))
    } else {
        Some(
            (
                rules::PB039,
                "unclassified synthetic adapter type `__pitbull_"@ + kind
                    + "` — failing closed (no sound model)"@,
            ),
        )
    }
}

/// The rule that a struct, enum or union breaks, and what to say of it.
pub open spec fn adt_rule(adt: AdtDef) -> Option<(RuleId, Seq<char>)> {
    if adt.is_union {
        naming(rules::PB005, "union type `", adt.path@)
    } else {
        match root_suffix(adt.path@) {
            Some(rest) => stdlib_type_rule(rest, adt.path@),
            None => if begins(adt.path@, "__pitbull_") {
                placeholder_rule(adt.path@.skip(10))
            } else {
                None
            },
        }
    }
}

/// The view of a broken rule.
pub open spec fn rule_view(r: Option<(RuleId, String)>) -> Option<(RuleId, Seq<char>)> {
    match r {
        Some((rule, detail)) => Some((rule, detail@)),
        None => None,
    }
}

fn name_type(rule: RuleId, what: &str, path: &str) -> (r: Option<(RuleId, String)>)
    ensures
        rule_view(r) == naming(rule, what, path@),
{
    Some((rule, cat3(what, path, "`")))
}

fn stdlib_rule_of(rest: &str, path: &str) -> (r: Option<(RuleId, String)>)
    ensures
        rule_view(r) == stdlib_type_rule(rest@, path@),
{
    if is_maybe_uninit(rest) {
        Some((rules::PB008, "`MaybeUninit`".to_owned()))
    } else if same(rest, "boxed::Box") {
        Some((rules::PB011, "`Box<_>`".to_owned()))
    } else if is_collection(rest) {
        name_type(rules::PB012, "collection type `", path)
    } else if is_reference_counted(rest) {
        name_type(rules::PB015, "reference-counted type `", path)
    } else if is_cell_type(rest) {
        name_type(rules::PB021, "cell type `", path)
    } else if same(rest, "cell::UnsafeCell") {
        Some((rules::PB022, "`UnsafeCell`".to_owned()))
    } else if starts_with(rest, "sync::atomic::Atomic") {
        name_type(rules::PB023, "atomic type `", path)
    } else if is_sync_primitive(rest) {
        name_type(rules::PB024, "synchronization primitive `", path)
    } else if starts_with(rest, "sync::mpsc::") || starts_with(rest, "sync::mpmc::") {
        name_type(rules::PB030, "channel type `", path)
    } else {
        None
    }
}

fn placeholder_rule_of(kind: &str) -> (r: Option<(RuleId, String)>)
    ensures
        rule_view(r) == placeholder_rule(kind@),
{
    if same(kind, "never") {
        None
    } else if same(kind, "dyn_trait_fallback") {
        Some((rules::PB031, "`dyn Trait` type (rigid-ty fallback)".to_owned()))
    } else if same(kind, "coroutine_witness") {
        Some((rules::PB027, "coroutine witness type".to_owned()))
    } else if same(kind, "foreign") {
        Some((rules::PB056, "foreign (`extern`) type".to_owned()))
    } else if same(kind, "unrigid") {
        Some((rules::PB039, "unanalyzable type (non-rigid pattern inner)".to_owned()))
    } else {
        Some(
            (
                rules::PB039,
                cat3(
                    "unclassified synthetic adapter type `__pitbull_",
                    kind,
                    "` — failing closed (no sound model)",
                ),
            ),
        )
    }
}

/// The rule that `adt` breaks, and what to say of it.
pub fn rule_of_adt(adt: &AdtDef) -> (r: Option<(RuleId, String)>)
    ensures
        rule_view(r) == adt_rule(*adt),
{
    let path = adt.path.as_str();
    if adt.is_union {
        return name_type(rules::PB005, "union type `", path);
    }
    match stdlib_root_suffix(path) {
        Some(rest) => stdlib_rule_of(rest.as_str(), path),
        None => {
            if starts_with(path, "__pitbull_") {
                proof {
                    reveal_strlit("__pitbull_");
                }
                let n: usize = path.unicode_len();
                placeholder_rule_of(path.substring_char(10, n))
            } else {
                None
            }
        },
    }
}

// ---------------------------------------------------------------------------
// Findings of a type.
// ---------------------------------------------------------------------------

/// The finding of a struct, enum or union.
pub open spec fn adt_findings(adt: AdtDef, span: Span) -> Seq<Finding> {
    match adt_rule(adt) {
        Some((rule, detail)) => seq![violation(rule, span, detail)],
        None => seq![],
    }
}

/// The name of a floating-point type.
pub open spec fn float_name(f: FloatTy) -> Seq<char> {
    match f {
        FloatTy::F16 => "f16"@,
        FloatTy::F32 => "f32"@,
        FloatTy::F64 => "f64"@,
        FloatTy::F128 => "f128"@,
    }
}

/// The findings of a type, those of its components among them.
pub open spec fn ty_findings(ty: Ty, span: Span) -> Seq<Finding>
    decreases ty, 0nat,
{
    match ty.kind {
        TyKind::Param(_) => seq![
            violation(
                rules::PB039,
                span,
                "unresolved type parameter post-monomorphization"@,
            ),
        ],
        TyKind::Dynamic => seq![violation(rules::PB031, span, "`dyn Trait` type"@)],
        TyKind::RigidTy(rigid) => match rigid {
            RigidTy::Bool => seq![],
            RigidTy::Char => seq![],
            RigidTy::Int(_) => seq![],
            RigidTy::Uint(_) => seq![],
            RigidTy::Float(f) => seq![
                violation(rules::PB050, span, "floating-point type `"@ + float_name(f) + "`"@),
            ],
            RigidTy::Ref(_, inner) => ty_findings(*inner, span),
            RigidTy::RawPtr(_, inner) => ty_findings(*inner, span) + seq![
                violation(rules::PB004, span, "raw pointer type (`*const` / `*mut`)"@),
            ],
            RigidTy::Array(inner, _) => ty_findings(*inner, span),
            RigidTy::Slice(inner) => ty_findings(*inner, span),
            RigidTy::Tuple(elems) => tys_findings(elems, elems@.len(), span),
            RigidTy::FnPtr => seq![violation(rules::PB032, span, "function pointer type"@)],
            RigidTy::FnDef(_) => seq![],
            RigidTy::Closure(_) => seq![
                violation(rules::PB033, span, "closure type in signature"@),
            ],
            RigidTy::Adt(adt) => adt_findings(adt, span),
        },
    }
}

/// The findings of the first `n` types of `tys`, in order.
pub open spec fn tys_findings(tys: Vec<Ty>, n: nat, span: Span) -> Seq<Finding>
    decreases tys, n,
{
    if n == 0 || n > tys@.len() {
        seq![]
    } else {
        tys_findings(tys, (n - 1) as nat, span) + ty_findings(tys@[n - 1], span)
    }
}

// ---------------------------------------------------------------------------
// Sizes.
// ---------------------------------------------------------------------------

/// A lower bound of the size of a type in bytes, on a target with pointers of `ptr` bytes, where
/// one can be told: padding is left out, a pointer counts as one word, and a function item has no
/// size at all.
pub open spec fn min_size(ty: Ty, ptr: nat) -> Option<nat>
    decreases ty, 0nat,
{
    match ty.kind {
        TyKind::Param(_) => None,
        TyKind::Dynamic => None,
        TyKind::RigidTy(rigid) => match rigid {
            RigidTy::Bool => Some(1),
            RigidTy::Char => Some(4),
            RigidTy::Int(i) => Some(
                match i {
                    IntTy::I8 => 1,
                    IntTy::I16 => 2,
                    IntTy::I32 => 4,
                    IntTy::I64 => 8,
                    IntTy::I128 => 16,
                    IntTy::Isize => ptr,
                },
            ),
            RigidTy::Uint(u) => Some(
                match u {
                    UintTy::U8 => 1,
                    UintTy::U16 => 2,
                    UintTy::U32 => 4,
                    UintTy::U64 => 8,
                    UintTy::U128 => 16,
                    UintTy::Usize => ptr,
                },
            ),
            RigidTy::Float(f) => Some(
                match f {
                    FloatTy::F16 => 2,
                    FloatTy::F32 => 4,
                    FloatTy::F64 => 8,
                    FloatTy::F128 => 16,
                },
            ),
            RigidTy::Ref(_, _) => Some(ptr),
            RigidTy::RawPtr(_, _) => Some(ptr),
            RigidTy::FnPtr => Some(ptr),
            RigidTy::FnDef(_) => Some(0),
            RigidTy::Array(elem, count) => match min_size(*elem, ptr) {
                Some(size) => Some(count as nat * size),
                None => None,
            },
            RigidTy::Tuple(elems) => min_total(elems, elems@.len(), ptr),
            RigidTy::Slice(_) => None,
            RigidTy::Closure(_) => None,
            RigidTy::Adt(_) => None,
        },
    }
}

/// The sum of the lower bounds of the first `n` types of `tys`.
pub open spec fn min_total(tys: Vec<Ty>, n: nat, ptr: nat) -> Option<nat>
    decreases tys, n,
{
    if n == 0 {
        Some(0)
    } else if n > tys@.len() {
        None
    } else {
        match (min_total(tys, (n - 1) as nat, ptr), min_size(tys@[n - 1], ptr)) {
            (Some(before), Some(size)) => Some(before + size),
            _ => None,
        }
    }
}

/// A size as a `u64` can hold it.
pub open spec fn saturated(n: nat) -> nat {
    if n <= u64::MAX {
        n
    } else {
        u64::MAX as nat
    }
}

/// A size that may be saturated.
pub open spec fn size_view(r: Option<u64>) -> Option<nat> {
    match r {
        Some(n) => Some(n as nat),
        None => None,
    }
}

/// The lower bound of a size, saturated.
pub open spec fn saturated_size(size: Option<nat>) -> Option<nat> {
    match size {
        Some(n) => Some(saturated(n)),
        None => None,
    }
}

/// Whether a local of this size breaks the limit. A size that is at the top of the range counts as
/// over any limit.
pub open spec fn oversized(size: Option<nat>, limit: u64) -> bool {
    match size {
        Some(n) => n > limit || n >= u64::MAX,
        None => false,
    }
}

/// Saturating a factor first does not change a saturated product.
proof fn lemma_saturated_product(count: nat, size: nat)
    requires
        count <= u64::MAX,
    ensures
        saturated(count * saturated(size)) == saturated(count * size),
{
    if size > u64::MAX && count > 0 {
        assert(count * size >= size) by (nonlinear_arith)
            requires
                count > 0,
        ;
        assert(count * u64::MAX as nat >= u64::MAX as nat) by (nonlinear_arith)
            requires
                count > 0,
        ;
    }
}

/// A lower bound of the size of `ty`, at most `u64::MAX`.
pub fn estimate_min_size(ty: &Ty, ptr_bytes: u64) -> (r: Option<u64>)
    ensures
        size_view(r) == saturated_size(min_size(*ty, ptr_bytes as nat)),
    decreases *ty, 0nat,
{
    match &ty.kind {
        TyKind::Param(_) => None,
        TyKind::Dynamic => None,
        TyKind::RigidTy(rigid) => match rigid {
            RigidTy::Bool => Some(1),
            RigidTy::Char => Some(4),
            RigidTy::Int(i) => Some(
                match i {
                    IntTy::I8 => 1,
                    IntTy::I16 => 2,
                    IntTy::I32 => 4,
                    IntTy::I64 => 8,
                    IntTy::I128 => 16,
                    IntTy::Isize => ptr_bytes,
                },
            ),
            RigidTy::Uint(u) => Some(
                match u {
                    UintTy::U8 => 1,
                    UintTy::U16 => 2,
                    UintTy::U32 => 4,
                    UintTy::U64 => 8,
                    UintTy::U128 => 16,
                    UintTy::Usize => ptr_bytes,
                },
            ),
            RigidTy::Float(f) => Some(
                match f {
                    FloatTy::F16 => 2,
                    FloatTy::F32 => 4,
                    FloatTy::F64 => 8,
                    FloatTy::F128 => 16,
                },
            ),
            RigidTy::Ref(_, _) => Some(ptr_bytes),
            RigidTy::RawPtr(_, _) => Some(ptr_bytes),
            RigidTy::FnPtr => Some(ptr_bytes),
            RigidTy::FnDef(_) => Some(0),
            RigidTy::Array(elem, count) => match estimate_min_size(elem, ptr_bytes) {
                Some(size) => {
                    proof {
                        lemma_saturated_product(
                            *count as nat,
                            min_size(**elem, ptr_bytes as nat)->0,
                        );
                    }
                    match count.checked_mul(size) {
                        Some(total) => Some(total),
                        None => Some(u64::MAX),
                    }
                },
                None => None,
            },
            RigidTy::Tuple(elems) => estimate_total(elems, ptr_bytes),
            RigidTy::Slice(_) => None,
            RigidTy::Closure(_) => None,
            RigidTy::Adt(_) => None,
        },
    }
}

/// A sum with a part that has no bound has none.
proof fn lemma_total_none(tys: Vec<Ty>, n: nat, ptr: nat)
    requires
        n <= tys@.len(),
        min_total(tys, n, ptr) is None,
    ensures
        min_total(tys, tys@.len(), ptr) is None,
    decreases tys@.len() - n,
{
    if n < tys@.len() {
        lemma_total_none(tys, n + 1, ptr);
    }
}

fn estimate_total(tys: &Vec<Ty>, ptr_bytes: u64) -> (r: Option<u64>)
    ensures
        size_view(r) == saturated_size(min_total(*tys, tys@.len(), ptr_bytes as nat)),
    decreases *tys, tys@.len() + 1,
{
    let mut sum: u64 = 0;
    let mut i: usize = 0;
    while i < tys.len()
        invariant
            i <= tys@.len(),
            size_view(Some(sum)) == saturated_size(min_total(*tys, i as nat, ptr_bytes as nat)),
        decreases tys@.len() - i,
    {
        match estimate_min_size(&tys[i], ptr_bytes) {
            Some(size) => {
                sum = sum.saturating_add(size);
            },
            None => {
                proof {
                    lemma_total_none(*tys, (i + 1) as nat, ptr_bytes as nat);
                }
                return None;
            },
        }
        i += 1;
    }
    Some(sum)
}

/// Whether a local of type `ty` breaks the limit.
pub fn exceeds_stack_limit(ty: &Ty, ptr_bytes: u64, limit: u64) -> (r: bool)
    ensures
        r == oversized(min_size(*ty, ptr_bytes as nat), limit),
{
    match estimate_min_size(ty, ptr_bytes) {
        Some(size) => size > limit || size == u64::MAX,
        None => false,
    }
}

} // verus!
