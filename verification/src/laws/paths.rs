//! What holds of the classification of calls by path.
use vstd::prelude::*;
use crate::clauses::{judged_all, kept, refused, SiteView};
use crate::diagnostic::gap_count;
use crate::findings::{group_findings, obligation, remark, remarks, Finding, Tally};
use crate::laws::walk::{harmless, weighs};
use crate::mir_api::{ConstOperand, Span};
use crate::paths::{
    panic_call_path, panicking_call, panicking_char_method, panicking_index_or_slice_call,
    panicking_int_method, panicking_library_call, stdlib_namespace_path, trusted_total_library_call,
};
use crate::rules;
use crate::text::{begins, decimal};
use crate::vc::KindView;
use crate::walk::{
    allocator_path, callee_findings, path_findings, transmute_path, volatile_path, Scope,
};

verus! {

/// No call that is known to panic is trusted to be total.
pub proof fn law_trusted_calls_do_not_panic(p: Seq<char>)
    requires
        trusted_total_library_call(p),
    ensures
        !panicking_library_call(p),
        !panicking_int_method(p),
        !panicking_index_or_slice_call(p),
        !panicking_char_method(p),
{
}

/// Calls into the standard library fail closed: under strict library acceptance, a call that
/// is found harmless is a call out of the standard library's namespace or one
/// that is trusted to be total. A call whose callee has no path leaves something always.
pub proof fn law_library_calls_fail_closed(sc: Scope, c: ConstOperand, span: Span)
    requires
        sc.settings.config.verification.strict_library_acceptance,
        harmless(callee_findings(sc, c, span)),
    ensures
        c.path is Some,
        !stdlib_namespace_path(c.path->0@) || trusted_total_library_call(c.path->0@),
        !panic_call_path(c.path->0@),
        !panicking_call(c.path->0@),
{
    let fs = callee_findings(sc, c, span);
    assert(fs.len() > 0 ==> weighs(fs[0]));
}

/// Without strict library acceptance the calls that are known to panic are not found harmless
/// either.
pub proof fn law_panicking_calls_are_never_accepted(sc: Scope, c: ConstOperand, span: Span)
    requires
        c.path is Some,
        panic_call_path(c.path->0@) || panicking_call(c.path->0@),
    ensures
        !harmless(callee_findings(sc, c, span)),
{
    let fs = callee_findings(sc, c, span);
    assert(weighs(fs[0]));
}

/// Whether a rule on calls other than that on panics applies to `p`.
pub open spec fn ruled_otherwise(p: Seq<char>) -> bool {
    allocator_path(p) || transmute_path(p) || volatile_path(p) || begins(
        p,
        "core::sync::atomic::",
    ) || begins(p, "std::sync::atomic::") || p == "std::thread::spawn"@ || begins(
        p,
        "std::thread::Builder::spawn",
    )
}

/// A call that may panic is a violation in strict mode and nothing else; otherwise it is one
/// obligation that it is not reached, and no violation.
pub proof fn law_panic_modes(sc: Scope, p: Seq<char>, span: Span)
    requires
        panic_call_path(p) || (panicking_call(p) && !ruled_otherwise(p)),
    ensures
        ({
            let fs = path_findings(sc, p, span);
            if sc.settings.config.verification.strict_panic_acceptance {
                fs.len() == 1 && (fs[0] matches Finding::Violation { rule: found, .. } && found
                    == rules::PB043)
            } else {
                &&& fs.len() >= 1
                &&& (fs[0] matches Finding::Obligation { kind: KindView::PanicReachability, .. })
                &&& forall|i: int| 1 <= i < fs.len() ==> !weighs(#[trigger] fs[i])
            }
        }),
{
}

/// Recording remarks adds notes alone.
proof fn lemma_remarks_add_notes(t: Tally, span: Span, messages: Seq<Seq<char>>)
    ensures
        t.record(remarks(span, messages)).errors == t.errors,
        t.record(remarks(span, messages)).obligations == t.obligations,
        gap_count(t.record(remarks(span, messages)).notes) == gap_count(t.notes),
    decreases messages.len(),
{
    let all = remarks(span, messages);
    if messages.len() > 0 {
        let short = messages.drop_last();
        lemma_remarks_add_notes(t, span, short);
        assert(all.drop_last() =~= remarks(span, short));
        assert(all.last() == remark(span, messages.last()));
        let before = t.record(remarks(span, short));
        let after = t.record(all);
        assert(after.notes.drop_last() =~= before.notes);
    }
}

/// A call that may panic, in the reports of two visitors of which one is strict on panics: the
/// strict one has one more violation, of the rule on panics, and no more obligations or notes; the
/// other has one more obligation that the call is not reached, numbered by its position, and no
/// more violations or coverage gaps.
pub proof fn law_panic_modes_in_reports(
    strict: Scope,
    lenient: Scope,
    c: ConstOperand,
    span: Span,
    t: Tally,
)
    requires
        strict.settings.config.verification.strict_panic_acceptance,
        !lenient.settings.config.verification.strict_panic_acceptance,
        c.path is Some,
        panic_call_path(c.path->0@) || (panicking_call(c.path->0@) && !ruled_otherwise(
            c.path->0@,
        )),
    ensures
        ({
            let after = t.record(callee_findings(strict, c, span));
            &&& after.errors.len() == t.errors.len() + 1
            &&& t.errors.is_prefix_of(after.errors)
            &&& after.errors.last().rule == rules::PB043
            &&& after.obligations == t.obligations
            &&& after.notes == t.notes
        }),
        ({
            let after = t.record(callee_findings(lenient, c, span));
            &&& after.errors == t.errors
            &&& after.obligations.len() == t.obligations.len() + 1
            &&& t.obligations.is_prefix_of(after.obligations)
            &&& after.obligations.last().kind == KindView::PanicReachability
            &&& after.obligations.last().id == "pb043-panic-"@ + decimal(t.obligations.len())
            &&& gap_count(after.notes) == gap_count(t.notes)
        }),
{
    broadcast use group_findings;

    let fs = callee_findings(strict, c, span);
    assert(fs =~= seq![fs[0]]);
    let gs = callee_findings(lenient, c, span);
    let clauses = judged_all(SiteView::Panic, lenient.settings.preconditions);
    let first = obligation(
        span,
        KindView::PanicReachability,
        Seq::<Seq<char>>::empty() + kept(clauses),
    );
    assert(gs == seq![first] + remarks(span, refused(clauses)));
    lemma_remarks_add_notes(t.with(first), span, refused(clauses));
    assert(t.record(seq![first]).record(remarks(span, refused(clauses))) == t.record(gs));
}

/// A text that starts with a longer text starts with what that one starts with.
proof fn lemma_begins_shorter(p: Seq<char>, long: &str, short: &str)
    requires
        begins(p, long),
        begins(long@, short),
    ensures
        begins(p, short),
{
    let n = short@.len() as int;
    assert(p.subrange(0, n) =~= p.subrange(0, long@.len() as int).subrange(0, n));
}

/// The rules on calls other than that on panics are on paths of the standard library.
proof fn lemma_ruled_paths_are_library_paths(p: Seq<char>)
    requires
        ruled_otherwise(p) || panic_call_path(p),
    ensures
        stdlib_namespace_path(p),
{
    reveal_strlit("core::");
    reveal_strlit("std::");
    reveal_strlit("alloc::");
    reveal_strlit("alloc::alloc::");
    reveal_strlit("std::alloc::");
    reveal_strlit("core::alloc::Allocator::");
    reveal_strlit("std::alloc::Allocator::");
    reveal_strlit("core::sync::atomic::");
    reveal_strlit("std::sync::atomic::");
    reveal_strlit("std::thread::Builder::spawn");
    reveal_strlit("core::panicking::");
    reveal_strlit("std::panicking::");
    assert("alloc::alloc::"@.subrange(0, 7) =~= "alloc::"@);
    assert("std::alloc::"@.subrange(0, 5) =~= "std::"@);
    assert("core::alloc::Allocator::"@.subrange(0, 6) =~= "core::"@);
    assert("std::alloc::Allocator::"@.subrange(0, 5) =~= "std::"@);
    assert("core::sync::atomic::"@.subrange(0, 6) =~= "core::"@);
    assert("std::sync::atomic::"@.subrange(0, 5) =~= "std::"@);
    assert("std::thread::Builder::spawn"@.subrange(0, 5) =~= "std::"@);
    assert("core::panicking::"@.subrange(0, 6) =~= "core::"@);
    assert("std::panicking::"@.subrange(0, 5) =~= "std::"@);
    if begins(p, "alloc::alloc::") {
        lemma_begins_shorter(p, "alloc::alloc::", "alloc::");
    } else if begins(p, "std::alloc::") {
        lemma_begins_shorter(p, "std::alloc::", "std::");
    } else if begins(p, "core::alloc::Allocator::") {
        lemma_begins_shorter(p, "core::alloc::Allocator::", "core::");
    } else if begins(p, "std::alloc::Allocator::") {
        lemma_begins_shorter(p, "std::alloc::Allocator::", "std::");
    } else if begins(p, "core::sync::atomic::") {
        lemma_begins_shorter(p, "core::sync::atomic::", "core::");
    } else if begins(p, "std::sync::atomic::") {
        lemma_begins_shorter(p, "std::sync::atomic::", "std::");
    } else if begins(p, "std::thread::Builder::spawn") {
        lemma_begins_shorter(p, "std::thread::Builder::spawn", "std::");
    } else if begins(p, "core::panicking::") {
        lemma_begins_shorter(p, "core::panicking::", "core::");
    } else if begins(p, "std::panicking::") {
        lemma_begins_shorter(p, "std::panicking::", "std::");
    } else {
        lemma_named_paths(p);
    }
}

/// The single paths that the rules name are paths of the standard library.
proof fn lemma_named_paths(p: Seq<char>)
    requires
        transmute_path(p) || volatile_path(p) || p == "std::thread::spawn"@ || p == "core::panic"@
            || p == "std::panic"@ || p == "core::panic_any"@ || p == "std::panic_any"@ || p
            == "std::rt::panic_fmt"@ || p == "std::rt::panic_display"@ || p
            == "std::rt::begin_panic"@ || p == "std::rt::begin_panic_fmt"@,
    ensures
        stdlib_namespace_path(p),
{
    reveal_strlit("core::");
    reveal_strlit("std::");
    reveal_strlit("core::mem::transmute");
    reveal_strlit("std::mem::transmute");
    reveal_strlit("core::intrinsics::transmute");
    reveal_strlit("std::intrinsics::transmute");
    reveal_strlit("core::intrinsics::transmute_unchecked");
    reveal_strlit("std::intrinsics::transmute_unchecked");
    reveal_strlit("core::ptr::read_volatile");
    reveal_strlit("std::ptr::read_volatile");
    reveal_strlit("core::ptr::write_volatile");
    reveal_strlit("std::ptr::write_volatile");
    reveal_strlit("std::thread::spawn");
    reveal_strlit("core::panic");
    reveal_strlit("std::panic");
    reveal_strlit("core::panic_any");
    reveal_strlit("std::panic_any");
    reveal_strlit("std::rt::panic_fmt");
    reveal_strlit("std::rt::panic_display");
    reveal_strlit("std::rt::begin_panic");
    reveal_strlit("std::rt::begin_panic_fmt");
    if p[0] == 'c' {
        assert(p.subrange(0, 6) =~= "core::"@);
    } else {
        assert(p.subrange(0, 5) =~= "std::"@);
    }
}

/// A call out of the standard library's namespace that is not taken for a panicking one is accepted
/// at the call: its callee is looked at in its own right.
pub proof fn law_other_calls_are_accepted(sc: Scope, c: ConstOperand, span: Span)
    requires
        c.path is Some,
        !stdlib_namespace_path(c.path->0@),
        !panicking_call(c.path->0@),
    ensures
        callee_findings(sc, c, span).len() == 0,
{
    if ruled_otherwise(c.path->0@) || panic_call_path(c.path->0@) {
        lemma_ruled_paths_are_library_paths(c.path->0@);
    }
}

/// Nor is a call that is trusted to be total refused, unless another rule is on its path.
pub proof fn law_trusted_calls_are_accepted(sc: Scope, c: ConstOperand, span: Span)
    requires
        c.path is Some,
        trusted_total_library_call(c.path->0@),
        !ruled_otherwise(c.path->0@),
        !panic_call_path(c.path->0@),
    ensures
        callee_findings(sc, c, span).len() == 0,
{
}

} // verus!
