//! The longer messages: their fixed parts, and how they are put together from what they show.
use vstd::prelude::*;
use crate::text::{cat3, cat7, join, joined, views};

verus! {

/// Stands between the cause and the clause of a refusal.
pub const INPUT: &'static str = " — input: ";

pub const BOUND_UNTRANSLATED: &'static str = "rejecting precondition (predicate parsed and bound but translation failed): ";

pub const UNBOUND_HEAD: &'static str = "rejecting precondition (predicate variable `";

pub const UNBOUND_TAIL: &'static str = "` does not bind to any operand of this binary op, and the string is not a valid SMT-LIB `(assert ...)` form): input: ";

pub const UNREADABLE: &'static str = "rejecting precondition (neither a valid predicate nor a single SMT-LIB `(assert ...)` form): ";

pub const NEGATION_UNTRANSLATED: &'static str = "rejecting precondition (parsed and bound to the negation operand but translation failed): ";

pub const NEGATION_UNBOUND: &'static str = "rejecting precondition (not bindable to the negation operand and not a valid SMT-LIB `(assert ...)` form): ";

pub const PANIC_UNREADABLE: &'static str = "PB043: rejecting precondition (not a valid SMT-LIB `(assert ...)` form): ";

pub const INDEX_PAIR_UNTRANSLATED: &'static str = "PB054: rejecting precondition (ident-vs-ident parsed but translation failed): ";

pub const INDEX_PAIR_UNBOUND: &'static str = "PB054: rejecting precondition (ident-vs-ident parsed but at least one side does not resolve in the SMT problem). Known names: ";

pub const INDEX_UNTRANSLATED: &'static str = "PB054: rejecting precondition (predicate parsed and bound but translation failed): ";

pub const INDEX_UNREADABLE: &'static str = "PB054: rejecting precondition (not a recognized predicate form nor a valid SMT-LIB `(assert ...)` form): ";

pub const RETURN_NOT_INTEGER: &'static str = "PB076: ensures on a function whose return type is not a primitive integer — cannot size the `result` bit-vector, so the postcondition cannot be discharged; obligation pending.";

pub const RETURN_UNSUPPORTED_HEAD: &'static str = "PB076: unsupported return type ";

pub const RETURN_UNSUPPORTED_TAIL: &'static str = " for ensures discharge; pending.";

pub const EFFECT_UNKNOWN: &'static str = "PB076: could not capture the function's return value (body effect) — only single-block straight-line returns of a (return-typed) argument or a constant are captured today; arithmetic, branches, and calls stay pending (arithmetic body effects land in the Q.4b follow-up).";

pub const RESULT_SHADOWED: &'static str = "PB076: a function parameter is named `result`, which collides with the reserved binding for the return value — cannot disambiguate input from output; obligation pending.";

pub const PRECONDITION_HEAD: &'static str = "PB076: precondition ";

pub const PRECONDITION_TAIL: &'static str = " could not be translated to a well-sorted assumption over the return-typed arguments — use `<ident> <cmp> <literal>` or `<ident> <cmp> <ident>` over those arg names (preconditions may NOT reference `result`, the output; raw SMT-LIB specs are deferred); obligation pending.";

pub const POSTCONDITION_HEAD: &'static str = "PB076: postcondition ";

pub const POSTCONDITION_TAIL: &'static str = " could not be translated — use `result <cmp> <literal>` or `result <cmp> <return-typed arg>` (raw SMT-LIB specs are deferred); obligation pending.";

pub const HYPOTHESIS_HEAD: &'static str = "PB077: caller precondition ";

pub const HYPOTHESIS_NAMES: &'static str = " not usable as a call-site hypothesis (an identifier does not name exactly one parameter of this function of a supported primitive integer type) — any call-site proof this enables is correspondingly weaker";

pub const HYPOTHESIS_TYPES: &'static str = " not usable as a call-site hypothesis (both sides must share a primitive integer type)";

pub const HYPOTHESIS_UNTRANSLATED: &'static str = " failed to translate to SMT and was not used as a call-site hypothesis";

pub const HYPOTHESIS_NAME_HEAD: &'static str = " not usable as a call-site hypothesis (`";

pub const HYPOTHESIS_NAME_TAIL: &'static str = "` does not name exactly one parameter of this function of a supported primitive integer type)";

pub const HYPOTHESIS_RAW: &'static str = " not usable as a call-site hypothesis (raw SMT-LIB clauses are not translated for this purpose)";

pub const BINARY_HEAD: &'static str = "PB049: BinaryOp ";

pub const BINARY_UNRESOLVED: &'static str = " skipped — operand type unresolvable (likely a projected operand like `p.0 + p.1`, or a non-primitive-int type). v0.2 scaffold can only emit overflow obligations when both operands are direct reads of locals with primitive-integer types. This gap is tracked for v0.3+ projection-type resolution.";

pub const BINARY_DIFFER: &'static str = " skipped — operand types differ (";

pub const BINARY_DIFFER_TAIL: &'static str = "). Should be unreachable in well-formed MIR post-coercion; if you see this note, the visitor encountered an unusual lowering and the gap is worth investigating.";

pub const NEGATION_UNRESOLVED: &'static str = "PB049: unary negation skipped — operand type unresolvable (projected operand, or a non-primitive-int type like a float whose negation cannot overflow). The v0.2 visitor emits the negation-overflow obligation only for direct reads of signed-integer locals; this gap is tracked for v0.3+.";

pub const CAST_ACCEPTED: &'static str = "PB051: `as` integer cast accepted — constant ";

pub const CAST_FROM: &'static str = " is value-preserving from ";

pub const CAST_TAIL: &'static str = " (no truncation or sign-change). Non-constant or value-changing casts remain rejected.";

pub const CAST_REJECTED: &'static str = "`as` integer cast (non-constant or value-changing); use `TryFrom` instead";

pub const CALL_UNPROVEN_HEAD: &'static str = "call to `";

pub const CALL_UNPROVEN_TAIL: &'static str = "`, which carries precondition(s): this call site's actual arguments could not be encoded (call-site discharge covers constant integer actuals and bare caller-parameter actuals today), so this call is UNPROVEN (the callee was verified assuming its preconditions; nothing proves this call satisfies them) — fails closed as a coverage gap";

pub const LIBRARY_CALL_HEAD: &'static str = "untrusted stdlib call `";

pub const LIBRARY_CALL_TAIL: &'static str = "`: not on the prelude allow-list of total (panic-free) methods, so its panic-freedom is unproven — fails closed. Add it to the prelude (`is_trusted_total_library_call`) if it is genuinely total, or annotate the caller `#[pitbull::trusted]`.";

pub const CALLEE_UNKNOWN: &'static str = "callee not classified (non-FnDef const operand); reachability driver continues but no path-specific rule was applied at this call site";

pub const TRUSTED_ENSURES: &'static str = "PB076: ensures on trusted body — assumed but not proven; caller-side propagation of trusted postconditions is out of scope for the v0.2 MVP";

pub const NO_RETURN: &'static str = "PB076: function declares `#[pitbull::ensures]` but its body has no return point (it diverges — infinite loop, always panics, or `-> !`), OR the MIR adapter did not surface a return terminator. The postcondition obligation is emitted at the body span and reported undischarged (fail closed): we will not report success for a declared postcondition we could not attach to an exit point. If the divergence is intentional, the ensures is dead and should be removed.";

/// The refusal of a clause that is shown as `shown`.
pub open spec fn refusal_text(lead: Seq<char>, cause: Seq<char>, shown: Seq<char>) -> Seq<char> {
    lead + cause + INPUT@ + shown
}

/// Writes the refusal of a clause that is shown as `shown`.
pub fn write_refusal(lead: &str, cause: &str, shown: &str) -> (r: String)
    ensures
        r@ == refusal_text(lead@, cause@, shown@),
{
    let mut r = cat3(lead, cause, INPUT);
    r.append(shown);
    r
}

/// The refusal of a clause about `var`, which is shown as `shown`.
pub open spec fn unbound_text(var: Seq<char>, shown: Seq<char>) -> Seq<char> {
    UNBOUND_HEAD@ + var + UNBOUND_TAIL@ + shown
}

/// Writes the refusal of a clause about `var`, which is shown as `shown`.
pub fn write_unbound(var: &str, shown: &str) -> (r: String)
    ensures
        r@ == unbound_text(var@, shown@),
{
    let mut r = cat3(UNBOUND_HEAD, var, UNBOUND_TAIL);
    r.append(shown);
    r
}

/// A list of names, each as it is shown.
pub open spec fn list_text(shown: Seq<Seq<char>>) -> Seq<char> {
    "["@ + joined(shown, ", "@) + "]"@
}

/// Writes a list of names, each as it is shown.
pub fn write_list(shown: &Vec<String>) -> (r: String)
    ensures
        r@ == list_text(views(shown@)),
{
    cat3("[", join(shown, ", ").as_str(), "]")
}

/// The refusal of a clause over `lhs` and `rhs` where only `names` are known.
pub open spec fn unresolved_text(
    names: Seq<char>,
    lhs: Seq<char>,
    rhs: Seq<char>,
    shown: Seq<char>,
) -> Seq<char> {
    INDEX_PAIR_UNBOUND@ + names + "; got lhs="@ + lhs + " rhs="@ + rhs + "; input: "@ + shown
}

/// Writes the refusal of a clause over `lhs` and `rhs` where only `names` are known.
pub fn write_unresolved(names: &str, lhs: &str, rhs: &str, shown: &str) -> (r: String)
    ensures
        r@ == unresolved_text(names@, lhs@, rhs@, shown@),
{
    let mut r = cat7(INDEX_PAIR_UNBOUND, names, "; got lhs=", lhs, " rhs=", rhs, "; input: ");
    r.append(shown);
    r
}

} // verus!
