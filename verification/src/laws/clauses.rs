//! What holds of the clause language and its translation.
use vstd::prelude::*;
use crate::clauses::{index_names, judged, ClauseView, SiteView};
use crate::predicate::{
    asserted, assertion_check, comparison_at, comparison_term, depth, has_quote, head, ident_end,
    in_range, int_info, is_quote, lemma_trim_bounds, literal_text, modulus, order_name,
    pair_assertion, pair_of, predicate_assertion, predicate_of, stripped, Comparison, PairView,
    PredicateError, PredicateView,
};
use crate::text::{
    decimal, digit, hex, in_class, is_digit, is_white, lemma_run_end, run_end, signed_decimal,
    tail_start, trim_bounds, trimmed, CharClass,
};
use crate::laws::reports::{law_decimal_read_back, lemma_decimal_digits};

verus! {

// ---------------------------------------------------------------------------
// Reading.
// ---------------------------------------------------------------------------

/// No text is a clause of both forms.
pub proof fn law_clause_forms_exclude_each_other(raw: Seq<char>)
    ensures
        predicate_of(raw) is Err || pair_of(raw) is Err,
{
    if predicate_of(raw) is Ok && pair_of(raw) is Ok {
        let d = (head(raw)->Ok_0).2;
        lemma_head_bounds(raw);
        let from = if raw[d] == '-' {
            d + 1
        } else {
            d
        };
        lemma_run_end(raw, from, CharClass::Digit);
    }
}

/// The right side of a clause starts inside the text.
proof fn lemma_head_bounds(s: Seq<char>)
    requires
        head(s) is Ok,
    ensures
        0 <= (head(s)->Ok_0).2 <= s.len(),
{
    let a = run_end(s, 0, CharClass::White);
    lemma_run_end(s, 0, CharClass::White);
    let b = run_end(s, a, CharClass::Ident);
    lemma_run_end(s, a, CharClass::Ident);
    let c = run_end(s, b, CharClass::White);
    lemma_run_end(s, b, CharClass::White);
    let e = (comparison_at(s, c)->0).1;
    lemma_run_end(s, e, CharClass::White);
}

/// No assertion that is written out is a clause: the two ways to give a hypothesis cannot be
/// mistaken for each other.
pub proof fn law_assertions_are_no_clauses(raw: Seq<char>)
    requires
        assertion_check(raw) is Ok,
    ensures
        predicate_of(raw) == Err::<PredicateView, _>(PredicateError::NoIdentifier),
        pair_of(raw) == Err::<PairView, _>(PredicateError::NoIdentifier),
{
    reveal_strlit("(assert");
    let t = trimmed(raw);
    let a = trim_bounds(raw).0;
    lemma_trim_bounds(raw);
    assert(t.subrange(0, 7)[0] == '(');
    assert(t[0] == raw[a]);
}

/// Whether `s` is an identifier.
pub open spec fn is_ident(s: Seq<char>) -> bool {
    s.len() > 0 && !is_digit(s[0]) && forall|i: int|
        0 <= i < s.len() ==> in_class(#[trigger] s[i], CharClass::Ident)
}

/// How an operator is written.
pub open spec fn operator_text(op: Comparison) -> Seq<char> {
    match op {
        Comparison::Lt => "<"@,
        Comparison::Le => "<="@,
        Comparison::Gt => ">"@,
        Comparison::Ge => ">="@,
        Comparison::Eq => "=="@,
        Comparison::Ne => "!="@,
    }
}

/// A run ends where its class does.
pub proof fn lemma_run_end_at(s: Seq<char>, i: int, j: int, k: CharClass)
    requires
        0 <= i <= j <= s.len(),
        forall|m: int| i <= m < j ==> in_class(#[trigger] s[m], k),
        j < s.len() ==> !in_class(s[j], k),
    ensures
        run_end(s, i, k) == j,
    decreases j - i,
{
    if i < j {
        assert(in_class(s[i], k));
        lemma_run_end_at(s, i + 1, j, k);
    }
}

/// The left side and the operator of a clause are read back as they were written.
proof fn lemma_head_of(var: Seq<char>, op: Comparison, right: Seq<char>)
    requires
        is_ident(var),
        right.len() > 0,
        !is_white(right[0]),
        right[0] != '=',
    ensures
        head(var + " "@ + operator_text(op) + " "@ + right) == Ok::<_, PredicateError>(
            (var, op, (var.len() + operator_text(op).len() + 2) as int),
        ),
{
    reveal_strlit(" ");
    reveal_strlit("<");
    reveal_strlit("<=");
    reveal_strlit(">");
    reveal_strlit(">=");
    reveal_strlit("==");
    reveal_strlit("!=");
    let s = var + " "@ + operator_text(op) + " "@ + right;
    let n = var.len() as int;
    let m = n + 1 + operator_text(op).len();
    assert(forall|i: int| 0 <= i < n ==> s[i] == var[i]);
    assert(s[0] == var[0]);
    assert(in_class(var[0], CharClass::Ident));
    assert(s[n] == ' ');
    assert(s[n + 1] == operator_text(op)[0]);
    assert(s[m] == ' ');
    assert(s[m + 1] == right[0]);
    lemma_run_end_at(s, 0, 0, CharClass::White);
    assert forall|i: int| 0 <= i < n implies in_class(#[trigger] s[i], CharClass::Ident) by {
        assert(in_class(var[i], CharClass::Ident));
    }
    lemma_run_end_at(s, 0, n, CharClass::Ident);
    lemma_run_end_at(s, n, n + 1, CharClass::White);
    if operator_text(op).len() == 2 {
        assert(s[n + 2] == operator_text(op)[1]);
    }
    assert(comparison_at(s, n + 1) == Some((op, m)));
    lemma_run_end_at(s, m, m + 1, CharClass::White);
    assert(s.subrange(0, n) =~= var);
}

/// A clause with an integer is read back as it was written.
pub proof fn law_predicates_are_read_back(var: Seq<char>, op: Comparison, v: i128)
    requires
        is_ident(var),
    ensures
        predicate_of(var + " "@ + operator_text(op) + " "@ + signed_decimal(v as int)) == Ok::<
            _,
            PredicateError,
        >(PredicateView { var, op, literal: v as int }),
{
    reveal_strlit("-");
    reveal_strlit(" ");
    let right = signed_decimal(v as int);
    let magnitude: nat = if v < 0 {
        (-v) as nat
    } else {
        v as nat
    };
    lemma_decimal_digits(magnitude);
    law_decimal_read_back(magnitude);
    assert(is_digit(decimal(magnitude)[0]));
    if v < 0 {
        assert(right[0] == '-');
    } else {
        assert(right[0] == decimal(magnitude)[0]);
    }
    lemma_head_of(var, op, right);
    let s = var + " "@ + operator_text(op) + " "@ + right;
    let d = (var.len() + operator_text(op).len() + 2) as int;
    let from = if v < 0 {
        d + 1
    } else {
        d
    };
    let lead = s.len() - right.len();
    assert(lead == d);
    assert(forall|i: int| 0 <= i < right.len() ==> s[d + i] == right[i]);
    assert(s[d] == right[0]);
    assert forall|j: int| from <= j < s.len() implies in_class(
        #[trigger] s[j],
        CharClass::Digit,
    ) by {
        assert(s[j] == right[j - d]);
        assert(s[j] == decimal(magnitude)[j - from]);
    }
    lemma_run_end_at(s, from, s.len() as int, CharClass::Digit);
    lemma_run_end_at(s, s.len() as int, s.len() as int, CharClass::White);
    assert(s.subrange(from, s.len() as int) =~= decimal(magnitude));
}

/// A clause over two identifiers is read back as it was written.
pub proof fn law_pairs_are_read_back(lhs: Seq<char>, op: Comparison, rhs: Seq<char>)
    requires
        is_ident(lhs),
        is_ident(rhs),
    ensures
        pair_of(lhs + " "@ + operator_text(op) + " "@ + rhs) == Ok::<_, PredicateError>(
            PairView { lhs, op, rhs },
        ),
{
    reveal_strlit(" ");
    assert(in_class(rhs[0], CharClass::Ident));
    lemma_head_of(lhs, op, rhs);
    let s = lhs + " "@ + operator_text(op) + " "@ + rhs;
    let d = (lhs.len() + operator_text(op).len() + 2) as int;
    assert(s.len() == d + rhs.len());
    assert forall|j: int| d <= j < s.len() implies in_class(#[trigger] s[j], CharClass::Ident) by {
        assert(s[j] == rhs[j - d]);
    }
    assert(s[d] == rhs[0]);
    lemma_run_end_at(s, d, s.len() as int, CharClass::Ident);
    lemma_run_end_at(s, s.len() as int, s.len() as int, CharClass::White);
    assert(s.subrange(d, s.len() as int) =~= rhs);
}

/// The identifiers of a clause are identifiers.
pub proof fn law_clauses_speak_of_identifiers(raw: Seq<char>)
    ensures
        predicate_of(raw) matches Ok(p) ==> is_ident(p.var),
        pair_of(raw) matches Ok(p) ==> is_ident(p.lhs) && is_ident(p.rhs),
{
    let a = run_end(raw, 0, CharClass::White);
    lemma_run_end(raw, 0, CharClass::White);
    if ident_end(raw, a) is Some {
        lemma_ident_at(raw, a);
    }
    if head(raw) is Ok {
        lemma_head_bounds(raw);
        let d = (head(raw)->Ok_0).2;
        if ident_end(raw, d) is Some {
            lemma_ident_at(raw, d);
        }
    }
}

proof fn lemma_ident_at(s: Seq<char>, i: int)
    requires
        0 <= i,
        ident_end(s, i) is Some,
    ensures
        i < ident_end(s, i)->0 <= s.len(),
        is_ident(s.subrange(i, ident_end(s, i)->0)),
{
    let e = ident_end(s, i)->0;
    lemma_run_end(s, i, CharClass::Ident);
    let t = s.subrange(i, e);
    assert forall|j: int| 0 <= j < t.len() implies in_class(#[trigger] t[j], CharClass::Ident) by {
        assert(t[j] == s[i + j]);
    }
}

// ---------------------------------------------------------------------------
// Literals.
// ---------------------------------------------------------------------------

/// Sixteen to the power of `w`.
pub open spec fn power16(w: nat) -> nat
    decreases w,
{
    if w == 0 {
        1
    } else {
        16 * power16((w - 1) as nat)
    }
}

proof fn lemma_digit_injective(a: int, b: int)
    requires
        0 <= a < 16,
        0 <= b < 16,
        digit(a) == digit(b),
    ensures
        a == b,
{
}

proof fn lemma_hex_injective(n: nat, m: nat, w: nat)
    requires
        n < power16(w),
        m < power16(w),
        hex(n, w) == hex(m, w),
    ensures
        n == m,
    decreases w,
{
    if w > 0 {
        let x = hex(n / 16, (w - 1) as nat);
        let y = hex(m / 16, (w - 1) as nat);
        assert(hex(n, w).last() == digit((n % 16) as int));
        assert(hex(m, w).last() == digit((m % 16) as int));
        assert(hex(n, w).drop_last() =~= x);
        assert(hex(m, w).drop_last() =~= y);
        lemma_digit_injective((n % 16) as int, (m % 16) as int);
        lemma_hex_injective(n / 16, m / 16, (w - 1) as nat);
    }
}

proof fn lemma_modulus_is_power(bits: u32)
    requires
        bits == 8 || bits == 16 || bits == 32 || bits == 64,
    ensures
        modulus(bits) == power16((bits / 4) as nat),
{
    reveal_with_fuel(power16, 17);
}

/// Within the range of a type, different values have different literals: a literal that is checked
/// against its type never stands for another value.
pub proof fn law_literals_are_exact(v: int, w: int, signed: bool, bits: u32)
    requires
        bits == 8 || bits == 16 || bits == 32 || bits == 64,
        in_range(v, signed, bits),
        in_range(w, signed, bits),
        literal_text(v, bits) == literal_text(w, bits),
    ensures
        v == w,
{
    let m = modulus(bits);
    let width = (bits / 4) as nat;
    let x = hex((v % m) as nat, width);
    let y = hex((w % m) as nat, width);
    assert(("#x"@ + x).skip("#x"@.len() as int) =~= x);
    assert(("#x"@ + y).skip("#x"@.len() as int) =~= y);
    lemma_modulus_is_power(bits);
    lemma_hex_injective((v % m) as nat, (w % m) as nat, width);
    if signed {
        if v < 0 {
            assert(v % m == v + m);
        }
        if w < 0 {
            assert(w % m == w + m);
        }
    }
}

/// A clause is translated just if its type has an encoding and its literal is a value of the type;
/// otherwise it is refused, and never wrapped.
pub proof fn law_literals_are_range_checked(p: PredicateView, symbol: Seq<char>, ty: Seq<char>)
    ensures
        predicate_assertion(p, symbol, ty) is Ok <==> crate::predicate::fits(p.literal, ty),
{
}

// ---------------------------------------------------------------------------
// Stripping.
// ---------------------------------------------------------------------------

/// The depth in a longer text is that of its parts.
proof fn lemma_depth_concat(a: Seq<char>, b: Seq<char>, k: int)
    requires
        0 <= k <= a.len() + b.len(),
    ensures
        k <= a.len() ==> depth(a + b, k) == depth(a, k),
        k >= a.len() ==> depth(a + b, k) == depth(a, a.len() as int) + depth(b, k - a.len()),
    decreases k,
{
    if k > 0 {
        lemma_depth_concat(a, b, k - 1);
        if k <= a.len() {
            assert((a + b)[k - 1] == a[k - 1]);
        } else {
            assert((a + b)[k - 1] == b[k - 1 - a.len()]);
        }
    }
}

/// Whether the parentheses of `s` match.
pub open spec fn balanced(s: Seq<char>) -> bool {
    depth(s, s.len() as int) == 0 && forall|k: int|
        0 <= k <= s.len() ==> #[trigger] depth(s, k) >= 0
}

proof fn lemma_balanced_concat(a: Seq<char>, b: Seq<char>)
    requires
        balanced(a),
        balanced(b),
    ensures
        balanced(a + b),
{
    assert forall|k: int| 0 <= k <= (a + b).len() implies #[trigger] depth(a + b, k) >= 0 by {
        lemma_depth_concat(a, b, k);
        if k >= a.len() {
            assert(depth(b, k - a.len()) >= 0);
        } else {
            assert(depth(a, k) >= 0);
        }
    }
    lemma_depth_concat(a, b, (a + b).len() as int);
}

/// Whether `s` has neither parentheses nor quotes.
pub open spec fn is_flat(s: Seq<char>) -> bool {
    forall|i: int| 0 <= i < s.len() ==> #[trigger] s[i] != '(' && s[i] != ')' && !is_quote(s[i])
}

proof fn lemma_flat_depth(s: Seq<char>, k: int)
    requires
        is_flat(s),
        0 <= k <= s.len(),
    ensures
        depth(s, k) == 0,
    decreases k,
{
    if k > 0 {
        lemma_flat_depth(s, k - 1);
        assert(s[k - 1] != '(' && s[k - 1] != ')');
    }
}

proof fn lemma_flat_balanced(s: Seq<char>)
    requires
        is_flat(s),
    ensures
        balanced(s),
{
    assert forall|k: int| 0 <= k <= s.len() implies #[trigger] depth(s, k) >= 0 by {
        lemma_flat_depth(s, k);
    }
    lemma_flat_depth(s, s.len() as int);
}

/// A text in parentheses: inside it the depth is positive.
proof fn lemma_wrapped(inner: Seq<char>)
    requires
        balanced(inner),
    ensures
        ({
            let s = seq!['('] + inner + seq![')'];
            balanced(s) && forall|k: int| 0 < k < s.len() ==> #[trigger] depth(s, k) > 0
        }),
{
    let open = seq!['('];
    let close = seq![')'];
    let s = open + inner + close;
    reveal_with_fuel(depth, 2);
    assert(depth(open, 1) == 1);
    assert(depth(close, 1) == -1);
    assert forall|k: int| 0 <= k <= s.len() implies #[trigger] depth(s, k) >= 0 && (0 < k
        < s.len() ==> depth(s, k) > 0) by {
        lemma_depth_concat(open + inner, close, k);
        if k <= (open + inner).len() {
            lemma_depth_concat(open, inner, k);
            if k >= 1 {
                assert(depth(inner, k - 1) >= 0);
            }
        } else {
            lemma_depth_concat(open, inner, (open + inner).len() as int);
        }
    }
    lemma_depth_concat(open + inner, close, s.len() as int);
    lemma_depth_concat(open, inner, (open + inner).len() as int);
}

/// A text that neither starts nor ends in white space is its own trimmed form.
proof fn lemma_trimmed_is(s: Seq<char>, lead: Seq<char>)
    requires
        s.len() > 0,
        !is_white(s[0]),
        !is_white(s.last()),
        forall|i: int| 0 <= i < lead.len() ==> is_white(#[trigger] lead[i]),
    ensures
        trimmed(lead + s) == s,
{
    let t = lead + s;
    let n = lead.len() as int;
    assert forall|m: int| 0 <= m < n implies in_class(#[trigger] t[m], CharClass::White) by {
        assert(t[m] == lead[m]);
    }
    assert(t[n] == s[0]);
    lemma_run_end_at(t, 0, n, CharClass::White);
    assert(t[t.len() - 1] == s.last());
    assert(tail_start(t, n, t.len() as int) == t.len());
    assert(t.subrange(n, t.len() as int) =~= s);
}

/// What an assertion of a term in parentheses is about is that term.
proof fn lemma_strip_wrapped(inner: Seq<char>)
    requires
        balanced(inner),
        !has_quote(inner),
    ensures
        stripped(asserted(seq!['('] + inner + seq![')'])) == Some(seq!['('] + inner + seq![')']),
{
    reveal_strlit("(assert ");
    reveal_strlit("(assert");
    reveal_strlit(")");
    let term = seq!['('] + inner + seq![')'];
    let s = asserted(term);
    let word = seq!['a', 's', 's', 'e', 'r', 't', ' '];
    assert("(assert "@ =~= seq!['('] + word);
    assert(")"@ =~= seq![')']);
    lemma_wrapped(inner);
    assert(is_flat(word));
    lemma_flat_balanced(word);
    lemma_balanced_concat(word, term);
    lemma_wrapped(word + term);
    assert(s =~= seq!['('] + (word + term) + seq![')']);
    assert(s.len() == term.len() + 9);
    assert(s[0] == '(' && s.last() == ')');
    assert(Seq::<char>::empty() + s =~= s);
    lemma_trimmed_is(s, Seq::empty());
    assert(s.subrange(0, 7) =~= "(assert"@);
    assert(s[7] == ' ');
    assert(!has_quote(s)) by {
        if has_quote(s) {
            let i = choose|i: int| 0 <= i < s.len() && is_quote(#[trigger] s[i]);
            if 9 <= i < s.len() - 2 {
                assert(s[i] == inner[i - 9]);
            }
        }
    }
    assert(s.subrange(7, s.len() - 1) =~= seq![' '] + term);
    assert(term[0] == '(' && term.last() == ')');
    lemma_trimmed_is(term, seq![' ']);
}

proof fn lemma_flat_concat(a: Seq<char>, b: Seq<char>)
    requires
        is_flat(a),
        is_flat(b),
    ensures
        is_flat(a + b),
{
    assert forall|i: int| 0 <= i < (a + b).len() implies #[trigger] (a + b)[i] != '(' && (a
        + b)[i] != ')' && !is_quote((a + b)[i]) by {
        if i < a.len() {
            assert((a + b)[i] == a[i]);
        } else {
            assert((a + b)[i] == b[i - a.len()]);
        }
    }
}

proof fn lemma_order_name_flat(op: Comparison, signed: bool)
    ensures
        is_flat(order_name(op, signed)),
{
    reveal_strlit("bvult");
    reveal_strlit("bvule");
    reveal_strlit("bvugt");
    reveal_strlit("bvuge");
    reveal_strlit("bvslt");
    reveal_strlit("bvsle");
    reveal_strlit("bvsgt");
    reveal_strlit("bvsge");
    reveal_strlit("=");
}

/// Stripping an assertion gives back the comparison that was asserted.
pub proof fn law_stripping_undoes_asserting(
    op: Comparison,
    signed: bool,
    a: Seq<char>,
    b: Seq<char>,
)
    requires
        is_flat(a),
        is_flat(b),
    ensures
        stripped(asserted(comparison_term(op, signed, a, b))) == Some(
            comparison_term(op, signed, a, b),
        ),
{
    reveal_strlit("(");
    reveal_strlit(")");
    reveal_strlit(" ");
    reveal_strlit("(not ");
    lemma_order_name_flat(op, signed);
    let name = order_name(op, signed);
    let flat = name + " "@ + a + " "@ + b;
    lemma_flat_concat(name, " "@);
    lemma_flat_concat(name + " "@, a);
    lemma_flat_concat(name + " "@ + a, " "@);
    lemma_flat_concat(name + " "@ + a + " "@, b);
    lemma_flat_balanced(flat);
    assert(!has_quote(flat)) by {
        if has_quote(flat) {
            let i = choose|i: int| 0 <= i < flat.len() && is_quote(#[trigger] flat[i]);
            assert(!is_quote(flat[i]));
        }
    }
    let inner = "("@ + name + " "@ + a + " "@ + b + ")"@;
    assert(inner =~= seq!['('] + flat + seq![')']);
    if op == Comparison::Ne {
        let word = seq!['n', 'o', 't', ' '];
        assert(is_flat(word));
        lemma_flat_balanced(word);
        lemma_wrapped(flat);
        lemma_balanced_concat(word, inner);
        assert("(not "@ + inner + ")"@ =~= seq!['('] + (word + inner) + seq![')']);
        assert(!has_quote(word + inner)) by {
            if has_quote(word + inner) {
                let i = choose|i: int|
                    0 <= i < (word + inner).len() && is_quote(#[trigger] (word + inner)[i]);
                if 5 <= i < 5 + flat.len() {
                    assert((word + inner)[i] == flat[i - 5]);
                }
            }
        }
        lemma_strip_wrapped(word + inner);
    } else {
        lemma_strip_wrapped(flat);
    }
}

/// An identifier has neither parentheses nor quotes.
pub proof fn lemma_ident_flat(s: Seq<char>)
    requires
        is_ident(s),
    ensures
        is_flat(s),
{
    assert forall|i: int| 0 <= i < s.len() implies #[trigger] s[i] != '(' && s[i] != ')'
        && !is_quote(s[i]) by {
        assert(in_class(s[i], CharClass::Ident));
    }
}

proof fn lemma_hex_flat(n: nat, w: nat)
    ensures
        is_flat(hex(n, w)),
    decreases w,
{
    if w > 0 {
        lemma_hex_flat(n / 16, (w - 1) as nat);
        let before = hex(n / 16, (w - 1) as nat);
        assert forall|i: int| 0 <= i < hex(n, w).len() implies #[trigger] hex(n, w)[i] != '('
            && hex(n, w)[i] != ')' && !is_quote(hex(n, w)[i]) by {
            if i < before.len() {
                assert(hex(n, w)[i] == before[i]);
            }
        }
    }
}

/// A literal has neither parentheses nor quotes.
pub proof fn lemma_literal_flat(v: int, bits: u32)
    ensures
        is_flat(literal_text(v, bits)),
{
    reveal_strlit("#x");
    let h = hex((v % modulus(bits)) as nat, (bits / 4) as nat);
    lemma_hex_flat((v % modulus(bits)) as nat, (bits / 4) as nat);
    assert(is_flat("#x"@));
    lemma_flat_concat("#x"@, h);
}

/// The assertion of a clause that is translated is the assertion of a term, which stripping gives
/// back: a clause has a term just if it has an assertion.
pub proof fn law_clauses_have_terms(raw: Seq<char>, ty: Seq<char>)
    ensures
        predicate_of(raw) matches Ok(p) ==> (predicate_assertion(p, p.var, ty) matches Ok(a) ==> (
        stripped(a) is Some && a == asserted(stripped(a)->0))),
        pair_of(raw) matches Ok(p) ==> (pair_assertion(p, ty) matches Ok(a) ==> (stripped(a) is Some
            && a == asserted(stripped(a)->0))),
{
    law_clauses_speak_of_identifiers(raw);
    if let Ok(p) = predicate_of(raw) {
        lemma_ident_flat(p.var);
        if let Some((signed, bits)) = int_info(ty) {
            lemma_literal_flat(p.literal, bits);
            law_stripping_undoes_asserting(p.op, signed, p.var, literal_text(p.literal, bits));
        }
    }
    if let Ok(p) = pair_of(raw) {
        lemma_ident_flat(p.lhs);
        lemma_ident_flat(p.rhs);
        if let Some((signed, _)) = int_info(ty) {
            law_stripping_undoes_asserting(p.op, signed, p.lhs, p.rhs);
        }
    }
}

// ---------------------------------------------------------------------------
// Clauses at their sites.
// ---------------------------------------------------------------------------

/// At an arithmetic operation a clause is a hypothesis only if it is about an operand that it may
/// be about; a clause about anything else is refused.
pub proof fn law_foreign_clauses_are_refused(
    lhs_arg: Option<Seq<char>>,
    rhs_arg: Option<Seq<char>>,
    ty: Seq<char>,
    raw: Seq<char>,
)
    requires
        predicate_of(raw) is Ok,
        lhs_arg != Some((predicate_of(raw)->Ok_0).var),
        rhs_arg != Some((predicate_of(raw)->Ok_0).var),
    ensures
        judged(SiteView::Arithmetic { lhs_arg, rhs_arg, ty }, raw) is Refuse,
{
    if assertion_check(raw) is Ok {
        law_assertions_are_no_clauses(raw);
    }
}

/// What is kept as a hypothesis is an assertion of one form: a translated clause, or a text that
/// was checked to be one.
pub proof fn law_hypotheses_are_assertions(site: SiteView, raw: Seq<char>)
    ensures
        judged(site, raw) matches ClauseView::Keep(a) ==> (a == raw && assertion_check(raw) is Ok)
            || exists|term: Seq<char>| a == #[trigger] asserted(term),
{
    if let ClauseView::Keep(a) = judged(site, raw) {
        if assertion_check(raw) is Ok {
            law_assertions_are_no_clauses(raw);
        } else {
            match site {
                SiteView::Arithmetic { lhs_arg, rhs_arg, ty } => {
                    let p = predicate_of(raw)->Ok_0;
                    let (signed, bits) = int_info(ty)->0;
                    let lit = literal_text(p.literal, bits);
                    if lhs_arg == Some(p.var) {
                        assert(a == asserted(comparison_term(p.op, signed, "lhs"@, lit)));
                    } else {
                        assert(a == asserted(comparison_term(p.op, signed, "rhs"@, lit)));
                    }
                },
                SiteView::Negation { arg, ty } => {
                    let p = predicate_of(raw)->Ok_0;
                    let (signed, bits) = int_info(ty)->0;
                    let lit = literal_text(p.literal, bits);
                    assert(a == asserted(comparison_term(p.op, signed, "lhs"@, lit)));
                },
                SiteView::Panic => {},
                SiteView::Index { source, ty } => {
                    let (signed, bits) = int_info(ty)->0;
                    match pair_of(raw) {
                        Ok(p) => {
                            assert(a == asserted(comparison_term(p.op, signed, p.lhs, p.rhs)));
                        },
                        Err(_) => {
                            let p = predicate_of(raw)->Ok_0;
                            let lit = literal_text(p.literal, bits);
                            assert(a == asserted(comparison_term(p.op, signed, p.var, lit)));
                        },
                    }
                },
            }
        }
    }
}

/// At an index a clause is a hypothesis only if all its names are known there; a clause about
/// anything else is refused.
pub proof fn law_foreign_index_clauses_are_refused(
    source: Option<Seq<char>>,
    ty: Seq<char>,
    raw: Seq<char>,
)
    requires
        (pair_of(raw) matches Ok(p) && !(index_names(source).contains(p.lhs) && index_names(
            source,
        ).contains(p.rhs))) || (predicate_of(raw) matches Ok(p) && !index_names(source).contains(
            p.var,
        )),
    ensures
        judged(SiteView::Index { source, ty }, raw) is Refuse,
{
    law_clause_forms_exclude_each_other(raw);
    if assertion_check(raw) is Ok {
        law_assertions_are_no_clauses(raw);
    }
}

/// At a call that may panic only an assertion that is written out is a hypothesis: a clause is
/// refused there.
pub proof fn law_clauses_are_refused_at_panics(raw: Seq<char>)
    requires
        predicate_of(raw) is Ok || pair_of(raw) is Ok,
    ensures
        judged(SiteView::Panic, raw) is Refuse,
{
    if assertion_check(raw) is Ok {
        law_assertions_are_no_clauses(raw);
    }
}

} // verus!
