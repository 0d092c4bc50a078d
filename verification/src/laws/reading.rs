//! How clauses are read: white space around their parts does not matter, and nothing else is taken
//! for a clause.
use vstd::prelude::*;
use crate::laws::clauses::{is_ident, lemma_run_end_at, operator_text};
use crate::predicate::{
    comparison_at, head, ident_end, pair_of, predicate_of, Comparison, PairView, PredicateError,
    PredicateView,
};
use crate::text::{
    in_class, is_digit, is_white, lemma_run_end, number, run_end, tail_start, trim_bounds, trimmed,
    CharClass,
};

verus! {

/// Whether `w` is white space.
pub open spec fn is_blank(w: Seq<char>) -> bool {
    forall|i: int| 0 <= i < w.len() ==> is_white(#[trigger] w[i])
}

/// Whether `d` is a row of decimal digits.
pub open spec fn is_digits(d: Seq<char>) -> bool {
    d.len() > 0 && forall|i: int| 0 <= i < d.len() ==> is_digit(#[trigger] d[i])
}

/// White space that stands around the parts of a clause.
pub struct Spaces {
    pub before: Seq<char>,
    pub left: Seq<char>,
    pub right: Seq<char>,
    pub behind: Seq<char>,
}

impl Spaces {
    /// Whether it is white space.
    pub open spec fn blank(self) -> bool {
        is_blank(self.before) && is_blank(self.left) && is_blank(self.right) && is_blank(
            self.behind,
        )
    }
}

/// A clause with white space around its parts.
pub open spec fn spaced(w: Spaces, a: Seq<char>, op: Comparison, b: Seq<char>) -> Seq<char> {
    w.before + a + w.left + operator_text(op) + w.right + b + w.behind
}

/// How an integer is written with the digits `d`.
pub open spec fn with_sign(negative: bool, d: Seq<char>) -> Seq<char> {
    if negative {
        "-"@ + d
    } else {
        d
    }
}

/// The integer that is written with the digits `d`.
pub open spec fn signed_number(negative: bool, d: Seq<char>) -> int {
    if negative {
        -(number(d) as int)
    } else {
        number(d) as int
    }
}

proof fn lemma_operators()
    ensures
        "<"@ == seq!['<'],
        "<="@ == seq!['<', '='],
        ">"@ == seq!['>'],
        ">="@ == seq!['>', '='],
        "=="@ == seq!['=', '='],
        "!="@ == seq!['!', '='],
{
    reveal_strlit("<");
    reveal_strlit("<=");
    reveal_strlit(">");
    reveal_strlit(">=");
    reveal_strlit("==");
    reveal_strlit("!=");
    assert("<"@ =~= seq!['<']);
    assert("<="@ =~= seq!['<', '=']);
    assert(">"@ =~= seq!['>']);
    assert(">="@ =~= seq!['>', '=']);
    assert("=="@ =~= seq!['=', '=']);
    assert("!="@ =~= seq!['!', '=']);
}

/// Where the parts of a spaced clause are.
proof fn lemma_spaced_head(w: Spaces, a: Seq<char>, op: Comparison, b: Seq<char>)
    requires
        w.blank(),
        is_ident(a),
        b.len() > 0,
        !is_white(b[0]),
        b[0] != '=',
    ensures
        head(spaced(w, a, op, b)) == Ok::<_, PredicateError>(
            (a, op, spaced(w, a, op, b).len() - b.len() - w.behind.len()),
        ),
{
    lemma_operators();
    let o = operator_text(op);
    let s = spaced(w, a, op, b);
    let i0 = w.before.len() as int;
    let i1 = i0 + a.len();
    let i2 = i1 + w.left.len();
    let i3 = i2 + o.len();
    let i4 = i3 + w.right.len();
    assert forall|k: int| 0 <= k < i0 implies in_class(#[trigger] s[k], CharClass::White) by {
        assert(s[k] == w.before[k]);
    }
    assert(in_class(a[0], CharClass::Ident));
    assert(s[i0] == a[0]);
    lemma_run_end_at(s, 0, i0, CharClass::White);
    assert forall|k: int| i0 <= k < i1 implies in_class(#[trigger] s[k], CharClass::Ident) by {
        assert(s[k] == a[k - i0]);
    }
    assert(s[i2] == o[0]);
    assert(!in_class(s[i1], CharClass::Ident)) by {
        if w.left.len() > 0 {
            assert(s[i1] == w.left[0]);
        }
    }
    lemma_run_end_at(s, i0, i1, CharClass::Ident);
    assert forall|k: int| i1 <= k < i2 implies in_class(#[trigger] s[k], CharClass::White) by {
        assert(s[k] == w.left[k - i1]);
    }
    lemma_run_end_at(s, i1, i2, CharClass::White);
    assert(s[i4] == b[0]);
    assert(s[i3] != '=') by {
        if w.right.len() > 0 {
            assert(s[i3] == w.right[0]);
        }
    }
    if o.len() == 2 {
        assert(s[i2 + 1] == o[1]);
    }
    assert(comparison_at(s, i2) == Some((op, i3)));
    assert forall|k: int| i3 <= k < i4 implies in_class(#[trigger] s[k], CharClass::White) by {
        assert(s[k] == w.right[k - i3]);
    }
    lemma_run_end_at(s, i3, i4, CharClass::White);
    assert(s.subrange(i0, i1) =~= a);
}

/// A clause with an integer is read as it was written, whatever white space stands around its parts
/// and however many zeros lead the digits.
pub proof fn law_spaces_around_bounds_do_not_matter(
    w: Spaces,
    var: Seq<char>,
    op: Comparison,
    negative: bool,
    d: Seq<char>,
)
    requires
        w.blank(),
        is_ident(var),
        is_digits(d),
        i128::MIN <= signed_number(negative, d) <= i128::MAX,
    ensures
        predicate_of(spaced(w, var, op, with_sign(negative, d))) == Ok::<_, PredicateError>(
            PredicateView { var, op, literal: signed_number(negative, d) },
        ),
{
    reveal_strlit("-");
    let b = with_sign(negative, d);
    let s = spaced(w, var, op, b);
    assert(is_digit(d[0]));
    assert(b[0] == if negative {
        '-'
    } else {
        d[0]
    });
    lemma_spaced_head(w, var, op, b);
    let at = s.len() - b.len() - w.behind.len();
    let end = s.len() - w.behind.len();
    let from = if negative {
        at + 1
    } else {
        at
    };
    assert(s[at] == b[0]);
    assert forall|k: int| from <= k < end implies in_class(#[trigger] s[k], CharClass::Digit) by {
        assert(s[k] == b[k - at]);
        assert(s[k] == d[k - from]);
    }
    assert forall|k: int| end <= k < s.len() implies in_class(#[trigger] s[k], CharClass::White) by {
        assert(s[k] == w.behind[k - end]);
    }
    if w.behind.len() > 0 {
        assert(s[end] == w.behind[0]);
    }
    lemma_run_end_at(s, from, end, CharClass::Digit);
    lemma_run_end_at(s, end, s.len() as int, CharClass::White);
    assert(s.subrange(from, end) =~= d);
}

/// A clause over two identifiers is read as it was written, whatever white space stands around its
/// parts.
pub proof fn law_spaces_around_names_do_not_matter(
    w: Spaces,
    lhs: Seq<char>,
    op: Comparison,
    rhs: Seq<char>,
)
    requires
        w.blank(),
        is_ident(lhs),
        is_ident(rhs),
    ensures
        pair_of(spaced(w, lhs, op, rhs)) == Ok::<_, PredicateError>(PairView { lhs, op, rhs }),
{
    assert(in_class(rhs[0], CharClass::Ident));
    lemma_spaced_head(w, lhs, op, rhs);
    let s = spaced(w, lhs, op, rhs);
    let at = s.len() - rhs.len() - w.behind.len();
    let end = s.len() - w.behind.len();
    assert(s[at] == rhs[0]);
    assert forall|k: int| at <= k < end implies in_class(#[trigger] s[k], CharClass::Ident) by {
        assert(s[k] == rhs[k - at]);
    }
    assert forall|k: int| end <= k < s.len() implies in_class(#[trigger] s[k], CharClass::White) by {
        assert(s[k] == w.behind[k - end]);
    }
    if w.behind.len() > 0 {
        assert(s[end] == w.behind[0]);
    }
    lemma_run_end_at(s, at, end, CharClass::Ident);
    lemma_run_end_at(s, end, s.len() as int, CharClass::White);
    assert(s.subrange(at, end) =~= rhs);
}

/// The parts of a text whose head is read.
proof fn lemma_head_parts(s: Seq<char>)
    requires
        head(s) is Ok,
    ensures
        ({
            let (a, op, d) = head(s)->Ok_0;
            let i0 = run_end(s, 0, CharClass::White);
            let i1 = i0 + a.len();
            let i2 = run_end(s, i1, CharClass::White);
            let i3 = i2 + operator_text(op).len();
            &&& 0 <= i0 <= i1 <= i2 <= i3 <= d <= s.len()
            &&& is_ident(a)
            &&& is_blank(s.subrange(0, i0))
            &&& s.subrange(i0, i1) == a
            &&& is_blank(s.subrange(i1, i2))
            &&& s.subrange(i2, i3) == operator_text(op)
            &&& is_blank(s.subrange(i3, d))
        }),
{
    lemma_operators();
    let (a, op, d) = head(s)->Ok_0;
    let i0 = run_end(s, 0, CharClass::White);
    lemma_run_end(s, 0, CharClass::White);
    let i1 = run_end(s, i0, CharClass::Ident);
    lemma_run_end(s, i0, CharClass::Ident);
    let i2 = run_end(s, i1, CharClass::White);
    lemma_run_end(s, i1, CharClass::White);
    let i3 = (comparison_at(s, i2)->0).1;
    assert(s.subrange(i2, i3) =~= operator_text(op));
    lemma_run_end(s, i3, CharClass::White);
    assert(in_class(s[i0], CharClass::Ident));
    assert(run_end(s, i0, CharClass::Ident) > i0) by {
        lemma_run_end(s, i0 + 1, CharClass::Ident);
    }
    assert forall|k: int| 0 <= k < a.len() implies in_class(#[trigger] a[k], CharClass::Ident) by {
        assert(a[k] == s[i0 + k]);
    }
}

/// The white space of a text that is read as a clause.
pub open spec fn spaces_of(s: Seq<char>, end: int) -> Spaces {
    let (a, op, d) = head(s)->Ok_0;
    let i0 = run_end(s, 0, CharClass::White);
    let i1 = i0 + a.len();
    let i2 = run_end(s, i1, CharClass::White);
    let i3 = i2 + operator_text(op).len();
    Spaces {
        before: s.subrange(0, i0),
        left: s.subrange(i1, i2),
        right: s.subrange(i3, d),
        behind: s.subrange(end, s.len() as int),
    }
}

proof fn lemma_put_together(s: Seq<char>, end: int)
    requires
        head(s) is Ok,
        (head(s)->Ok_0).2 <= end <= s.len(),
        run_end(s, end, CharClass::White) == s.len(),
    ensures
        ({
            let (a, op, d) = head(s)->Ok_0;
            let w = spaces_of(s, end);
            &&& w.blank()
            &&& is_ident(a)
            &&& 0 <= d
            &&& s == spaced(w, a, op, s.subrange(d, end))
        }),
{
    lemma_head_parts(s);
    let (a, op, d) = head(s)->Ok_0;
    let w = spaces_of(s, end);
    lemma_run_end(s, end, CharClass::White);
    let i0 = run_end(s, 0, CharClass::White);
    let i1 = i0 + a.len();
    let i2 = run_end(s, i1, CharClass::White);
    let i3 = i2 + operator_text(op).len();
    assert(s =~= s.subrange(0, i0) + s.subrange(i0, i1) + s.subrange(i1, i2) + s.subrange(i2, i3)
        + s.subrange(i3, d) + s.subrange(d, end) + s.subrange(end, s.len() as int));
}

/// Whether `s` is the clause `p`, written with the digits `d` and the white space `w`.
pub open spec fn is_bound(
    s: Seq<char>,
    p: PredicateView,
    w: Spaces,
    negative: bool,
    d: Seq<char>,
) -> bool {
    &&& w.blank()
    &&& is_ident(p.var)
    &&& is_digits(d)
    &&& p.literal == signed_number(negative, d)
    &&& s == spaced(w, p.var, p.op, with_sign(negative, d))
}

/// Whether `s` is the clause `p`, written with the white space `w`.
pub open spec fn is_comparison(s: Seq<char>, p: PairView, w: Spaces) -> bool {
    &&& w.blank()
    &&& is_ident(p.lhs)
    &&& is_ident(p.rhs)
    &&& s == spaced(w, p.lhs, p.op, p.rhs)
}

/// Nothing else is taken for a clause with an integer: what is read as one is an identifier, an
/// operator and an integer with white space around them, and the clause says just these.
pub proof fn law_only_bounds_are_read_as_bounds(s: Seq<char>)
    requires
        predicate_of(s) is Ok,
    ensures
        exists|w: Spaces, negative: bool, d: Seq<char>| #[trigger]
            is_bound(s, predicate_of(s)->Ok_0, w, negative, d),
{
    reveal_strlit("-");
    lemma_head_parts(s);
    let p = predicate_of(s)->Ok_0;
    let at = (head(s)->Ok_0).2;
    let negative = at < s.len() && s[at] == '-';
    let from = if negative {
        at + 1
    } else {
        at
    };
    let end = run_end(s, from, CharClass::Digit);
    lemma_run_end(s, from, CharClass::Digit);
    lemma_put_together(s, end);
    let d = s.subrange(from, end);
    assert forall|i: int| 0 <= i < d.len() implies is_digit(#[trigger] d[i]) by {
        assert(d[i] == s[from + i]);
        assert(in_class(s[from + i], CharClass::Digit));
    }
    assert(s.subrange(at, end) =~= with_sign(negative, d));
    let w = spaces_of(s, end);
    assert(is_bound(s, p, w, negative, d));
}

/// Nothing else is taken for a clause over two identifiers.
pub proof fn law_only_comparisons_are_read_as_comparisons(s: Seq<char>)
    requires
        pair_of(s) is Ok,
    ensures
        exists|w: Spaces| #[trigger] is_comparison(s, pair_of(s)->Ok_0, w),
{
    lemma_head_parts(s);
    let p = pair_of(s)->Ok_0;
    let at = (head(s)->Ok_0).2;
    let end = ident_end(s, at)->0;
    lemma_run_end(s, at, CharClass::Ident);
    lemma_put_together(s, end);
    assert(in_class(s[at], CharClass::Ident));
    assert(end > at) by {
        lemma_run_end(s, at + 1, CharClass::Ident);
    }
    assert forall|k: int| 0 <= k < p.rhs.len() implies in_class(
        #[trigger] p.rhs[k],
        CharClass::Ident,
    ) by {
        assert(p.rhs[k] == s[at + k]);
    }
    let w = spaces_of(s, end);
    assert(is_comparison(s, p, w));
}

// ---------------------------------------------------------------------------
// Characters.
// ---------------------------------------------------------------------------

/// The classes of characters, by their code points: the decimal digits, the letters of the first
/// block with the digits and the underscore, and the characters with the property of white space.
pub proof fn law_classes_of_characters(c: char)
    ensures
        ({
            let n = c as u32;
            &&& in_class(c, CharClass::Digit) <==> 48 <= n <= 57
            &&& in_class(c, CharClass::Ident) <==> 48 <= n <= 57 || 65 <= n <= 90 || n == 95 || 97
                <= n <= 122
            &&& in_class(c, CharClass::White) <==> 9 <= n <= 13 || n == 32 || n == 133 || n == 160
                || n == 5760 || 8192 <= n <= 8202 || n == 8232 || n == 8233 || n == 8239 || n
                == 8287 || n == 12288
        }),
{
}

proof fn lemma_tail(s: Seq<char>, from: int, end: int)
    requires
        0 <= from <= end <= s.len(),
    ensures
        from <= tail_start(s, from, end) <= end,
        forall|k: int| tail_start(s, from, end) <= k < end ==> is_white(#[trigger] s[k]),
        tail_start(s, from, end) > from ==> !is_white(s[tail_start(s, from, end) - 1]),
    decreases end - from,
{
    if from < end && is_white(s[end - 1]) {
        lemma_tail(s, from, end - 1);
    }
}

/// Trimming takes white space away at both ends, all of it and nothing else.
pub proof fn law_trimming_takes_the_white_ends(s: Seq<char>)
    ensures
        exists|a: Seq<char>, b: Seq<char>|
            is_blank(a) && is_blank(b) && s == #[trigger] (a + trimmed(s) + b),
        trimmed(s).len() > 0 ==> !is_white(trimmed(s)[0]) && !is_white(trimmed(s).last()),
{
    let (i, j) = trim_bounds(s);
    lemma_run_end(s, 0, CharClass::White);
    lemma_tail(s, i, s.len() as int);
    let a = s.subrange(0, i);
    let b = s.subrange(j, s.len() as int);
    assert forall|k: int| 0 <= k < a.len() implies is_white(#[trigger] a[k]) by {
        assert(in_class(s[k], CharClass::White));
    }
    assert forall|k: int| 0 <= k < b.len() implies is_white(#[trigger] b[k]) by {
        assert(is_white(s[j + k]));
    }
    assert(s =~= a + trimmed(s) + b);
}

} // verus!
