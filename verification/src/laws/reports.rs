//! What holds of reports.
use vstd::prelude::*;
use crate::diagnostic::{gap_count, AuditNoteKind};
use crate::findings::{Finding, Tally};
use crate::text::{decimal, digit, is_digit, number};
use crate::vc::{id_stem, KindView};

verus! {

/// Findings accumulate: recording more of them keeps everything that was recorded before, in its
/// place. No finding hides an earlier one, nor a later one.
pub proof fn law_findings_accumulate(t: Tally, fs: Seq<Finding>)
    ensures
        t.errors.is_prefix_of(t.record(fs).errors),
        t.notes.is_prefix_of(t.record(fs).notes),
        t.obligations.is_prefix_of(t.record(fs).obligations),
        t.record(fs).errors.len() + t.record(fs).notes.len() + t.record(fs).obligations.len()
            == t.errors.len() + t.notes.len() + t.obligations.len() + fs.len(),
    decreases fs.len(),
{
    if fs.len() > 0 {
        law_findings_accumulate(t, fs.drop_last());
        let before = t.record(fs.drop_last());
        let after = t.record(fs);
        assert(before.errors.is_prefix_of(after.errors));
        assert(before.notes.is_prefix_of(after.notes));
        assert(before.obligations.is_prefix_of(after.obligations));
    }
}

/// Whether the id of every obligation is the stem of its kind, followed by its position.
pub open spec fn numbered(t: Tally) -> bool {
    forall|i: int|
        0 <= i < t.obligations.len() ==> (#[trigger] t.obligations[i]).id == id_stem(
            t.obligations[i].kind,
        ) + decimal(i as nat)
}

/// The ids of the obligations of a report carry their positions, however many bodies were visited.
pub proof fn law_ids_carry_positions(t: Tally, fs: Seq<Finding>)
    requires
        numbered(t),
    ensures
        numbered(t.record(fs)),
    decreases fs.len(),
{
    if fs.len() > 0 {
        law_ids_carry_positions(t, fs.drop_last());
    }
}

/// A decimal is made of digits, and of one at least.
pub proof fn lemma_decimal_digits(n: nat)
    ensures
        decimal(n).len() > 0,
        forall|i: int| 0 <= i < decimal(n).len() ==> is_digit(#[trigger] decimal(n)[i]),
    decreases n,
{
    if n >= 10 {
        lemma_decimal_digits(n / 10);
    }
}

/// The digit of a number below ten stands for that number.
proof fn lemma_digit_value(d: int)
    requires
        0 <= d < 10,
    ensures
        is_digit(digit(d)),
        digit(d) as int - '0' as int == d,
{
}

/// Reading a decimal gives back the number that was written.
pub proof fn law_decimal_read_back(n: nat)
    ensures
        number(decimal(n)) == n,
    decreases n,
{
    let s = decimal(n);
    if n < 10 {
        lemma_digit_value(n as int);
        assert(s.drop_last() =~= Seq::empty());
        assert(number(s.drop_last()) == 0);
    } else {
        law_decimal_read_back(n / 10);
        lemma_digit_value((n % 10) as int);
        assert(s.drop_last() =~= decimal(n / 10));
    }
}

/// The stem of an id ends in a hyphen.
proof fn lemma_stem_ends(kind: KindView)
    ensures
        id_stem(kind).len() > 0,
        id_stem(kind).last() == '-',
{
    reveal_strlit("-");
    reveal_strlit("pb043-panic-");
    reveal_strlit("pb054-idx-");
    reveal_strlit("pb076-ensures-");
    reveal_strlit("pb041-rec-");
    reveal_strlit("pb077-callsite-");
}

/// Two texts that end in a hyphen each, and the digits after them, are told apart by the digits.
proof fn lemma_hyphen_splits(a: Seq<char>, x: Seq<char>, b: Seq<char>, y: Seq<char>)
    requires
        a.len() > 0,
        a.last() == '-',
        b.len() > 0,
        b.last() == '-',
        forall|i: int| 0 <= i < x.len() ==> is_digit(#[trigger] x[i]),
        forall|i: int| 0 <= i < y.len() ==> is_digit(#[trigger] y[i]),
        a + x == b + y,
    ensures
        x == y,
{
    let s = a + x;
    assert(s.len() == a.len() + x.len());
    assert((b + y).len() == b.len() + y.len());
    if a.len() < b.len() {
        assert(s[b.len() - 1] == '-');
        assert(s[b.len() - 1] == x[b.len() - 1 - a.len()]);
    } else if b.len() < a.len() {
        assert(s[a.len() - 1] == '-');
        assert((b + y)[a.len() - 1] == y[a.len() - 1 - b.len()]);
    } else {
        assert(x =~= s.skip(a.len() as int));
        assert(y =~= (b + y).skip(b.len() as int));
    }
}

/// No two obligations of a report share an id.
pub proof fn law_ids_are_distinct(t: Tally, i: int, j: int)
    requires
        numbered(t),
        0 <= i < j < t.obligations.len(),
    ensures
        t.obligations[i].id != t.obligations[j].id,
{
    if t.obligations[i].id == t.obligations[j].id {
        let a = id_stem(t.obligations[i].kind);
        let b = id_stem(t.obligations[j].kind);
        lemma_stem_ends(t.obligations[i].kind);
        lemma_stem_ends(t.obligations[j].kind);
        lemma_decimal_digits(i as nat);
        lemma_decimal_digits(j as nat);
        lemma_hyphen_splits(a, decimal(i as nat), b, decimal(j as nat));
        law_decimal_read_back(i as nat);
        law_decimal_read_back(j as nat);
    }
}

/// How many of `fs` are coverage gaps.
pub open spec fn gaps_among(fs: Seq<Finding>) -> nat
    decreases fs.len(),
{
    if fs.len() == 0 {
        0
    } else {
        gaps_among(fs.drop_last()) + if is_gap(fs.last()) {
            1nat
        } else {
            0nat
        }
    }
}

/// Whether a finding is a coverage gap.
pub open spec fn is_gap(f: Finding) -> bool {
    f matches Finding::Note { kind: AuditNoteKind::CoverageGap, .. }
}

/// The count of coverage gaps goes up by the gaps that are recorded, and by nothing else: a remark
/// never bears on it.
pub proof fn law_only_gaps_are_counted(t: Tally, fs: Seq<Finding>)
    ensures
        gap_count(t.record(fs).notes) == gap_count(t.notes) + gaps_among(fs),
    decreases fs.len(),
{
    if fs.len() > 0 {
        law_only_gaps_are_counted(t, fs.drop_last());
        let before = t.record(fs.drop_last());
        let after = t.record(fs);
        match fs.last() {
            Finding::Note { kind, span, message } => {
                assert(after.notes.drop_last() =~= before.notes);
            },
            _ => {},
        }
    }
}

} // verus!
