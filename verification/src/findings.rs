//! Findings in the order in which a walk makes them, and how they add up to a report.
use vstd::prelude::*;
use crate::diagnostic::{AuditNoteKind, ErrorView, NoteView};
use crate::mir_api::Span;
use crate::rules::RuleId;
use crate::text::decimal;
use crate::vc::{id_stem, KindView, ObligationView};

verus! {

/// One thing that a walk finds.
pub enum Finding {
    Violation { rule: RuleId, span: Span, detail: Seq<char> },
    Note { kind: AuditNoteKind, span: Span, message: Seq<char> },
    Obligation { span: Span, kind: KindView, assumptions: Seq<Seq<char>> },
}

/// A violation of `rule`.
pub open spec fn violation(rule: RuleId, span: Span, detail: Seq<char>) -> Finding {
    Finding::Violation { rule, span, detail }
}

/// A note that a check could not run.
pub open spec fn gap(span: Span, message: Seq<char>) -> Finding {
    Finding::Note { kind: AuditNoteKind::CoverageGap, span, message }
}

/// A note for information only.
pub open spec fn remark(span: Span, message: Seq<char>) -> Finding {
    Finding::Note { kind: AuditNoteKind::Transparency, span, message }
}

/// An obligation for a solver.
pub open spec fn obligation(span: Span, kind: KindView, assumptions: Seq<Seq<char>>) -> Finding {
    Finding::Obligation { span, kind, assumptions }
}

/// The remarks with the messages `messages`, in order.
pub open spec fn remarks(span: Span, messages: Seq<Seq<char>>) -> Seq<Finding> {
    messages.map_values(|m: Seq<char>| remark(span, m))
}

/// The content of a report: three lists, each in the order of the findings.
#[verifier::ext_equal]
pub struct Tally {
    pub errors: Seq<ErrorView>,
    pub notes: Seq<NoteView>,
    pub obligations: Seq<ObligationView>,
}

impl Tally {
    /// This content with one more finding. An obligation's id ends in its position.
    pub open spec fn with(self, f: Finding) -> Tally {
        match f {
            Finding::Violation { rule, span, detail } => Tally {
                errors: self.errors.push(ErrorView { rule, span, detail, in_spec: false }),
                ..self
            },
            Finding::Note { kind, span, message } => Tally {
                notes: self.notes.push(NoteView { span, message, kind }),
                ..self
            },
            Finding::Obligation { span, kind, assumptions } => Tally {
                obligations: self.obligations.push(
                    ObligationView {
                        id: id_stem(kind) + decimal(self.obligations.len()),
                        span,
                        kind,
                        assumptions,
                    },
                ),
                ..self
            },
        }
    }

    /// This content with the findings `fs`, one after the other.
    pub open spec fn record(self, fs: Seq<Finding>) -> Tally
        decreases fs.len(),
    {
        if fs.len() == 0 {
            self
        } else {
            self.record(fs.drop_last()).with(fs.last())
        }
    }
}

/// Recording nothing changes nothing.
pub broadcast proof fn lemma_record_none(t: Tally, fs: Seq<Finding>)
    requires
        fs.len() == 0,
    ensures
        #[trigger] t.record(fs) == t,
{
}

/// Recording two lists in turn is recording them as one.
pub broadcast proof fn lemma_record_concat(t: Tally, a: Seq<Finding>, b: Seq<Finding>)
    ensures
        #[trigger] t.record(a).record(b) == t.record(a + b),
    decreases b.len(),
{
    if b.len() == 0 {
        assert(a + b =~= a);
    } else {
        lemma_record_concat(t, a, b.drop_last());
        assert((a + b).drop_last() =~= a + b.drop_last());
        assert((a + b).last() == b.last());
    }
}

/// Recording a list of one finding adds that finding.
pub broadcast proof fn lemma_record_one(t: Tally, f: Finding)
    ensures
        #[trigger] t.record(seq![f]) == t.with(f),
{
    assert(seq![f].drop_last() =~= Seq::empty());
    assert(t.record(Seq::<Finding>::empty()) == t);
}

/// Nothing before or after a list of findings changes it.
pub broadcast proof fn lemma_concat_none(a: Seq<Finding>, b: Seq<Finding>)
    ensures
        a.len() == 0 ==> #[trigger] (a + b) == b,
        b.len() == 0 ==> #[trigger] (a + b) == a,
{
    if a.len() == 0 {
        assert(a + b =~= b);
    }
    if b.len() == 0 {
        assert(a + b =~= a);
    }
}

pub broadcast group group_findings {
    lemma_record_none,
    lemma_record_concat,
    lemma_record_one,
    lemma_concat_none,
}

} // verus!
