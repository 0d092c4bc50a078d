//! What a walk reports: rule violations, audit notes and proof obligations.
use vstd::prelude::*;
use crate::mir_api::Span;
use crate::rules::RuleId;
use crate::vc::VcObligation;

verus! {

/// A violation of a subset rule.
#[derive(Clone, Debug)]
pub struct SubsetError {
    pub rule: RuleId,
    pub span: Span,
    pub detail: String,
    /// Whether the construct stands inside a specification clause.
    pub in_spec: bool,
}

/// A violation over sequences of characters.
pub struct ErrorView {
    pub rule: RuleId,
    pub span: Span,
    pub detail: Seq<char>,
    pub in_spec: bool,
}

impl View for SubsetError {
    type V = ErrorView;

    open spec fn view(&self) -> ErrorView {
        ErrorView { rule: self.rule, span: self.span, detail: self.detail@, in_spec: self.in_spec }
    }
}

/// What an audit note means for acceptance.
#[derive(Clone, Copy, Debug, PartialEq, Eq, Structural)]
pub enum AuditNoteKind {
    /// A check could not run and nothing stands in for it: the body must not be accepted.
    CoverageGap,
    /// For information only.
    Transparency,
}

/// A remark that is no violation.
#[derive(Clone, Debug)]
pub struct AuditNote {
    pub span: Span,
    pub message: String,
    pub kind: AuditNoteKind,
}

/// An audit note over sequences of characters.
pub struct NoteView {
    pub span: Span,
    pub message: Seq<char>,
    pub kind: AuditNoteKind,
}

impl View for AuditNote {
    type V = NoteView;

    open spec fn view(&self) -> NoteView {
        NoteView { span: self.span, message: self.message@, kind: self.kind }
    }
}

/// Everything that a run has found.
#[derive(Clone, Debug)]
pub struct SubsetReport {
    pub errors: Vec<SubsetError>,
    pub audit_notes: Vec<AuditNote>,
    pub vc_obligations: Vec<VcObligation>,
}

/// The number of coverage gaps among `notes`.
pub open spec fn gap_count(notes: Seq<NoteView>) -> nat
    decreases notes.len(),
{
    if notes.len() == 0 {
        0
    } else {
        gap_count(notes.drop_last()) + if notes.last().kind == AuditNoteKind::CoverageGap {
            1nat
        } else {
            0nat
        }
    }
}

/// The views of a list of notes.
pub open spec fn note_views(notes: Seq<AuditNote>) -> Seq<NoteView> {
    notes.map_values(|n: AuditNote| n@)
}

impl SubsetReport {
    /// A report of `errors`, with no notes and no obligations.
    pub fn new(errors: Vec<SubsetError>) -> (r: SubsetReport)
        ensures
            r.errors == errors,
            r.audit_notes@.len() == 0,
            r.vc_obligations@.len() == 0,
    {
        SubsetReport { errors, audit_notes: Vec::new(), vc_obligations: Vec::new() }
    }

    /// How many of the notes are coverage gaps.
    pub fn coverage_gap_count(&self) -> (r: usize)
        ensures
            r == gap_count(note_views(self.audit_notes@)),
    {
        let ghost all = note_views(self.audit_notes@);
        let mut count: usize = 0;
        let mut i: usize = 0;
        while i < self.audit_notes.len()
            invariant
                i <= self.audit_notes@.len(),
                all == note_views(self.audit_notes@),
                count <= i,
                count == gap_count(all.take(i as int)),
            decreases self.audit_notes@.len() - i,
        {
            proof {
                assert(all.take(i + 1).drop_last() =~= all.take(i as int));
                assert(all.take(i + 1).last() == self.audit_notes@[i as int]@);
            }
            if self.audit_notes[i].kind == AuditNoteKind::CoverageGap {
                count += 1;
            }
            i += 1;
        }
        assert(all.take(all.len() as int) =~= all);
        count
    }
}

} // verus!
