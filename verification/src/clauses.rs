//! What becomes of a body's preconditions at a site that needs them: each is kept as a hypothesis,
//! or refused with a reason.
use vstd::prelude::*;
use crate::messages::{
    list_text, refusal_text, unbound_text, unresolved_text, write_list, write_refusal,
    write_unbound, write_unresolved, BOUND_UNTRANSLATED, INDEX_PAIR_UNTRANSLATED, INDEX_UNREADABLE,
    INDEX_UNTRANSLATED, NEGATION_UNBOUND, NEGATION_UNTRANSLATED, PANIC_UNREADABLE, UNREADABLE,
};
use crate::predicate::{
    assertion_check, error_message, ident_vs_ident_to_smt_assertion, pair_assertion, pair_of,
    parse_ident_vs_ident_predicate, parse_predicate, predicate_assertion, predicate_of,
    predicate_to_smt_assertion, validate_assertion_form, PredicateError,
};
use crate::text::{debug_rendering, is_among, opt_is, opt_view, quoted, views};

verus! {

/// The fate of one precondition.
pub enum Clause {
    /// It is a hypothesis, written as this assertion.
    Keep(String),
    /// It is left out, for this reason.
    Refuse(String),
}

/// The fate of one precondition over sequences of characters.
pub enum ClauseView {
    Keep(Seq<char>),
    Refuse(Seq<char>),
}

impl View for Clause {
    type V = ClauseView;

    open spec fn view(&self) -> ClauseView {
        match self {
            Clause::Keep(s) => ClauseView::Keep(s@),
            Clause::Refuse(s) => ClauseView::Refuse(s@),
        }
    }
}

/// A place that preconditions are used at, and the names that they can speak of there.
pub enum Site {
    /// A binary operation at type `ty`. Its operands are the parameters `lhs_arg` and `rhs_arg`,
    /// where they are parameters that a clause may be about.
    Arithmetic { lhs_arg: Option<String>, rhs_arg: Option<String>, ty: String },
    /// A negation of the parameter `arg` at type `ty`.
    Negation { arg: Option<String>, ty: String },
    /// A call that may panic.
    Panic,
    /// An index, which is the parameter `source`. `ty` has the width of `usize`.
    Index { source: Option<String>, ty: String },
}

/// A site over sequences of characters.
pub enum SiteView {
    Arithmetic { lhs_arg: Option<Seq<char>>, rhs_arg: Option<Seq<char>>, ty: Seq<char> },
    Negation { arg: Option<Seq<char>>, ty: Seq<char> },
    Panic,
    Index { source: Option<Seq<char>>, ty: Seq<char> },
}

impl View for Site {
    type V = SiteView;

    open spec fn view(&self) -> SiteView {
        match self {
            Site::Arithmetic { lhs_arg, rhs_arg, ty } => SiteView::Arithmetic {
                lhs_arg: opt_view(*lhs_arg),
                rhs_arg: opt_view(*rhs_arg),
                ty: ty@,
            },
            Site::Negation { arg, ty } => SiteView::Negation { arg: opt_view(*arg), ty: ty@ },
            Site::Panic => SiteView::Panic,
            Site::Index { source, ty } => SiteView::Index { source: opt_view(*source), ty: ty@ },
        }
    }
}

/// A refusal of `raw` with the cause `e`.
pub open spec fn refusal(lead: &str, e: PredicateError, raw: Seq<char>) -> ClauseView {
    ClauseView::Refuse(refusal_text(lead@, error_message(e), debug_rendering(raw)))
}

/// The translation `r` of `raw`, or a refusal.
pub open spec fn translated(
    r: Result<Seq<char>, PredicateError>,
    lead: &str,
    raw: Seq<char>,
) -> ClauseView {
    match r {
        Ok(smt) => ClauseView::Keep(smt),
        Err(e) => refusal(lead, e, raw),
    }
}

/// `raw` itself where it is written out as an assertion, or a refusal.
pub open spec fn verbatim(lead: &str, raw: Seq<char>) -> ClauseView {
    match assertion_check(raw) {
        Ok(_) => ClauseView::Keep(raw),
        Err(e) => refusal(lead, e, raw),
    }
}

/// A clause about an operand is translated; any other must be written out as an assertion.
pub open spec fn arithmetic_clause(
    lhs_arg: Option<Seq<char>>,
    rhs_arg: Option<Seq<char>>,
    ty: Seq<char>,
    raw: Seq<char>,
) -> ClauseView {
    match predicate_of(raw) {
        Ok(p) => if lhs_arg == Some(p.var) {
            translated(predicate_assertion(p, "lhs"@, ty), BOUND_UNTRANSLATED, raw)
        } else if rhs_arg == Some(p.var) {
            translated(predicate_assertion(p, "rhs"@, ty), BOUND_UNTRANSLATED, raw)
        } else if assertion_check(raw) is Ok {
            ClauseView::Keep(raw)
        } else {
            ClauseView::Refuse(unbound_text(p.var, debug_rendering(raw)))
        },
        Err(_) => verbatim(UNREADABLE, raw),
    }
}

/// A clause about the operand is translated; any other must be written out as an assertion.
pub open spec fn negation_clause(
    arg: Option<Seq<char>>,
    ty: Seq<char>,
    raw: Seq<char>,
) -> ClauseView {
    match predicate_of(raw) {
        Ok(p) => if arg == Some(p.var) {
            translated(predicate_assertion(p, "lhs"@, ty), NEGATION_UNTRANSLATED, raw)
        } else {
            verbatim(NEGATION_UNBOUND, raw)
        },
        Err(_) => verbatim(NEGATION_UNBOUND, raw),
    }
}

/// The names that a clause at an index can speak of: the index, the length, and the parameter that
/// the index is.
pub open spec fn index_names(source: Option<Seq<char>>) -> Seq<Seq<char>> {
    match source {
        Some(name) => seq!["idx"@, "len"@, name],
        None => seq!["idx"@, "len"@],
    }
}

/// A list of names in its debug rendering.
pub open spec fn name_list(names: Seq<Seq<char>>) -> Seq<char> {
    list_text(names.map_values(|n: Seq<char>| debug_rendering(n)))
}

/// The refusal of a clause over two names of which one is unknown.
pub open spec fn unknown_names(
    source: Option<Seq<char>>,
    lhs: Seq<char>,
    rhs: Seq<char>,
    raw: Seq<char>,
) -> ClauseView {
    ClauseView::Refuse(
        unresolved_text(
            name_list(index_names(source)),
            debug_rendering(lhs),
            debug_rendering(rhs),
            debug_rendering(raw),
        ),
    )
}

/// A clause over the known names is translated; a clause over two names of which one is unknown is
/// refused; any other must be written out as an assertion.
pub open spec fn index_clause(
    source: Option<Seq<char>>,
    ty: Seq<char>,
    raw: Seq<char>,
) -> ClauseView {
    match pair_of(raw) {
        Ok(p) => if index_names(source).contains(p.lhs) && index_names(source).contains(p.rhs) {
            translated(pair_assertion(p, ty), INDEX_PAIR_UNTRANSLATED, raw)
        } else {
            unknown_names(source, p.lhs, p.rhs, raw)
        },
        Err(_) => match predicate_of(raw) {
            Ok(p) => if index_names(source).contains(p.var) {
                translated(predicate_assertion(p, p.var, ty), INDEX_UNTRANSLATED, raw)
            } else {
                verbatim(INDEX_UNREADABLE, raw)
            },
            Err(_) => verbatim(INDEX_UNREADABLE, raw),
        },
    }
}

/// The fate of the precondition `raw` at `site`.
pub open spec fn judged(site: SiteView, raw: Seq<char>) -> ClauseView {
    match site {
        SiteView::Arithmetic { lhs_arg, rhs_arg, ty } => arithmetic_clause(
            lhs_arg,
            rhs_arg,
            ty,
            raw,
        ),
        SiteView::Negation { arg, ty } => negation_clause(arg, ty, raw),
        SiteView::Panic => verbatim(PANIC_UNREADABLE, raw),
        SiteView::Index { source, ty } => index_clause(source, ty, raw),
    }
}

/// The fates of the preconditions `raws`, in order.
pub open spec fn judged_all(site: SiteView, raws: Seq<String>) -> Seq<ClauseView> {
    raws.map_values(|s: String| judged(site, s@))
}

/// The assertions among `clauses`, in order.
pub open spec fn kept(clauses: Seq<ClauseView>) -> Seq<Seq<char>>
    decreases clauses.len(),
{
    if clauses.len() == 0 {
        seq![]
    } else {
        match clauses.last() {
            ClauseView::Keep(s) => kept(clauses.drop_last()).push(s),
            ClauseView::Refuse(_) => kept(clauses.drop_last()),
        }
    }
}

/// The reasons among `clauses`, in order.
pub open spec fn refused(clauses: Seq<ClauseView>) -> Seq<Seq<char>>
    decreases clauses.len(),
{
    if clauses.len() == 0 {
        seq![]
    } else {
        match clauses.last() {
            ClauseView::Keep(_) => refused(clauses.drop_last()),
            ClauseView::Refuse(s) => refused(clauses.drop_last()).push(s),
        }
    }
}

fn refuse(lead: &str, e: PredicateError, raw: &str) -> (r: Clause)
    ensures
        r@ == refusal(lead, e, raw@),
{
    Clause::Refuse(write_refusal(lead, e.message().as_str(), quoted(raw).as_str()))
}

fn translation(r: Result<String, PredicateError>, lead: &str, raw: &str) -> (c: Clause)
    ensures
        c@ == translated(crate::predicate::result_view(r), lead, raw@),
{
    match r {
        Ok(smt) => Clause::Keep(smt),
        Err(e) => refuse(lead, e, raw),
    }
}

fn splice(lead: &str, raw: &str) -> (c: Clause)
    ensures
        c@ == verbatim(lead, raw@),
{
    match validate_assertion_form(raw) {
        Ok(_) => Clause::Keep(raw.to_owned()),
        Err(e) => refuse(lead, e, raw),
    }
}

fn judge_arithmetic(
    lhs_arg: &Option<String>,
    rhs_arg: &Option<String>,
    ty: &str,
    raw: &str,
) -> (c: Clause)
    ensures
        c@ == arithmetic_clause(opt_view(*lhs_arg), opt_view(*rhs_arg), ty@, raw@),
{
    match parse_predicate(raw) {
        Ok(p) => {
            if opt_is(lhs_arg, p.var.as_str()) {
                translation(predicate_to_smt_assertion(&p, "lhs", ty), BOUND_UNTRANSLATED, raw)
            } else if opt_is(rhs_arg, p.var.as_str()) {
                translation(predicate_to_smt_assertion(&p, "rhs", ty), BOUND_UNTRANSLATED, raw)
            } else if validate_assertion_form(raw).is_ok() {
                Clause::Keep(raw.to_owned())
            } else {
                Clause::Refuse(write_unbound(p.var.as_str(), quoted(raw).as_str()))
            }
        },
        Err(_) => splice(UNREADABLE, raw),
    }
}

fn judge_negation(arg: &Option<String>, ty: &str, raw: &str) -> (c: Clause)
    ensures
        c@ == negation_clause(opt_view(*arg), ty@, raw@),
{
    match parse_predicate(raw) {
        Ok(p) => {
            if opt_is(arg, p.var.as_str()) {
                translation(predicate_to_smt_assertion(&p, "lhs", ty), NEGATION_UNTRANSLATED, raw)
            } else {
                splice(NEGATION_UNBOUND, raw)
            }
        },
        Err(_) => splice(NEGATION_UNBOUND, raw),
    }
}

fn names_at_index(source: &Option<String>) -> (r: Vec<String>)
    ensures
        views(r@) == index_names(opt_view(*source)),
{
    let mut names: Vec<String> = Vec::new();
    names.push("idx".to_owned());
    names.push("len".to_owned());
    if let Some(name) = source {
        names.push(name.clone());
    }
    assert(views(names@) =~= index_names(opt_view(*source)));
    names
}

fn list_names(names: &Vec<String>) -> (r: String)
    ensures
        r@ == name_list(views(names@)),
{
    let ghost want = views(names@).map_values(|n: Seq<char>| debug_rendering(n));
    let mut shown: Vec<String> = Vec::new();
    let mut i: usize = 0;
    while i < names.len()
        invariant
            i <= names@.len(),
            want == views(names@).map_values(|n: Seq<char>| debug_rendering(n)),
            views(shown@) =~= want.take(i as int),
        decreases names@.len() - i,
    {
        broadcast use crate::text::lemma_views_push;

        assert(want.take(i + 1) =~= want.take(i as int).push(want[i as int]));
        shown.push(quoted(names[i].as_str()));
        i += 1;
    }
    assert(views(shown@) =~= want);
    write_list(&shown)
}

fn judge_index(source: &Option<String>, ty: &str, raw: &str) -> (c: Clause)
    ensures
        c@ == index_clause(opt_view(*source), ty@, raw@),
{
    let names = names_at_index(source);
    if let Ok(p) = parse_ident_vs_ident_predicate(raw) {
        if is_among(&names, p.lhs.as_str()) && is_among(&names, p.rhs.as_str()) {
            return translation(
                ident_vs_ident_to_smt_assertion(&p, ty),
                INDEX_PAIR_UNTRANSLATED,
                raw,
            );
        }
        return Clause::Refuse(
            write_unresolved(
                list_names(&names).as_str(),
                quoted(p.lhs.as_str()).as_str(),
                quoted(p.rhs.as_str()).as_str(),
                quoted(raw).as_str(),
            ),
        );
    }
    if let Ok(p) = parse_predicate(raw) {
        if is_among(&names, p.var.as_str()) {
            return translation(
                predicate_to_smt_assertion(&p, p.var.as_str(), ty),
                INDEX_UNTRANSLATED,
                raw,
            );
        }
    }
    splice(INDEX_UNREADABLE, raw)
}

impl Site {
    /// Judges the precondition `raw`.
    pub fn judge(&self, raw: &str) -> (c: Clause)
        ensures
            c@ == judged(self@, raw@),
    {
        match self {
            Site::Arithmetic { lhs_arg, rhs_arg, ty } => judge_arithmetic(
                lhs_arg,
                rhs_arg,
                ty.as_str(),
                raw,
            ),
            Site::Negation { arg, ty } => judge_negation(arg, ty.as_str(), raw),
            Site::Panic => splice(PANIC_UNREADABLE, raw),
            Site::Index { source, ty } => judge_index(source, ty.as_str(), raw),
        }
    }

    /// Judges the preconditions `raws`: the hypotheses, and the reasons for those left out.
    pub fn judge_all(&self, raws: &Vec<String>) -> (r: (Vec<String>, Vec<String>))
        ensures
            views(r.0@) == kept(judged_all(self@, raws@)),
            views(r.1@) == refused(judged_all(self@, raws@)),
    {
        let ghost all = judged_all(self@, raws@);
        let mut assumptions: Vec<String> = Vec::new();
        let mut reasons: Vec<String> = Vec::new();
        let mut i: usize = 0;
        assert(all.take(0) =~= Seq::empty());
        while i < raws.len()
            invariant
                i <= raws@.len(),
                all == judged_all(self@, raws@),
                views(assumptions@) =~= kept(all.take(i as int)),
                views(reasons@) =~= refused(all.take(i as int)),
            decreases raws@.len() - i,
        {
            proof {
                assert(all.take(i + 1).drop_last() =~= all.take(i as int));
                assert(all.take(i + 1).last() == judged(self@, raws@[i as int]@));
            }
            match self.judge(raws[i].as_str()) {
                Clause::Keep(s) => assumptions.push(s),
                Clause::Refuse(s) => reasons.push(s),
            }
            i += 1;
        }
        assert(all.take(i as int) =~= all);
        (assumptions, reasons)
    }
}

} // verus!
