//! What holds of calls whose arguments are all constants.
use vstd::prelude::*;
use crate::callsite::{
    assertions, bind, bound_declarations, bound_ty, caller_side, callsite_problem, goal, goals,
    link, linked_symbols, links, symbol_declarations, BoundView, CallView, CalleeSpec, SymbolView,
};
use crate::laws::capture::{lemma_hex_plain, lemma_marker};
use crate::laws::clauses::{
    law_clauses_speak_of_identifiers, law_stripping_undoes_asserting, lemma_ident_flat,
    lemma_literal_flat,
};
use crate::laws::postcondition::speaks_of;
use crate::laws::reports::lemma_decimal_digits;
use crate::locals::{sole_at, sole_index};
use crate::mir_api::{ConstOperand, Operand, Span};
use crate::postcondition::{declaration, negation};
use crate::predicate::{
    comparison_term, int_info, literal_text, modulus, order_name, pair_of, predicate_of, Comparison,
};
use crate::text::{decimal, hex, holds, is_digit, joined, occurs_at};
use crate::walk::{call_problem, precondition_findings, Scope};

verus! {

/// Whether every argument is a constant.
pub open spec fn constant_args(args: Seq<Operand>) -> bool {
    forall|i: int| 0 <= i < args.len() ==> #[trigger] args[i] is Constant
}

/// Whether every bound parameter is a constant.
pub open spec fn all_constant(bound: Seq<BoundView>) -> bool {
    forall|i: int| 0 <= i < bound.len() ==> (#[trigger] bound[i]).binding is Constant
}

proof fn lemma_bind_constant(
    c: CallView,
    spec: CalleeSpec,
    ident: Seq<char>,
    bound: Seq<BoundView>,
)
    requires
        constant_args(c.args),
        all_constant(bound),
        bind(c, spec, ident, bound) is Some,
    ensures
        all_constant((bind(c, spec, ident, bound)->0).1),
{
    if bound_ty(bound, ident) is None {
        let i = sole_index(spec.arg_names@, ident)->0;
        lemma_sole_index_bounds(spec.arg_names@, ident);
        assert(c.args[i] is Constant);
    }
}

/// The one position of a name is a position.
proof fn lemma_sole_index_bounds(names: Seq<String>, t: Seq<char>)
    requires
        sole_index(names, t) is Some,
    ensures
        0 <= sole_index(names, t)->0 < names.len(),
        sole_at(names, t, sole_index(names, t)->0),
{
    let i = choose|i: int| sole_at(names, t, i);
    assert(sole_at(names, t, i));
}

proof fn lemma_goals_constant(c: CallView, spec: CalleeSpec, raws: Seq<String>)
    requires
        constant_args(c.args),
        goals(c, spec, raws) is Some,
    ensures
        all_constant((goals(c, spec, raws)->0).1),
    decreases raws.len(),
{
    if raws.len() > 0 {
        lemma_goals_constant(c, spec, raws.drop_last());
        let bound = (goals(c, spec, raws.drop_last())->0).1;
        let raw = raws.last()@;
        match pair_of(raw) {
            Ok(p) => {
                lemma_bind_constant(c, spec, p.lhs, bound);
                let once = (bind(c, spec, p.lhs, bound)->0).1;
                lemma_bind_constant(c, spec, p.rhs, once);
            },
            Err(_) => {
                let p = predicate_of(raw)->Ok_0;
                lemma_bind_constant(c, spec, p.var, bound);
            },
        }
    }
}

proof fn lemma_constants_link_nothing(bound: Seq<BoundView>)
    requires
        all_constant(bound),
    ensures
        linked_symbols(bound) == Seq::<SymbolView>::empty(),
    decreases bound.len(),
{
    if bound.len() > 0 {
        assert(bound.last() == bound[bound.len() - 1]);
        assert forall|i: int| 0 <= i < bound.drop_last().len() implies (
        #[trigger] bound.drop_last()[i]).binding is Constant by {
            assert(bound.drop_last()[i] == bound[i]);
        }
        lemma_constants_link_nothing(bound.drop_last());
    }
}

// ---------------------------------------------------------------------------
// The caller does not matter.
// ---------------------------------------------------------------------------

/// A constant is bound alike whoever makes the call.
proof fn lemma_bind_alike(
    c: CallView,
    d: CallView,
    spec: CalleeSpec,
    ident: Seq<char>,
    bound: Seq<BoundView>,
)
    requires
        constant_args(c.args),
        c.args == d.args,
    ensures
        bind(c, spec, ident, bound) == bind(d, spec, ident, bound),
{
    if bound_ty(bound, ident) is None && sole_index(spec.arg_names@, ident) is Some {
        let i = sole_index(spec.arg_names@, ident)->0;
        lemma_sole_index_bounds(spec.arg_names@, ident);
        if i < c.args.len() {
            assert(c.args[i] is Constant);
        }
    }
}

proof fn lemma_goals_alike(c: CallView, d: CallView, spec: CalleeSpec, raws: Seq<String>)
    requires
        constant_args(c.args),
        c.args == d.args,
    ensures
        goals(c, spec, raws) == goals(d, spec, raws),
    decreases raws.len(),
{
    if raws.len() > 0 {
        lemma_goals_alike(c, d, spec, raws.drop_last());
        if let Some((_, bound)) = goals(c, spec, raws.drop_last()) {
            let raw = raws.last()@;
            if let Ok(p) = pair_of(raw) {
                lemma_bind_alike(c, d, spec, p.lhs, bound);
                if let Some((_, once)) = bind(c, spec, p.lhs, bound) {
                    lemma_bind_alike(c, d, spec, p.rhs, once);
                }
            } else if let Ok(p) = predicate_of(raw) {
                lemma_bind_alike(c, d, spec, p.var, bound);
            }
        }
    }
}

/// The problem of a call whose arguments are all constants does not depend on the caller: not on
/// its body, not on the block that the call ends, and not on what the caller assumes. Nor does such
/// a call give rise to a note.
pub proof fn law_constant_calls_ignore_the_caller(
    c: CallView,
    d: CallView,
    spec: CalleeSpec,
    some: Seq<String>,
    other: Seq<String>,
)
    requires
        constant_args(c.args),
        c.args == d.args,
    ensures
        callsite_problem(c, some, spec) == callsite_problem(d, other, spec),
        callsite_problem(c, some, spec) matches Some(p) ==> p.notes.len() == 0,
{
    lemma_goals_alike(c, d, spec, spec.preconditions@);
    if goals(c, spec, spec.preconditions@) is Some {
        lemma_goals_constant(c, spec, spec.preconditions@);
        let bound = (goals(c, spec, spec.preconditions@)->0).1;
        lemma_constants_link_nothing(bound);
    }
}

/// Two visitors that know the same of callees report a call with the same constant arguments alike,
/// whatever bodies they walk and whatever those assume.
pub proof fn law_constant_calls_are_reported_alike(
    some: Scope,
    other: Scope,
    c: ConstOperand,
    args: Seq<Operand>,
    span: Span,
    some_block: int,
    other_block: int,
)
    requires
        constant_args(args),
        some.settings.callee_specs == other.settings.callee_specs,
        some.settings.precondition_fns == other.settings.precondition_fns,
    ensures
        precondition_findings(some, c, args, span, some_block) == precondition_findings(
            other,
            c,
            args,
            span,
            other_block,
        ),
{
    if let Some(p) = c.path {
        if let Some(spec) = crate::callsite::callee(some.settings.callee_specs, p@) {
            law_constant_calls_ignore_the_caller(
                CallView { body: some.body, args, block: some_block },
                CallView { body: other.body, args, block: other_block },
                spec,
                some.settings.preconditions,
                other.settings.preconditions,
            );
        }
        assert(call_problem(some, p@, args, some_block) == call_problem(
            other,
            p@,
            args,
            other_block,
        ));
    }
}

// ---------------------------------------------------------------------------
// The caller is not mentioned.
// ---------------------------------------------------------------------------

/// Whether the marker of entry symbols does not occur in `s`.
pub open spec fn unmarked(s: Seq<char>) -> bool {
    !holds(s, "__pb_caller_arg")
}

/// Whether `c` is a character of the marker.
spec fn in_marker(c: char) -> bool {
    c == '_' || c == 'p' || c == 'b' || c == 'c' || c == 'a' || c == 'l' || c == 'e' || c == 'r'
        || c == 'g'
}

/// The marker does not occur in two texts together where it occurs in neither and the characters
/// at the seam are not both of the marker.
proof fn lemma_unmarked_join(a: Seq<char>, b: Seq<char>)
    requires
        unmarked(a),
        unmarked(b),
        a.len() == 0 || b.len() == 0 || !in_marker(a.last()) || !in_marker(b[0]),
    ensures
        unmarked(a + b),
{
    lemma_marker();
    let m = "__pb_caller_arg"@;
    let s = a + b;
    assert forall|i: int| !occurs_at(s, m, i) by {
        if occurs_at(s, m, i) {
            let n = a.len() as int;
            if i + 15 <= n {
                assert(a.subrange(i, i + 15) =~= s.subrange(i, i + 15));
                assert(occurs_at(a, m, i));
            } else if i >= n {
                assert(b.subrange(i - n, i - n + 15) =~= s.subrange(i, i + 15));
                assert(occurs_at(b, m, i - n));
            } else {
                assert(forall|k: int| 0 <= k < 15 ==> in_marker(#[trigger] m[k]));
                assert(s.subrange(i, i + 15)[n - 1 - i] == a.last());
                assert(s.subrange(i, i + 15)[n - i] == b[0]);
                assert(in_marker(m[n - 1 - i]) && in_marker(m[n - i]));
            }
        }
    }
}

/// The marker does not occur in a text without its first character, nor in a short text.
proof fn lemma_unmarked_plain(s: Seq<char>)
    requires
        s.len() < 15 || forall|k: int| 0 <= k < s.len() ==> #[trigger] s[k] != '_',
    ensures
        unmarked(s),
{
    lemma_marker();
    let m = "__pb_caller_arg"@;
    assert forall|i: int| !occurs_at(s, m, i) by {
        if occurs_at(s, m, i) {
            assert(s.subrange(i, i + 15)[0] == s[i]);
        }
    }
}

proof fn lemma_unmarked_literal(v: int, bits: u32)
    ensures
        unmarked(literal_text(v, bits)),
{
    reveal_strlit("#x");
    let h = hex((v % modulus(bits)) as nat, (bits / 4) as nat);
    lemma_hex_plain((v % modulus(bits)) as nat, (bits / 4) as nat);
    let t = literal_text(v, bits);
    assert forall|k: int| 0 <= k < t.len() implies #[trigger] t[k] != '_' by {
        if k >= 2 {
            assert(t[k] == h[k - 2]);
        }
    }
    lemma_unmarked_plain(t);
}

proof fn lemma_unmarked_declaration(name: Seq<char>, bits: u32)
    requires
        unmarked(name),
    ensures
        unmarked(declaration(name, bits)),
        declaration(name, bits).len() > 0,
        declaration(name, bits)[0] == '(',
{
    reveal_strlit("(declare-const ");
    reveal_strlit(" (_ BitVec ");
    reveal_strlit("))\n");
    let d = decimal(bits as nat);
    lemma_decimal_digits(bits as nat);
    assert forall|k: int| 0 <= k < d.len() implies #[trigger] d[k] != '_' by {
        assert(is_digit(d[k]));
    }
    lemma_unmarked_plain(d);
    lemma_unmarked_plain("(declare-const "@);
    lemma_unmarked_plain(" (_ BitVec "@);
    lemma_unmarked_plain("))\n"@);
    let a = "(declare-const "@ + name;
    lemma_unmarked_join("(declare-const "@, name);
    lemma_unmarked_join(a, " (_ BitVec "@);
    lemma_unmarked_join(a + " (_ BitVec "@, d);
    lemma_unmarked_join(a + " (_ BitVec "@ + d, "))\n"@);
}

proof fn lemma_unmarked_comparison(op: Comparison, signed: bool, a: Seq<char>, b: Seq<char>)
    requires
        unmarked(a),
        unmarked(b),
    ensures
        unmarked(comparison_term(op, signed, a, b)),
        comparison_term(op, signed, a, b).len() > 0,
        comparison_term(op, signed, a, b)[0] == '(',
{
    reveal_strlit("(");
    reveal_strlit(" ");
    reveal_strlit(")");
    reveal_strlit("(not ");
    let name = order_name(op, signed);
    lemma_unmarked_order_name(op, signed);
    lemma_unmarked_plain("("@);
    lemma_unmarked_plain(" "@);
    lemma_unmarked_plain(")"@);
    lemma_unmarked_plain("(not "@);
    let x = "("@ + name;
    lemma_unmarked_join("("@, name);
    lemma_unmarked_join(x, " "@);
    lemma_unmarked_join(x + " "@, a);
    lemma_unmarked_join(x + " "@ + a, " "@);
    lemma_unmarked_join(x + " "@ + a + " "@, b);
    lemma_unmarked_join(x + " "@ + a + " "@ + b, ")"@);
    let inner = "("@ + name + " "@ + a + " "@ + b + ")"@;
    lemma_unmarked_join("(not "@, inner);
    lemma_unmarked_join("(not "@ + inner, ")"@);
}

proof fn lemma_unmarked_order_name(op: Comparison, signed: bool)
    ensures
        unmarked(order_name(op, signed)),
{
    reveal_strlit("bvult");
    reveal_strlit("bvule");
    reveal_strlit("bvugt");
    reveal_strlit("bvuge");
    reveal_strlit("bvslt");
    reveal_strlit("bvsle");
    reveal_strlit("bvsgt");
    reveal_strlit("bvsge");
    reveal_strlit("=");
    lemma_unmarked_plain(order_name(op, signed));
}

/// Whether the marker is in no name of a callee's parameters that the clause `raw` speaks of.
pub open spec fn unmarked_clause(spec: CalleeSpec, raw: Seq<char>) -> bool {
    forall|i: int|
        0 <= i < spec.arg_names@.len() && speaks_of(raw, (#[trigger] spec.arg_names@[i])@)
            ==> unmarked(spec.arg_names@[i]@)
}

/// Whether the marker is in no name of a callee's parameters that its preconditions speak of.
pub open spec fn unmarked_params(spec: CalleeSpec) -> bool {
    forall|r: int|
        0 <= r < spec.preconditions@.len() ==> unmarked_clause(
            spec,
            (#[trigger] spec.preconditions@[r])@,
        )
}

/// Whether the marker is in no name of the bound parameters.
spec fn unmarked_bound(bound: Seq<BoundView>) -> bool {
    forall|i: int| 0 <= i < bound.len() ==> unmarked((#[trigger] bound[i]).name)
}

/// Whether the marker is in none of the terms, each of which is in parentheses.
spec fn unmarked_terms(terms: Seq<Seq<char>>) -> bool {
    forall|i: int|
        0 <= i < terms.len() ==> unmarked(#[trigger] terms[i]) && terms[i].len() > 0 && terms[i][0]
            == '('
}

proof fn lemma_bound_name(bound: Seq<BoundView>, name: Seq<char>)
    requires
        unmarked_bound(bound),
        bound_ty(bound, name) is Some,
    ensures
        unmarked(name),
    decreases bound.len(),
{
    assert(bound.len() > 0);
    if bound_ty(bound.drop_last(), name) is Some {
        assert forall|i: int| 0 <= i < bound.drop_last().len() implies unmarked(
            (#[trigger] bound.drop_last()[i]).name,
        ) by {
            assert(bound.drop_last()[i] == bound[i]);
        }
        lemma_bound_name(bound.drop_last(), name);
    } else {
        assert(unmarked(bound[bound.len() - 1].name));
    }
}

proof fn lemma_bind_unmarked(
    c: CallView,
    spec: CalleeSpec,
    raw: Seq<char>,
    ident: Seq<char>,
    bound: Seq<BoundView>,
)
    requires
        unmarked_clause(spec, raw),
        speaks_of(raw, ident),
        unmarked_bound(bound),
        bind(c, spec, ident, bound) is Some,
    ensures
        unmarked(ident),
        unmarked_bound((bind(c, spec, ident, bound)->0).1),
{
    if bound_ty(bound, ident) is Some {
        lemma_bound_name(bound, ident);
    } else {
        let i = sole_index(spec.arg_names@, ident)->0;
        lemma_sole_index_bounds(spec.arg_names@, ident);
        assert(unmarked(spec.arg_names@[i]@));
    }
}

proof fn lemma_goal_unmarked(c: CallView, spec: CalleeSpec, raw: Seq<char>, bound: Seq<BoundView>)
    requires
        unmarked_clause(spec, raw),
        unmarked_bound(bound),
        goal(c, spec, raw, bound) is Some,
    ensures
        unmarked((goal(c, spec, raw, bound)->0).0),
        (goal(c, spec, raw, bound)->0).0.len() > 0,
        (goal(c, spec, raw, bound)->0).0[0] == '(',
        unmarked_bound((goal(c, spec, raw, bound)->0).1),
{
    law_clauses_speak_of_identifiers(raw);
    match pair_of(raw) {
        Ok(p) => {
            lemma_bind_unmarked(c, spec, raw, p.lhs, bound);
            let (ty, once) = bind(c, spec, p.lhs, bound)->0;
            lemma_bind_unmarked(c, spec, raw, p.rhs, once);
            lemma_ident_flat(p.lhs);
            lemma_ident_flat(p.rhs);
            let signed = (int_info(ty)->0).0;
            law_stripping_undoes_asserting(p.op, signed, p.lhs, p.rhs);
            lemma_unmarked_comparison(p.op, signed, p.lhs, p.rhs);
        },
        Err(_) => {
            let p = predicate_of(raw)->Ok_0;
            lemma_bind_unmarked(c, spec, raw, p.var, bound);
            let (ty, _) = bind(c, spec, p.var, bound)->0;
            let (signed, bits) = int_info(ty)->0;
            let lit = literal_text(p.literal, bits);
            lemma_ident_flat(p.var);
            lemma_literal_flat(p.literal, bits);
            lemma_unmarked_literal(p.literal, bits);
            law_stripping_undoes_asserting(p.op, signed, p.var, lit);
            lemma_unmarked_comparison(p.op, signed, p.var, lit);
        },
    }
}

proof fn lemma_goals_unmarked(c: CallView, spec: CalleeSpec, raws: Seq<String>)
    requires
        forall|r: int| 0 <= r < raws.len() ==> unmarked_clause(spec, (#[trigger] raws[r])@),
        goals(c, spec, raws) is Some,
    ensures
        unmarked_terms((goals(c, spec, raws)->0).0),
        unmarked_bound((goals(c, spec, raws)->0).1),
    decreases raws.len(),
{
    if raws.len() > 0 {
        let short = raws.drop_last();
        assert forall|r: int| 0 <= r < short.len() implies unmarked_clause(
            spec,
            (#[trigger] short[r])@,
        ) by {
            assert(short[r] == raws[r]);
        }
        assert(unmarked_clause(spec, raws[raws.len() - 1]@));
        lemma_goals_unmarked(c, spec, short);
        let (terms, bound) = goals(c, spec, raws.drop_last())->0;
        lemma_goal_unmarked(c, spec, raws.last()@, bound);
    }
}

proof fn lemma_unmarked_declarations(bound: Seq<BoundView>)
    requires
        unmarked_bound(bound),
        bound_declarations(bound) is Some,
    ensures
        unmarked(bound_declarations(bound)->0),
        (bound_declarations(bound)->0).len() > 0 ==> (bound_declarations(bound)->0)[0] == '(',
    decreases bound.len(),
{
    reveal_strlit("");
    if bound.len() == 0 {
        lemma_unmarked_plain(""@);
    } else {
        let short = bound.drop_last();
        assert forall|i: int| 0 <= i < short.len() implies unmarked((#[trigger] short[i]).name) by {
            assert(short[i] == bound[i]);
        }
        lemma_unmarked_declarations(short);
        let last = bound[bound.len() - 1];
        let bits = (int_info(last.ty)->0).1;
        lemma_unmarked_declaration(last.name, bits);
        lemma_unmarked_join(bound_declarations(short)->0, declaration(last.name, bits));
    }
}

proof fn lemma_unmarked_links(bound: Seq<BoundView>)
    requires
        unmarked_bound(bound),
        all_constant(bound),
        bound_declarations(bound) is Some,
    ensures
        unmarked(links(bound)),
        links(bound).len() > 0 ==> links(bound)[0] == '(',
    decreases bound.len(),
{
    reveal_strlit("");
    if bound.len() == 0 {
        lemma_unmarked_plain(""@);
    } else {
        let short = bound.drop_last();
        assert forall|i: int| 0 <= i < short.len() implies unmarked((#[trigger] short[i]).name)
            && short[i].binding is Constant by {
            assert(short[i] == bound[i]);
        }
        lemma_unmarked_links(short);
        let last = bound[bound.len() - 1];
        lemma_unmarked_link(last);
        lemma_unmarked_join(links(short), link(last));
    }
}

proof fn lemma_unmarked_link(b: BoundView)
    requires
        unmarked(b.name),
        b.binding is Constant,
        int_info(b.ty) is Some,
    ensures
        unmarked(link(b)),
        link(b).len() > 0,
        link(b)[0] == '(',
{
    reveal_strlit("(assert (= ");
    reveal_strlit(" ");
    reveal_strlit("))");
    reveal_strlit("\n");
    let v = b.binding->Constant_0;
    let lit = literal_text(v, (int_info(b.ty)->0).1);
    lemma_unmarked_literal(v, (int_info(b.ty)->0).1);
    lemma_unmarked_plain("(assert (= "@);
    lemma_unmarked_plain(" "@);
    lemma_unmarked_plain("))"@);
    lemma_unmarked_plain("\n"@);
    let x = "(assert (= "@ + b.name;
    lemma_unmarked_join("(assert (= "@, b.name);
    lemma_unmarked_join(x, " "@);
    lemma_unmarked_join(x + " "@, lit);
    lemma_unmarked_join(x + " "@ + lit, "))"@);
    lemma_unmarked_join(x + " "@ + lit + "))"@, "\n"@);
}

proof fn lemma_unmarked_joined(terms: Seq<Seq<char>>)
    requires
        unmarked_terms(terms),
    ensures
        unmarked(joined(terms, " "@)),
    decreases terms.len(),
{
    reveal_strlit(" ");
    if terms.len() == 0 {
        lemma_unmarked_plain(joined(terms, " "@));
    } else if terms.len() > 1 {
        let short = terms.drop_last();
        assert forall|i: int| 0 <= i < short.len() implies unmarked(#[trigger] short[i])
            && short[i].len() > 0 && short[i][0] == '(' by {
            assert(short[i] == terms[i]);
        }
        lemma_unmarked_joined(short);
        lemma_unmarked_plain(" "@);
        let last = terms[terms.len() - 1];
        lemma_unmarked_join(joined(short, " "@), " "@);
        lemma_unmarked_join(joined(short, " "@) + " "@, last);
    } else {
        assert(unmarked(terms[0]));
    }
}

proof fn lemma_unmarked_negation(terms: Seq<Seq<char>>)
    requires
        unmarked_terms(terms),
    ensures
        unmarked(negation(terms)),
{
    reveal_strlit("(not ");
    reveal_strlit(")");
    reveal_strlit("(not (and ");
    reveal_strlit("))");
    lemma_unmarked_plain("(not "@);
    lemma_unmarked_plain(")"@);
    lemma_unmarked_plain("(not (and "@);
    lemma_unmarked_plain("))"@);
    if terms.len() == 1 {
        assert(unmarked(terms[0]));
        lemma_unmarked_join("(not "@, terms[0]);
        lemma_unmarked_join("(not "@ + terms[0], ")"@);
    } else {
        let all = joined(terms, " "@);
        lemma_unmarked_joined(terms);
        lemma_unmarked_join("(not (and "@, all);
        lemma_unmarked_join("(not (and "@ + all, "))"@);
    }
}

/// The problem of a call whose arguments are all constants speaks of no parameter of the caller: no
/// entry symbol stands in its text or in that of its consistency check. A callee whose
/// preconditions speak of a parameter that is named like an entry symbol is left out, since that
/// name stands in the text.
pub proof fn law_constant_calls_mention_no_caller(
    c: CallView,
    preconditions: Seq<String>,
    spec: CalleeSpec,
)
    requires
        constant_args(c.args),
        unmarked_params(spec),
    ensures
        callsite_problem(c, preconditions, spec) matches Some(p) ==> unmarked(p.discharge)
            && unmarked(p.consistency),
{
    if callsite_problem(c, preconditions, spec) is Some {
        let (terms, bound) = goals(c, spec, spec.preconditions@)->0;
        lemma_goals_constant(c, spec, spec.preconditions@);
        lemma_goals_unmarked(c, spec, spec.preconditions@);
        lemma_constants_link_nothing(bound);
        let side = caller_side(c.body, preconditions, bound);
        reveal_strlit("");
        reveal_strlit("(set-logic QF_BV)\n");
        reveal_strlit("(assert ");
        reveal_strlit(")\n(check-sat)\n");
        reveal_strlit("(check-sat)\n");
        let lead = "(set-logic QF_BV)\n"@;
        let params = bound_declarations(bound)->0;
        let symbols = symbol_declarations(side.symbols)->0;
        let hyps = assertions(side.terms);
        assert(symbols =~= seq![]);
        assert(hyps =~= seq![]);
        lemma_unmarked_lead();
        lemma_unmarked_plain(symbols);
        lemma_unmarked_plain(hyps);
        lemma_unmarked_declarations(bound);
        lemma_unmarked_links(bound);
        lemma_unmarked_negation(terms);
        lemma_unmarked_plain("(assert "@);
        lemma_unmarked_plain(")\n(check-sat)\n"@);
        lemma_unmarked_plain("(check-sat)\n"@);
        lemma_unmarked_join(lead, symbols);
        lemma_unmarked_join(lead + symbols, params);
        lemma_unmarked_join(lead + symbols + params, hyps);
        let given = lead + symbols + params + hyps + links(bound);
        lemma_unmarked_join(lead + symbols + params + hyps, links(bound));
        lemma_unmarked_join(given, "(assert "@);
        lemma_unmarked_join(given + "(assert "@, negation(terms));
        lemma_unmarked_join(given + "(assert "@ + negation(terms), ")\n(check-sat)\n"@);
        lemma_unmarked_join(given, "(check-sat)\n"@);
    }
}

proof fn lemma_unmarked_lead()
    ensures
        unmarked("(set-logic QF_BV)\n"@),
{
    reveal_strlit("(set-logic QF_BV)\n");
    lemma_marker();
    let s = "(set-logic QF_BV)\n"@;
    assert forall|i: int| !occurs_at(s, "__pb_caller_arg"@, i) by {
        if occurs_at(s, "__pb_caller_arg"@, i) {
            assert(s.subrange(i, i + 15)[0] == s[i]);
            assert(0 <= i <= 3);
        }
    }
}

} // verus!
