//! What captured terms are made of.
use vstd::prelude::*;
use crate::capture::{
    after_statements, body_effect, call_arg_term, captured_amount, captured_operand,
    captured_rvalue, entry_names, entry_symbol, entry_symbols, known_at, next_block, operation_name,
    returned_from, Known,
};
use crate::laws::postcondition::law_captured_names_are_declared;
use crate::locals::primitive_int_name;
use crate::mir_api::{BinOp, Body, Operand, Rvalue, Statement, StatementKind};
use crate::postcondition::typed_args;
use crate::predicate::{int_info, literal_text};

verus! {

/// A term over bit-vectors of one width.
pub enum Term {
    /// A declared name.
    Name(Seq<char>),
    /// The literal of an integer.
    Literal(int),
    /// An arithmetic operation on two terms.
    Operation(BinOp, Box<Term>, Box<Term>),
}

/// How a term is written at the integer type with this signedness and width.
pub open spec fn term_text(t: Term, signed: bool, bits: u32) -> Seq<char>
    decreases t,
{
    match t {
        Term::Name(name) => name,
        Term::Literal(v) => literal_text(v, bits),
        Term::Operation(op, a, b) => "("@ + (operation_name(op, signed)->0) + " "@ + term_text(
            *a,
            signed,
            bits,
        ) + " "@ + term_text(*b, signed, bits) + ")"@,
    }
}

/// Whether the names of a term are all in `names`, and its operations are arithmetic.
pub open spec fn term_over(t: Term, names: Set<Seq<char>>) -> bool
    decreases t,
{
    match t {
        Term::Name(name) => names.contains(name),
        Term::Literal(_) => true,
        Term::Operation(op, a, b) => operation_name(op, false) is Some && term_over(*a, names)
            && term_over(*b, names),
    }
}

/// Whether `text` is how a term over `names` is written at type `ty`.
pub open spec fn writes_term(text: Seq<char>, names: Set<Seq<char>>, ty: Seq<char>) -> bool {
    exists|t: Term| #[trigger]
        term_over(t, names) && match int_info(ty) {
            Some((signed, bits)) => text == term_text(t, signed, bits),
            None => t is Name && text == t->Name_0,
        }
}

/// Whether every captured term is one over `names` at type `ty`.
pub open spec fn known_terms(known: Known, names: Set<Seq<char>>, ty: Seq<char>) -> bool {
    &&& forall|l: u32| #[trigger]
        known.whole.contains_key(l) ==> writes_term(known.whole[l], names, ty)
    &&& forall|l: u32| #[trigger]
        known.first.contains_key(l) ==> writes_term(known.first[l], names, ty)
}

proof fn lemma_name_is_term(name: Seq<char>, names: Set<Seq<char>>, ty: Seq<char>)
    requires
        names.contains(name),
    ensures
        writes_term(name, names, ty),
{
    assert(term_over(Term::Name(name), names));
}

proof fn lemma_operand_term(
    body: Body,
    op: Operand,
    known: Known,
    names: Set<Seq<char>>,
    ty: Seq<char>,
)
    requires
        known_terms(known, names, ty),
    ensures
        captured_operand(body, op, known, ty) matches Some(e) ==> writes_term(e, names, ty),
        captured_amount(body, op, known, ty) matches Some(e) ==> writes_term(e, names, ty),
{
    match op {
        Operand::Constant(c) => {
            if c.value is Some && int_info(ty) is Some {
                assert(term_over(Term::Literal(c.value->0 as int), names));
            }
        },
        _ => {},
    }
}

proof fn lemma_rvalue_term(
    body: Body,
    rvalue: Rvalue,
    known: Known,
    names: Set<Seq<char>>,
    ty: Seq<char>,
)
    requires
        known_terms(known, names, ty),
    ensures
        captured_rvalue(body, rvalue, known, ty) matches Some(e) ==> writes_term(e, names, ty),
{
    match rvalue {
        Rvalue::Use(op) => lemma_operand_term(body, op, known, names, ty),
        Rvalue::BinaryOp(op, a, b) => {
            if captured_rvalue(body, rvalue, known, ty) is Some {
                lemma_operand_term(body, a, known, names, ty);
                lemma_operand_term(body, b, known, names, ty);
                let (signed, bits) = int_info(ty)->0;
                let ea = captured_operand(body, a, known, ty)->0;
                let eb = if op == BinOp::Shl || op == BinOp::Shr {
                    captured_amount(body, b, known, ty)->0
                } else {
                    captured_operand(body, b, known, ty)->0
                };
                let ta = choose|t: Term| #[trigger]
                    term_over(t, names) && ea == term_text(t, signed, bits);
                let tb = choose|t: Term| #[trigger]
                    term_over(t, names) && eb == term_text(t, signed, bits);
                assert(term_over(Term::Operation(op, Box::new(ta), Box::new(tb)), names));
            }
        },
        _ => {},
    }
}

proof fn lemma_statements_terms(
    body: Body,
    known: Known,
    stmts: Seq<Statement>,
    names: Set<Seq<char>>,
    ty: Seq<char>,
)
    requires
        known_terms(known, names, ty),
    ensures
        known_terms(after_statements(body, known, stmts, ty), names, ty),
    decreases stmts.len(),
{
    if stmts.len() > 0 {
        lemma_statements_terms(body, known, stmts.drop_last(), names, ty);
        let before = after_statements(body, known, stmts.drop_last(), ty);
        if let StatementKind::Assign(place, rvalue) = stmts.last().kind {
            lemma_rvalue_term(body, rvalue, before, names, ty);
        }
    }
}

proof fn lemma_returned_term(
    body: Body,
    at: int,
    steps: nat,
    known: Known,
    names: Set<Seq<char>>,
    ty: Seq<char>,
)
    requires
        known_terms(known, names, ty),
    ensures
        returned_from(body, at, steps, known, ty) matches Some(e) ==> writes_term(e, names, ty),
    decreases steps,
{
    if steps > 0 && 0 <= at < body.blocks@.len() {
        let block = body.blocks@[at];
        lemma_statements_terms(body, known, block.statements@, names, ty);
        if !(block.terminator.kind is Return) {
            if let Some(next) = next_block(block.terminator.kind) {
                lemma_returned_term(
                    body,
                    next as int,
                    (steps - 1) as nat,
                    after_statements(body, known, block.statements@, ty),
                    names,
                    ty,
                );
            }
        }
    }
}

/// The names that the problem of a body's postconditions declares for parameters.
pub open spec fn declared_args(body: Body, ty: Seq<char>) -> Set<Seq<char>> {
    typed_args(body, ty, body.arg_names@.len()).to_set()
}

/// A captured return value is a term of the return type over the parameters that the problem of the
/// postconditions declares: no name in it is undeclared, and none has another type.
pub proof fn law_captured_returns_are_declared_terms(body: Body)
    requires
        body_effect(body) is Some,
    ensures
        ({
            let ty = primitive_int_name(body.return_ty)->0;
            writes_term(body_effect(body)->0, declared_args(body, ty), ty)
        }),
{
    let ty = primitive_int_name(body.return_ty)->0;
    let names = declared_args(body, ty);
    let start = entry_names(body, ty);
    assert(known_terms(start, names, ty)) by {
        assert forall|l: u32| #[trigger] start.whole.contains_key(l) implies writes_term(
            start.whole[l],
            names,
            ty,
        ) by {
            law_captured_names_are_declared(body, ty, l);
            lemma_name_is_term(start.whole[l], names, ty);
        }
    }
    lemma_returned_term(body, 0, body.blocks@.len(), start, names, ty);
}

proof fn lemma_known_at_terms(
    body: Body,
    at: int,
    steps: nat,
    known: Known,
    names: Set<Seq<char>>,
    ty: Seq<char>,
    call: int,
)
    requires
        known_terms(known, names, ty),
    ensures
        known_at(body, at, steps, known, ty, call) matches Some(k) ==> known_terms(k, names, ty),
    decreases steps,
{
    if steps > 0 && 0 <= at < body.blocks@.len() {
        let block = body.blocks@[at];
        lemma_statements_terms(body, known, block.statements@, names, ty);
        if at != call {
            if let Some(next) = next_block(block.terminator.kind) {
                lemma_known_at_terms(
                    body,
                    next as int,
                    (steps - 1) as nat,
                    after_statements(body, known, block.statements@, ty),
                    names,
                    ty,
                    call,
                );
            }
        }
    }
}

/// The entry symbols of the parameters of a body.
pub open spec fn entry_symbol_set(body: Body) -> Set<Seq<char>> {
    Set::new(
        |s: Seq<char>| exists|i: nat| i < body.arg_names@.len() && s == #[trigger] entry_symbol(i),
    )
}

/// A captured argument is a term of the callee's parameter type over the entry symbols of the
/// caller's parameters.
pub proof fn law_captured_arguments_are_terms(body: Body, op: Operand, call: int, ty: Seq<char>)
    requires
        call_arg_term(body, op, call, ty) is Some,
    ensures
        writes_term(call_arg_term(body, op, call, ty)->0, entry_symbol_set(body), ty),
{
    let names = entry_symbol_set(body);
    let start = entry_symbols(body);
    assert(known_terms(start, names, ty)) by {
        assert forall|l: u32| #[trigger] start.whole.contains_key(l) implies writes_term(
            start.whole[l],
            names,
            ty,
        ) by {
            let i = (l - 1) as nat;
            assert(start.whole[l] == entry_symbol(i));
            lemma_name_is_term(start.whole[l], names, ty);
        }
    }
    lemma_known_at_terms(body, 0, body.blocks@.len(), start, names, ty, call);
}

} // verus!
