//! The clause language: comparisons of an identifier with an integer or with another identifier,
//! their translation to solver assertions, and the check of assertions that are written out.
use vstd::prelude::*;
use vstd::arithmetic::div_mod::lemma_fundamental_div_mod;
use vstd::arithmetic::div_mod::lemma_fundamental_div_mod_converse;
use crate::text::{
    begins, cat2, cat3, cat5, chars_of, decimal, decimal_text, has_class, hex, hex_text, in_class,
    is_digit, is_white, lemma_run_end, number, read_number, run_end, same, scan, signed_decimal,
    signed_decimal_text, starts_with, tail_start, trim, trim_bounds, trimmed, CharClass,
};

verus! {

/// A comparison operator.
#[derive(Clone, Copy, Debug, PartialEq, Eq, Structural)]
pub enum Comparison {
    Lt,
    Le,
    Gt,
    Ge,
    Eq,
    Ne,
}

/// The clause `<var> <op> <literal>`.
#[derive(Clone, Debug)]
pub struct Predicate {
    pub var: String,
    pub op: Comparison,
    pub literal: i128,
}

/// The clause `<lhs> <op> <rhs>` over two identifiers.
#[derive(Clone, Debug)]
pub struct IdentVsIdentPredicate {
    pub lhs: String,
    pub op: Comparison,
    pub rhs: String,
}

/// Why a clause or an assertion is refused.
#[derive(Clone, Copy, Debug, PartialEq, Eq, Structural)]
pub enum PredicateError {
    /// The left side is no identifier.
    NoIdentifier,
    /// No comparison operator follows the left side.
    NoComparison,
    /// The right side is no decimal integer.
    NoLiteral,
    /// The right side is no identifier.
    NoRightIdentifier,
    /// The integer is too large to be read.
    LiteralTooLarge,
    /// Text follows the clause.
    TrailingText,
    /// The integer is no value of the type compared at.
    LiteralOutOfRange { literal: i128, signed: bool, bits: u32 },
    /// The type compared at has no bit-vector encoding.
    UnsupportedType,
    /// The text is no `(assert ...)` form.
    NotAnAssertion,
    /// The text holds a quotation or comment character.
    QuotedText,
    /// The text goes on after its first form is closed.
    SeveralDirectives,
    /// A parenthesis stays open.
    Unbalanced,
}

/// A clause over sequences of characters and integers.
pub struct PredicateView {
    pub var: Seq<char>,
    pub op: Comparison,
    pub literal: int,
}

/// A clause over two identifiers, as sequences of characters.
pub struct PairView {
    pub lhs: Seq<char>,
    pub op: Comparison,
    pub rhs: Seq<char>,
}

impl View for Predicate {
    type V = PredicateView;

    open spec fn view(&self) -> PredicateView {
        PredicateView { var: self.var@, op: self.op, literal: self.literal as int }
    }
}

impl View for IdentVsIdentPredicate {
    type V = PairView;

    open spec fn view(&self) -> PairView {
        PairView { lhs: self.lhs@, op: self.op, rhs: self.rhs@ }
    }
}

/// What a refusal says.
pub open spec fn error_message(e: PredicateError) -> Seq<char> {
    match e {
        PredicateError::NoIdentifier => "expected an identifier"@,
        PredicateError::NoComparison => "expected a comparison operator"@,
        PredicateError::NoLiteral => "expected an integer literal"@,
        PredicateError::NoRightIdentifier => "expected an identifier on the right"@,
        PredicateError::LiteralTooLarge => "integer literal too large"@,
        PredicateError::TrailingText => "unexpected text after the predicate"@,
        PredicateError::LiteralOutOfRange { literal, signed, bits } => "literal "@
            + signed_decimal(literal as int) + " out of range for "@ + (if signed {
            "i"@
        } else {
            "u"@
        }) + decimal(bits as nat),
        PredicateError::UnsupportedType => "type has no bit-vector encoding"@,
        PredicateError::NotAnAssertion => "not an `(assert ...)` form"@,
        PredicateError::QuotedText => "quoted symbols, strings and comments are not accepted"@,
        PredicateError::SeveralDirectives => "more than one top-level form"@,
        PredicateError::Unbalanced => "unbalanced parentheses"@,
    }
}

impl PredicateError {
    /// What this refusal says.
    pub fn message(&self) -> (r: String)
        ensures
            r@ == error_message(*self),
    {
        match self {
            PredicateError::NoIdentifier => "expected an identifier".to_owned(),
            PredicateError::NoComparison => "expected a comparison operator".to_owned(),
            PredicateError::NoLiteral => "expected an integer literal".to_owned(),
            PredicateError::NoRightIdentifier => "expected an identifier on the right".to_owned(),
            PredicateError::LiteralTooLarge => "integer literal too large".to_owned(),
            PredicateError::TrailingText => "unexpected text after the predicate".to_owned(),
            PredicateError::LiteralOutOfRange { literal, signed, bits } => {
                let shown = signed_decimal_text(*literal);
                let width = decimal_text(*bits as u128);
                let sign = if *signed {
                    "i"
                } else {
                    "u"
                };
                cat5("literal ", shown.as_str(), " out of range for ", sign, width.as_str())
            },
            PredicateError::UnsupportedType => "type has no bit-vector encoding".to_owned(),
            PredicateError::NotAnAssertion => "not an `(assert ...)` form".to_owned(),
            PredicateError::QuotedText => {
                "quoted symbols, strings and comments are not accepted".to_owned()
            },
            PredicateError::SeveralDirectives => "more than one top-level form".to_owned(),
            PredicateError::Unbalanced => "unbalanced parentheses".to_owned(),
        }
    }
}

// ---------------------------------------------------------------------------
// Reading clauses.
// ---------------------------------------------------------------------------

/// The end of the identifier that starts at `i`, if one does: letters, digits and `_`, with no
/// digit first.
pub open spec fn ident_end(s: Seq<char>, i: int) -> Option<int> {
    if 0 <= i < s.len() && in_class(s[i], CharClass::Ident) && !is_digit(s[i]) {
        Some(run_end(s, i, CharClass::Ident))
    } else {
        None
    }
}

/// The comparison operator that starts at `i`, if one does, and its end.
pub open spec fn comparison_at(s: Seq<char>, i: int) -> Option<(Comparison, int)> {
    if 0 <= i && i + 1 < s.len() && s[i + 1] == '=' {
        if s[i] == '<' {
            Some((Comparison::Le, i + 2))
        } else if s[i] == '>' {
            Some((Comparison::Ge, i + 2))
        } else if s[i] == '=' {
            Some((Comparison::Eq, i + 2))
        } else if s[i] == '!' {
            Some((Comparison::Ne, i + 2))
        } else {
            None
        }
    } else if 0 <= i < s.len() && s[i] == '<' {
        Some((Comparison::Lt, i + 1))
    } else if 0 <= i < s.len() && s[i] == '>' {
        Some((Comparison::Gt, i + 1))
    } else {
        None
    }
}

/// The left side and the operator of a clause, and where its right side starts.
pub open spec fn head(s: Seq<char>) -> Result<(Seq<char>, Comparison, int), PredicateError> {
    let a = run_end(s, 0, CharClass::White);
    match ident_end(s, a) {
        None => Err(PredicateError::NoIdentifier),
        Some(b) => match comparison_at(s, run_end(s, b, CharClass::White)) {
            None => Err(PredicateError::NoComparison),
            Some((op, c)) => Ok((s.subrange(a, b), op, run_end(s, c, CharClass::White))),
        },
    }
}

/// The clause `<ident> <op> <int>` that `s` is, white space around its parts left out.
pub open spec fn predicate_of(s: Seq<char>) -> Result<PredicateView, PredicateError> {
    match head(s) {
        Err(e) => Err(e),
        Ok((var, op, d)) => {
            let negative = d < s.len() && s[d] == '-';
            let from = if negative {
                d + 1
            } else {
                d
            };
            let to = run_end(s, from, CharClass::Digit);
            let magnitude = number(s.subrange(from, to)) as int;
            let literal = if negative {
                -magnitude
            } else {
                magnitude
            };
            if to == from {
                Err(PredicateError::NoLiteral)
            } else if run_end(s, to, CharClass::White) != s.len() {
                Err(PredicateError::TrailingText)
            } else if !(i128::MIN <= literal <= i128::MAX) {
                Err(PredicateError::LiteralTooLarge)
            } else {
                Ok(PredicateView { var, op, literal })
            }
        },
    }
}

/// The clause `<ident> <op> <ident>` that `s` is, white space around its parts left out.
pub open spec fn pair_of(s: Seq<char>) -> Result<PairView, PredicateError> {
    match head(s) {
        Err(e) => Err(e),
        Ok((lhs, op, d)) => match ident_end(s, d) {
            None => Err(PredicateError::NoRightIdentifier),
            Some(e) => if run_end(s, e, CharClass::White) != s.len() {
                Err(PredicateError::TrailingText)
            } else {
                Ok(PairView { lhs, op, rhs: s.subrange(d, e) })
            },
        },
    }
}

fn read_ident(v: &Vec<char>, i: usize) -> (r: Option<usize>)
    requires
        i <= v@.len(),
    ensures
        match r {
            Some(e) => ident_end(v@, i as int) == Some(e as int) && i < e <= v@.len(),
            None => ident_end(v@, i as int) is None,
        },
{
    if i < v.len() && has_class(v[i], CharClass::Ident) && !has_class(v[i], CharClass::Digit) {
        let e: usize = scan(v, i, CharClass::Ident);
        proof {
            lemma_run_end(v@, i as int, CharClass::Ident);
        }
        Some(e)
    } else {
        None
    }
}

fn read_comparison(v: &Vec<char>, i: usize) -> (r: Option<(Comparison, usize)>)
    requires
        i <= v@.len(),
    ensures
        match r {
            Some((op, e)) => comparison_at(v@, i as int) == Some((op, e as int)) && i < e
                <= v@.len(),
            None => comparison_at(v@, i as int) is None,
        },
{
    let n: usize = v.len();
    if i < n && n - i > 1 && v[i + 1] == '=' {
        if v[i] == '<' {
            Some((Comparison::Le, i + 2))
        } else if v[i] == '>' {
            Some((Comparison::Ge, i + 2))
        } else if v[i] == '=' {
            Some((Comparison::Eq, i + 2))
        } else if v[i] == '!' {
            Some((Comparison::Ne, i + 2))
        } else {
            None
        }
    } else if i < n && v[i] == '<' {
        Some((Comparison::Lt, i + 1))
    } else if i < n && v[i] == '>' {
        Some((Comparison::Gt, i + 1))
    } else {
        None
    }
}

fn read_head(raw: &str, v: &Vec<char>) -> (r: Result<(String, Comparison, usize), PredicateError>)
    requires
        v@ == raw@,
    ensures
        match r {
            Ok((ident, op, d)) => head(v@) == Ok::<_, PredicateError>((ident@, op, d as int)) && d
                <= v@.len(),
            Err(e) => head(v@) == Err::<(Seq<char>, Comparison, int), _>(e),
        },
{
    let a: usize = scan(v, 0, CharClass::White);
    let b: usize = match read_ident(v, a) {
        Some(b) => b,
        None => return Err(PredicateError::NoIdentifier),
    };
    let c: usize = scan(v, b, CharClass::White);
    match read_comparison(v, c) {
        Some((op, e)) => {
            let d: usize = scan(v, e, CharClass::White);
            Ok((raw.substring_char(a, b).to_owned(), op, d))
        },
        None => Err(PredicateError::NoComparison),
    }
}

/// Reads a clause `<ident> <op> <int>`.
pub fn parse_predicate(raw: &str) -> (r: Result<Predicate, PredicateError>)
    ensures
        match r {
            Ok(p) => predicate_of(raw@) == Ok::<_, PredicateError>(p@),
            Err(e) => predicate_of(raw@) == Err::<PredicateView, _>(e),
        },
{
    let v = chars_of(raw);
    let (var, op, d) = match read_head(raw, &v) {
        Ok(h) => h,
        Err(e) => return Err(e),
    };
    let negative: bool = d < v.len() && v[d] == '-';
    let from: usize = if negative {
        d + 1
    } else {
        d
    };
    let to: usize = scan(&v, from, CharClass::Digit);
    proof {
        lemma_run_end(v@, from as int, CharClass::Digit);
    }
    if to == from {
        return Err(PredicateError::NoLiteral);
    }
    if scan(&v, to, CharClass::White) != v.len() {
        return Err(PredicateError::TrailingText);
    }
    match read_number(&v, from, to) {
        None => Err(PredicateError::LiteralTooLarge),
        Some(m) => {
            if negative {
                if m > 0x8000_0000_0000_0000_0000_0000_0000_0000u128 {
                    return Err(PredicateError::LiteralTooLarge);
                }
                let literal: i128 = if m == 0 {
                    0
                } else {
                    -((m - 1) as i128) - 1
                };
                Ok(Predicate { var, op, literal })
            } else {
                if m > 0x7fff_ffff_ffff_ffff_ffff_ffff_ffff_ffffu128 {
                    return Err(PredicateError::LiteralTooLarge);
                }
                Ok(Predicate { var, op, literal: m as i128 })
            }
        },
    }
}

/// Reads a clause `<ident> <op> <ident>`.
pub fn parse_ident_vs_ident_predicate(raw: &str) -> (r: Result<
    IdentVsIdentPredicate,
    PredicateError,
>)
    ensures
        match r {
            Ok(p) => pair_of(raw@) == Ok::<_, PredicateError>(p@),
            Err(e) => pair_of(raw@) == Err::<PairView, _>(e),
        },
{
    let v = chars_of(raw);
    let (lhs, op, d) = match read_head(raw, &v) {
        Ok(h) => h,
        Err(e) => return Err(e),
    };
    match read_ident(&v, d) {
        None => Err(PredicateError::NoRightIdentifier),
        Some(e) => {
            if scan(&v, e, CharClass::White) != v.len() {
                Err(PredicateError::TrailingText)
            } else {
                Ok(IdentVsIdentPredicate { lhs, op, rhs: raw.substring_char(d, e).to_owned() })
            }
        },
    }
}

// ---------------------------------------------------------------------------
// Integer types and literals.
// ---------------------------------------------------------------------------

/// The signedness and width of the integer types that have a bit-vector encoding.
pub open spec fn int_info(ty: Seq<char>) -> Option<(bool, u32)> {
    if ty == "u8"@ {
        Some((false, 8))
    } else if ty == "u16"@ {
        Some((false, 16))
    } else if ty == "u32"@ {
        Some((false, 32))
    } else if ty == "u64"@ {
        Some((false, 64))
    } else if ty == "i8"@ {
        Some((true, 8))
    } else if ty == "i16"@ {
        Some((true, 16))
    } else if ty == "i32"@ {
        Some((true, 32))
    } else if ty == "i64"@ {
        Some((true, 64))
    } else {
        None
    }
}

/// The signedness and width of the integer type `ty`, if it has a bit-vector encoding.
pub fn int_type_info(ty: &str) -> (r: Option<(bool, u32)>)
    ensures
        r == int_info(ty@),
        r matches Some((_, bits)) ==> bits == 8 || bits == 16 || bits == 32 || bits == 64,
{
    if same(ty, "u8") {
        Some((false, 8))
    } else if same(ty, "u16") {
        Some((false, 16))
    } else if same(ty, "u32") {
        Some((false, 32))
    } else if same(ty, "u64") {
        Some((false, 64))
    } else if same(ty, "i8") {
        Some((true, 8))
    } else if same(ty, "i16") {
        Some((true, 16))
    } else if same(ty, "i32") {
        Some((true, 32))
    } else if same(ty, "i64") {
        Some((true, 64))
    } else {
        None
    }
}

/// The number of values of a type of `bits` bits.
pub open spec fn modulus(bits: u32) -> int {
    if bits == 8 {
        0x100
    } else if bits == 16 {
        0x1_0000
    } else if bits == 32 {
        0x1_0000_0000
    } else {
        0x1_0000_0000_0000_0000
    }
}

/// Whether `v` is a value of the integer type with this signedness and width.
pub open spec fn in_range(v: int, signed: bool, bits: u32) -> bool {
    if signed {
        -(modulus(bits) / 2) <= v < modulus(bits) / 2
    } else {
        0 <= v < modulus(bits)
    }
}

/// Whether `v` is a value of the type `ty`, and `ty` has a bit-vector encoding.
pub open spec fn fits(v: int, ty: Seq<char>) -> bool {
    match int_info(ty) {
        Some((signed, bits)) => in_range(v, signed, bits),
        None => false,
    }
}

/// `v` as a bit-vector literal of `bits` bits: its two's complement in base sixteen.
pub open spec fn literal_text(v: int, bits: u32) -> Seq<char> {
    "#x"@ + hex((v % modulus(bits)) as nat, (bits / 4) as nat)
}

fn values_of(bits: u32) -> (r: u128)
    ensures
        r == modulus(bits),
{
    if bits == 8 {
        0x100
    } else if bits == 16 {
        0x1_0000
    } else if bits == 32 {
        0x1_0000_0000
    } else {
        0x1_0000_0000_0000_0000
    }
}

fn fits_width(v: i128, signed: bool, bits: u32) -> (r: bool)
    ensures
        r == in_range(v as int, signed, bits),
{
    let m: i128 = values_of(bits) as i128;
    if signed {
        -(m / 2) <= v && v < m / 2
    } else {
        0 <= v && v < m
    }
}

/// Whether `value` is a value of the integer type `ty`. A type without a bit-vector encoding has
/// none.
pub fn value_fits_in_int_ty(value: i128, ty: &str) -> (r: bool)
    ensures
        r == fits(value as int, ty@),
{
    match int_type_info(ty) {
        Some((signed, bits)) => fits_width(value, signed, bits),
        None => false,
    }
}

/// `v` modulo the positive number `m`.
fn residue(v: i128, m: u128) -> (r: u64)
    requires
        0 < m <= 0x1_0000_0000_0000_0000,
    ensures
        r == (v as int) % (m as int),
{
    if v >= 0 {
        (v as u128 % m) as u64
    } else {
        let below: u128 = (-(v + 1)) as u128;
        let r: u128 = m - 1 - below % m;
        proof {
            let q = below as int / m as int;
            lemma_fundamental_div_mod(below as int, m as int);
            assert(v as int == (-(q + 1)) * m as int + r as int) by (nonlinear_arith)
                requires
                    below as int == m as int * q + below as int % m as int,
                    v as int == -(below as int) - 1,
                    r as int == m as int - 1 - below as int % m as int,
            ;
            lemma_fundamental_div_mod_converse(v as int, m as int, -(q + 1), r as int);
        }
        r as u64
    }
}

fn literal_for(v: i128, bits: u32) -> (r: String)
    ensures
        r@ == literal_text(v as int, bits),
{
    let n: u64 = residue(v, values_of(bits));
    cat2("#x", hex_text(n, bits / 4).as_str())
}

/// `v` as a literal of the type `ty`, if `ty` has a bit-vector encoding.
pub open spec fn literal_at(v: int, ty: Seq<char>) -> Option<Seq<char>> {
    match int_info(ty) {
        Some((_, bits)) => Some(literal_text(v, bits)),
        None => None,
    }
}

/// Writes `v` as a literal of the type `ty`, if `ty` has a bit-vector encoding.
pub fn format_int_literal_for_ty(v: i128, ty: &str) -> (r: Option<String>)
    ensures
        crate::text::opt_view(r) == literal_at(v as int, ty@),
{
    match int_type_info(ty) {
        Some((_, bits)) => Some(literal_for(v, bits)),
        None => None,
    }
}

/// The assertion that `label` is `v`, if the type `ty` has a bit-vector encoding.
pub open spec fn pin(label: Seq<char>, v: int, ty: Seq<char>) -> Option<Seq<char>> {
    match literal_at(v, ty) {
        Some(lit) => Some("(assert (= "@ + label + " "@ + lit + "))"@),
        None => None,
    }
}

/// Writes the assertion that `label` is `value`.
pub fn operand_pin_assertion(label: &str, value: i128, ty: &str) -> (r: Option<String>)
    ensures
        crate::text::opt_view(r) == pin(label@, value as int, ty@),
{
    match format_int_literal_for_ty(value, ty) {
        Some(lit) => Some(cat5("(assert (= ", label, " ", lit.as_str(), "))")),
        None => None,
    }
}

// ---------------------------------------------------------------------------
// Translation to assertions.
// ---------------------------------------------------------------------------

/// The solver's name of an order comparison.
pub open spec fn order_name(op: Comparison, signed: bool) -> Seq<char> {
    match (op, signed) {
        (Comparison::Lt, false) => "bvult"@,
        (Comparison::Le, false) => "bvule"@,
        (Comparison::Gt, false) => "bvugt"@,
        (Comparison::Ge, false) => "bvuge"@,
        (Comparison::Lt, true) => "bvslt"@,
        (Comparison::Le, true) => "bvsle"@,
        (Comparison::Gt, true) => "bvsgt"@,
        (Comparison::Ge, true) => "bvsge"@,
        _ => "="@,
    }
}

/// The term that compares `a` with `b`.
pub open spec fn comparison_term(
    op: Comparison,
    signed: bool,
    a: Seq<char>,
    b: Seq<char>,
) -> Seq<char> {
    let inner = "("@ + order_name(op, signed) + " "@ + a + " "@ + b + ")"@;
    if op == Comparison::Ne {
        "(not "@ + inner + ")"@
    } else {
        inner
    }
}

/// The assertion of a term.
pub open spec fn asserted(term: Seq<char>) -> Seq<char> {
    "(assert "@ + term + ")"@
}

/// The assertion of a clause with an integer, its identifier written `symbol`, at type `ty`.
pub open spec fn predicate_assertion(
    p: PredicateView,
    symbol: Seq<char>,
    ty: Seq<char>,
) -> Result<Seq<char>, PredicateError> {
    match int_info(ty) {
        None => Err(PredicateError::UnsupportedType),
        Some((signed, bits)) => if !in_range(p.literal, signed, bits) {
            Err(
                PredicateError::LiteralOutOfRange { literal: p.literal as i128, signed, bits },
            )
        } else {
            Ok(asserted(comparison_term(p.op, signed, symbol, literal_text(p.literal, bits))))
        },
    }
}

/// The assertion of a clause over two identifiers at type `ty`.
pub open spec fn pair_assertion(p: PairView, ty: Seq<char>) -> Result<Seq<char>, PredicateError> {
    match int_info(ty) {
        None => Err(PredicateError::UnsupportedType),
        Some((signed, _)) => Ok(asserted(comparison_term(p.op, signed, p.lhs, p.rhs))),
    }
}

/// The view of a translation.
pub open spec fn result_view(r: Result<String, PredicateError>) -> Result<
    Seq<char>,
    PredicateError,
> {
    match r {
        Ok(s) => Ok(s@),
        Err(e) => Err(e),
    }
}

fn write_comparison(op: Comparison, signed: bool, a: &str, b: &str) -> (r: String)
    ensures
        r@ == comparison_term(op, signed, a@, b@),
{
    let name = match (op, signed) {
        (Comparison::Lt, false) => "bvult",
        (Comparison::Le, false) => "bvule",
        (Comparison::Gt, false) => "bvugt",
        (Comparison::Ge, false) => "bvuge",
        (Comparison::Lt, true) => "bvslt",
        (Comparison::Le, true) => "bvsle",
        (Comparison::Gt, true) => "bvsgt",
        (Comparison::Ge, true) => "bvsge",
        _ => "=",
    };
    let inner = crate::text::cat7("(", name, " ", a, " ", b, ")");
    if op == Comparison::Ne {
        cat3("(not ", inner.as_str(), ")")
    } else {
        inner
    }
}

/// Translates a clause with an integer, its identifier written `symbol`, at type `ty`.
pub fn predicate_to_smt_assertion(p: &Predicate, symbol: &str, ty: &str) -> (r: Result<
    String,
    PredicateError,
>)
    ensures
        result_view(r) == predicate_assertion(p@, symbol@, ty@),
{
    match int_type_info(ty) {
        None => Err(PredicateError::UnsupportedType),
        Some((signed, bits)) => {
            if !fits_width(p.literal, signed, bits) {
                Err(PredicateError::LiteralOutOfRange { literal: p.literal, signed, bits })
            } else {
                let lit = literal_for(p.literal, bits);
                let term = write_comparison(p.op, signed, symbol, lit.as_str());
                Ok(cat3("(assert ", term.as_str(), ")"))
            }
        },
    }
}

/// Translates a clause over two identifiers at type `ty`.
pub fn ident_vs_ident_to_smt_assertion(p: &IdentVsIdentPredicate, ty: &str) -> (r: Result<
    String,
    PredicateError,
>)
    ensures
        result_view(r) == pair_assertion(p@, ty@),
{
    match int_type_info(ty) {
        None => Err(PredicateError::UnsupportedType),
        Some((signed, _)) => {
            let term = write_comparison(p.op, signed, p.lhs.as_str(), p.rhs.as_str());
            Ok(cat3("(assert ", term.as_str(), ")"))
        },
    }
}

// ---------------------------------------------------------------------------
// Assertions that are written out.
// ---------------------------------------------------------------------------

/// How many parentheses are open after the first `k` characters of `s`.
pub open spec fn depth(s: Seq<char>, k: int) -> int
    decreases k,
{
    if k <= 0 {
        0
    } else if s[k - 1] == '(' {
        depth(s, k - 1) + 1
    } else if s[k - 1] == ')' {
        depth(s, k - 1) - 1
    } else {
        depth(s, k - 1)
    }
}

/// Whether `c` starts a quoted symbol, a string or a comment.
pub open spec fn is_quote(c: char) -> bool {
    c == '|' || c == '"' || c == ';'
}

/// Whether a character of `s` starts a quoted symbol, a string or a comment.
pub open spec fn has_quote(s: Seq<char>) -> bool {
    exists|i: int| 0 <= i < s.len() && is_quote(#[trigger] s[i])
}

/// Whether the form that `s` starts with is closed before the end of `s`.
pub open spec fn closes_early(s: Seq<char>) -> bool {
    exists|k: int| 0 < k < s.len() && #[trigger] depth(s, k) <= 0
}

/// Whether `s`, white space around it left out, is one `(assert ...)` form and nothing else.
pub open spec fn assertion_check(s: Seq<char>) -> Result<(), PredicateError> {
    let t = trimmed(s);
    if !begins(t, "(assert") || (t.len() > 7 && !is_white(t[7]) && t[7] != '(') {
        Err(PredicateError::NotAnAssertion)
    } else if has_quote(t) {
        Err(PredicateError::QuotedText)
    } else if closes_early(t) {
        Err(PredicateError::SeveralDirectives)
    } else if depth(t, t.len() as int) != 0 {
        Err(PredicateError::Unbalanced)
    } else {
        Ok(())
    }
}

/// The term that the assertion `s` is about, if `s` is an assertion of one.
pub open spec fn stripped(s: Seq<char>) -> Option<Seq<char>> {
    if assertion_check(s) is Ok {
        let t = trimmed(s);
        let inner = trimmed(t.subrange(7, t.len() - 1));
        if inner.len() == 0 {
            None
        } else {
            Some(inner)
        }
    } else {
        None
    }
}

/// The bounds of a trimmed text lie in the text.
pub proof fn lemma_trim_bounds(s: Seq<char>)
    ensures
        0 <= trim_bounds(s).0 <= trim_bounds(s).1 <= s.len(),
{
    let a = run_end(s, 0, CharClass::White);
    lemma_run_end(s, 0, CharClass::White);
    lemma_tail_start(s, a, s.len() as int);
}

/// The trailing white space starts inside the text.
proof fn lemma_tail_start(s: Seq<char>, from: int, end: int)
    requires
        0 <= from <= end <= s.len(),
    ensures
        from <= tail_start(s, from, end) <= end,
    decreases end - from,
{
    if from < end && is_white(s[end - 1]) {
        lemma_tail_start(s, from, end - 1);
    }
}

fn has_quote_between(v: &Vec<char>, a: usize, z: usize) -> (r: bool)
    requires
        a <= z <= v@.len(),
    ensures
        r == has_quote(v@.subrange(a as int, z as int)),
{
    let ghost t = v@.subrange(a as int, z as int);
    let mut i: usize = a;
    while i < z
        invariant
            a <= i <= z <= v@.len(),
            t == v@.subrange(a as int, z as int),
            forall|k: int| 0 <= k < i - a ==> !is_quote(#[trigger] t[k]),
        decreases z - i,
    {
        if v[i] == '|' || v[i] == '"' || v[i] == ';' {
            assert(is_quote(t[i - a]));
            return true;
        }
        i += 1;
    }
    false
}

/// Checks that `raw` is one `(assert ...)` form and nothing else.
pub fn validate_assertion_form(raw: &str) -> (r: Result<(), PredicateError>)
    ensures
        r == assertion_check(raw@),
{
    let v = chars_of(raw);
    let (a, z) = trim(&v);
    let inner = raw.substring_char(a, z);
    let ghost t = trimmed(raw@);
    if !starts_with(inner, "(assert") {
        return Err(PredicateError::NotAnAssertion);
    }
    proof {
        reveal_strlit("(assert");
        assert(t.subrange(0, 7)[0] == '(');
    }
    if z - a > 7 && !has_class(v[a + 7], CharClass::White) && v[a + 7] != '(' {
        return Err(PredicateError::NotAnAssertion);
    }
    if has_quote_between(&v, a, z) {
        return Err(PredicateError::QuotedText);
    }
    let mut open: usize = 0;
    let mut i: usize = a;
    while i < z
        invariant
            a <= i <= z <= v@.len(),
            t == v@.subrange(a as int, z as int),
            t == trimmed(raw@),
            begins(t, "(assert"),
            t.len() > 7 ==> is_white(t[7]) || t[7] == '(',
            !has_quote(t),
            t.len() > 0,
            t[0] == '(',
            open == depth(t, i - a),
            open <= i - a,
            forall|k: int| 0 < k < i - a ==> #[trigger] depth(t, k) > 0,
            a < i < z ==> open > 0,
            !closes_early(t) || i < z,
        decreases z - i,
    {
        assert(t[i - a] == v@[i as int]);
        if v[i] == '(' {
            open += 1;
        } else if v[i] == ')' {
            assert(open > 0);
            open -= 1;
        }
        i += 1;
        if open == 0 && i < z {
            assert(depth(t, i - a) <= 0);
            return Err(PredicateError::SeveralDirectives);
        }
    }
    if open != 0 {
        Err(PredicateError::Unbalanced)
    } else {
        Ok(())
    }
}

/// The term that the assertion `s` is about.
pub fn strip_assert(s: &str) -> (r: Option<String>)
    ensures
        crate::text::opt_view(r) == stripped(s@),
{
    if validate_assertion_form(s).is_err() {
        return None;
    }
    proof {
        reveal_strlit("(assert");
        let t = trimmed(s@);
        assert(depth(t, t.len() as int) == 0);
        if t.len() == 7 {
            assert(t =~= "(assert"@);
            reveal_with_fuel(depth, 8);
        }
    }
    let v = chars_of(s);
    let (a, z) = trim(&v);
    let inner = s.substring_char(a + 7, z - 1);
    assert(inner@ =~= trimmed(s@).subrange(7, trimmed(s@).len() - 1));
    let w = chars_of(inner);
    let (b, y) = trim(&w);
    if b == y {
        None
    } else {
        Some(inner.substring_char(b, y).to_owned())
    }
}

} // verus!
