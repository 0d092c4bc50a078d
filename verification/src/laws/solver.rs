//! What the solver takes a text for: terms, formulas and scripts over bit-vectors, read off the
//! names that are written in them.
//!
//! The meaning of each name is that of the theory of fixed-size bit-vectors. Nothing here speaks of
//! how the checker comes by a text.
use vstd::prelude::*;
use vstd::arithmetic::div_mod::{
    lemma_fundamental_div_mod, lemma_fundamental_div_mod_converse, lemma_mod_multiples_vanish,
    lemma_small_mod,
};
use vstd::arithmetic::power2::{lemma2_to64, lemma_pow2_pos, pow2};
use crate::capture::operation_name;
use crate::mir_api::BinOp;
use crate::predicate::{comparison_term, literal_text, modulus, order_name, Comparison};
use crate::text::{digit, hex};

verus! {

// ---------------------------------------------------------------------------
// Bit patterns.
// ---------------------------------------------------------------------------

/// Whether `x` is a pattern of `bits` bits.
pub open spec fn is_pattern(x: int, bits: nat) -> bool {
    0 <= x < pow2(bits)
}

/// The integer that a pattern stands for: in two's complement at a signed type.
pub open spec fn value_of(x: int, signed: bool, bits: nat) -> int {
    if signed && 2 * x >= pow2(bits) {
        x - pow2(bits)
    } else {
        x
    }
}

/// The pattern of an integer.
pub open spec fn pattern_of(v: int, bits: nat) -> int {
    v % (pow2(bits) as int)
}

/// Whether `v` is a value of the integer type with this signedness and width.
pub open spec fn is_value(v: int, signed: bool, bits: nat) -> bool {
    if signed {
        -(pow2(bits) as int) <= 2 * v < pow2(bits)
    } else {
        0 <= v < pow2(bits)
    }
}

/// Whether there is an encoding for integers of this width.
pub open spec fn is_width(bits: nat) -> bool {
    bits == 8 || bits == 16 || bits == 32 || bits == 64
}

/// A value is read back from its pattern.
pub proof fn lemma_value_of_pattern(v: int, signed: bool, bits: nat)
    requires
        is_value(v, signed, bits),
    ensures
        is_pattern(pattern_of(v, bits), bits),
        value_of(pattern_of(v, bits), signed, bits) == v,
{
    lemma_pow2_pos(bits);
    let m = pow2(bits) as int;
    if v < 0 {
        lemma_mod_multiples_vanish(-1, v + m, m);
        lemma_small_mod((v + m) as nat, m as nat);
        assert(m * -1 + (v + m) == v) by (nonlinear_arith);
    } else {
        lemma_small_mod(v as nat, m as nat);
    }
}

/// A pattern is that of its value, and its value is one of the type.
pub proof fn lemma_pattern_of_value(x: int, signed: bool, bits: nat)
    requires
        is_pattern(x, bits),
    ensures
        is_value(value_of(x, signed, bits), signed, bits),
        pattern_of(value_of(x, signed, bits), bits) == x,
{
    lemma_pow2_pos(bits);
    let m = pow2(bits) as int;
    lemma_small_mod(x as nat, m as nat);
    lemma_mod_multiples_vanish(-1, x, m);
    assert(m * -1 + x == x - m) by (nonlinear_arith);
}

// ---------------------------------------------------------------------------
// Names.
// ---------------------------------------------------------------------------

/// The pattern with the opposite value.
pub open spec fn bv_neg(x: int, bits: nat) -> int {
    (pow2(bits) - x) % (pow2(bits) as int)
}

/// Whether the top bit is set.
pub open spec fn top_bit(x: int, bits: nat) -> bool {
    2 * x >= pow2(bits)
}

/// Division of patterns as unsigned numbers.
pub open spec fn bv_udiv(x: int, y: int, bits: nat) -> int {
    if y == 0 {
        pow2(bits) - 1
    } else {
        x / y
    }
}

/// Remainder of patterns as unsigned numbers.
pub open spec fn bv_urem(x: int, y: int) -> int {
    if y == 0 {
        x
    } else {
        x % y
    }
}

/// What the function that the solver knows as `name` gives on two patterns.
pub open spec fn bv_function(name: Seq<char>, x: int, y: int, bits: nat) -> int {
    let m = pow2(bits) as int;
    if name == "bvadd"@ {
        (x + y) % m
    } else if name == "bvsub"@ {
        (x - y) % m
    } else if name == "bvmul"@ {
        (x * y) % m
    } else if name == "bvudiv"@ {
        bv_udiv(x, y, bits)
    } else if name == "bvurem"@ {
        bv_urem(x, y)
    } else if name == "bvsdiv"@ {
        match (top_bit(x, bits), top_bit(y, bits)) {
            (false, false) => bv_udiv(x, y, bits),
            (true, false) => bv_neg(bv_udiv(bv_neg(x, bits), y, bits), bits),
            (false, true) => bv_neg(bv_udiv(x, bv_neg(y, bits), bits), bits),
            (true, true) => bv_udiv(bv_neg(x, bits), bv_neg(y, bits), bits),
        }
    } else if name == "bvsrem"@ {
        match (top_bit(x, bits), top_bit(y, bits)) {
            (false, false) => bv_urem(x, y),
            (true, false) => bv_neg(bv_urem(bv_neg(x, bits), y), bits),
            (false, true) => bv_urem(x, bv_neg(y, bits)),
            (true, true) => bv_neg(bv_urem(bv_neg(x, bits), bv_neg(y, bits)), bits),
        }
    } else if name == "bvshl"@ {
        (x * pow2(y as nat)) % m
    } else if name == "bvlshr"@ {
        x / (pow2(y as nat) as int)
    } else if name == "bvashr"@ {
        if top_bit(x, bits) {
            m - 1 - (m - 1 - x) / (pow2(y as nat) as int)
        } else {
            x / (pow2(y as nat) as int)
        }
    } else {
        0
    }
}

/// Whether the relation that the solver knows as `name` holds of two patterns.
pub open spec fn bv_relation(name: Seq<char>, x: int, y: int, bits: nat) -> bool {
    if name == "="@ {
        x == y
    } else if name == "bvult"@ {
        x < y
    } else if name == "bvule"@ {
        x <= y
    } else if name == "bvugt"@ {
        x > y
    } else if name == "bvuge"@ {
        x >= y
    } else if name == "bvslt"@ {
        value_of(x, true, bits) < value_of(y, true, bits)
    } else if name == "bvsle"@ {
        value_of(x, true, bits) <= value_of(y, true, bits)
    } else if name == "bvsgt"@ {
        value_of(x, true, bits) > value_of(y, true, bits)
    } else if name == "bvsge"@ {
        value_of(x, true, bits) >= value_of(y, true, bits)
    } else {
        false
    }
}

/// The names of functions are told apart.
pub proof fn lemma_function_names()
    ensures
        "bvsub"@ != "bvadd"@,
        "bvmul"@ != "bvadd"@,
        "bvmul"@ != "bvsub"@,
        "bvudiv"@ != "bvadd"@,
        "bvudiv"@ != "bvsub"@,
        "bvudiv"@ != "bvmul"@,
        "bvurem"@ != "bvadd"@,
        "bvurem"@ != "bvsub"@,
        "bvurem"@ != "bvmul"@,
        "bvurem"@ != "bvudiv"@,
        "bvsdiv"@ != "bvadd"@,
        "bvsdiv"@ != "bvsub"@,
        "bvsdiv"@ != "bvmul"@,
        "bvsdiv"@ != "bvudiv"@,
        "bvsdiv"@ != "bvurem"@,
        "bvsrem"@ != "bvadd"@,
        "bvsrem"@ != "bvsub"@,
        "bvsrem"@ != "bvmul"@,
        "bvsrem"@ != "bvudiv"@,
        "bvsrem"@ != "bvurem"@,
        "bvsrem"@ != "bvsdiv"@,
        "bvshl"@ != "bvadd"@,
        "bvshl"@ != "bvsub"@,
        "bvshl"@ != "bvmul"@,
        "bvshl"@ != "bvudiv"@,
        "bvshl"@ != "bvurem"@,
        "bvshl"@ != "bvsdiv"@,
        "bvshl"@ != "bvsrem"@,
        "bvlshr"@ != "bvadd"@,
        "bvlshr"@ != "bvsub"@,
        "bvlshr"@ != "bvmul"@,
        "bvlshr"@ != "bvudiv"@,
        "bvlshr"@ != "bvurem"@,
        "bvlshr"@ != "bvsdiv"@,
        "bvlshr"@ != "bvsrem"@,
        "bvlshr"@ != "bvshl"@,
        "bvashr"@ != "bvadd"@,
        "bvashr"@ != "bvsub"@,
        "bvashr"@ != "bvmul"@,
        "bvashr"@ != "bvudiv"@,
        "bvashr"@ != "bvurem"@,
        "bvashr"@ != "bvsdiv"@,
        "bvashr"@ != "bvsrem"@,
        "bvashr"@ != "bvshl"@,
        "bvashr"@ != "bvlshr"@,
{
    reveal_strlit("bvadd");
    reveal_strlit("bvsub");
    reveal_strlit("bvmul");
    reveal_strlit("bvudiv");
    reveal_strlit("bvurem");
    reveal_strlit("bvsdiv");
    reveal_strlit("bvsrem");
    reveal_strlit("bvshl");
    reveal_strlit("bvlshr");
    reveal_strlit("bvashr");
    assert("bvsub"@[2] != "bvadd"@[2]);
    assert("bvmul"@[2] != "bvadd"@[2]);
    assert("bvmul"@[2] != "bvsub"@[2]);
    assert("bvudiv"@.len() != "bvadd"@.len());
    assert("bvudiv"@.len() != "bvsub"@.len());
    assert("bvudiv"@.len() != "bvmul"@.len());
    assert("bvurem"@.len() != "bvadd"@.len());
    assert("bvurem"@.len() != "bvsub"@.len());
    assert("bvurem"@.len() != "bvmul"@.len());
    assert("bvurem"@[3] != "bvudiv"@[3]);
    assert("bvsdiv"@.len() != "bvadd"@.len());
    assert("bvsdiv"@.len() != "bvsub"@.len());
    assert("bvsdiv"@.len() != "bvmul"@.len());
    assert("bvsdiv"@[2] != "bvudiv"@[2]);
    assert("bvsdiv"@[2] != "bvurem"@[2]);
    assert("bvsrem"@.len() != "bvadd"@.len());
    assert("bvsrem"@.len() != "bvsub"@.len());
    assert("bvsrem"@.len() != "bvmul"@.len());
    assert("bvsrem"@[2] != "bvudiv"@[2]);
    assert("bvsrem"@[2] != "bvurem"@[2]);
    assert("bvsrem"@[3] != "bvsdiv"@[3]);
    assert("bvshl"@[2] != "bvadd"@[2]);
    assert("bvshl"@[3] != "bvsub"@[3]);
    assert("bvshl"@[2] != "bvmul"@[2]);
    assert("bvshl"@.len() != "bvudiv"@.len());
    assert("bvshl"@.len() != "bvurem"@.len());
    assert("bvshl"@.len() != "bvsdiv"@.len());
    assert("bvshl"@.len() != "bvsrem"@.len());
    assert("bvlshr"@.len() != "bvadd"@.len());
    assert("bvlshr"@.len() != "bvsub"@.len());
    assert("bvlshr"@.len() != "bvmul"@.len());
    assert("bvlshr"@[2] != "bvudiv"@[2]);
    assert("bvlshr"@[2] != "bvurem"@[2]);
    assert("bvlshr"@[2] != "bvsdiv"@[2]);
    assert("bvlshr"@[2] != "bvsrem"@[2]);
    assert("bvlshr"@.len() != "bvshl"@.len());
    assert("bvashr"@.len() != "bvadd"@.len());
    assert("bvashr"@.len() != "bvsub"@.len());
    assert("bvashr"@.len() != "bvmul"@.len());
    assert("bvashr"@[2] != "bvudiv"@[2]);
    assert("bvashr"@[2] != "bvurem"@[2]);
    assert("bvashr"@[2] != "bvsdiv"@[2]);
    assert("bvashr"@[2] != "bvsrem"@[2]);
    assert("bvashr"@.len() != "bvshl"@.len());
    assert("bvashr"@[2] != "bvlshr"@[2]);
}

/// The names of relations are told apart.
pub proof fn lemma_relation_names()
    ensures
        "bvult"@ != "="@,
        "bvule"@ != "="@,
        "bvule"@ != "bvult"@,
        "bvugt"@ != "="@,
        "bvugt"@ != "bvult"@,
        "bvugt"@ != "bvule"@,
        "bvuge"@ != "="@,
        "bvuge"@ != "bvult"@,
        "bvuge"@ != "bvule"@,
        "bvuge"@ != "bvugt"@,
        "bvslt"@ != "="@,
        "bvslt"@ != "bvult"@,
        "bvslt"@ != "bvule"@,
        "bvslt"@ != "bvugt"@,
        "bvslt"@ != "bvuge"@,
        "bvsle"@ != "="@,
        "bvsle"@ != "bvult"@,
        "bvsle"@ != "bvule"@,
        "bvsle"@ != "bvugt"@,
        "bvsle"@ != "bvuge"@,
        "bvsle"@ != "bvslt"@,
        "bvsgt"@ != "="@,
        "bvsgt"@ != "bvult"@,
        "bvsgt"@ != "bvule"@,
        "bvsgt"@ != "bvugt"@,
        "bvsgt"@ != "bvuge"@,
        "bvsgt"@ != "bvslt"@,
        "bvsgt"@ != "bvsle"@,
        "bvsge"@ != "="@,
        "bvsge"@ != "bvult"@,
        "bvsge"@ != "bvule"@,
        "bvsge"@ != "bvugt"@,
        "bvsge"@ != "bvuge"@,
        "bvsge"@ != "bvslt"@,
        "bvsge"@ != "bvsle"@,
        "bvsge"@ != "bvsgt"@,
{
    reveal_strlit("=");
    reveal_strlit("bvult");
    reveal_strlit("bvule");
    reveal_strlit("bvugt");
    reveal_strlit("bvuge");
    reveal_strlit("bvslt");
    reveal_strlit("bvsle");
    reveal_strlit("bvsgt");
    reveal_strlit("bvsge");
    assert("bvult"@.len() != "="@.len());
    assert("bvule"@.len() != "="@.len());
    assert("bvule"@[4] != "bvult"@[4]);
    assert("bvugt"@.len() != "="@.len());
    assert("bvugt"@[3] != "bvult"@[3]);
    assert("bvugt"@[3] != "bvule"@[3]);
    assert("bvuge"@.len() != "="@.len());
    assert("bvuge"@[3] != "bvult"@[3]);
    assert("bvuge"@[3] != "bvule"@[3]);
    assert("bvuge"@[4] != "bvugt"@[4]);
    assert("bvslt"@.len() != "="@.len());
    assert("bvslt"@[2] != "bvult"@[2]);
    assert("bvslt"@[2] != "bvule"@[2]);
    assert("bvslt"@[2] != "bvugt"@[2]);
    assert("bvslt"@[2] != "bvuge"@[2]);
    assert("bvsle"@.len() != "="@.len());
    assert("bvsle"@[2] != "bvult"@[2]);
    assert("bvsle"@[2] != "bvule"@[2]);
    assert("bvsle"@[2] != "bvugt"@[2]);
    assert("bvsle"@[2] != "bvuge"@[2]);
    assert("bvsle"@[4] != "bvslt"@[4]);
    assert("bvsgt"@.len() != "="@.len());
    assert("bvsgt"@[2] != "bvult"@[2]);
    assert("bvsgt"@[2] != "bvule"@[2]);
    assert("bvsgt"@[2] != "bvugt"@[2]);
    assert("bvsgt"@[2] != "bvuge"@[2]);
    assert("bvsgt"@[3] != "bvslt"@[3]);
    assert("bvsgt"@[3] != "bvsle"@[3]);
    assert("bvsge"@.len() != "="@.len());
    assert("bvsge"@[2] != "bvult"@[2]);
    assert("bvsge"@[2] != "bvule"@[2]);
    assert("bvsge"@[2] != "bvugt"@[2]);
    assert("bvsge"@[2] != "bvuge"@[2]);
    assert("bvsge"@[3] != "bvslt"@[3]);
    assert("bvsge"@[3] != "bvsle"@[3]);
    assert("bvsge"@[4] != "bvsgt"@[4]);
}

/// The names of the functions that terms are made of.
pub open spec fn is_function_name(name: Seq<char>) -> bool {
    name == "bvadd"@ || name == "bvsub"@ || name == "bvmul"@ || name == "bvudiv"@ || name
        == "bvurem"@ || name == "bvsdiv"@ || name == "bvsrem"@ || name == "bvshl"@ || name
        == "bvlshr"@ || name == "bvashr"@
}

// ---------------------------------------------------------------------------
// Terms.
// ---------------------------------------------------------------------------

/// A term as the solver reads it.
pub enum Bv {
    Symbol(Seq<char>),
    /// The digits of a literal in base sixteen.
    Literal(Seq<char>),
    /// A function by its name.
    Apply(Seq<char>, Box<Bv>, Box<Bv>),
}

/// How a term is written.
pub open spec fn bv_text(e: Bv) -> Seq<char>
    decreases e,
{
    match e {
        Bv::Symbol(s) => s,
        Bv::Literal(d) => "#x"@ + d,
        Bv::Apply(name, a, b) => "("@ + name + " "@ + bv_text(*a) + " "@ + bv_text(*b) + ")"@,
    }
}

/// The number that a digit in base sixteen stands for.
pub open spec fn hex_digit(c: char) -> int {
    if '0' <= c && c <= '9' {
        c as int - '0' as int
    } else {
        c as int - 'A' as int + 10
    }
}

/// Whether `c` is a digit in base sixteen.
pub open spec fn is_hex_digit(c: char) -> bool {
    ('0' <= c && c <= '9') || ('A' <= c && c <= 'F')
}

/// The number that digits in base sixteen stand for.
pub open spec fn hex_number(d: Seq<char>) -> int
    decreases d.len(),
{
    if d.len() == 0 {
        0
    } else {
        hex_number(d.drop_last()) * 16 + hex_digit(d.last())
    }
}

/// The value of a term, where `val` gives the patterns of the symbols.
pub open spec fn bv_value(e: Bv, val: spec_fn(Seq<char>) -> int, bits: nat) -> int
    decreases e,
{
    match e {
        Bv::Symbol(s) => val(s),
        Bv::Literal(d) => hex_number(d),
        Bv::Apply(name, a, b) => bv_function(
            name,
            bv_value(*a, val, bits),
            bv_value(*b, val, bits),
            bits,
        ),
    }
}

/// Whether `s` can be written as a symbol: no parenthesis, no space, no number sign.
pub open spec fn is_symbol(s: Seq<char>) -> bool {
    s.len() > 0 && forall|i: int|
        0 <= i < s.len() ==> #[trigger] s[i] != '(' && s[i] != ')' && s[i] != ' ' && s[i] != '#'
}

/// Whether a term is one of `bits` bits over symbols that are declared at that width.
pub open spec fn bv_sorted(e: Bv, declared: Set<Seq<char>>, bits: nat) -> bool
    decreases e,
{
    match e {
        Bv::Symbol(s) => declared.contains(s) && is_symbol(s),
        Bv::Literal(d) => 4 * d.len() == bits && forall|i: int|
            0 <= i < d.len() ==> is_hex_digit(#[trigger] d[i]),
        Bv::Apply(name, a, b) => is_function_name(name) && bv_sorted(*a, declared, bits)
            && bv_sorted(*b, declared, bits),
    }
}

// ---------------------------------------------------------------------------
// Formulas.
// ---------------------------------------------------------------------------

/// A formula as the solver reads it: a relation between two terms, by its name, or its negation.
pub enum Formula {
    Related(Seq<char>, Bv, Bv),
    Not(Seq<char>, Bv, Bv),
}

/// How a formula is written.
pub open spec fn formula_text(f: Formula) -> Seq<char> {
    match f {
        Formula::Related(name, a, b) => "("@ + name + " "@ + bv_text(a) + " "@ + bv_text(b) + ")"@,
        Formula::Not(name, a, b) => "(not "@ + ("("@ + name + " "@ + bv_text(a) + " "@ + bv_text(b)
            + ")"@) + ")"@,
    }
}

/// Whether a formula is true, where `val` gives the patterns of the symbols.
pub open spec fn formula_holds(f: Formula, val: spec_fn(Seq<char>) -> int, bits: nat) -> bool {
    match f {
        Formula::Related(name, a, b) => bv_relation(
            name,
            bv_value(a, val, bits),
            bv_value(b, val, bits),
            bits,
        ),
        Formula::Not(name, a, b) => !bv_relation(
            name,
            bv_value(a, val, bits),
            bv_value(b, val, bits),
            bits,
        ),
    }
}

/// Whether a formula relates terms of `bits` bits over symbols that are declared at that width.
pub open spec fn formula_sorted(f: Formula, declared: Set<Seq<char>>, bits: nat) -> bool {
    match f {
        Formula::Related(_, a, b) => bv_sorted(a, declared, bits) && bv_sorted(b, declared, bits),
        Formula::Not(_, a, b) => bv_sorted(a, declared, bits) && bv_sorted(b, declared, bits),
    }
}

// ---------------------------------------------------------------------------
// Operations of a body.
// ---------------------------------------------------------------------------

/// The quotient of `a` by `b`, rounded toward zero.
pub open spec fn quotient(a: int, b: int) -> int {
    let size = magnitude(a) / magnitude(b);
    if (a < 0) == (b < 0) {
        size
    } else {
        -size
    }
}

/// The magnitude of `a`.
pub open spec fn magnitude(a: int) -> int {
    if a < 0 {
        -a
    } else {
        a
    }
}

/// What an operation leaves of two patterns at an integer type when it does not panic. Addition,
/// subtraction and multiplication wrap. Division and remainder round toward zero, and panic on a
/// zero divisor. A shift panics on an amount that is not below the width; a right shift rounds
/// down.
pub open spec fn computed(op: BinOp, signed: bool, bits: nat, x: int, y: int) -> Option<int> {
    let a = value_of(x, signed, bits);
    let b = value_of(y, signed, bits);
    match op {
        BinOp::Add => Some(pattern_of(a + b, bits)),
        BinOp::Sub => Some(pattern_of(a - b, bits)),
        BinOp::Mul => Some(pattern_of(a * b, bits)),
        BinOp::Div => if b == 0 {
            None
        } else {
            Some(pattern_of(quotient(a, b), bits))
        },
        BinOp::Rem => if b == 0 {
            None
        } else {
            Some(pattern_of(a - b * quotient(a, b), bits))
        },
        BinOp::Shl => if y < bits {
            Some(pattern_of(a * pow2(y as nat), bits))
        } else {
            None
        },
        BinOp::Shr => if y < bits {
            Some(pattern_of(a / (pow2(y as nat) as int), bits))
        } else {
            None
        },
        _ => None,
    }
}

/// Whether an operation is arithmetic.
pub open spec fn is_arithmetic(op: BinOp) -> bool {
    op == BinOp::Add || op == BinOp::Sub || op == BinOp::Mul || op == BinOp::Div || op == BinOp::Rem
        || op == BinOp::Shl || op == BinOp::Shr
}

/// Adding a multiple of the modulus does not change a residue.
proof fn lemma_shifted(v: int, k: int, m: int)
    requires
        m > 0,
    ensures
        (v + m * k) % m == v % m,
{
    lemma_mod_multiples_vanish(k, v, m);
}

proof fn lemma_reduce(v: int, m: int)
    requires
        0 <= v < m,
    ensures
        v % m == v,
{
    lemma_small_mod(v as nat, m as nat);
}

proof fn lemma_sum_and_product(x: int, y: int, signed: bool, bits: nat)
    requires
        is_pattern(x, bits),
        is_pattern(y, bits),
    ensures
        ({
            let m = pow2(bits) as int;
            let a = value_of(x, signed, bits);
            let b = value_of(y, signed, bits);
            &&& (a + b) % m == (x + y) % m
            &&& (a - b) % m == (x - y) % m
            &&& (a * b) % m == (x * y) % m
        }),
{
    lemma_pow2_pos(bits);
    let m = pow2(bits) as int;
    let a = value_of(x, signed, bits);
    let b = value_of(y, signed, bits);
    let ka: int = if a == x { 0 } else { -1 };
    let kb: int = if b == y { 0 } else { -1 };
    assert(a == x + m * ka && b == y + m * kb) by (nonlinear_arith)
        requires
            a == x && ka == 0 || a == x - m && ka == -1,
            b == y && kb == 0 || b == y - m && kb == -1,
    ;
    lemma_shifted(x + y, ka + kb, m);
    lemma_shifted(x - y, ka - kb, m);
    lemma_shifted(x * y, x * kb + y * ka + m * (ka * kb), m);
    assert(a + b == (x + y) + m * (ka + kb)) by (nonlinear_arith)
        requires
            a == x + m * ka,
            b == y + m * kb,
    ;
    assert(a - b == (x - y) + m * (ka - kb)) by (nonlinear_arith)
        requires
            a == x + m * ka,
            b == y + m * kb,
    ;
    assert(a * b == x * y + m * (x * kb + y * ka + m * (ka * kb))) by (nonlinear_arith)
        requires
            a == x + m * ka,
            b == y + m * kb,
    ;
}

proof fn lemma_small_quotient(x: int, y: int, m: int)
    requires
        0 <= x < m,
        0 < y,
    ensures
        0 <= x / y < m,
        0 <= x % y < m,
        (x / y) % m == x / y,
        (x % y) % m == x % y,
        x == y * (x / y) + x % y,
{
    lemma_fundamental_div_mod(x, y);
    assert(0 <= x / y <= x) by (nonlinear_arith)
        requires
            0 <= x,
            0 < y,
    ;
    assert(0 <= x % y <= x) by (nonlinear_arith)
        requires
            0 <= x,
            0 < y,
            x == y * (x / y) + x % y,
            0 <= x / y,
            0 <= x % y < y,
    ;
    lemma_reduce(x / y, m);
    lemma_reduce(x % y, m);
}

proof fn lemma_negated(v: int, m: int)
    requires
        m > 0,
    ensures
        (-v) % m == (m - v) % m,
{
    lemma_shifted(-v, 1, m);
    assert(-v + m * 1 == m - v) by (nonlinear_arith);
}

proof fn lemma_division(x: int, y: int, signed: bool, bits: nat)
    requires
        is_pattern(x, bits),
        is_pattern(y, bits),
        y != 0,
    ensures
        ({
            let a = value_of(x, signed, bits);
            let b = value_of(y, signed, bits);
            let q = pattern_of(quotient(a, b), bits);
            let r = pattern_of(a - b * quotient(a, b), bits);
            &&& b != 0
            &&& signed ==> bv_function("bvsdiv"@, x, y, bits) == q
            &&& signed ==> bv_function("bvsrem"@, x, y, bits) == r
            &&& !signed ==> bv_function("bvudiv"@, x, y, bits) == q
            &&& !signed ==> bv_function("bvurem"@, x, y, bits) == r
        }),
{
    lemma_function_names();
    lemma_pow2_pos(bits);
    let m = pow2(bits) as int;
    let a = value_of(x, signed, bits);
    let b = value_of(y, signed, bits);
    let p = magnitude(a);
    let d = magnitude(b);
    if a < 0 {
        lemma_reduce(m - x, m);
    }
    if b < 0 {
        lemma_reduce(m - y, m);
    }
    lemma_small_quotient(p, d, m);
    let q = p / d;
    let r = p % d;
    lemma_negated(q, m);
    lemma_negated(r, m);
    assert(b * q == d * q || b * q == -(d * q)) by (nonlinear_arith)
        requires
            b == d || b == -d,
    ;
    assert(b * -q == -(b * q)) by (nonlinear_arith);
    assert(b < 0 ==> b * q == -(d * q)) by (nonlinear_arith)
        requires
            b < 0 ==> b == -d,
    ;
    assert(b >= 0 ==> b * q == d * q) by (nonlinear_arith)
        requires
            b >= 0 ==> b == d,
    ;
}

proof fn lemma_shifts(x: int, y: int, signed: bool, bits: nat)
    requires
        is_pattern(x, bits),
        0 <= y,
    ensures
        ({
            let a = value_of(x, signed, bits);
            let p = pow2(y as nat) as int;
            &&& bv_function("bvshl"@, x, y, bits) == pattern_of(a * p, bits)
            &&& signed ==> bv_function("bvashr"@, x, y, bits) == pattern_of(a / p, bits)
            &&& !signed ==> bv_function("bvlshr"@, x, y, bits) == pattern_of(a / p, bits)
        }),
{
    lemma_function_names();
    lemma_pow2_pos(bits);
    lemma_pow2_pos(y as nat);
    let m = pow2(bits) as int;
    let a = value_of(x, signed, bits);
    let p = pow2(y as nat) as int;
    if a != x {
        lemma_shifted(x * p, -p, m);
        assert((x - m) * p == x * p + m * -p) by (nonlinear_arith);
        let n = m - 1 - x;
        lemma_small_quotient(n, p, m);
        let q = n / p;
        let r = n % p;
        assert(a == (-1 - q) * p + (p - 1 - r)) by (nonlinear_arith)
            requires
                a == x - m,
                n == m - 1 - x,
                n == p * q + r,
        ;
        lemma_fundamental_div_mod_converse(a, p, -1 - q, p - 1 - r);
        lemma_shifted(-1 - q, 1, m);
        assert(-1 - q + m * 1 == m - 1 - q) by (nonlinear_arith);
        lemma_reduce(m - 1 - q, m);
    } else {
        lemma_small_quotient(x, p, m);
    }
}

/// The name that stands for an operation in a captured term is, to the solver, the function that
/// the operation computes: on all patterns on which the operation does not panic. Arithmetic
/// operations have such a name, and no others.
pub proof fn law_operation_names_mean_the_operations(
    op: BinOp,
    signed: bool,
    bits: nat,
    x: int,
    y: int,
)
    requires
        is_pattern(x, bits),
        is_pattern(y, bits),
    ensures
        operation_name(op, signed) is Some <==> is_arithmetic(op),
        computed(op, signed, bits, x, y) is Some ==> bv_function(
            operation_name(op, signed)->0,
            x,
            y,
            bits,
        ) == computed(op, signed, bits, x, y)->0,
        is_arithmetic(op) ==> is_function_name(operation_name(op, signed)->0) && is_pattern(
            bv_function(operation_name(op, signed)->0, x, y, bits),
            bits,
        ),
{
    lemma_function_names();
    lemma_pow2_pos(bits);
    lemma_sum_and_product(x, y, signed, bits);
    lemma_shifts(x, y, signed, bits);
    lemma_pow2_pos(y as nat);
    let m = pow2(bits) as int;
    if y != 0 {
        lemma_division(x, y, signed, bits);
    } else {
        lemma_reduce(m - 1, m);
        if 2 * x >= m {
            lemma_reduce(m - x, m);
            lemma_negated(m - x, m);
            lemma_shifted(-(m - x), 1, m);
        }
        if m > 1 {
            lemma_reduce(1, m);
        }
    }
    assert(forall|v: int| 0 <= #[trigger] (v % m) < m);
    lemma_small_quotient(x, pow2(y as nat) as int, m);
    if y != 0 {
        lemma_small_quotient(x, y, m);
    }
}

// ---------------------------------------------------------------------------
// Literals.
// ---------------------------------------------------------------------------

proof fn lemma_digit_read_back(d: int)
    requires
        0 <= d < 16,
    ensures
        is_hex_digit(digit(d)),
        hex_digit(digit(d)) == d,
{
}

/// Sixteen to the power of `w`.
spec fn sixteens(w: nat) -> nat
    decreases w,
{
    if w == 0 {
        1
    } else {
        16 * sixteens((w - 1) as nat)
    }
}

proof fn lemma_hex_read_back(n: nat, w: nat)
    requires
        n < sixteens(w),
    ensures
        hex(n, w).len() == w,
        hex_number(hex(n, w)) == n,
        forall|i: int| 0 <= i < w ==> is_hex_digit(#[trigger] hex(n, w)[i]),
    decreases w,
{
    if w > 0 {
        lemma_hex_read_back(n / 16, (w - 1) as nat);
        lemma_digit_read_back((n % 16) as int);
        let before = hex(n / 16, (w - 1) as nat);
        assert(hex(n, w).drop_last() =~= before);
        assert(hex(n, w).last() == digit((n % 16) as int));
        assert forall|i: int| 0 <= i < w implies is_hex_digit(#[trigger] hex(n, w)[i]) by {
            if i < w - 1 {
                assert(hex(n, w)[i] == before[i]);
            }
        }
    }
}

proof fn lemma_widths(bits: nat)
    requires
        is_width(bits),
    ensures
        sixteens(bits / 4) == pow2(bits),
        modulus(bits as u32) == pow2(bits),
{
    lemma2_to64();
    reveal_with_fuel(sixteens, 17);
}

/// A literal is read back as the pattern of the integer that it was written for: it has a digit for
/// every four bits, and its number is the integer modulo two to the power of the width.
pub proof fn law_literals_are_read_back(v: int, bits: nat)
    requires
        is_width(bits),
    ensures
        exists|d: Seq<char>|
            {
                &&& literal_text(v, bits as u32) == "#x"@ + d
                &&& #[trigger] bv_sorted(Bv::Literal(d), Set::empty(), bits)
                &&& hex_number(d) == pattern_of(v, bits)
            },
        is_pattern(pattern_of(v, bits), bits),
{
    lemma_widths(bits);
    lemma_pow2_pos(bits);
    let n = (v % modulus(bits as u32)) as nat;
    let d = hex(n, bits / 4);
    lemma_hex_read_back(n, bits / 4);
    assert(bv_sorted(Bv::Literal(d), Set::empty(), bits));
}

/// The digits of a literal.
pub open spec fn literal_digits(v: int, bits: nat) -> Seq<char> {
    choose|d: Seq<char>|
        {
            &&& literal_text(v, bits as u32) == "#x"@ + d
            &&& #[trigger] bv_sorted(Bv::Literal(d), Set::empty(), bits)
            &&& hex_number(d) == pattern_of(v, bits)
        }
}

/// The term of a literal.
pub proof fn lemma_literal_term(v: int, bits: nat, declared: Set<Seq<char>>)
    requires
        is_width(bits),
    ensures
        ({
            let e = Bv::Literal(literal_digits(v, bits));
            &&& bv_text(e) == literal_text(v, bits as u32)
            &&& bv_sorted(e, declared, bits)
            &&& forall|val: spec_fn(Seq<char>) -> int| #[trigger]
                bv_value(e, val, bits) == pattern_of(v, bits)
        }),
        is_pattern(pattern_of(v, bits), bits),
{
    law_literals_are_read_back(v, bits);
    let d = literal_digits(v, bits);
    assert(bv_sorted(Bv::Literal(d), Set::empty(), bits));
}

// ---------------------------------------------------------------------------
// Comparisons.
// ---------------------------------------------------------------------------

/// Whether two integers compare as an operator says.
pub open spec fn compares(op: Comparison, a: int, b: int) -> bool {
    match op {
        Comparison::Lt => a < b,
        Comparison::Le => a <= b,
        Comparison::Gt => a > b,
        Comparison::Ge => a >= b,
        Comparison::Eq => a == b,
        Comparison::Ne => a != b,
    }
}

/// The formula that a comparison of two terms is written as.
pub open spec fn comparison_formula(op: Comparison, signed: bool, a: Bv, b: Bv) -> Formula {
    if op == Comparison::Ne {
        Formula::Not(order_name(op, signed), a, b)
    } else {
        Formula::Related(order_name(op, signed), a, b)
    }
}

/// The term that compares two terms is, to the solver, a formula that is true just if the integers
/// compare: at a signed type those in two's complement, at an unsigned one the patterns.
pub proof fn law_comparisons_mean_the_operators(
    op: Comparison,
    signed: bool,
    bits: nat,
    a: Bv,
    b: Bv,
    val: spec_fn(Seq<char>) -> int,
)
    requires
        is_pattern(bv_value(a, val, bits), bits),
        is_pattern(bv_value(b, val, bits), bits),
    ensures
        formula_text(comparison_formula(op, signed, a, b)) == comparison_term(
            op,
            signed,
            bv_text(a),
            bv_text(b),
        ),
        formula_holds(comparison_formula(op, signed, a, b), val, bits) <==> compares(
            op,
            value_of(bv_value(a, val, bits), signed, bits),
            value_of(bv_value(b, val, bits), signed, bits),
        ),
{
    lemma_relation_names();
    lemma_pattern_of_value(bv_value(a, val, bits), signed, bits);
    lemma_pattern_of_value(bv_value(b, val, bits), signed, bits);
}

} // verus!
