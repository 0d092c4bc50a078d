//! The clause language, its translation, and the check of assertions.

use pitbull_subset::predicate::{
    format_int_literal_for_ty, ident_vs_ident_to_smt_assertion, int_type_info,
    operand_pin_assertion, parse_ident_vs_ident_predicate, parse_predicate,
    predicate_to_smt_assertion, strip_assert, validate_assertion_form, value_fits_in_int_ty,
    Comparison, PredicateError,
};

fn parse_error(raw: &str) -> PredicateError {
    match parse_predicate(raw) {
        Ok(p) => panic!("`{raw}` parsed as {p:?}"),
        Err(e) => e,
    }
}

#[test]
fn predicates_are_read_with_every_operator() {
    let cases = [
        ("x < 1", Comparison::Lt, 1),
        ("x <= 2", Comparison::Le, 2),
        ("x > -3", Comparison::Gt, -3),
        ("x >= 4", Comparison::Ge, 4),
        ("x == 5", Comparison::Eq, 5),
        ("x != 0", Comparison::Ne, 0),
    ];
    for (raw, op, literal) in cases {
        let p = parse_predicate(raw).expect(raw);
        assert_eq!(p.var, "x");
        assert_eq!(p.op, op);
        assert_eq!(p.literal, literal);
    }
}

#[test]
fn white_space_around_the_parts_is_left_out() {
    let p = parse_predicate("  _a1<=42\t").expect("tight operator");
    assert_eq!((p.var.as_str(), p.op, p.literal), ("_a1", Comparison::Le, 42));
    let q = parse_ident_vs_ident_predicate("\u{a0}i  <  len \n").expect("spread out");
    assert_eq!((q.lhs.as_str(), q.op, q.rhs.as_str()), ("i", Comparison::Lt, "len"));
}

#[test]
fn literals_are_read_to_the_ends_of_their_range() {
    let max = format!("x < {}", i128::MAX);
    let min = format!("x > {}", i128::MIN);
    assert_eq!(parse_predicate(&max).expect("max").literal, i128::MAX);
    assert_eq!(parse_predicate(&min).expect("min").literal, i128::MIN);
    assert_eq!(parse_predicate("x > -0").expect("zero").literal, 0);
    assert_eq!(parse_predicate("x > 007").expect("zeros").literal, 7);
}

#[test]
fn each_parse_error_has_its_input() {
    assert_eq!(parse_error(""), PredicateError::NoIdentifier);
    assert_eq!(parse_error("5 < x"), PredicateError::NoIdentifier);
    assert_eq!(parse_error("(assert true)"), PredicateError::NoIdentifier);
    assert_eq!(parse_error("x"), PredicateError::NoComparison);
    assert_eq!(parse_error("x = 5"), PredicateError::NoComparison);
    assert_eq!(parse_error("s.len() < 5"), PredicateError::NoComparison);
    assert_eq!(parse_error("x < y"), PredicateError::NoLiteral);
    assert_eq!(parse_error("x < - 5"), PredicateError::NoLiteral);
    assert_eq!(parse_error("x < 5 && y < 6"), PredicateError::TrailingText);
    assert_eq!(
        parse_error("x < 170141183460469231731687303715884105728"),
        PredicateError::LiteralTooLarge
    );
    assert_eq!(
        parse_error("x > -170141183460469231731687303715884105729"),
        PredicateError::LiteralTooLarge
    );
    assert_eq!(
        parse_error("x > 999999999999999999999999999999999999999999999999"),
        PredicateError::LiteralTooLarge
    );
    assert!(matches!(
        parse_ident_vs_ident_predicate("x < 5"),
        Err(PredicateError::NoRightIdentifier)
    ));
    assert!(matches!(
        parse_ident_vs_ident_predicate("x < y z"),
        Err(PredicateError::TrailingText)
    ));
}

#[test]
fn messages_say_what_is_wrong() {
    assert_eq!(PredicateError::NoIdentifier.message(), "expected an identifier");
    assert_eq!(PredicateError::NoComparison.message(), "expected a comparison operator");
    assert_eq!(PredicateError::NoLiteral.message(), "expected an integer literal");
    assert_eq!(
        PredicateError::NoRightIdentifier.message(),
        "expected an identifier on the right"
    );
    assert_eq!(PredicateError::LiteralTooLarge.message(), "integer literal too large");
    assert_eq!(PredicateError::TrailingText.message(), "unexpected text after the predicate");
    assert_eq!(PredicateError::UnsupportedType.message(), "type has no bit-vector encoding");
    assert_eq!(PredicateError::NotAnAssertion.message(), "not an `(assert ...)` form");
    assert_eq!(
        PredicateError::QuotedText.message(),
        "quoted symbols, strings and comments are not accepted"
    );
    assert_eq!(PredicateError::SeveralDirectives.message(), "more than one top-level form");
    assert_eq!(PredicateError::Unbalanced.message(), "unbalanced parentheses");
    let e = PredicateError::LiteralOutOfRange { literal: -129, signed: true, bits: 8 };
    assert_eq!(e.message(), "literal -129 out of range for i8");
}

#[test]
fn integer_types_have_sign_and_width() {
    assert_eq!(int_type_info("u8"), Some((false, 8)));
    assert_eq!(int_type_info("u16"), Some((false, 16)));
    assert_eq!(int_type_info("u32"), Some((false, 32)));
    assert_eq!(int_type_info("u64"), Some((false, 64)));
    assert_eq!(int_type_info("i8"), Some((true, 8)));
    assert_eq!(int_type_info("i16"), Some((true, 16)));
    assert_eq!(int_type_info("i32"), Some((true, 32)));
    assert_eq!(int_type_info("i64"), Some((true, 64)));
    for other in ["u128", "i128", "usize", "isize", "bool", "", "u"] {
        assert_eq!(int_type_info(other), None, "{other}");
    }
}

#[test]
fn values_fit_up_to_the_ends_of_their_types() {
    assert!(value_fits_in_int_ty(255, "u8"));
    assert!(!value_fits_in_int_ty(256, "u8"));
    assert!(!value_fits_in_int_ty(-1, "u8"));
    assert!(value_fits_in_int_ty(-128, "i8"));
    assert!(!value_fits_in_int_ty(-129, "i8"));
    assert!(!value_fits_in_int_ty(128, "i8"));
    assert!(value_fits_in_int_ty(u64::MAX as i128, "u64"));
    assert!(!value_fits_in_int_ty(u64::MAX as i128 + 1, "u64"));
    assert!(value_fits_in_int_ty(i64::MIN as i128, "i64"));
    assert!(!value_fits_in_int_ty(0, "usize"));
}

#[test]
fn literals_are_twos_complement_in_base_sixteen() {
    assert_eq!(format_int_literal_for_ty(10, "u32").as_deref(), Some("#x0000000A"));
    assert_eq!(format_int_literal_for_ty(-1, "i8").as_deref(), Some("#xFF"));
    assert_eq!(format_int_literal_for_ty(-128, "i8").as_deref(), Some("#x80"));
    assert_eq!(format_int_literal_for_ty(-2, "i64").as_deref(), Some("#xFFFFFFFFFFFFFFFE"));
    assert_eq!(format_int_literal_for_ty(256, "u8").as_deref(), Some("#x00"));
    assert_eq!(format_int_literal_for_ty(i128::MIN, "u16").as_deref(), Some("#x0000"));
    assert_eq!(format_int_literal_for_ty(0xBEEF, "u16").as_deref(), Some("#xBEEF"));
    assert_eq!(format_int_literal_for_ty(1, "u128"), None);
}

#[test]
fn pins_are_equations() {
    assert_eq!(
        operand_pin_assertion("rhs", 1, "u32").as_deref(),
        Some("(assert (= rhs #x00000001))")
    );
    assert_eq!(operand_pin_assertion("rhs", 1, "isize"), None);
}

#[test]
fn clauses_are_translated_by_the_sign_of_their_type() {
    let at = |raw: &str, ty: &str| {
        predicate_to_smt_assertion(&parse_predicate(raw).expect(raw), "v", ty)
    };
    assert_eq!(at("x < 5", "u8"), Ok("(assert (bvult v #x05))".to_string()));
    assert_eq!(at("x <= 5", "u8"), Ok("(assert (bvule v #x05))".to_string()));
    assert_eq!(at("x > 5", "u8"), Ok("(assert (bvugt v #x05))".to_string()));
    assert_eq!(at("x >= 5", "u8"), Ok("(assert (bvuge v #x05))".to_string()));
    assert_eq!(at("x < -5", "i8"), Ok("(assert (bvslt v #xFB))".to_string()));
    assert_eq!(at("x <= 5", "i8"), Ok("(assert (bvsle v #x05))".to_string()));
    assert_eq!(at("x > 5", "i8"), Ok("(assert (bvsgt v #x05))".to_string()));
    assert_eq!(at("x >= 5", "i8"), Ok("(assert (bvsge v #x05))".to_string()));
    assert_eq!(at("x == 5", "i8"), Ok("(assert (= v #x05))".to_string()));
    assert_eq!(at("x != 5", "i8"), Ok("(assert (not (= v #x05)))".to_string()));
    assert_eq!(at("x < 5", "u128"), Err(PredicateError::UnsupportedType));
    assert_eq!(
        at("x < 256", "u8"),
        Err(PredicateError::LiteralOutOfRange { literal: 256, signed: false, bits: 8 })
    );
}

#[test]
fn pairs_are_translated_by_the_sign_of_their_type() {
    let p = parse_ident_vs_ident_predicate("i < len").expect("pair");
    assert_eq!(
        ident_vs_ident_to_smt_assertion(&p, "u64"),
        Ok("(assert (bvult i len))".to_string())
    );
    assert_eq!(
        ident_vs_ident_to_smt_assertion(&p, "i64"),
        Ok("(assert (bvslt i len))".to_string())
    );
    assert_eq!(
        ident_vs_ident_to_smt_assertion(&p, "usize"),
        Err(PredicateError::UnsupportedType)
    );
}

#[test]
fn assertions_are_checked() {
    assert_eq!(validate_assertion_form("(assert true)"), Ok(()));
    assert_eq!(validate_assertion_form("  (assert (bvult x #x05))\n"), Ok(()));
    assert_eq!(validate_assertion_form("(assert(= a b))"), Ok(()));
    assert_eq!(validate_assertion_form("x < 5"), Err(PredicateError::NotAnAssertion));
    assert_eq!(validate_assertion_form("(assert-soft x)"), Err(PredicateError::NotAnAssertion));
    assert_eq!(validate_assertion_form("(check-sat)"), Err(PredicateError::NotAnAssertion));
    assert_eq!(validate_assertion_form("(assert |x|)"), Err(PredicateError::QuotedText));
    assert_eq!(validate_assertion_form("(assert x ; y\n)"), Err(PredicateError::QuotedText));
    assert_eq!(validate_assertion_form("(assert \"x\")"), Err(PredicateError::QuotedText));
    assert_eq!(
        validate_assertion_form("(assert false) (check-sat)"),
        Err(PredicateError::SeveralDirectives)
    );
    assert_eq!(
        validate_assertion_form("(assert false))"),
        Err(PredicateError::SeveralDirectives)
    );
    assert_eq!(validate_assertion_form("(assert (x)"), Err(PredicateError::Unbalanced));
    assert_eq!(validate_assertion_form("(assert"), Err(PredicateError::Unbalanced));
}

#[test]
fn stripping_gives_back_the_term() {
    assert_eq!(
        strip_assert("(assert (not (= a #x05)))").as_deref(),
        Some("(not (= a #x05))")
    );
    assert_eq!(strip_assert(" (assert true ) ").as_deref(), Some("true"));
    assert_eq!(strip_assert("(assert )"), None);
    assert_eq!(strip_assert("(assert a) (assert b)"), None);
    for raw in ["x < 5", "x != 5", "x >= 5"] {
        let p = parse_predicate(raw).expect(raw);
        let a = predicate_to_smt_assertion(&p, "x", "i32").expect(raw);
        let term = strip_assert(&a).expect(raw);
        assert_eq!(format!("(assert {term})"), a);
    }
}

#[test]
fn no_text_is_a_clause_of_both_forms() {
    for raw in ["x < 5", "x < y", "x < -5", "(assert true)", "", "x <", "x < 5y"] {
        let both = parse_predicate(raw).is_ok() && parse_ident_vs_ident_predicate(raw).is_ok();
        assert!(!both, "{raw}");
        if validate_assertion_form(raw).is_ok() {
            assert!(parse_predicate(raw).is_err());
            assert!(parse_ident_vs_ident_predicate(raw).is_err());
        }
    }
}
