use storygamer::condition::{ComparisonOp, Operation};
use storygamer::textparse::{parse_bool, parse_i32, parse_literal};
use storygamer::variable::Variable;

#[test]
fn integers_parse_with_signs_and_clamp_free_bounds() {
    assert_eq!(parse_i32("0"), Some(0));
    assert_eq!(parse_i32("42"), Some(42));
    assert_eq!(parse_i32("+42"), Some(42));
    assert_eq!(parse_i32("-42"), Some(-42));
    assert_eq!(parse_i32("2147483647"), Some(i32::MAX));
    assert_eq!(parse_i32("-2147483648"), Some(i32::MIN));
    assert_eq!(parse_i32("2147483648"), None);
    assert_eq!(parse_i32("-2147483649"), None);
    assert_eq!(parse_i32("99999999999999999999"), None);
    assert_eq!(parse_i32(""), None);
    assert_eq!(parse_i32("-"), None);
    assert_eq!(parse_i32("1x"), None);
    assert_eq!(parse_i32("007"), Some(7));
}

#[test]
fn booleans_parse_only_their_two_words() {
    assert_eq!(parse_bool("true"), Some(true));
    assert_eq!(parse_bool("false"), Some(false));
    assert_eq!(parse_bool("True"), None);
    assert_eq!(parse_bool(""), None);
}

#[test]
fn literals_prefer_integers_then_booleans_then_text() {
    assert!(matches!(parse_literal("17"), Variable::Num(17)));
    assert!(matches!(parse_literal("true"), Variable::Bool(true)));
    match parse_literal("torch") {
        Variable::Str(s) => assert_eq!(s, "torch"),
        other => panic!("unexpected literal: {:?}", other),
    }
    // out-of-range integers fall back to text
    match parse_literal("2147483648") {
        Variable::Str(s) => assert_eq!(s, "2147483648"),
        other => panic!("unexpected literal: {:?}", other),
    }
}

#[test]
fn comparators_parse_from_their_symbols() {
    assert_eq!(ComparisonOp::from_str("=="), Some(ComparisonOp::EQ));
    assert_eq!(ComparisonOp::from_str("!="), Some(ComparisonOp::NEQ));
    assert_eq!(ComparisonOp::from_str(">"), Some(ComparisonOp::GT));
    assert_eq!(ComparisonOp::from_str(">="), Some(ComparisonOp::GTE));
    assert_eq!(ComparisonOp::from_str("<"), Some(ComparisonOp::LT));
    assert_eq!(ComparisonOp::from_str("<="), Some(ComparisonOp::LTE));
    assert_eq!(ComparisonOp::from_str("=<"), None);
}

#[test]
fn operations_parse_from_their_compact_text_form() {
    let op = Operation::from_str("hp >= 3").expect("well-formed operation");
    assert_eq!(op.name, "hp");
    assert_eq!(op.op, ComparisonOp::GTE);
    assert!(matches!(op.value, Variable::Num(3)));

    let op = Operation::from_str("  mood ==  angry ").expect("well-formed operation");
    assert_eq!(op.name, "mood");
    assert_eq!(op.op, ComparisonOp::EQ);
    match op.value {
        Variable::Str(s) => assert_eq!(s, "angry"),
        other => panic!("unexpected literal: {:?}", other),
    }

    let op = Operation::from_str("lit != false").expect("well-formed operation");
    assert!(matches!(op.value, Variable::Bool(false)));

    assert!(Operation::from_str("hp >=").is_err());
    assert!(Operation::from_str("hp maybe 3").is_err());
    assert!(Operation::from_str("hp >= 3 extra").is_err());
    assert!(Operation::from_str("").is_err());
}
