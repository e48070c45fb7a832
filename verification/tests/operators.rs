use regoer::conditions::build_condition;
use regoer::conditions::compare;
use regoer::conditions::resolve;
use regoer::conditions::to_bool;
use regoer::conditions::to_int;
use regoer::conditions::to_str;
use regoer::expression::Expr;
use regoer::expression::Repr;
use regoer::interpolation::SubstitutionError;
use regoer::model::ConditionOperator;
use regoer::model::ConditionOperatorQuantifier;
use regoer::model::GlobalConditionOperator;
use regoer::model::QString;
use regoer::values::ConditionValue;
use regoer::values::Value;
use regoer::Error;

fn string(s: &str) -> ConditionValue {
    ConditionValue::String(s.to_string())
}

fn one(operator: ConditionOperator, value: ConditionValue) -> String {
    let built = build_condition(&operator, &[(QString::new("aws".into(), "k".into()), Value::One(value))]).unwrap();
    assert_eq!(built.len(), 1);
    built[0].repr().unwrap()
}

fn many(operator: ConditionOperator, values: Vec<ConditionValue>) -> String {
    let built = build_condition(&operator, &[(QString::new("aws".into(), "k".into()), Value::Many(values))]).unwrap();
    assert_eq!(built.len(), 1);
    built[0].repr().unwrap()
}

fn found(r: Result<Expr, Error>) -> (&'static str, String) {
    match r {
        Err(Error::InvalidType(expected, found)) => (expected, found),
        other => panic!("unexpected {:?}", other),
    }
}

const POSITIVE: [(GlobalConditionOperator, &str, &str); 4] = [
    (GlobalConditionOperator::StringEquals, "[\"a\", \"b\"][_] == ", ""),
    (GlobalConditionOperator::StringEqualsIgnoreCase, "lower([\"a\", \"b\"][_]) == lower(", ")"),
    (GlobalConditionOperator::StringLike, "glob.match([\"a\", \"b\"][_], null, ", ")"),
    (GlobalConditionOperator::IpAddress, "net.cidr_contains([\"a\", \"b\"][_], ", ")"),
];

const NEGATIVE: [(GlobalConditionOperator, &str, &str); 4] = [
    (GlobalConditionOperator::StringNotEquals, "val != ", ""),
    (GlobalConditionOperator::StringNotEqualsIgnoreCase, "lower(val) != lower(", ")"),
    (GlobalConditionOperator::StringNotLike, "not glob.match(val, null, ", ")"),
    (GlobalConditionOperator::NotIpAddress, "not net.cidr_contains(val, ", ")"),
];

#[test]
fn for_any_value_relates_some_policy_value_to_some_context_value() {
    for (operator, before, after) in POSITIVE {
        let text = many(ConditionOperator::new(operator).for_any(), vec![string("a"), string("b")]);
        assert_eq!(text, format!("{}to_array(object.get(input.aws, \"k\", []))[_]{}", before, after));
    }
}

#[test]
fn for_all_values_relates_some_policy_value_to_every_context_value() {
    for (operator, before, after) in POSITIVE {
        let text = many(ConditionOperator::new(operator).for_all(), vec![string("a"), string("b")]);
        assert_eq!(text, format!("every item in to_array(object.get(input.aws, \"k\", [])) {{ {}item{} }}", before, after));
    }
}

#[test]
fn negative_operators_read_the_same_under_both_quantifiers() {
    for (operator, before, after) in NEGATIVE {
        let any = many(ConditionOperator::new(operator.clone()).for_any(), vec![string("a"), string("b")]);
        let all = many(ConditionOperator::new(operator).for_all(), vec![string("a"), string("b")]);
        assert_eq!(any, all);
        assert_eq!(any, format!("every item in to_array(object.get(input.aws, \"k\", [])) {{ every val in [\"a\", \"b\"] {{ {}item{} }} }}", before, after));
    }
}

#[test]
fn numbers_and_dates_under_quantifiers() {
    let op = |o| ConditionOperator::new(o);
    let ctx = "to_array(object.get(input.aws, \"k\", []))";
    assert_eq!(many(op(GlobalConditionOperator::NumericGreaterThanEquals).for_any(), vec![ConditionValue::Integer(1)]), format!("{}[_] >= [1][_]", ctx));
    assert_eq!(many(op(GlobalConditionOperator::NumericNotEquals).for_any(), vec![ConditionValue::Integer(1)]), format!("every item in {} {{ every val in [1] {{ val != item }} }}", ctx));
    assert_eq!(
        many(op(GlobalConditionOperator::DateNotEquals).for_all(), vec![string("d")]),
        format!("every item in {} {{ every val in [\"d\"] {{ time.parse_rfc3339_ns(val) != time.parse_rfc3339_ns(item) }} }}", ctx)
    );
    assert_eq!(
        many(op(GlobalConditionOperator::DateLessThanEquals).for_all(), vec![string("d")]),
        format!("every item in {} {{ time.parse_rfc3339_ns(item) <= time.parse_rfc3339_ns([\"d\"][_]) }}", ctx)
    );
    assert_eq!(
        many(op(GlobalConditionOperator::DateGreaterThanEquals).for_any(), vec![string("d")]),
        format!("time.parse_rfc3339_ns({}[_]) >= time.parse_rfc3339_ns([\"d\"][_])", ctx)
    );
    assert_eq!(many(op(GlobalConditionOperator::DateEquals).for_any(), vec![string("d")]), format!("time.parse_rfc3339_ns([\"d\"][_]) == time.parse_rfc3339_ns({}[_])", ctx));
}

#[test]
fn operand_order_without_quantifier() {
    let op = |o| ConditionOperator::new(o);
    assert_eq!(one(op(GlobalConditionOperator::StringEquals), string("p")), "\"p\" == input.aws.k");
    assert_eq!(one(op(GlobalConditionOperator::NumericNotEquals), ConditionValue::Integer(3)), "3 != input.aws.k");
    assert_eq!(one(op(GlobalConditionOperator::NumericLessThan), ConditionValue::Integer(3)), "input.aws.k < 3");
    assert_eq!(one(op(GlobalConditionOperator::DateNotEquals), string("d")), "time.parse_rfc3339_ns(\"d\") != time.parse_rfc3339_ns(input.aws.k)");
    assert_eq!(one(op(GlobalConditionOperator::DateGreaterThanEquals), string("d")), "time.parse_rfc3339_ns(input.aws.k) >= time.parse_rfc3339_ns(\"d\")");
    assert_eq!(one(op(GlobalConditionOperator::DateLessThanEquals), string("d")), "time.parse_rfc3339_ns(input.aws.k) <= time.parse_rfc3339_ns(\"d\")");
    assert_eq!(one(op(GlobalConditionOperator::Bool), string("false")), "input.aws.k == false");
}

#[test]
fn lists_without_quantifier() {
    let op = |o| ConditionOperator::new(o);
    assert_eq!(many(op(GlobalConditionOperator::NumericLessThan), vec![ConditionValue::Integer(1), ConditionValue::Integer(2)]), "input.aws.k < [1, 2][_]");
    assert_eq!(many(op(GlobalConditionOperator::NumericNotEquals), vec![ConditionValue::Integer(1), ConditionValue::Integer(2)]), "every item in [1, 2] { item != input.aws.k }");
    assert_eq!(many(op(GlobalConditionOperator::StringNotEqualsIgnoreCase), vec![string("A")]), "every item in [\"A\"] { lower(item) != lower(input.aws.k) }");
    assert_eq!(many(op(GlobalConditionOperator::DateNotEquals), vec![string("d")]), "every item in [\"d\"] { time.parse_rfc3339_ns(item) != time.parse_rfc3339_ns(input.aws.k) }");
    assert_eq!(many(op(GlobalConditionOperator::StringEquals), vec![]), "[][_] == input.aws.k");
    assert_eq!(many(op(GlobalConditionOperator::StringNotEquals), vec![]), "every item in [] { item != input.aws.k }");
}

#[test]
fn bool_ignores_the_quantifier() {
    let plain = one(ConditionOperator::new(GlobalConditionOperator::Bool), ConditionValue::Bool(true));
    assert_eq!(plain, "input.aws.k == true");
    assert_eq!(one(ConditionOperator::new(GlobalConditionOperator::Bool).for_any(), ConditionValue::Bool(true)), plain);
    assert_eq!(one(ConditionOperator::new(GlobalConditionOperator::Bool).for_all(), ConditionValue::Bool(true)), plain);
}

#[test]
fn the_if_exists_suffix_changes_nothing() {
    for operator in [GlobalConditionOperator::StringEquals, GlobalConditionOperator::NumericLessThan, GlobalConditionOperator::NotIpAddress] {
        let value = || if operator == GlobalConditionOperator::NumericLessThan { ConditionValue::Integer(1) } else { string("v") };
        assert_eq!(one(ConditionOperator::new(operator.clone()).if_exists(), value()), one(ConditionOperator::new(operator.clone()), value()));
    }
}

#[test]
fn one_expression_for_each_attribute_in_order() {
    let pairs = [
        (QString::unqualified("a".into()), Value::One(string("1"))),
        (QString::unqualified("b".into()), Value::Many(vec![string("2"), string("3")])),
        (QString::new("q".into(), "c/d".into()), Value::One(string("${x}"))),
    ];
    let built = build_condition(&ConditionOperator::new(GlobalConditionOperator::StringLike), &pairs).unwrap();
    let texts: Vec<String> = built.iter().map(|e| e.repr().unwrap()).collect();
    assert_eq!(
        texts,
        vec![
            "glob.match(\"1\", null, input.a)",
            "glob.match([\"2\", \"3\"][_], null, input.b)",
            "glob.match(sprintf(\"%s\", [input.x]), null, input.q.c.d)",
        ]
    );
    assert_eq!(build_condition(&ConditionOperator::new(GlobalConditionOperator::StringLike), &[]).unwrap(), vec![]);
    assert_eq!(compare(&ConditionOperator::new(GlobalConditionOperator::StringLike), &pairs).unwrap(), built);
}

#[test]
fn paths_of_attributes() {
    let path = |q: QString| resolve(&q).unwrap().repr().unwrap();
    assert_eq!(path(QString::new("q".into(), "name".into())), "input.q.name");
    assert_eq!(path(QString::new("q".into(), "a/b".into())), "input.q.a.b");
    assert_eq!(path(QString::new("q".into(), "a/b/c".into())), "input.q.a.b.c");
    assert_eq!(path(QString::unqualified("name".into())), "input.name");
    assert_eq!(path(QString::unqualified("a/b".into())), "input.a.b");
    assert_eq!(path(QString::new("q/r".into(), "name".into())), "input.q/r.name");
    assert_eq!(path(QString::unqualified("".into())), "input.");
}

#[test]
fn unsupported_operators() {
    let name = |operator: GlobalConditionOperator| match build_condition(&ConditionOperator::new(operator), &[]) {
        Err(Error::UnsupportedFunction(name)) => name,
        other => panic!("unexpected {:?}", other),
    };
    assert_eq!(name(GlobalConditionOperator::BinaryEquals), "BinaryEquals");
    assert_eq!(name(GlobalConditionOperator::ArnEquals), "ArnEquals");
    assert_eq!(name(GlobalConditionOperator::ArnLike), "ArnLike");
    assert_eq!(name(GlobalConditionOperator::ArnNotEquals), "ArnNotEquals");
    assert_eq!(name(GlobalConditionOperator::ArnNotLike), "ArnNotLike");
    assert_eq!(name(GlobalConditionOperator::Null), "Null");
    assert_eq!(name(GlobalConditionOperator::Other(QString::unqualified("Custom".into()))), "Other(QString { qualifier: None, value: \"Custom\" })");
    assert_eq!(name(GlobalConditionOperator::Other(QString::new("a\"b".into(), "c\\d".into()))), "Other(QString { qualifier: Some(\"a\\\"b\"), value: \"c\\\\d\" })");
}

#[test]
fn an_unsupported_operator_is_refused_before_its_values_are_read() {
    let pairs = [(QString::unqualified("a".into()), Value::One(string("${}")))];
    assert!(matches!(build_condition(&ConditionOperator::new(GlobalConditionOperator::Null).for_all(), &pairs), Err(Error::UnsupportedFunction(_))));
}

#[test]
fn names_of_operators() {
    assert_eq!(GlobalConditionOperator::StringEquals.to_string(), "StringEquals");
    assert_eq!(GlobalConditionOperator::DateGreaterThanEquals.to_string(), "DateGreaterThanEquals");
    assert_eq!(GlobalConditionOperator::NotIpAddress.to_string(), "NotIpAddress");
    assert_eq!(GlobalConditionOperator::Bool.to_string(), "Bool");
}

#[test]
fn booleans() {
    assert_eq!(to_bool(&ConditionValue::Bool(true)).unwrap(), Expr::Bool(true));
    assert_eq!(to_bool(&string("true")).unwrap(), Expr::Bool(true));
    assert_eq!(to_bool(&string("false")).unwrap(), Expr::Bool(false));
    assert_eq!(found(to_bool(&string("True"))), ("bool", "ConditionValue(String(\"True\"))".to_string()));
    assert_eq!(found(to_bool(&string("ye\"s\n"))), ("bool", "ConditionValue(String(\"ye\\\"s\\n\"))".to_string()));
    assert_eq!(found(to_bool(&string(""))), ("bool", "ConditionValue(String(\"\"))".to_string()));
    assert_eq!(found(to_bool(&ConditionValue::Integer(-10))), ("bool", "ConditionValue(Integer(-10))".to_string()));
    assert_eq!(found(to_bool(&ConditionValue::Float("1.5".into()))), ("bool", "ConditionValue(Float(1.5))".to_string()));
}

#[test]
fn strings() {
    assert_eq!(to_str(&string("a${b}")).unwrap(), Expr::str("a${b}").unwrap());
    assert_eq!(found(to_str(&ConditionValue::Bool(false))), ("string", "ConditionValue(Bool(false))".to_string()));
    assert_eq!(found(to_str(&ConditionValue::Bool(true))), ("string", "ConditionValue(Bool(true))".to_string()));
    assert_eq!(found(to_str(&ConditionValue::Integer(i64::MIN))), ("string", "ConditionValue(Integer(-9223372036854775808))".to_string()));
    assert_eq!(found(to_str(&ConditionValue::Float("-0.25".into()))), ("string", "ConditionValue(Float(-0.25))".to_string()));
    assert!(matches!(to_str(&string("${a b}")), Err(Error::InvalidStringInterpolation(SubstitutionError::InvalidCharacters(_)))));
}

#[test]
fn integers() {
    assert_eq!(to_int(&ConditionValue::Integer(-7)).unwrap(), Expr::Int(-7));
    assert_eq!(to_int(&string("0")).unwrap(), Expr::Int(0));
    assert_eq!(to_int(&string("-0")).unwrap(), Expr::Int(0));
    assert_eq!(to_int(&string("+5")).unwrap(), Expr::Int(5));
    assert_eq!(to_int(&string("007")).unwrap(), Expr::Int(7));
    assert_eq!(to_int(&string("-42")).unwrap(), Expr::Int(-42));
    assert_eq!(to_int(&string("9223372036854775807")).unwrap(), Expr::Int(i64::MAX));
    assert_eq!(to_int(&string("-9223372036854775808")).unwrap(), Expr::Int(i64::MIN));
    assert_eq!(to_int(&string("00000000000000000000009223372036854775807")).unwrap(), Expr::Int(i64::MAX));
    for bad in ["", "+", "-", " 5", "5 ", "5.0", "1e3", "abc", "1_000", "--1", "+-1", "٣", "9223372036854775808", "-9223372036854775809", "99999999999999999999999999"] {
        assert_eq!(found(to_int(&string(bad))), ("integer", bad.to_string()));
    }
    assert_eq!(found(to_int(&ConditionValue::Bool(true))), ("integer", "ConditionValue(Bool(true))".to_string()));
    assert_eq!(found(to_int(&ConditionValue::Float("2.0".into()))), ("integer", "ConditionValue(Float(2.0))".to_string()));
}

#[test]
fn integers_as_the_standard_library_reads_them() {
    for text in ["1", "-1", "+1", "12345678901234567890", "-12345678901234567890", "000", "+000", "-", "1-", "0x10", "１２"] {
        match text.parse::<i64>() {
            Ok(i) => assert_eq!(to_int(&string(text)).unwrap(), Expr::Int(i)),
            Err(_) => assert_eq!(found(to_int(&string(text))), ("integer", text.to_string())),
        }
    }
}

#[test]
fn the_first_bad_value_decides() {
    let pairs = [
        (QString::unqualified("a".into()), Value::Many(vec![ConditionValue::Integer(1), string("x"), ConditionValue::Bool(true)])),
        (QString::unqualified("b".into()), Value::One(ConditionValue::Float("0.5".into()))),
    ];
    match build_condition(&ConditionOperator::new(GlobalConditionOperator::NumericEquals), &pairs) {
        Err(Error::InvalidType("integer", found)) => assert_eq!(found, "x"),
        other => panic!("unexpected {:?}", other),
    }
    match build_condition(&ConditionOperator::new(GlobalConditionOperator::Bool), &pairs) {
        Err(Error::InvalidType("bool", found)) => assert_eq!(found, "ConditionValue(Integer(1))"),
        other => panic!("unexpected {:?}", other),
    }
}

#[test]
fn operator_builders() {
    let op = ConditionOperator::new(GlobalConditionOperator::StringLike);
    assert_eq!(op, ConditionOperator { quantifier: None, operator: GlobalConditionOperator::StringLike, if_exists: false });
    assert!(!op.is_neg());
    assert_eq!(op.clone().for_all().quantifier, Some(ConditionOperatorQuantifier::ForAllValues));
    assert_eq!(op.clone().for_any().quantifier, Some(ConditionOperatorQuantifier::ForAnyValue));
    assert!(op.clone().if_exists().if_exists);
    assert_eq!(op.clone().for_any().if_exists().for_all(), ConditionOperator { quantifier: Some(ConditionOperatorQuantifier::ForAllValues), operator: GlobalConditionOperator::StringLike, if_exists: true });
    let other = ConditionOperator::new_other(QString::unqualified("X".into()));
    assert_eq!(other.operator, GlobalConditionOperator::Other(QString::unqualified("X".into())));
    for operator in [
        GlobalConditionOperator::StringNotEquals,
        GlobalConditionOperator::StringNotEqualsIgnoreCase,
        GlobalConditionOperator::StringNotLike,
        GlobalConditionOperator::NumericNotEquals,
        GlobalConditionOperator::DateNotEquals,
        GlobalConditionOperator::NotIpAddress,
    ] {
        assert!(ConditionOperator::new(operator).is_neg());
    }
    for operator in [GlobalConditionOperator::Bool, GlobalConditionOperator::StringEquals, GlobalConditionOperator::DateLessThan, GlobalConditionOperator::Null] {
        assert!(!ConditionOperator::new(operator).is_neg());
    }
}

#[test]
fn qualified_strings() {
    let q = QString::new("aws".into(), "userid".into());
    assert_eq!(q.qualifier(), &Some("aws".to_string()));
    assert_eq!(q.value(), "userid");
    assert_eq!(q.to_string(), "aws:userid");
    let u = QString::unqualified("userid".into());
    assert_eq!(u.qualifier(), &None);
    assert_eq!(u.to_string(), "userid");
}
