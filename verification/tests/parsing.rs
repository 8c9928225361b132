//! The expression grammar: value coercion, tagged and wrapped values,
//! clauses and threshold actions.

use degreepath_auditor::decimal::Decimal;
use degreepath_auditor::filter::{parse_clause, Clause};
use degreepath_auditor::rules::{Action, Command};
use degreepath_auditor::value::{
    parse_tagged, parse_value, parse_wrapped, Constant, Operator, TaggedValue, Value, WrappedValue,
};
use degreepath_auditor::ParseError;

#[test]
fn it_works() {
    assert_eq!(2 + 2, 4);
}

#[test]
fn deserialize_value_str() {
    let data = "FYW";
    let expected = Value::String("FYW".into());
    let actual: Value = data.parse().unwrap();
    assert_eq!(actual, expected);
}

#[test]
fn deserialize_value_int() {
    let data = "1";
    let expected = Value::Integer(1);
    let actual: Value = data.parse().unwrap();
    assert_eq!(actual, expected);

    let data = "100";
    let expected = Value::Integer(100);
    let actual: Value = data.parse().unwrap();
    assert_eq!(actual, expected);
}

#[test]
fn deserialize_value_float() {
    let data = "1.0";
    let expected = Value::Float(Decimal { neg: false, mantissa: 1, scale: 0 });
    let actual: Value = data.parse().unwrap();
    assert_eq!(actual, expected);

    let data = "1.5";
    let expected = Value::Float(Decimal { neg: false, mantissa: 15, scale: 1 });
    let actual: Value = data.parse().unwrap();
    assert_eq!(actual, expected);
}

#[test]
fn deserialize_value_bool() {
    let data = "true";
    let expected = Value::Bool(true);
    let actual: Value = data.parse().unwrap();
    assert_eq!(actual, expected);

    let data = "false";
    let expected = Value::Bool(false);
    let actual: Value = data.parse().unwrap();
    assert_eq!(actual, expected);
}

#[test]
fn deserialize_tagged_value_untagged() {
    let data = "FYW";
    let expected = TaggedValue { op: Operator::EqualTo, value: Value::String("FYW".into()) };
    let actual: TaggedValue = data.parse().unwrap();
    assert_eq!(actual, expected);
}

#[test]
fn deserialize_tagged_value_eq() {
    let data = "= FYW";
    let expected = TaggedValue { op: Operator::EqualTo, value: Value::String("FYW".into()) };
    let actual: TaggedValue = data.parse().unwrap();
    assert_eq!(actual, expected);
}

#[test]
fn deserialize_tagged_value_neq() {
    let data = "! FYW";
    let expected = TaggedValue { op: Operator::NotEqualTo, value: Value::String("FYW".into()) };
    let actual: TaggedValue = data.parse().unwrap();
    assert_eq!(actual, expected);
}

#[test]
fn deserialize_tagged_value_gt() {
    let data = "> FYW";
    let expected = TaggedValue { op: Operator::GreaterThan, value: Value::String("FYW".into()) };
    let actual: TaggedValue = data.parse().unwrap();
    assert_eq!(actual, expected);
}

#[test]
fn deserialize_tagged_value_gte() {
    let data = ">= FYW";
    let expected =
        TaggedValue { op: Operator::GreaterThanEqualTo, value: Value::String("FYW".into()) };
    let actual: TaggedValue = data.parse().unwrap();
    assert_eq!(actual, expected);
}

#[test]
fn deserialize_tagged_value_lt() {
    let data = "< FYW";
    let expected = TaggedValue { op: Operator::LessThan, value: Value::String("FYW".into()) };
    let actual: TaggedValue = data.parse().unwrap();
    assert_eq!(actual, expected);
}

#[test]
fn deserialize_tagged_value_lte() {
    let data = "<= FYW";
    let expected =
        TaggedValue { op: Operator::LessThanEqualTo, value: Value::String("FYW".into()) };
    let actual: TaggedValue = data.parse().unwrap();
    assert_eq!(actual, expected);
}

#[test]
fn deserialize_wrapped_value() {
    let data = "FYW";
    let expected = WrappedValue::Single(TaggedValue {
        op: Operator::EqualTo,
        value: Value::String("FYW".into()),
    });
    let actual: WrappedValue = data.parse().unwrap();
    assert_eq!(actual, expected);
}

#[test]
fn deserialize_wrapped_value_ne() {
    let data = "! FYW";
    let expected = WrappedValue::Single(TaggedValue {
        op: Operator::NotEqualTo,
        value: Value::String("FYW".into()),
    });
    let actual: WrappedValue = data.parse().unwrap();
    assert_eq!(actual, expected);
}

#[test]
fn deserialize_wrapped_value_or_ne() {
    let data = "! FYW | = FYW";
    let expected = WrappedValue::Or(vec![
        TaggedValue { op: Operator::NotEqualTo, value: Value::String("FYW".into()) },
        TaggedValue { op: Operator::EqualTo, value: Value::String("FYW".into()) },
    ]);
    let actual: WrappedValue = data.parse().unwrap();
    assert_eq!(actual, expected);
}

#[test]
fn deserialize_wrapped_value_or_untagged() {
    let data = "FYW | FYW";
    let expected = WrappedValue::Or(vec![
        TaggedValue { op: Operator::EqualTo, value: Value::String("FYW".into()) },
        TaggedValue { op: Operator::EqualTo, value: Value::String("FYW".into()) },
    ]);
    let actual: WrappedValue = data.parse().unwrap();
    assert_eq!(actual, expected);
}

#[test]
fn deserialize_wrapped_value_and_untagged() {
    let data = "FYW & FYW";
    let expected = WrappedValue::And(vec![
        TaggedValue { op: Operator::EqualTo, value: Value::String("FYW".into()) },
        TaggedValue { op: Operator::EqualTo, value: Value::String("FYW".into()) },
    ]);
    let actual: WrappedValue = data.parse().unwrap();
    assert_eq!(actual, expected);
}

#[test]
fn deserialize_wrapped_value_and_ne() {
    let data = "! FYW & = FYW";
    let expected = WrappedValue::And(vec![
        TaggedValue { op: Operator::NotEqualTo, value: Value::String("FYW".into()) },
        TaggedValue { op: Operator::EqualTo, value: Value::String("FYW".into()) },
    ]);
    let actual: WrappedValue = data.parse().unwrap();
    assert_eq!(actual, expected);
}

#[test]
fn deserialize_wrapped_value_multiword_single_value() {
    let data = "St. Olaf College";
    let expected = WrappedValue::Single(TaggedValue {
        op: Operator::EqualTo,
        value: Value::String("St. Olaf College".into()),
    });
    let actual: WrappedValue = data.parse().unwrap();
    assert_eq!(actual, expected);
}

#[test]
fn serialize_simple() {
    let mut data: std::collections::BTreeMap<String, String> = std::collections::BTreeMap::new();
    data.insert("level".into(), "100".parse::<WrappedValue>().unwrap().to_text());

    let expected = "---\nlevel: \"= 100\"";

    let actual = serde_yaml::to_string(&data).unwrap();
    // the yaml emitter ends the document with a newline
    assert_eq!(actual.trim_end(), expected);
}

#[test]
fn serialize_or() {
    let mut data: std::collections::BTreeMap<String, String> = std::collections::BTreeMap::new();
    data.insert("level".into(), "100 | 200".parse::<WrappedValue>().unwrap().to_text());

    let expected = "---\nlevel: \"= 100 | = 200\"";

    let actual = serde_yaml::to_string(&data).unwrap();
    // the yaml emitter ends the document with a newline
    assert_eq!(actual.trim_end(), expected);

    let mut data: std::collections::BTreeMap<String, String> = std::collections::BTreeMap::new();
    data.insert("level".into(), "< 100 | 200".parse::<WrappedValue>().unwrap().to_text());

    let expected = "---\nlevel: \"< 100 | = 200\"";

    let actual = serde_yaml::to_string(&data).unwrap();
    // the yaml emitter ends the document with a newline
    assert_eq!(actual.trim_end(), expected);
}

#[test]
fn display_then_parse_is_identity() {
    let samples = ["= 100", "! FYW", ">= FYW", "< 100 | 200", "! FYW & = FYW", "true", "1.5"];
    for text in samples {
        let v: WrappedValue = text.parse().unwrap();
        let rendered = v.to_text();
        let reparsed: WrappedValue = rendered.parse().unwrap();
        assert_eq!(v, reparsed, "{}", text);
    }
}

#[test]
fn or_splits_before_and_and_plain_is_single() {
    let a = TaggedValue { op: Operator::EqualTo, value: Value::String("A".into()) };
    let b = TaggedValue { op: Operator::EqualTo, value: Value::String("B".into()) };
    assert_eq!(parse_wrapped("A | B"), Ok(WrappedValue::Or(vec![a.clone(), b.clone()])));
    assert_eq!(parse_wrapped("A & B"), Ok(WrappedValue::And(vec![a.clone(), b])));
    assert_eq!(parse_wrapped("A"), Ok(WrappedValue::Single(a)));
}

#[test]
fn coercion_prefers_constant() {
    assert_eq!(parse_value("graduation-year"), Value::Constant(Constant::GraduationYear));
    assert_eq!(parse_value("  graduation-year "), Value::Constant(Constant::GraduationYear));
}

#[test]
fn multiword_string_is_not_split() {
    assert_eq!(parse_value("St. Olaf College"), Value::String("St. Olaf College".into()));
}

#[test]
fn tagged_rejects_overlong_split() {
    let r = parse_tagged("= a b");
    assert_eq!(r, Err(ParseError::InvalidAction));
}

#[test]
fn tagged_whitespace_between_operator_and_value_is_free() {
    let a = parse_tagged("=   100").unwrap();
    let b = parse_tagged("= 100").unwrap();
    assert_eq!(a, b);
    assert_eq!(a, TaggedValue { op: Operator::EqualTo, value: Value::Integer(100) });
}

#[test]
fn wrapped_new_and_is_true() {
    let w = WrappedValue::new("FYW");
    assert_eq!(
        w,
        WrappedValue::Single(TaggedValue {
            op: Operator::EqualTo,
            value: Value::String("FYW".into())
        })
    );
    assert!(!w.is_true());
    let t: WrappedValue = "true".parse().unwrap();
    assert!(t.is_true());
    let t: TaggedValue = "true".parse().unwrap();
    assert!(t.is_true());
}

#[test]
fn parse_action_count() {
    let a: Action = "count >= 3".parse().unwrap();
    assert_eq!(a.command, Command::Count);
    assert_eq!(a.op, Operator::GreaterThanEqualTo);
    assert_eq!(a.value, Value::Integer(3));

    let s: Action = "sum >= 3".parse().unwrap();
    assert_eq!(s.command, Command::Sum);

    assert_eq!("tally >= 3".parse::<Action>(), Err(ParseError::UnknownCommand));
    assert_eq!("count 3".parse::<Action>(), Err(ParseError::InvalidAction));
}

#[test]
fn parse_clause_and_match() {
    let pairs = vec![("semester".to_string(), "Interim".to_string())];
    let clause: Clause = parse_clause(&pairs).unwrap();
    let entry = vec![
        ("semester".to_string(), Value::String("Interim".into())),
        ("level".to_string(), Value::Integer(100)),
    ];
    assert!(clause.matches(&entry));

    let pairs = vec![("level".to_string(), "> 100".to_string())];
    let clause: Clause = parse_clause(&pairs).unwrap();
    assert!(!clause.matches(&entry));
    let higher = vec![("level".to_string(), Value::Integer(200))];
    assert!(clause.matches(&higher));
}

#[test]
fn decimal_renders_two_places() {
    let d = Decimal { neg: false, mantissa: 15, scale: 1 };
    assert_eq!(Value::Float(d).to_text(), "1.50");
    let d = Decimal { neg: false, mantissa: 1, scale: 0 };
    assert_eq!(Value::Float(d).to_text(), "1.00");
}
