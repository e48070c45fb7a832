use regoer::model::Action;
use regoer::model::ConditionOperator;
use regoer::model::ConditionOperatorQuantifier;
use regoer::model::GlobalConditionOperator;
use regoer::model::OneOrAll;
use regoer::model::OneOrAny;
use regoer::model::PolicyDocument;
use regoer::model::Principal;
use regoer::model::PrincipalType;
use regoer::model::QString;
use regoer::model::Resource;
use regoer::model::StatementElement;
use regoer::values::ConditionValue;
use regoer::values::Effect;
use regoer::Evaluator;
use regoer::Regoer;

fn qstring(q: &aws_iam::model::QString) -> QString {
    QString { qualifier: q.qualifier().clone(), value: q.value().clone() }
}

fn names(names: aws_iam::model::OneOrAny<String>) -> OneOrAny<String> {
    match names {
        aws_iam::model::OneOrAny::Any => OneOrAny::Any,
        aws_iam::model::OneOrAny::One(one) => OneOrAny::One(one),
        aws_iam::model::OneOrAny::AnyOf(list) => OneOrAny::AnyOf(list),
    }
}

fn qualified_names(names: aws_iam::model::OneOrAny<aws_iam::model::QString>) -> OneOrAny<QString> {
    match names {
        aws_iam::model::OneOrAny::Any => OneOrAny::Any,
        aws_iam::model::OneOrAny::One(one) => OneOrAny::One(qstring(&one)),
        aws_iam::model::OneOrAny::AnyOf(list) => OneOrAny::AnyOf(list.iter().map(qstring).collect()),
    }
}

fn principal_type(kind: aws_iam::model::PrincipalType) -> PrincipalType {
    match kind {
        aws_iam::model::PrincipalType::Everyone => PrincipalType::Everyone,
        aws_iam::model::PrincipalType::AWS => PrincipalType::AWS,
        aws_iam::model::PrincipalType::Federated => PrincipalType::Federated,
        aws_iam::model::PrincipalType::Service => PrincipalType::Service,
        aws_iam::model::PrincipalType::CanonicalUser => PrincipalType::CanonicalUser,
    }
}

fn principal(principal: aws_iam::model::Principal) -> Principal {
    match principal {
        aws_iam::model::Principal::Principal(map) => {
            Principal::Principal(map.into_iter().map(|(kind, list)| (principal_type(kind), names(list))).collect())
        }
        aws_iam::model::Principal::NotPrincipal(map) => {
            Principal::NotPrincipal(map.into_iter().map(|(kind, list)| (principal_type(kind), names(list))).collect())
        }
    }
}

fn global_operator(operator: aws_iam::model::GlobalConditionOperator) -> GlobalConditionOperator {
    match operator {
        aws_iam::model::GlobalConditionOperator::StringEquals => GlobalConditionOperator::StringEquals,
        aws_iam::model::GlobalConditionOperator::StringNotEquals => GlobalConditionOperator::StringNotEquals,
        aws_iam::model::GlobalConditionOperator::StringEqualsIgnoreCase => GlobalConditionOperator::StringEqualsIgnoreCase,
        aws_iam::model::GlobalConditionOperator::StringNotEqualsIgnoreCase => GlobalConditionOperator::StringNotEqualsIgnoreCase,
        aws_iam::model::GlobalConditionOperator::StringLike => GlobalConditionOperator::StringLike,
        aws_iam::model::GlobalConditionOperator::StringNotLike => GlobalConditionOperator::StringNotLike,
        aws_iam::model::GlobalConditionOperator::NumericEquals => GlobalConditionOperator::NumericEquals,
        aws_iam::model::GlobalConditionOperator::NumericNotEquals => GlobalConditionOperator::NumericNotEquals,
        aws_iam::model::GlobalConditionOperator::NumericLessThan => GlobalConditionOperator::NumericLessThan,
        aws_iam::model::GlobalConditionOperator::NumericLessThanEquals => GlobalConditionOperator::NumericLessThanEquals,
        aws_iam::model::GlobalConditionOperator::NumericGreaterThan => GlobalConditionOperator::NumericGreaterThan,
        aws_iam::model::GlobalConditionOperator::NumericGreaterThanEquals => GlobalConditionOperator::NumericGreaterThanEquals,
        aws_iam::model::GlobalConditionOperator::DateEquals => GlobalConditionOperator::DateEquals,
        aws_iam::model::GlobalConditionOperator::DateNotEquals => GlobalConditionOperator::DateNotEquals,
        aws_iam::model::GlobalConditionOperator::DateLessThan => GlobalConditionOperator::DateLessThan,
        aws_iam::model::GlobalConditionOperator::DateLessThanEquals => GlobalConditionOperator::DateLessThanEquals,
        aws_iam::model::GlobalConditionOperator::DateGreaterThan => GlobalConditionOperator::DateGreaterThan,
        aws_iam::model::GlobalConditionOperator::DateGreaterThanEquals => GlobalConditionOperator::DateGreaterThanEquals,
        aws_iam::model::GlobalConditionOperator::Bool => GlobalConditionOperator::Bool,
        aws_iam::model::GlobalConditionOperator::BinaryEquals => GlobalConditionOperator::BinaryEquals,
        aws_iam::model::GlobalConditionOperator::IpAddress => GlobalConditionOperator::IpAddress,
        aws_iam::model::GlobalConditionOperator::NotIpAddress => GlobalConditionOperator::NotIpAddress,
        aws_iam::model::GlobalConditionOperator::ArnEquals => GlobalConditionOperator::ArnEquals,
        aws_iam::model::GlobalConditionOperator::ArnLike => GlobalConditionOperator::ArnLike,
        aws_iam::model::GlobalConditionOperator::ArnNotEquals => GlobalConditionOperator::ArnNotEquals,
        aws_iam::model::GlobalConditionOperator::ArnNotLike => GlobalConditionOperator::ArnNotLike,
        aws_iam::model::GlobalConditionOperator::Null => GlobalConditionOperator::Null,
        aws_iam::model::GlobalConditionOperator::Other(name) => GlobalConditionOperator::Other(qstring(&name)),
    }
}

fn operator(operator: aws_iam::model::ConditionOperator) -> ConditionOperator {
    ConditionOperator {
        quantifier: match operator.quantifier {
            Some(aws_iam::model::ConditionOperatorQuantifier::ForAllValues) => Some(ConditionOperatorQuantifier::ForAllValues),
            Some(aws_iam::model::ConditionOperatorQuantifier::ForAnyValue) => Some(ConditionOperatorQuantifier::ForAnyValue),
            None => None,
        },
        operator: global_operator(operator.operator),
        if_exists: operator.if_exists,
    }
}

fn condition_value(value: aws_iam::model::ConditionValue) -> ConditionValue {
    match value {
        aws_iam::model::ConditionValue::String(s) => ConditionValue::String(s),
        aws_iam::model::ConditionValue::Integer(i) => ConditionValue::Integer(i),
        aws_iam::model::ConditionValue::Float(f) => ConditionValue::Float(format!("{:?}", f)),
        aws_iam::model::ConditionValue::Bool(b) => ConditionValue::Bool(b),
    }
}

fn condition_values(values: aws_iam::model::OneOrAll<aws_iam::model::ConditionValue>) -> OneOrAll<ConditionValue> {
    match values {
        aws_iam::model::OneOrAll::One(one) => OneOrAll::One(condition_value(one)),
        aws_iam::model::OneOrAll::All(list) => OneOrAll::All(list.into_iter().map(condition_value).collect()),
    }
}

fn statement(statement: aws_iam::model::Statement) -> StatementElement {
    StatementElement {
        effect: match statement.effect {
            aws_iam::model::Effect::Allow => Effect::Allow,
            aws_iam::model::Effect::Deny => Effect::Deny,
        },
        principal: statement.principal.map(principal),
        action: match statement.action {
            aws_iam::model::Action::Action(list) => Action::Action(qualified_names(list)),
            aws_iam::model::Action::NotAction(list) => Action::NotAction(qualified_names(list)),
        },
        resource: match statement.resource {
            aws_iam::model::Resource::Resource(list) => Resource::Resource(names(list)),
            aws_iam::model::Resource::NotResource(list) => Resource::NotResource(names(list)),
        },
        condition: statement.condition.map(|block| {
            block
                .into_iter()
                .map(|(op, attributes)| {
                    (operator(op), attributes.into_iter().map(|(attribute, values)| (qstring(&attribute), condition_values(values))).collect())
                })
                .collect()
        }),
    }
}

fn document(policy: aws_iam::model::Policy) -> PolicyDocument {
    PolicyDocument {
        statement: match policy.statement {
            aws_iam::model::OneOrAll::One(one) => OneOrAll::One(statement(one)),
            aws_iam::model::OneOrAll::All(list) => OneOrAll::All(list.into_iter().map(statement).collect()),
        },
    }
}

fn compile_policy(policy_json: &str) -> Evaluator {
    let policy = aws_iam::io::read_from_string(policy_json).unwrap();
    let mut regoer = Regoer::default();
    regoer.add_policy(document(policy)).unwrap();
    regoer.compile().unwrap()
}

fn evaluate(evaluator: &Evaluator, input: impl AsRef<str>) -> bool {
    evaluator.evaluate(input.as_ref()).unwrap()
}

fn input(attrs: &str) -> String {
    format!(
        r#"{{"principal": "anyuser", "action": "s3:GetObject", "resource": "arn:aws:s3:::test-bucket/test-file.txt", "aws": {}}}"#,
        attrs
    )
}

// Collection of tests from:
//  - https://docs.aws.amazon.com/IAM/latest/UserGuide/reference_policies_condition-single-vs-multi-valued-context-keys.html
//  - https://docs.aws.amazon.com/IAM/latest/UserGuide/reference_policies_condition-logic-multiple-context-keys-or-values.html

#[test]
fn for_all_values_negative_1() {
  let policy = r#"
    {
      "Version": "2012-10-17",
      "Statement": [
        {
          "Effect": "Allow",
          "Principal": "*",
          "Action": "*",
          "Resource": "*"
        },
        {
          "Effect": "Deny",
          "Principal": "*",
          "Action": "*",
          "Resource": "*",
          "Condition": {
            "ForAllValues:StringNotLike": {
              "aws:TagKeys": [
                "key1*"
              ]
            }
          }
        }
      ]
    }
  "#;

  let evaluator = compile_policy(policy);

  println!("{}", evaluator.to_string());

  let req = input(r#"{"TagKeys": "key1:legal"}"#);
  assert_eq!(evaluate(&evaluator, req), true);

  let req = input(r#"{"TagKeys": ["key1:legal"]}"#);
  assert_eq!(evaluate(&evaluator, req), true);

  let req = input(r#"{"TagKeys": ["key1:hr", "key1:personnel"]}"#);
  assert_eq!(evaluate(&evaluator, req), true);

  let req = input(r#"{"TagKeys": ["key2:audit"]}"#);
  assert_eq!(evaluate(&evaluator, req), false);

  let req = input(r#"{}"#);
  assert_eq!(evaluate(&evaluator, req), false);
}

#[test]
fn for_all_values_negative_2() {
  let policy = r#"
    {
      "Version": "2012-10-17",
      "Statement": [
        {
          "Effect": "Allow",
          "Principal": "*",
          "Action": "*",
          "Resource": "*"
        },
        {
          "Effect": "Deny",
          "Principal": "*",
          "Action": "*",
          "Resource": "*",
          "Condition": {
            "ForAllValues:StringNotLike": {
              "aws:TagKeys": [
                "key1*",
                "key2*"
              ]
            }
          }
        }
      ]
    }
  "#;

  let evaluator = compile_policy(policy);

  let req = input(r#"{"TagKeys": "key1:legal"}"#);
  assert_eq!(evaluate(&evaluator, req), true);

  let req = input(r#"{"TagKeys": ["key1:hr", "key1:personnel"]}"#);
  assert_eq!(evaluate(&evaluator, req), true);

  let req = input(r#"{"TagKeys": ["key1:hr", "key2:audit"]}"#);
  assert_eq!(evaluate(&evaluator, req), true);

  let req = input(r#"{"TagKeys": ["key3:legal"]}"#);
  assert_eq!(evaluate(&evaluator, req), false);

  let req = input(r#"{}"#);
  assert_eq!(evaluate(&evaluator, req), false);
}

#[test]
fn for_any_value_1() {
  let policy = r#"
    {
      "Version": "2012-10-17",
      "Statement": [
        {
          "Effect": "Allow",
          "Principal": "*",
          "Action": "*",
          "Resource": "*"
        },
        {
          "Effect": "Deny",
          "Principal": "*",
          "Action": "*",
          "Resource": "*",
          "Condition": {
            "ForAnyValue:StringEquals": {
              "aws:TagKeys": [
                "webserver"
              ]
            }
          }
        }
      ]
    }
  "#;

  let evaluator = compile_policy(policy);

  let req = input(r#"{"TagKeys": "webserver"}"#);
  assert_eq!(evaluate(&evaluator, req), false);

  let req = input(r#"{"TagKeys": ["environment", "webserver", "test"]}"#);
  assert_eq!(evaluate(&evaluator, req), false);

  let req = input(r#"{"TagKeys": ["environment", "test"]}"#);
  assert_eq!(evaluate(&evaluator, req), true);

  let req = input(r#"{}"#);
  assert_eq!(evaluate(&evaluator, req), true);
}

#[test]
fn for_any_value_2() {
  let policy = r#"
    {
      "Version": "2012-10-17",
      "Statement": [
        {
          "Effect": "Allow",
          "Principal": "*",
          "Action": "*",
          "Resource": "*"
        },
        {
          "Effect": "Deny",
          "Principal": "*",
          "Action": "*",
          "Resource": "*",
          "Condition": {
            "ForAnyValue:StringEquals": {
              "aws:TagKeys": [
                "environment",
                "cost-center"
              ]
            }
          }
        }
      ]
    }
  "#;

  let evaluator = compile_policy(policy);

  let req = input(r#"{"TagKeys": "environment"}"#);
  assert_eq!(evaluate(&evaluator, req), false);

  let req = input(r#"{"TagKeys": ["cost-center"]}"#);
  assert_eq!(evaluate(&evaluator, req), false);

  let req = input(r#"{"TagKeys": ["environment", "cost-center"]}"#);
  assert_eq!(evaluate(&evaluator, req), false);

  let req = input(r#"{"TagKeys": ["environment", "dept"]}"#);
  assert_eq!(evaluate(&evaluator, req), false);

  let req = input(r#"{"TagKeys": ["dept"]}"#);
  assert_eq!(evaluate(&evaluator, req), true);

  let req = input(r#"{}"#);
  assert_eq!(evaluate(&evaluator, req), true);
}

#[test]
fn for_all_values_not_commutative() {
  let policy = r#"
    {
      "Version": "2012-10-17",
      "Statement": [
        {
          "Effect": "Allow",
          "Principal": "*",
          "Action": "*",
          "Resource": "*"
        },
        {
          "Effect": "Deny",
          "Principal": "*",
          "Action": "*",
          "Resource": "*",
          "Condition": {
            "ForAllValues:NumericGreaterThan": {
              "aws:TagKeys": [
                10,
                11,
                12
              ]
            }
          }
        }
      ]
    }
  "#;

  let evaluator = compile_policy(policy);

  let req = input(r#"{"TagKeys": [13, 9]}"#);
  assert_eq!(evaluate(&evaluator, req), true);

  let req = input(r#"{"TagKeys": [13, 14, 15]}"#);
  assert_eq!(evaluate(&evaluator, req), false);
}

#[test]
fn for_any_values_not_commutative() {
  let policy = r#"
    {
      "Version": "2012-10-17",
      "Statement": [
        {
          "Effect": "Allow",
          "Principal": "*",
          "Action": "*",
          "Resource": "*"
        },
        {
          "Effect": "Deny",
          "Principal": "*",
          "Action": "*",
          "Resource": "*",
          "Condition": {
            "ForAnyValue:NumericGreaterThan": {
              "aws:TagKeys": [
                10,
                11,
                12
              ]
            }
          }
        }
      ]
    }
  "#;

  let evaluator = compile_policy(policy);

  let req = input(r#"{"TagKeys": [13, 9]}"#);
  assert_eq!(evaluate(&evaluator, req), false);

  let req = input(r#"{"TagKeys": [1, 2, 3]}"#);
  assert_eq!(evaluate(&evaluator, req), true);
}
