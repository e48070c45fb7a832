//! Translation of condition blocks: one operator with its attributes and
//! policy values becomes one expression for each attribute.

use vstd::prelude::*;
use vstd::string::StringExecFns;
use crate::expression::all_rule_free;
use crate::expression::Comparator;
use crate::expression::CondPair;
use crate::expression::Expr;
use crate::expression::ExprView;
use crate::expression::literal;
use crate::expression::returns_expr;
use crate::expression::returns_exprs;
use crate::expression::views;
use crate::functions::cidr_contains;
use crate::functions::datetime;
use crate::functions::Func;
use crate::functions::glob;
use crate::functions::lower;
use crate::functions::to_array;
use crate::interpolation::lemma_interpolate_rule_free;
use crate::model::ConditionOperator;
use crate::model::ConditionOperatorQuantifier;
use crate::model::GlobalConditionOperator;
use crate::model::QString;
use crate::parser::Error;
use crate::parser::ErrorView;
use crate::text::bool_text;
use crate::text::chars_of;
use crate::text::int_text;
use crate::text::last_index;
use crate::text::lemma_last_index_found;
use crate::text::lemma_replace_absent;
use crate::text::lemma_replace_concat;
use crate::text::parse_integer;
use crate::text::parsed_integer;
use crate::text::push_int;
use crate::text::push_replaced;
use crate::text::quoted;
use crate::text::replace_char;
use crate::text::same_text;
use crate::values::collect;
use crate::values::ConditionValue;
use crate::values::lemma_collect_failed;
use crate::values::lemma_collect_ok;
use crate::values::lemma_collect_step;
use crate::values::Value;
use crate::values::ValueView;

verus! {

/// The text that `Debug` writes for the string `s`: `s` between double
/// quotes, with quotes, backslashes and unprintable characters escaped.
pub uninterp spec fn debug_text(s: Seq<char>) -> Seq<char>;

/// `<str as Debug>::fmt`, through `format!("{:?}", s)`: the text that it
/// writes depends on the characters of `s` alone.
#[verifier::external_body]
fn debug_string(s: &str) -> (r: String)
    ensures
        r@ == debug_text(s@),
{
    format!("{:?}", s)
}

/// The conversion that an operator applies to its policy values.
#[derive(Copy, Clone, Debug, PartialEq, Eq, Structural)]
pub enum Coercion {
    Bool,
    Str,
    Int,
}

impl GlobalConditionOperator {
    /// The conversion that the operator applies to its policy values;
    /// `None` for an operator that cannot be translated.
    pub open spec fn coercion(self) -> Option<Coercion> {
        match self {
            GlobalConditionOperator::Bool => Some(Coercion::Bool),
            GlobalConditionOperator::StringEquals
            | GlobalConditionOperator::StringNotEquals
            | GlobalConditionOperator::StringEqualsIgnoreCase
            | GlobalConditionOperator::StringNotEqualsIgnoreCase
            | GlobalConditionOperator::StringLike
            | GlobalConditionOperator::StringNotLike
            | GlobalConditionOperator::DateEquals
            | GlobalConditionOperator::DateNotEquals
            | GlobalConditionOperator::DateLessThan
            | GlobalConditionOperator::DateLessThanEquals
            | GlobalConditionOperator::DateGreaterThan
            | GlobalConditionOperator::DateGreaterThanEquals
            | GlobalConditionOperator::IpAddress
            | GlobalConditionOperator::NotIpAddress => Some(Coercion::Str),
            GlobalConditionOperator::NumericEquals
            | GlobalConditionOperator::NumericNotEquals
            | GlobalConditionOperator::NumericLessThan
            | GlobalConditionOperator::NumericLessThanEquals
            | GlobalConditionOperator::NumericGreaterThan
            | GlobalConditionOperator::NumericGreaterThanEquals => Some(Coercion::Int),
            _ => None,
        }
    }

    /// Whether the operator holds where its base relation does not.
    pub open spec fn negative(self) -> bool {
        match self {
            GlobalConditionOperator::StringNotEquals
            | GlobalConditionOperator::StringNotEqualsIgnoreCase
            | GlobalConditionOperator::NumericNotEquals
            | GlobalConditionOperator::StringNotLike
            | GlobalConditionOperator::NotIpAddress
            | GlobalConditionOperator::DateNotEquals => true,
            _ => false,
        }
    }

    /// The operator's relation between one policy value and one context
    /// value. Equalities and matches name the policy value first, orderings
    /// the context value. `Bool`, and an operator that cannot be translated,
    /// has no relation of its own and reads as equality.
    pub open spec fn relation(self, policy: ExprView, context: ExprView) -> ExprView {
        match self {
            GlobalConditionOperator::StringEquals | GlobalConditionOperator::NumericEquals =>
                ExprView::compare(Comparator::Eq, policy, context),
            GlobalConditionOperator::StringNotEquals | GlobalConditionOperator::NumericNotEquals =>
                ExprView::compare(Comparator::Ne, policy, context),
            GlobalConditionOperator::StringEqualsIgnoreCase => ExprView::compare(
                Comparator::Eq,
                lower(policy),
                lower(context),
            ),
            GlobalConditionOperator::StringNotEqualsIgnoreCase => ExprView::compare(
                Comparator::Ne,
                lower(policy),
                lower(context),
            ),
            GlobalConditionOperator::StringLike => glob(policy, context),
            GlobalConditionOperator::StringNotLike => ExprView::not(glob(policy, context)),
            GlobalConditionOperator::NumericLessThan => ExprView::compare(
                Comparator::Lt,
                context,
                policy,
            ),
            GlobalConditionOperator::NumericLessThanEquals => ExprView::compare(
                Comparator::Lte,
                context,
                policy,
            ),
            GlobalConditionOperator::NumericGreaterThan => ExprView::compare(
                Comparator::Gt,
                context,
                policy,
            ),
            GlobalConditionOperator::NumericGreaterThanEquals => ExprView::compare(
                Comparator::Gte,
                context,
                policy,
            ),
            GlobalConditionOperator::DateEquals => ExprView::compare(
                Comparator::Eq,
                datetime(policy),
                datetime(context),
            ),
            GlobalConditionOperator::DateNotEquals => ExprView::compare(
                Comparator::Ne,
                datetime(policy),
                datetime(context),
            ),
            GlobalConditionOperator::DateGreaterThan => ExprView::compare(
                Comparator::Gt,
                datetime(context),
                datetime(policy),
            ),
            GlobalConditionOperator::DateGreaterThanEquals => ExprView::compare(
                Comparator::Gte,
                datetime(context),
                datetime(policy),
            ),
            GlobalConditionOperator::DateLessThan => ExprView::compare(
                Comparator::Lt,
                datetime(context),
                datetime(policy),
            ),
            GlobalConditionOperator::DateLessThanEquals => ExprView::compare(
                Comparator::Lte,
                datetime(context),
                datetime(policy),
            ),
            GlobalConditionOperator::IpAddress => cidr_contains(policy, context),
            GlobalConditionOperator::NotIpAddress => ExprView::not(cidr_contains(policy, context)),
            _ => ExprView::compare(Comparator::Eq, context, policy),
        }
    }

    /// The name under which an error reports the operator.
    pub open spec fn name(self) -> Seq<char> {
        match self {
            GlobalConditionOperator::StringEquals => "StringEquals"@,
            GlobalConditionOperator::StringNotEquals => "StringNotEquals"@,
            GlobalConditionOperator::StringEqualsIgnoreCase => "StringEqualsIgnoreCase"@,
            GlobalConditionOperator::StringNotEqualsIgnoreCase => "StringNotEqualsIgnoreCase"@,
            GlobalConditionOperator::StringLike => "StringLike"@,
            GlobalConditionOperator::StringNotLike => "StringNotLike"@,
            GlobalConditionOperator::NumericEquals => "NumericEquals"@,
            GlobalConditionOperator::NumericNotEquals => "NumericNotEquals"@,
            GlobalConditionOperator::NumericLessThan => "NumericLessThan"@,
            GlobalConditionOperator::NumericLessThanEquals => "NumericLessThanEquals"@,
            GlobalConditionOperator::NumericGreaterThan => "NumericGreaterThan"@,
            GlobalConditionOperator::NumericGreaterThanEquals => "NumericGreaterThanEquals"@,
            GlobalConditionOperator::DateEquals => "DateEquals"@,
            GlobalConditionOperator::DateNotEquals => "DateNotEquals"@,
            GlobalConditionOperator::DateLessThan => "DateLessThan"@,
            GlobalConditionOperator::DateLessThanEquals => "DateLessThanEquals"@,
            GlobalConditionOperator::DateGreaterThan => "DateGreaterThan"@,
            GlobalConditionOperator::DateGreaterThanEquals => "DateGreaterThanEquals"@,
            GlobalConditionOperator::Bool => "Bool"@,
            GlobalConditionOperator::BinaryEquals => "BinaryEquals"@,
            GlobalConditionOperator::IpAddress => "IpAddress"@,
            GlobalConditionOperator::NotIpAddress => "NotIpAddress"@,
            GlobalConditionOperator::ArnEquals => "ArnEquals"@,
            GlobalConditionOperator::ArnLike => "ArnLike"@,
            GlobalConditionOperator::ArnNotEquals => "ArnNotEquals"@,
            GlobalConditionOperator::ArnNotLike => "ArnNotLike"@,
            GlobalConditionOperator::Null => "Null"@,
            GlobalConditionOperator::Other(q) => "Other(QString { qualifier: "@ + (match q.qualifier {
                Some(x) => "Some("@ + debug_text(x@) + ")"@,
                None => "None"@,
            }) + ", value: "@ + debug_text(q.value@) + " })"@,
        }
    }
}

/// The path under which the request holds the attribute: `input`, the
/// qualifier where there is one, and the value with its slashes as dots.
pub open spec fn resolved(attr: QString) -> Seq<char> {
    match attr.qualifier {
        Some(q) => "input."@ + q@ + "."@ + replace_char(attr.value@, '/', '.'),
        None => "input."@ + replace_char(attr.value@, '/', '.'),
    }
}

/// The variable that reads the attribute from the request.
pub open spec fn context(attr: QString) -> ExprView {
    ExprView::Var(resolved(attr))
}

/// How an error shows the value that it refused.
pub open spec fn shown(value: ConditionValue) -> Seq<char> {
    "ConditionValue("@ + (match value {
        ConditionValue::String(s) => "String("@ + debug_text(s@) + ")"@,
        ConditionValue::Integer(i) => "Integer("@ + int_text(i as int) + ")"@,
        ConditionValue::Float(t) => "Float("@ + t@ + ")"@,
        ConditionValue::Bool(b) => "Bool("@ + bool_text(b) + ")"@,
    }) + ")"@
}

/// A boolean literal for a boolean or for the strings `true` and `false`.
pub open spec fn as_bool(value: ConditionValue) -> Result<ExprView, ErrorView> {
    match value {
        ConditionValue::Bool(b) => Ok(ExprView::Bool(b)),
        ConditionValue::String(s) if s@ == "true"@ => Ok(ExprView::Bool(true)),
        ConditionValue::String(s) if s@ == "false"@ => Ok(ExprView::Bool(false)),
        _ => Err(ErrorView::InvalidType("bool"@, shown(value))),
    }
}

/// A string literal for a string, with its `${...}` segments interpolated.
pub open spec fn as_str(value: ConditionValue) -> Result<ExprView, ErrorView> {
    match value {
        ConditionValue::String(s) => literal(s@),
        _ => Err(ErrorView::InvalidType("string"@, shown(value))),
    }
}

/// An integer literal for an integer or for a string that is the text of one.
pub open spec fn as_int(value: ConditionValue) -> Result<ExprView, ErrorView> {
    match value {
        ConditionValue::Integer(i) => Ok(ExprView::Int(i)),
        ConditionValue::String(s) => match parsed_integer(s@) {
            Some(i) => Ok(ExprView::Int(i)),
            None => Err(ErrorView::InvalidType("integer"@, s@)),
        },
        _ => Err(ErrorView::InvalidType("integer"@, shown(value))),
    }
}

impl Coercion {
    /// The literal for one policy value.
    pub open spec fn literal(self, value: ConditionValue) -> Result<ExprView, ErrorView> {
        match self {
            Coercion::Bool => as_bool(value),
            Coercion::Str => as_str(value),
            Coercion::Int => as_int(value),
        }
    }

    /// The literals for a list of policy values, or the first error.
    pub open spec fn literals(self, values: Seq<ConditionValue>) -> Result<
        Seq<ExprView>,
        ErrorView,
    > {
        collect(Seq::new(values.len(), |i: int| self.literal(values[i])))
    }
}

/// The variable `val`, which the inner `every` of a negative quantified
/// condition binds.
pub open spec fn val() -> ExprView {
    ExprView::Var("val"@)
}

/// The shape of a condition under a set quantifier, for the context
/// attribute `context` and the policy values `policy`.
///
/// A negative operator holds where no context value stands in the base
/// relation with any policy value, whatever the quantifier. A positive one
/// holds, for `ForAnyValue`, where some context value is related to some
/// policy value, and for `ForAllValues`, where each context value is.
pub open spec fn quantified(
    quantifier: ConditionOperatorQuantifier,
    operator: GlobalConditionOperator,
    context: ExprView,
    policy: Seq<ExprView>,
) -> ExprView {
    if operator.negative() {
        ExprView::every(
            ExprView::item(),
            to_array(context),
            ExprView::every(
                val(),
                ExprView::List(policy),
                operator.relation(val(), ExprView::item()),
            ),
        )
    } else {
        match quantifier {
            ConditionOperatorQuantifier::ForAnyValue => operator.relation(
                ExprView::any_in(ExprView::List(policy)),
                ExprView::any_in(to_array(context)),
            ),
            ConditionOperatorQuantifier::ForAllValues => ExprView::every(
                ExprView::item(),
                to_array(context),
                operator.relation(ExprView::any_in(ExprView::List(policy)), ExprView::item()),
            ),
        }
    }
}

/// The expression for one attribute under `operator`, given the literals
/// for its policy values.
///
/// `Bool` compares the context value with the one literal, or some literal
/// of the list with the context value. Any other operator under a quantifier
/// has the shape that [`quantified`] gives, a single literal standing as a
/// list of one. Without a quantifier, a single literal stands in the
/// operator's relation with the context value; of a list, some literal does
/// for a positive operator, and every literal for a negative one.
pub open spec fn shaped(
    operator: ConditionOperator,
    context: ExprView,
    policy: ValueView<ExprView>,
) -> ExprView {
    if operator.operator is Bool {
        match policy {
            ValueView::One(p) => ExprView::compare(Comparator::Eq, context, p),
            ValueView::Many(ps) => ExprView::compare(
                Comparator::Eq,
                ExprView::any_in(ExprView::List(ps)),
                context,
            ),
        }
    } else {
        match operator.quantifier {
            Some(q) => quantified(
                q,
                operator.operator,
                context,
                match policy {
                    ValueView::One(p) => seq![p],
                    ValueView::Many(ps) => ps,
                },
            ),
            None => match policy {
                ValueView::One(p) => operator.operator.relation(p, context),
                ValueView::Many(ps) => if operator.operator.negative() {
                    ExprView::every(
                        ExprView::item(),
                        ExprView::List(ps),
                        operator.operator.relation(ExprView::item(), context),
                    )
                } else {
                    operator.operator.relation(ExprView::any_in(ExprView::List(ps)), context)
                },
            },
        }
    }
}

/// The expression for one attribute of a condition, or the error of the
/// first policy value that the operator's conversion refuses.
pub open spec fn condition(
    operator: ConditionOperator,
    coercion: Coercion,
    pair: CondPair,
) -> Result<ExprView, ErrorView> {
    match pair.1 {
        Value::One(v) => match coercion.literal(v) {
            Err(e) => Err(e),
            Ok(p) => Ok(shaped(operator, context(pair.0), ValueView::One(p))),
        },
        Value::Many(vs) => match coercion.literals(vs@) {
            Err(e) => Err(e),
            Ok(ps) => Ok(shaped(operator, context(pair.0), ValueView::Many(ps))),
        },
    }
}

/// The expressions for a condition: one for each attribute, in order. An
/// operator outside the translated ones is refused whatever the attributes;
/// otherwise the first attribute that fails decides the error.
pub open spec fn conditions(operator: ConditionOperator, pairs: Seq<CondPair>) -> Result<
    Seq<ExprView>,
    ErrorView,
> {
    match operator.operator.coercion() {
        None => Err(ErrorView::UnsupportedFunction(operator.operator.name())),
        Some(c) => collect(Seq::new(pairs.len(), |i: int| condition(operator, c, pairs[i]))),
    }
}

impl GlobalConditionOperator {
    /// The operator's relation between a policy value and a context value,
    /// see [`GlobalConditionOperator::relation`].
    pub fn relate(&self, policy: Expr, context: Expr) -> (r: Expr)
        ensures
            r@ == self.relation(policy@, context@),
    {
        match self {
            GlobalConditionOperator::StringEquals | GlobalConditionOperator::NumericEquals => Expr::Eq(
                Box::new(policy),
                Box::new(context),
            ),
            GlobalConditionOperator::StringNotEquals
            | GlobalConditionOperator::NumericNotEquals => Expr::Ne(
                Box::new(policy),
                Box::new(context),
            ),
            GlobalConditionOperator::StringEqualsIgnoreCase => Expr::Eq(
                Box::new(Func::lower(policy)),
                Box::new(Func::lower(context)),
            ),
            GlobalConditionOperator::StringNotEqualsIgnoreCase => Expr::Ne(
                Box::new(Func::lower(policy)),
                Box::new(Func::lower(context)),
            ),
            GlobalConditionOperator::StringLike => Func::glob(policy, context),
            GlobalConditionOperator::StringNotLike => Expr::neg(Func::glob(policy, context)),
            GlobalConditionOperator::NumericLessThan => Expr::Lt(
                Box::new(context),
                Box::new(policy),
            ),
            GlobalConditionOperator::NumericLessThanEquals => Expr::Lte(
                Box::new(context),
                Box::new(policy),
            ),
            GlobalConditionOperator::NumericGreaterThan => Expr::Gt(
                Box::new(context),
                Box::new(policy),
            ),
            GlobalConditionOperator::NumericGreaterThanEquals => Expr::Gte(
                Box::new(context),
                Box::new(policy),
            ),
            GlobalConditionOperator::DateEquals => Expr::Eq(
                Box::new(Func::datetime(policy)),
                Box::new(Func::datetime(context)),
            ),
            GlobalConditionOperator::DateNotEquals => Expr::Ne(
                Box::new(Func::datetime(policy)),
                Box::new(Func::datetime(context)),
            ),
            GlobalConditionOperator::DateGreaterThan => Expr::Gt(
                Box::new(Func::datetime(context)),
                Box::new(Func::datetime(policy)),
            ),
            GlobalConditionOperator::DateGreaterThanEquals => Expr::Gte(
                Box::new(Func::datetime(context)),
                Box::new(Func::datetime(policy)),
            ),
            GlobalConditionOperator::DateLessThan => Expr::Lt(
                Box::new(Func::datetime(context)),
                Box::new(Func::datetime(policy)),
            ),
            GlobalConditionOperator::DateLessThanEquals => Expr::Lte(
                Box::new(Func::datetime(context)),
                Box::new(Func::datetime(policy)),
            ),
            GlobalConditionOperator::IpAddress => Func::cidr_contains(policy, context),
            GlobalConditionOperator::NotIpAddress => Expr::neg(Func::cidr_contains(policy, context)),
            _ => Expr::Eq(Box::new(context), Box::new(policy)),
        }
    }

    /// The name under which an error reports the operator.
    pub fn to_string(&self) -> (r: String)
        ensures
            r@ == self.name(),
    {
        match self {
            GlobalConditionOperator::StringEquals => String::from_str("StringEquals"),
            GlobalConditionOperator::StringNotEquals => String::from_str("StringNotEquals"),
            GlobalConditionOperator::StringEqualsIgnoreCase => String::from_str(
                "StringEqualsIgnoreCase",
            ),
            GlobalConditionOperator::StringNotEqualsIgnoreCase => String::from_str(
                "StringNotEqualsIgnoreCase",
            ),
            GlobalConditionOperator::StringLike => String::from_str("StringLike"),
            GlobalConditionOperator::StringNotLike => String::from_str("StringNotLike"),
            GlobalConditionOperator::NumericEquals => String::from_str("NumericEquals"),
            GlobalConditionOperator::NumericNotEquals => String::from_str("NumericNotEquals"),
            GlobalConditionOperator::NumericLessThan => String::from_str("NumericLessThan"),
            GlobalConditionOperator::NumericLessThanEquals => String::from_str(
                "NumericLessThanEquals",
            ),
            GlobalConditionOperator::NumericGreaterThan => String::from_str("NumericGreaterThan"),
            GlobalConditionOperator::NumericGreaterThanEquals => String::from_str(
                "NumericGreaterThanEquals",
            ),
            GlobalConditionOperator::DateEquals => String::from_str("DateEquals"),
            GlobalConditionOperator::DateNotEquals => String::from_str("DateNotEquals"),
            GlobalConditionOperator::DateLessThan => String::from_str("DateLessThan"),
            GlobalConditionOperator::DateLessThanEquals => String::from_str("DateLessThanEquals"),
            GlobalConditionOperator::DateGreaterThan => String::from_str("DateGreaterThan"),
            GlobalConditionOperator::DateGreaterThanEquals => String::from_str(
                "DateGreaterThanEquals",
            ),
            GlobalConditionOperator::Bool => String::from_str("Bool"),
            GlobalConditionOperator::BinaryEquals => String::from_str("BinaryEquals"),
            GlobalConditionOperator::IpAddress => String::from_str("IpAddress"),
            GlobalConditionOperator::NotIpAddress => String::from_str("NotIpAddress"),
            GlobalConditionOperator::ArnEquals => String::from_str("ArnEquals"),
            GlobalConditionOperator::ArnLike => String::from_str("ArnLike"),
            GlobalConditionOperator::ArnNotEquals => String::from_str("ArnNotEquals"),
            GlobalConditionOperator::ArnNotLike => String::from_str("ArnNotLike"),
            GlobalConditionOperator::Null => String::from_str("Null"),
            GlobalConditionOperator::Other(q) => {
                let mut r = String::from_str("Other(QString { qualifier: ");
                match &q.qualifier {
                    Some(x) => {
                        r.append("Some(");
                        r.append(debug_string(x.as_str()).as_str());
                        r.append(")");
                    },
                    None => {
                        r.append("None");
                    },
                }
                r.append(", value: ");
                r.append(debug_string(q.value.as_str()).as_str());
                r.append(" })");
                assert(r@ =~= self.name());
                r
            },
        }
    }

    /// Whether policy values are read as booleans, strings or integers;
    /// `None` for an operator that cannot be translated.
    pub fn conversion(&self) -> (r: Option<Coercion>)
        ensures
            r == self.coercion(),
    {
        match self {
            GlobalConditionOperator::Bool => Some(Coercion::Bool),
            GlobalConditionOperator::StringEquals
            | GlobalConditionOperator::StringNotEquals
            | GlobalConditionOperator::StringEqualsIgnoreCase
            | GlobalConditionOperator::StringNotEqualsIgnoreCase
            | GlobalConditionOperator::StringLike
            | GlobalConditionOperator::StringNotLike
            | GlobalConditionOperator::DateEquals
            | GlobalConditionOperator::DateNotEquals
            | GlobalConditionOperator::DateLessThan
            | GlobalConditionOperator::DateLessThanEquals
            | GlobalConditionOperator::DateGreaterThan
            | GlobalConditionOperator::DateGreaterThanEquals
            | GlobalConditionOperator::IpAddress
            | GlobalConditionOperator::NotIpAddress => Some(Coercion::Str),
            GlobalConditionOperator::NumericEquals
            | GlobalConditionOperator::NumericNotEquals
            | GlobalConditionOperator::NumericLessThan
            | GlobalConditionOperator::NumericLessThanEquals
            | GlobalConditionOperator::NumericGreaterThan
            | GlobalConditionOperator::NumericGreaterThanEquals => Some(Coercion::Int),
            _ => None,
        }
    }
}

impl ConditionOperator {
    /// Whether the operator holds where its base relation does not.
    pub fn is_neg(&self) -> (r: bool)
        ensures
            r == self.operator.negative(),
    {
        match self.operator {
            GlobalConditionOperator::StringNotEquals
            | GlobalConditionOperator::StringNotEqualsIgnoreCase
            | GlobalConditionOperator::NumericNotEquals
            | GlobalConditionOperator::StringNotLike
            | GlobalConditionOperator::NotIpAddress
            | GlobalConditionOperator::DateNotEquals => true,
            _ => false,
        }
    }

    /// The condition under the operator's set quantifier, see [`quantified`].
    fn apply(&self, ctxvalue: Expr, polvalues: Vec<Expr>) -> (r: Expr)
        requires
            self.quantifier is Some,
        ensures
            r@ == quantified(self.quantifier->0, self.operator, ctxvalue@, views(polvalues@)),
    {
        if self.is_neg() {
            let inner = Expr::Every(
                Box::new(Expr::var("val")),
                Box::new(Expr::list(polvalues)),
                Box::new(self.operator.relate(Expr::var("val"), Expr::item())),
            );
            assert(inner@ == ExprView::every(
                val(),
                ExprView::List(views(polvalues@)),
                self.operator.relation(val(), ExprView::item()),
            ));
            Expr::Every(
                Box::new(Expr::item()),
                Box::new(Func::to_array(ctxvalue)),
                Box::new(inner),
            )
        } else {
            match self.quantifier {
                Some(ConditionOperatorQuantifier::ForAnyValue) => self.operator.relate(
                    Expr::any_in(Expr::list(polvalues)),
                    Expr::any_in(Func::to_array(ctxvalue)),
                ),
                _ => Expr::Every(
                    Box::new(Expr::item()),
                    Box::new(Func::to_array(ctxvalue)),
                    Box::new(
                        self.operator.relate(Expr::any_in(Expr::list(polvalues)), Expr::item()),
                    ),
                ),
            }
        }
    }
}

/// How an error shows the value that it refused, see [`shown`].
fn show(value: &ConditionValue) -> (r: String)
    ensures
        r@ == shown(*value),
{
    let mut r = String::from_str("ConditionValue(");
    match value {
        ConditionValue::String(s) => {
            r.append("String(");
            r.append(debug_string(s.as_str()).as_str());
        },
        ConditionValue::Integer(i) => {
            r.append("Integer(");
            push_int(&mut r, *i);
        },
        ConditionValue::Float(t) => {
            r.append("Float(");
            r.append(t.as_str());
        },
        ConditionValue::Bool(b) => {
            r.append("Bool(");
            r.append(
                if *b {
                    "true"
                } else {
                    "false"
                },
            );
        },
    }
    r.append(")");
    r.append(")");
    assert(r@ =~= shown(*value));
    r
}

/// A boolean literal for a policy value, see [`as_bool`].
pub fn to_bool(s: &ConditionValue) -> (r: Result<Expr, Error>)
    ensures
        returns_expr(r, as_bool(*s)),
{
    match s {
        ConditionValue::Bool(b) => Expr::bool(*b),
        ConditionValue::String(t) => {
            if same_text(t.as_str(), "true") {
                Expr::bool(true)
            } else if same_text(t.as_str(), "false") {
                Expr::bool(false)
            } else {
                Err(Error::InvalidType("bool", show(s)))
            }
        },
        _ => Err(Error::InvalidType("bool", show(s))),
    }
}

/// A string literal for a policy value, see [`as_str`].
pub fn to_str(s: &ConditionValue) -> (r: Result<Expr, Error>)
    ensures
        returns_expr(r, as_str(*s)),
{
    match s {
        ConditionValue::String(t) => Expr::str(t.as_str()),
        _ => Err(Error::InvalidType("string", show(s))),
    }
}

/// An integer literal for a policy value, see [`as_int`].
pub fn to_int(s: &ConditionValue) -> (r: Result<Expr, Error>)
    ensures
        returns_expr(r, as_int(*s)),
{
    match s {
        ConditionValue::Integer(i) => Expr::integer(*i),
        ConditionValue::String(t) => match parse_integer(t.as_str()) {
            Some(i) => Expr::integer(i),
            None => Err(Error::InvalidType("integer", t.clone())),
        },
        _ => Err(Error::InvalidType("integer", show(s))),
    }
}

/// The variable that reads an attribute from the request, see [`resolved`].
pub fn resolve(var: &QString) -> (r: Result<Expr, Error>)
    ensures
        returns_expr(r, Ok(context(*var))),
{
    let mut path = String::from_str("input.");
    match &var.qualifier {
        Some(q) => {
            path.append(q.as_str());
            path.append(".");
        },
        None => {},
    }
    let value = chars_of(var.value.as_str());
    push_replaced(&mut path, &value, '/', '.');
    assert(path@ =~= resolved(*var));
    Ok(Expr::var(path.as_str()))
}

impl Coercion {
    /// The literal for one policy value, see [`Coercion::literal`].
    pub fn convert(&self, value: &ConditionValue) -> (r: Result<Expr, Error>)
        ensures
            returns_expr(r, self.literal(*value)),
    {
        match self {
            Coercion::Bool => to_bool(value),
            Coercion::Str => to_str(value),
            Coercion::Int => to_int(value),
        }
    }

    /// The literals for a list of policy values, see [`Coercion::literals`].
    pub fn convert_all(&self, values: &Vec<ConditionValue>) -> (r: Result<Vec<Expr>, Error>)
        ensures
            returns_exprs(r, self.literals(values@)),
    {
        let ghost results = Seq::new(values@.len(), |i: int| self.literal(values@[i]));
        let mut out: Vec<Expr> = Vec::with_capacity(values.len());
        let mut i: usize = 0;
        assert(results.take(0) =~= Seq::empty());
        assert(views(out@) =~= Seq::empty());
        while i < values.len()
            invariant
                i <= values.len(),
                results == Seq::new(values@.len(), |i: int| self.literal(values@[i])),
                collect(results.take(i as int)) == Ok::<Seq<ExprView>, ErrorView>(views(out@)),
            decreases values.len() - i,
        {
            let ghost before = views(out@);
            proof {
                lemma_collect_step(results, i as int);
            }
            match self.convert(&values[i]) {
                Ok(e) => {
                    out.push(e);
                    assert(views(out@) =~= before.push(e@));
                },
                Err(e) => {
                    proof {
                        lemma_collect_failed(results, i + 1);
                    }
                    return Err(e);
                },
            }
            i += 1;
        }
        assert(results.take(values.len() as int) =~= results);
        Ok(out)
    }
}

/// The expression for one attribute of a condition, see [`condition`].
fn build_one(operator: &ConditionOperator, coercion: &Coercion, pair: &CondPair) -> (r: Result<
    Expr,
    Error,
>)
    requires
        operator.operator.coercion() == Some(*coercion),
    ensures
        returns_expr(r, condition(*operator, *coercion, *pair)),
{
    let ctxvalue = match resolve(&pair.0) {
        Ok(e) => e,
        Err(e) => {
            return Err(e);
        },
    };
    let is_bool = match coercion {
        Coercion::Bool => true,
        _ => false,
    };
    match &pair.1 {
        Value::One(value) => {
            let polvalue = match coercion.convert(value) {
                Ok(e) => e,
                Err(e) => {
                    return Err(e);
                },
            };
            if is_bool {
                Ok(Expr::Eq(Box::new(ctxvalue), Box::new(polvalue)))
            } else if operator.quantifier.is_some() {
                let polvalues = vec![polvalue];
                assert(views(polvalues@) =~= seq![polvalue@]);
                Ok(operator.apply(ctxvalue, polvalues))
            } else {
                Ok(operator.operator.relate(polvalue, ctxvalue))
            }
        },
        Value::Many(values) => {
            let polvalues = match coercion.convert_all(values) {
                Ok(es) => es,
                Err(e) => {
                    return Err(e);
                },
            };
            if is_bool {
                Ok(Expr::Eq(Box::new(Expr::any_in(Expr::list(polvalues))), Box::new(ctxvalue)))
            } else if operator.quantifier.is_some() {
                Ok(operator.apply(ctxvalue, polvalues))
            } else if operator.is_neg() {
                Ok(
                    Expr::Every(
                        Box::new(Expr::item()),
                        Box::new(Expr::list(polvalues)),
                        Box::new(operator.operator.relate(Expr::item(), ctxvalue)),
                    ),
                )
            } else {
                Ok(operator.operator.relate(Expr::any_in(Expr::list(polvalues)), ctxvalue))
            }
        },
    }
}

/// The expressions for a condition: one for each attribute, in order, or
/// the first error. See [`conditions`].
pub fn compare(operator: &ConditionOperator, condition: &[CondPair]) -> (r: Result<
    Vec<Expr>,
    Error,
>)
    ensures
        returns_exprs(r, conditions(*operator, condition@)),
{
    let coercion = match operator.operator.conversion() {
        Some(c) => c,
        None => {
            return Err(Error::UnsupportedFunction(operator.operator.to_string()));
        },
    };
    let ghost results = Seq::new(
        condition@.len(),
        |i: int| self::condition(*operator, coercion, condition@[i]),
    );
    let mut out: Vec<Expr> = Vec::new();
    let mut i: usize = 0;
    assert(results.take(0) =~= Seq::empty());
    assert(views(out@) =~= Seq::empty());
    while i < condition.len()
        invariant
            i <= condition.len(),
            operator.operator.coercion() == Some(coercion),
            results == Seq::new(
                condition@.len(),
                |i: int| self::condition(*operator, coercion, condition@[i]),
            ),
            collect(results.take(i as int)) == Ok::<Seq<ExprView>, ErrorView>(views(out@)),
        decreases condition.len() - i,
    {
        let ghost before = views(out@);
        proof {
            lemma_collect_step(results, i as int);
        }
        match build_one(operator, &coercion, &condition[i]) {
            Ok(e) => {
                out.push(e);
                assert(views(out@) =~= before.push(e@));
            },
            Err(e) => {
                proof {
                    lemma_collect_failed(results, i + 1);
                }
                return Err(e);
            },
        }
        i += 1;
    }
    assert(results.take(condition.len() as int) =~= results);
    Ok(out)
}

/// Translates one condition: `operator` with the attributes and policy
/// values in `condition`. See [`conditions`].
pub fn build_condition(operator: &ConditionOperator, condition: &[CondPair]) -> (r: Result<
    Vec<Expr>,
    Error,
>)
    ensures
        returns_exprs(r, conditions(*operator, condition@)),
{
    compare(operator, condition)
}

/// The literal for a policy value holds no rule.
pub proof fn lemma_literal_rule_free(coercion: Coercion, value: ConditionValue)
    ensures
        coercion.literal(value) matches Ok(e) ==> e.rule_free(),
{
    match value {
        ConditionValue::String(s) => {
            lemma_interpolate_rule_free(s@);
        },
        _ => {},
    }
}

/// The operator's relation between expressions without rules holds no rule.
pub proof fn lemma_relation_rule_free(
    operator: GlobalConditionOperator,
    policy: ExprView,
    context: ExprView,
)
    requires
        policy.rule_free(),
        context.rule_free(),
    ensures
        operator.relation(policy, context).rule_free(),
{
    reveal_with_fuel(ExprView::rule_free, 4);
}

/// The sequence to iterate over for an expression without rules holds no rule.
pub proof fn lemma_to_array_rule_free(expr: ExprView)
    requires
        expr.rule_free(),
    ensures
        to_array(expr).rule_free(),
{
    reveal_with_fuel(ExprView::rule_free, 4);
}

/// The expression for an attribute holds no rule where the literals for
/// its policy values hold none.
pub proof fn lemma_shaped_rule_free(
    operator: ConditionOperator,
    context: ExprView,
    policy: ValueView<ExprView>,
)
    requires
        context.rule_free(),
        match policy {
            ValueView::One(p) => p.rule_free(),
            ValueView::Many(ps) => all_rule_free(ps),
        },
    ensures
        shaped(operator, context, policy).rule_free(),
{
    reveal_with_fuel(ExprView::rule_free, 3);
    let list = match policy {
        ValueView::One(p) => seq![p],
        ValueView::Many(ps) => ps,
    };
    assert(ExprView::List(list).rule_free());
    let some = ExprView::any_in(ExprView::List(list));
    lemma_to_array_rule_free(context);
    lemma_relation_rule_free(operator.operator, val(), ExprView::item());
    lemma_relation_rule_free(operator.operator, some, ExprView::any_in(to_array(context)));
    lemma_relation_rule_free(operator.operator, some, ExprView::item());
    lemma_relation_rule_free(operator.operator, some, context);
    lemma_relation_rule_free(operator.operator, ExprView::item(), context);
    match policy {
        ValueView::One(p) => {
            lemma_relation_rule_free(operator.operator, p, context);
        },
        ValueView::Many(ps) => {},
    }
}

/// The expressions that a condition is translated to hold no rule.
pub proof fn lemma_conditions_rule_free(operator: ConditionOperator, pairs: Seq<CondPair>)
    ensures
        conditions(operator, pairs) matches Ok(es) ==> all_rule_free(es),
{
    match operator.operator.coercion() {
        None => {},
        Some(c) => {
            let results = Seq::new(pairs.len(), |i: int| condition(operator, c, pairs[i]));
            lemma_collect_ok(results);
            match collect(results) {
                Ok(es) => {
                    assert forall|i: int| 0 <= i < es.len() implies (#[trigger] es[i]).rule_free() by {
                        assert(results[i] == Ok::<ExprView, ErrorView>(es[i]));
                        let pair = pairs[i];
                        match pair.1 {
                            Value::One(v) => {
                                lemma_literal_rule_free(c, v);
                                lemma_shaped_rule_free(
                                    operator,
                                    context(pair.0),
                                    ValueView::One(c.literal(v)->Ok_0),
                                );
                            },
                            Value::Many(vs) => {
                                let literals = Seq::new(vs@.len(), |k: int| c.literal(vs@[k]));
                                lemma_collect_ok(literals);
                                let ps = c.literals(vs@)->Ok_0;
                                assert forall|k: int| 0 <= k < ps.len() implies (
                                #[trigger] ps[k]).rule_free() by {
                                    assert(literals[k] == Ok::<ExprView, ErrorView>(ps[k]));
                                    lemma_literal_rule_free(c, vs@[k]);
                                }
                                lemma_shaped_rule_free(
                                    operator,
                                    context(pair.0),
                                    ValueView::Many(ps),
                                );
                            },
                        }
                    }
                },
                Err(_) => {},
            }
        },
    }
}

/// A condition is translated to exactly one expression for each attribute.
pub proof fn lemma_one_expression_each(operator: ConditionOperator, pairs: Seq<CondPair>)
    ensures
        conditions(operator, pairs) matches Ok(es) ==> es.len() == pairs.len(),
{
    match operator.operator.coercion() {
        None => {},
        Some(c) => {
            lemma_collect_ok(Seq::new(pairs.len(), |i: int| condition(operator, c, pairs[i])));
        },
    }
}

/// The policy values of a condition as the list that a quantifier ranges over.
pub open spec fn policy_list(policy: ValueView<ExprView>) -> ExprView {
    ExprView::List(
        match policy {
            ValueView::One(p) => seq![p],
            ValueView::Many(ps) => ps,
        },
    )
}

/// Under `ForAnyValue`, a positive operator asks that some policy value
/// stands in the operator's relation with some value of the context
/// attribute: one relation between an element of the policy list and an
/// element of the attribute read as a sequence.
pub proof fn lemma_for_any_value(
    operator: ConditionOperator,
    context: ExprView,
    policy: ValueView<ExprView>,
)
    requires
        operator.quantifier == Some(ConditionOperatorQuantifier::ForAnyValue),
        !(operator.operator is Bool),
        !operator.operator.negative(),
    ensures
        shaped(operator, context, policy) == operator.operator.relation(
            ExprView::any_in(policy_list(policy)),
            ExprView::any_in(to_array(context)),
        ),
{
}

/// Under `ForAllValues`, a positive operator asks of every value of the
/// context attribute that some policy value stands in the operator's
/// relation with it.
pub proof fn lemma_for_all_values(
    operator: ConditionOperator,
    context: ExprView,
    policy: ValueView<ExprView>,
)
    requires
        operator.quantifier == Some(ConditionOperatorQuantifier::ForAllValues),
        !(operator.operator is Bool),
        !operator.operator.negative(),
    ensures
        shaped(operator, context, policy) == ExprView::every(
            ExprView::item(),
            to_array(context),
            operator.operator.relation(ExprView::any_in(policy_list(policy)), ExprView::item()),
        ),
{
}

/// A negative operator has the same shape under both quantifiers: of every
/// value of the context attribute and every policy value it asks that the
/// two stand in the operator's relation, which negates its base.
pub proof fn lemma_negative_quantifiers_agree(
    any: ConditionOperator,
    all: ConditionOperator,
    context: ExprView,
    policy: ValueView<ExprView>,
)
    requires
        any.quantifier == Some(ConditionOperatorQuantifier::ForAnyValue),
        all.quantifier == Some(ConditionOperatorQuantifier::ForAllValues),
        any.operator == all.operator,
        any.operator.negative(),
    ensures
        shaped(any, context, policy) == shaped(all, context, policy),
        shaped(any, context, policy) == ExprView::every(
            ExprView::item(),
            to_array(context),
            ExprView::every(
                val(),
                policy_list(policy),
                any.operator.relation(val(), ExprView::item()),
            ),
        ),
{
}

/// The attribute of a condition is read from the request through
/// `to_array(object.get(object, "key", []))`, with the attribute's path
/// split at its last dot: a path under `input` always has one.
pub proof fn lemma_context_is_looked_up(attr: QString)
    ensures
        last_index(resolved(attr), '.', resolved(attr).len() as int) matches Some(dot) && 0 <= dot
            < resolved(attr).len() && to_array(context(attr)) == ExprView::Call(
            "to_array"@,
            seq![
                ExprView::Call(
                    "object.get"@,
                    seq![
                        ExprView::Var(resolved(attr).subrange(0, dot)),
                        ExprView::Var(
                            quoted(resolved(attr).subrange(dot + 1, resolved(attr).len() as int)),
                        ),
                        ExprView::List(Seq::empty()),
                    ],
                ),
            ],
        ),
{
    let path = resolved(attr);
    reveal_strlit("input.");
    assert(path[5] == '.');
    lemma_last_index_found(path, '.', path.len() as int);
}

/// A qualified attribute `q:name` is read from `input.q.name`.
pub proof fn lemma_qualified_path(qualifier: String, name: String)
    requires
        !name@.contains('/'),
    ensures
        resolved(QString { qualifier: Some(qualifier), value: name }) == "input."@ + qualifier@
            + "."@ + name@,
{
    lemma_replace_absent(name@, '/', '.');
}

/// A qualified attribute `q:a/b` is read from `input.q.a.b`.
pub proof fn lemma_qualified_nested_path(qualifier: String, value: String, a: Seq<char>, b: Seq<char>)
    requires
        value@ == a + "/"@ + b,
        !a.contains('/'),
        !b.contains('/'),
    ensures
        resolved(QString { qualifier: Some(qualifier), value }) == "input."@ + qualifier@ + "."@
            + a + "."@ + b,
{
    reveal_strlit("/");
    reveal_strlit(".");
    lemma_replace_absent(a, '/', '.');
    lemma_replace_absent(b, '/', '.');
    lemma_replace_concat(a + "/"@, b, '/', '.');
    lemma_replace_concat(a, "/"@, '/', '.');
    assert(replace_char("/"@, '/', '.') =~= "."@);
    assert("input."@ + qualifier@ + "."@ + (a + "."@ + b) =~= "input."@ + qualifier@ + "."@ + a
        + "."@ + b);
}

/// An attribute without a qualifier is read from `input.name`.
pub proof fn lemma_unqualified_path(name: String)
    requires
        !name@.contains('/'),
    ensures
        resolved(QString { qualifier: None, value: name }) == "input."@ + name@,
{
    lemma_replace_absent(name@, '/', '.');
}

} // verus!
