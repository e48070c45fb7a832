//! The shape of an IAM policy document after JSON parsing: what the compiler
//! reads of a policy, as plain data.

use vstd::prelude::*;
use vstd::string::StringExecFns;
use crate::values::ConditionValue;
use crate::values::Effect;
use crate::values::Value;

verus! {

/// A name with an optional namespace in front, written `qualifier:value`.
#[derive(Clone, Debug, PartialEq, Eq)]
pub struct QString {
    pub qualifier: Option<String>,
    pub value: String,
}

impl QString {
    /// The written form: the qualifier and a colon, where there is one, then the value.
    pub open spec fn text(self) -> Seq<char> {
        match self.qualifier {
            Some(q) => q@ + ":"@ + self.value@,
            None => self.value@,
        }
    }

    /// The name `qualifier:value`.
    pub fn new(qualifier: String, value: String) -> (r: Self)
        ensures
            r.qualifier == Some(qualifier),
            r.value == value,
    {
        QString { qualifier: Some(qualifier), value }
    }

    /// The name `value`, without a qualifier.
    pub fn unqualified(value: String) -> (r: Self)
        ensures
            r.qualifier is None,
            r.value == value,
    {
        QString { qualifier: None, value }
    }

    /// The namespace in front of the name, if there is one.
    pub fn qualifier(&self) -> (r: &Option<String>)
        ensures
            *r == self.qualifier,
    {
        &self.qualifier
    }

    /// The name behind the qualifier.
    pub fn value(&self) -> (r: &String)
        ensures
            *r == self.value,
    {
        &self.value
    }

    /// The written form, see [`QString::text`].
    pub fn to_string(&self) -> (r: String)
        ensures
            r@ == self.text(),
    {
        let mut r = String::new();
        match &self.qualifier {
            Some(q) => {
                r.append(q.as_str());
                r.append(":");
            },
            None => {},
        }
        r.append(self.value.as_str());
        assert(r@ =~= self.text());
        r
    }
}

/// A container for an element that the document writes as one value or as a list.
#[derive(Clone, Debug, PartialEq, Eq)]
pub enum OneOrAll<T> {
    One(T),
    All(Vec<T>),
}

/// A container for an element that the document writes as the wildcard,
/// as one value or as a list.
#[derive(Clone, Debug, PartialEq, Eq)]
pub enum OneOrAny<T> {
    Any,
    One(T),
    AnyOf(Vec<T>),
}

/// The kinds of principal that a policy can name.
#[derive(Copy, Clone, Debug, PartialEq, Eq, Structural)]
pub enum PrincipalType {
    Everyone,
    AWS,
    Federated,
    Service,
    CanonicalUser,
}

/// The `Principal` or `NotPrincipal` element: the listed principals by kind.
/// A document names each kind at most once; a lookup takes the first entry
/// of a kind.
#[derive(Clone, Debug, PartialEq, Eq)]
pub enum Principal {
    Principal(Vec<(PrincipalType, OneOrAny<String>)>),
    NotPrincipal(Vec<(PrincipalType, OneOrAny<String>)>),
}

impl Principal {
    /// The listed principals, whichever way the element reads them.
    pub open spec fn entries(self) -> Seq<(PrincipalType, OneOrAny<String>)> {
        match self {
            Principal::Principal(entries) => entries@,
            Principal::NotPrincipal(entries) => entries@,
        }
    }

    /// Whether each kind of principal is named at most once, as in every
    /// element that was read from a document.
    pub open spec fn well_formed(self) -> bool {
        forall|i: int, j: int|
            0 <= i < j < self.entries().len() ==> (#[trigger] self.entries()[i]).0 != (
            #[trigger] self.entries()[j]).0
    }
}

/// The `Action` or `NotAction` element.
#[derive(Clone, Debug, PartialEq, Eq)]
pub enum Action {
    Action(OneOrAny<QString>),
    NotAction(OneOrAny<QString>),
}

/// The `Resource` or `NotResource` element.
#[derive(Clone, Debug, PartialEq, Eq)]
pub enum Resource {
    Resource(OneOrAny<String>),
    NotResource(OneOrAny<String>),
}

/// The set quantifier in front of a condition operator.
#[derive(Copy, Clone, Debug, PartialEq, Eq, Structural)]
pub enum ConditionOperatorQuantifier {
    ForAllValues,
    ForAnyValue,
}

/// The condition operators of the policy language, and `Other` for a name
/// that is none of them.
#[derive(Clone, Debug, PartialEq, Eq)]
pub enum GlobalConditionOperator {
    StringEquals,
    StringNotEquals,
    StringEqualsIgnoreCase,
    StringNotEqualsIgnoreCase,
    StringLike,
    StringNotLike,
    NumericEquals,
    NumericNotEquals,
    NumericLessThan,
    NumericLessThanEquals,
    NumericGreaterThan,
    NumericGreaterThanEquals,
    DateEquals,
    DateNotEquals,
    DateLessThan,
    DateLessThanEquals,
    DateGreaterThan,
    DateGreaterThanEquals,
    Bool,
    BinaryEquals,
    IpAddress,
    NotIpAddress,
    ArnEquals,
    ArnLike,
    ArnNotEquals,
    ArnNotLike,
    Null,
    Other(QString),
}

/// A condition operator key, taken apart: quantifier prefix, operator and
/// the `IfExists` suffix.
#[derive(Clone, Debug, PartialEq, Eq)]
pub struct ConditionOperator {
    pub quantifier: Option<ConditionOperatorQuantifier>,
    pub operator: GlobalConditionOperator,
    pub if_exists: bool,
}

impl ConditionOperator {
    /// The operator `base` without quantifier or suffix.
    pub fn new(base: GlobalConditionOperator) -> (r: Self)
        ensures
            r.quantifier is None,
            r.operator == base,
            !r.if_exists,
    {
        ConditionOperator { quantifier: None, operator: base, if_exists: false }
    }

    /// An operator that is none of the named ones.
    pub fn new_other(condition: QString) -> (r: Self)
        ensures
            r.quantifier is None,
            r.operator == GlobalConditionOperator::Other(condition),
            !r.if_exists,
    {
        ConditionOperator {
            quantifier: None,
            operator: GlobalConditionOperator::Other(condition),
            if_exists: false,
        }
    }

    /// The operator under the quantifier `ForAllValues`.
    pub fn for_all(self) -> (r: Self)
        ensures
            r.quantifier == Some(ConditionOperatorQuantifier::ForAllValues),
            r.operator == self.operator,
            r.if_exists == self.if_exists,
    {
        ConditionOperator {
            quantifier: Some(ConditionOperatorQuantifier::ForAllValues),
            operator: self.operator,
            if_exists: self.if_exists,
        }
    }

    /// The operator under the quantifier `ForAnyValue`.
    pub fn for_any(self) -> (r: Self)
        ensures
            r.quantifier == Some(ConditionOperatorQuantifier::ForAnyValue),
            r.operator == self.operator,
            r.if_exists == self.if_exists,
    {
        ConditionOperator {
            quantifier: Some(ConditionOperatorQuantifier::ForAnyValue),
            operator: self.operator,
            if_exists: self.if_exists,
        }
    }

    /// The operator with the suffix `IfExists`.
    pub fn if_exists(self) -> (r: Self)
        ensures
            r.quantifier == self.quantifier,
            r.operator == self.operator,
            r.if_exists,
    {
        ConditionOperator { quantifier: self.quantifier, operator: self.operator, if_exists: true }
    }
}

/// One attribute of a condition block with the values it is compared with.
pub type ConditionEntry = (QString, OneOrAll<ConditionValue>);

/// One statement of a policy document.
#[derive(Clone, Debug, PartialEq, Eq)]
pub struct StatementElement {
    pub effect: Effect,
    pub principal: Option<Principal>,
    pub action: Action,
    pub resource: Resource,
    /// The condition block in the order in which the document is read:
    /// each operator with its attributes.
    pub condition: Option<Vec<(ConditionOperator, Vec<ConditionEntry>)>>,
}

/// A policy document.
#[derive(Clone, Debug, PartialEq, Eq)]
pub struct PolicyDocument {
    pub statement: OneOrAll<StatementElement>,
}

impl<T> OneOrAll<T> {
    /// The same content as a [`Value`].
    pub open spec fn value(self) -> Value<T> {
        match self {
            OneOrAll::One(one) => Value::One(one),
            OneOrAll::All(list) => Value::Many(list),
        }
    }

    /// The elements, a single one as a list of one.
    pub open spec fn elements(self) -> Seq<T> {
        match self {
            OneOrAll::One(one) => seq![one],
            OneOrAll::All(list) => list@,
        }
    }

    /// The same content as a [`Value`].
    pub fn into_value(self) -> (r: Value<T>)
        ensures
            r == self.value(),
    {
        match self {
            OneOrAll::One(one) => Value::One(one),
            OneOrAll::All(list) => Value::Many(list),
        }
    }

    /// The elements, a single one as a list of one.
    pub fn into_vec(self) -> (r: Vec<T>)
        ensures
            r@ == self.elements(),
    {
        match self {
            OneOrAll::One(one) => vec![one],
            OneOrAll::All(list) => list,
        }
    }
}

} // verus!
