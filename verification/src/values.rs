//! The small value types of a policy: effects, one-or-many containers, scopes
//! and the values that a condition compares with.

use vstd::prelude::*;
use crate::parser::Error;

verus! {

/// What a statement does to a request that its rule matches.
#[derive(Copy, Clone, Debug, PartialEq, Eq, Structural)]
pub enum Effect {
    Allow,
    Deny,
}

impl Effect {
    /// The head of the rule that a statement with this effect becomes.
    pub open spec fn head(self) -> Seq<char> {
        match self {
            Effect::Allow => "permit"@,
            Effect::Deny => "deny"@,
        }
    }
}

/// A value that a policy may write either alone or as a list.
#[derive(Clone, Debug, PartialEq, Eq)]
pub enum Value<T> {
    One(T),
    Many(Vec<T>),
}

/// The mathematical content of a [`Value`].
pub enum ValueView<V> {
    One(V),
    Many(Seq<V>),
}

/// The views of the elements of `list`, in order.
pub open spec fn view_all<T: View>(list: Seq<T>) -> Seq<T::V> {
    Seq::new(list.len(), |i: int| list[i]@)
}

impl<T: View> View for Value<T> {
    type V = ValueView<T::V>;

    open spec fn view(&self) -> ValueView<T::V> {
        match self {
            Value::One(one) => ValueView::One(one@),
            Value::Many(list) => ValueView::Many(view_all(list@)),
        }
    }
}

/// A principal, action or resource element: either the listed values
/// (`Id`) or everything but the listed values (`Not`).
#[derive(Clone, Debug, PartialEq, Eq)]
pub enum Scope<T> {
    Id(Value<T>),
    Not(Value<T>),
}

/// The mathematical content of a [`Scope`].
pub enum ScopeView<V> {
    Id(ValueView<V>),
    Not(ValueView<V>),
}

impl<T: View> View for Scope<T> {
    type V = ScopeView<T::V>;

    open spec fn view(&self) -> ScopeView<T::V> {
        match self {
            Scope::Id(v) => ScopeView::Id(v@),
            Scope::Not(v) => ScopeView::Not(v@),
        }
    }
}

impl<V> ScopeView<V> {
    /// The listed values, whichever way the scope reads them.
    pub open spec fn values(self) -> ValueView<V> {
        match self {
            ScopeView::Id(v) => v,
            ScopeView::Not(v) => v,
        }
    }

    /// Whether the scope is everything but the listed values.
    pub open spec fn negated(self) -> bool {
        self is Not
    }
}

impl<T> Scope<T> {
    /// The listed values, whichever way the scope reads them.
    pub fn values(&self) -> (r: &Value<T>)
        ensures
            match *self {
                Scope::Id(v) => *r == v,
                Scope::Not(v) => *r == v,
            },
    {
        match self {
            Scope::Id(v) => v,
            Scope::Not(v) => v,
        }
    }

    /// Whether the scope is everything but the listed values.
    pub fn negated(&self) -> (r: bool)
        ensures
            r == (*self is Not),
    {
        match self {
            Scope::Id(_) => false,
            Scope::Not(_) => true,
        }
    }
}

/// Whether `f` can return the error `e` for some element of `list` after
/// it has returned a value for each element before it.
pub open spec fn fails_on<T, O, F: Fn(&T) -> Result<O, Error>>(f: F, list: Seq<T>, e: Error) -> bool {
    exists|before: Seq<O>|
        before.len() < list.len() && #[trigger] succeeds_on(f, list, before) && call_ensures(
            f,
            (&list[before.len() as int],),
            Err::<O, Error>(e),
        )
}

/// Whether `f` can return the values `out` for the first elements of `list`.
pub open spec fn succeeds_on<T, O, F: Fn(&T) -> Result<O, Error>>(
    f: F,
    list: Seq<T>,
    out: Seq<O>,
) -> bool {
    out.len() <= list.len() && forall|i: int|
        0 <= i < out.len() ==> call_ensures(f, (&list[i],), Ok::<O, Error>(#[trigger] out[i]))
}

impl<T> Value<T> {
    /// Applies `f` to the value, or to each value of the list in order.
    /// The first error ends the walk and is returned.
    pub fn map<F, O>(&self, f: F) -> (r: Result<Value<O>, Error>) where
        F: Fn(&T) -> Result<O, Error>,

        requires
            match *self {
                Value::One(one) => call_requires(f, (&one,)),
                Value::Many(list) => forall|i: int|
                    0 <= i < list@.len() ==> call_requires(f, (&list@[i],)),
            },
        ensures
            match *self {
                Value::One(one) => match r {
                    Ok(Value::One(out)) => call_ensures(f, (&one,), Ok::<O, Error>(out)),
                    Ok(Value::Many(_)) => false,
                    Err(e) => call_ensures(f, (&one,), Err::<O, Error>(e)),
                },
                Value::Many(list) => match r {
                    Ok(Value::Many(out)) => out@.len() == list@.len() && succeeds_on(
                        f,
                        list@,
                        out@,
                    ),
                    Ok(Value::One(_)) => false,
                    Err(e) => fails_on(f, list@, e),
                },
            },
    {
        match self {
            Value::One(one) => match f(one) {
                Ok(out) => Ok(Value::One(out)),
                Err(e) => Err(e),
            },
            Value::Many(list) => {
                let mut out: Vec<O> = Vec::with_capacity(list.len());
                let mut i: usize = 0;
                while i < list.len()
                    invariant
                        i <= list.len(),
                        *self == Value::Many(*list),
                        forall|j: int| 0 <= j < list@.len() ==> call_requires(f, (&list@[j],)),
                        out@.len() == i,
                        succeeds_on(f, list@, out@),
                    decreases list.len() - i,
                {
                    match f(&list[i]) {
                        Ok(o) => {
                            out.push(o);
                        },
                        Err(e) => {
                            assert(out@.len() == i && succeeds_on(f, list@, out@) && call_ensures(
                                f,
                                (&list@[i as int],),
                                Err::<O, Error>(e),
                            ));
                            return Err(e);
                        },
                    }
                    i += 1;
                }
                Ok(Value::Many(out))
            },
        }
    }
}

impl<T> std::ops::Deref for Scope<T> {
    type Target = Value<T>;

    fn deref(&self) -> (r: &Value<T>)
        ensures
            match *self {
                Scope::Id(v) => *r == v,
                Scope::Not(v) => *r == v,
            },
    {
        match self {
            Scope::Id(s) => s,
            Scope::Not(s) => s,
        }
    }
}

impl<T> From<Value<T>> for Scope<T> {
    fn from(value: Value<T>) -> (r: Self) {
        Scope::Id(value)
    }
}

impl<T> vstd::std_specs::convert::FromSpecImpl<Value<T>> for Scope<T> {
    open spec fn obeys_from_spec() -> bool {
        true
    }

    open spec fn from_spec(value: Value<T>) -> Self {
        Scope::Id(value)
    }
}

/// A value on the policy side of a condition, as the document wrote it.
/// A number with a fraction is kept as its text.
#[derive(Clone, Debug, Eq)]
pub enum ConditionValue {
    String(String),
    Integer(i64),
    Float(String),
    Bool(bool),
}

impl PartialEq for ConditionValue {
    /// Two values are equal where they are of the same kind and hold the same.
    fn eq(&self, other: &Self) -> (r: bool) {
        match (self, other) {
            (ConditionValue::String(a), ConditionValue::String(b)) => *a == *b,
            (ConditionValue::Integer(a), ConditionValue::Integer(b)) => *a == *b,
            (ConditionValue::Float(a), ConditionValue::Float(b)) => *a == *b,
            (ConditionValue::Bool(a), ConditionValue::Bool(b)) => *a == *b,
            _ => false,
        }
    }
}

impl vstd::std_specs::cmp::PartialEqSpecImpl for ConditionValue {
    open spec fn obeys_eq_spec() -> bool {
        true
    }

    open spec fn eq_spec(&self, other: &Self) -> bool {
        match (self, other) {
            (ConditionValue::String(a), ConditionValue::String(b)) => a@ == b@,
            (ConditionValue::Integer(a), ConditionValue::Integer(b)) => a == b,
            (ConditionValue::Float(a), ConditionValue::Float(b)) => a@ == b@,
            (ConditionValue::Bool(a), ConditionValue::Bool(b)) => a == b,
            _ => false,
        }
    }
}

/// The values of `results` where all are `Ok`, else the error that comes first.
pub open spec fn collect<T, E>(results: Seq<Result<T, E>>) -> Result<Seq<T>, E>
    decreases results.len(),
{
    if results.len() == 0 {
        Ok(Seq::empty())
    } else {
        match collect(results.drop_last()) {
            Err(e) => Err(e),
            Ok(values) => match results.last() {
                Ok(v) => Ok(values.push(v)),
                Err(e) => Err(e),
            },
        }
    }
}

/// What `collect` says of a sequence that is one result longer.
pub proof fn lemma_collect_step<T, E>(results: Seq<Result<T, E>>, i: int)
    requires
        0 <= i < results.len(),
    ensures
        collect(results.take(i + 1)) == match collect(results.take(i)) {
            Err(e) => Err(e),
            Ok(values) => match results[i] {
                Ok(v) => Ok(values.push(v)),
                Err(e) => Err(e),
            },
        },
{
    assert(results.take(i + 1).drop_last() =~= results.take(i));
}

/// Once a prefix has failed, the whole sequence fails with the same error.
pub proof fn lemma_collect_failed<T, E>(results: Seq<Result<T, E>>, i: int)
    requires
        0 <= i <= results.len(),
        collect(results.take(i)) is Err,
    ensures
        collect(results) == collect(results.take(i)),
    decreases results.len() - i,
{
    if i < results.len() {
        lemma_collect_step(results, i);
        lemma_collect_failed(results, i + 1);
    } else {
        assert(results.take(i) =~= results);
    }
}

/// Where `collect` succeeds, it kept every result, in order.
pub proof fn lemma_collect_ok<T, E>(results: Seq<Result<T, E>>)
    ensures
        match collect(results) {
            Ok(values) => values.len() == results.len() && forall|i: int|
                0 <= i < results.len() ==> results[i] == Ok::<T, E>(#[trigger] values[i]),
            Err(e) => exists|i: int| 0 <= i < results.len() && results[i] == Err::<T, E>(e),
        },
    decreases results.len(),
{
    if results.len() > 0 {
        lemma_collect_ok(results.drop_last());
        match collect(results.drop_last()) {
            Ok(values) => {
                match results.last() {
                    Ok(v) => {},
                    Err(e) => {
                        assert(results[results.len() - 1] == Err::<T, E>(e));
                    },
                }
            },
            Err(e) => {
                let i = choose|i: int|
                    0 <= i < results.drop_last().len() && results.drop_last()[i] == Err::<T, E>(e);
                assert(results[i] == Err::<T, E>(e));
            },
        }
    }
}

} // verus!
