//! Translation of a statement: its principal, action and resource become
//! the conjuncts of a rule, its conditions stay with the rule.

use vstd::prelude::*;
use crate::expression::Block;
use crate::expression::block_of;
use crate::expression::Comparator;
use crate::expression::Conditions;
use crate::expression::Expr;
use crate::expression::ExprView;
use crate::expression::literal;
use crate::expression::returns_expr;
use crate::expression::returns_exprs;
use crate::expression::views;
use crate::functions::Func;
use crate::functions::glob;
use crate::parser::Error;
use crate::parser::ErrorView;
use crate::text::contains_char;
use crate::text::same_text;
use crate::values::collect;
use crate::values::Effect;
use crate::values::lemma_collect_failed;
use crate::values::lemma_collect_step;
use crate::values::Scope;
use crate::values::ScopeView;
use crate::values::Value;
use crate::values::ValueView;
use crate::values::view_all;

verus! {

/// The three dimensions of a request that a statement constrains.
#[derive(Copy, Clone, Debug, PartialEq, Eq, Structural)]
pub enum ScopeType {
    Principal,
    Action,
    Resource,
}

impl ScopeType {
    /// The path under which the request holds this dimension.
    pub open spec fn path(self) -> Seq<char> {
        match self {
            ScopeType::Principal => "input.principal"@,
            ScopeType::Action => "input.action"@,
            ScopeType::Resource => "input.resource"@,
        }
    }

    /// The path under which the request holds this dimension.
    pub fn input_var(&self) -> (r: &'static str)
        ensures
            r@ == self.path(),
    {
        match self {
            ScopeType::Principal => "input.principal",
            ScopeType::Action => "input.action",
            ScopeType::Resource => "input.resource",
        }
    }
}

/// Whether the values leave the dimension open: the single value `*`, or
/// a list of nothing but `*`.
pub open spec fn unconstrained(values: ValueView<Seq<char>>) -> bool {
    match values {
        ValueView::One(one) => one == "*"@,
        ValueView::Many(list) => forall|i: int| 0 <= i < list.len() ==> #[trigger] list[i] == "*"@,
    }
}

/// Whether a value holds the wildcard `*`, so that it is a pattern to match
/// and not a text to equal.
pub open spec fn has_wildcard(values: ValueView<Seq<char>>) -> bool {
    match values {
        ValueView::One(one) => one.contains('*'),
        ValueView::Many(list) => exists|i: int|
            0 <= i < list.len() && (#[trigger] list[i]).contains('*'),
    }
}

/// The string literals for `list`, or the first error.
pub open spec fn literals(list: Seq<Seq<char>>) -> Result<Seq<ExprView>, ErrorView> {
    collect(Seq::new(list.len(), |i: int| literal(list[i])))
}

/// The conjunct for a single value: a pattern is matched against the
/// request's value, an exact value is compared with it.
pub open spec fn single(kind: ScopeType, negated: bool, wildcard: bool, pattern: ExprView) -> ExprView {
    let context = ExprView::Var(kind.path());
    if wildcard {
        if negated {
            ExprView::not(glob(pattern, context))
        } else {
            glob(pattern, context)
        }
    } else {
        ExprView::compare(
            if negated {
                Comparator::Ne
            } else {
                Comparator::Eq
            },
            context,
            pattern,
        )
    }
}

/// The conjunct for a list of values: some value has to equal or match the
/// request's value; in a negated scope, every value has to differ from it or
/// fail to match it.
pub open spec fn several(
    kind: ScopeType,
    negated: bool,
    wildcard: bool,
    patterns: Seq<ExprView>,
) -> ExprView {
    let context = ExprView::Var(kind.path());
    if negated {
        ExprView::every(
            ExprView::item(),
            ExprView::List(patterns),
            if wildcard {
                ExprView::not(glob(ExprView::item(), context))
            } else {
                ExprView::compare(Comparator::Ne, ExprView::item(), context)
            },
        )
    } else {
        let some = ExprView::any_in(ExprView::List(patterns));
        if wildcard {
            glob(some, context)
        } else {
            ExprView::compare(Comparator::Eq, some, context)
        }
    }
}

/// The conjunct for one dimension of a statement, `None` where the
/// dimension is left open; or the error of the first value whose
/// interpolation is refused.
pub open spec fn conjunct(kind: ScopeType, scope: ScopeView<Seq<char>>) -> Result<
    Option<ExprView>,
    ErrorView,
> {
    let values = scope.values();
    if unconstrained(values) {
        Ok(None)
    } else {
        match values {
            ValueView::One(one) => match literal(one) {
                Err(e) => Err(e),
                Ok(pattern) => Ok(
                    Some(single(kind, scope.negated(), has_wildcard(values), pattern)),
                ),
            },
            ValueView::Many(list) => match literals(list) {
                Err(e) => Err(e),
                Ok(patterns) => Ok(
                    Some(several(kind, scope.negated(), has_wildcard(values), patterns)),
                ),
            },
        }
    }
}

/// The conjuncts that are there, in order.
pub open spec fn present(conjuncts: Seq<Option<ExprView>>) -> Seq<ExprView>
    decreases conjuncts.len(),
{
    if conjuncts.len() == 0 {
        Seq::empty()
    } else {
        match conjuncts.last() {
            Some(e) => present(conjuncts.drop_last()).push(e),
            None => present(conjuncts.drop_last()),
        }
    }
}

/// A statement of a policy, ready to be translated.
#[derive(Debug, PartialEq, Eq)]
pub struct Statement {
    pub effect: Effect,
    pub principals: Scope<String>,
    pub actions: Scope<String>,
    pub resources: Scope<String>,
    pub conditions: Conditions,
}

/// The mathematical content of a [`Statement`].
pub struct StatementView {
    pub effect: Effect,
    pub principals: ScopeView<Seq<char>>,
    pub actions: ScopeView<Seq<char>>,
    pub resources: ScopeView<Seq<char>>,
    pub conditions: Block,
}

impl View for Statement {
    type V = StatementView;

    open spec fn view(&self) -> StatementView {
        StatementView {
            effect: self.effect,
            principals: self.principals@,
            actions: self.actions@,
            resources: self.resources@,
            conditions: block_of(self.conditions@),
        }
    }
}

impl StatementView {
    /// The rule for the statement: the conjuncts for principal, action and
    /// resource, in this order and as far as they constrain anything, with
    /// the statement's effect and conditions; or the error of the first
    /// dimension that cannot be translated.
    pub open spec fn rule(self) -> Result<ExprView, ErrorView> {
        match conjunct(ScopeType::Principal, self.principals) {
            Err(e) => Err(e),
            Ok(p) => match conjunct(ScopeType::Action, self.actions) {
                Err(e) => Err(e),
                Ok(a) => match conjunct(ScopeType::Resource, self.resources) {
                    Err(e) => Err(e),
                    Ok(r) => Ok(
                        ExprView::Statement(self.effect, present(seq![p, a, r]), self.conditions),
                    ),
                },
            },
        }
    }
}

/// Whether `s` is the single character `*`.
fn is_star(s: &str) -> (r: bool)
    ensures
        r == (s@ == "*"@),
{
    same_text(s, "*")
}

/// Whether the values leave the dimension open, see [`unconstrained`].
fn leaves_open(values: &Value<String>) -> (r: bool)
    ensures
        r == unconstrained(values@),
{
    match values {
        Value::One(one) => is_star(one.as_str()),
        Value::Many(list) => {
            let ghost texts = view_all(list@);
            let mut i: usize = 0;
            while i < list.len()
                invariant
                    i <= list.len(),
                    texts == view_all(list@),
                    values@ == ValueView::Many(texts),
                    forall|j: int| 0 <= j < i ==> #[trigger] texts[j] == "*"@,
                decreases list.len() - i,
            {
                assert(texts[i as int] == list@[i as int]@);
                if !is_star(list[i].as_str()) {
                    assert(0 <= i < texts.len() && texts[i as int] != "*"@);
                    assert(values@->Many_0 == texts);
                    return false;
                }
                i += 1;
            }
            true
        },
    }
}

/// Whether a value holds a wildcard, see [`has_wildcard`].
fn holds_wildcard(values: &Value<String>) -> (r: bool)
    ensures
        r == has_wildcard(values@),
{
    match values {
        Value::One(one) => contains_char(one.as_str(), '*'),
        Value::Many(list) => {
            let ghost texts = view_all(list@);
            let mut i: usize = 0;
            while i < list.len()
                invariant
                    i <= list.len(),
                    texts == view_all(list@),
                    values@ == ValueView::Many(texts),
                    forall|j: int| 0 <= j < i ==> !(#[trigger] texts[j]).contains('*'),
                decreases list.len() - i,
            {
                assert(texts[i as int] == list@[i as int]@);
                if contains_char(list[i].as_str(), '*') {
                    assert(0 <= i < texts.len() && texts[i as int].contains('*'));
                    assert(values@->Many_0 == texts);
                    return true;
                }
                i += 1;
            }
            false
        },
    }
}

/// The string literals for `list`, see [`literals`].
fn literals_of(list: &Vec<String>) -> (r: Result<Vec<Expr>, Error>)
    ensures
        returns_exprs(r, literals(view_all(list@))),
{
    let ghost texts = view_all(list@);
    let ghost results = Seq::new(texts.len(), |i: int| literal(texts[i]));
    let mut out: Vec<Expr> = Vec::with_capacity(list.len());
    let mut i: usize = 0;
    assert(results.take(0) =~= Seq::empty());
    assert(views(out@) =~= Seq::empty());
    while i < list.len()
        invariant
            i <= list.len(),
            texts == view_all(list@),
            results == Seq::new(texts.len(), |i: int| literal(texts[i])),
            collect(results.take(i as int)) == Ok::<Seq<ExprView>, ErrorView>(views(out@)),
        decreases list.len() - i,
    {
        let ghost before = views(out@);
        proof {
            lemma_collect_step(results, i as int);
            assert(texts[i as int] == list@[i as int]@);
        }
        match Expr::str(list[i].as_str()) {
            Ok(e) => {
                out.push(e);
                assert(views(out@) =~= before.push(e@));
            },
            Err(e) => {
                proof {
                    lemma_collect_failed(results, i + 1);
                }
                return Err(e);
            },
        }
        i += 1;
    }
    assert(results.take(list.len() as int) =~= results);
    Ok(out)
}

/// The conjunct for a single value, see [`single`].
fn single_conjunct(kind: ScopeType, negated: bool, wildcard: bool, pattern: Expr) -> (r: Expr)
    ensures
        r@ == single(kind, negated, wildcard, pattern@),
{
    let context = Expr::var(kind.input_var());
    if wildcard {
        let matched = Func::glob(pattern, context);
        if negated {
            Expr::neg(matched)
        } else {
            Expr::id(matched)
        }
    } else if negated {
        Expr::Ne(Box::new(context), Box::new(pattern))
    } else {
        Expr::Eq(Box::new(context), Box::new(pattern))
    }
}

/// The conjunct for a list of values, see [`several`].
fn list_conjunct(kind: ScopeType, negated: bool, wildcard: bool, patterns: Vec<Expr>) -> (r: Expr)
    ensures
        r@ == several(kind, negated, wildcard, views(patterns@)),
{
    let context = Expr::var(kind.input_var());
    if negated {
        let body = if wildcard {
            Expr::neg(Func::glob(Expr::item(), context))
        } else {
            Expr::Ne(Box::new(Expr::item()), Box::new(context))
        };
        assert(body@ == if wildcard {
            ExprView::not(glob(ExprView::item(), context@))
        } else {
            ExprView::compare(Comparator::Ne, ExprView::item(), context@)
        });
        Expr::Every(Box::new(Expr::item()), Box::new(Expr::list(patterns)), Box::new(body))
    } else {
        let some = Expr::any_in(Expr::list(patterns));
        if wildcard {
            Expr::id(Func::glob(some, context))
        } else {
            Expr::Eq(Box::new(some), Box::new(context))
        }
    }
}

/// The conjunct for one dimension of a statement, see [`conjunct`].
pub fn scope_conjunct(kind: ScopeType, scope: &Scope<String>) -> (r: Result<Option<Expr>, Error>)
    ensures
        match conjunct(kind, scope@) {
            Ok(c) => r matches Ok(x) && seen(x) == c,
            Err(e) => r matches Err(x) && x@ == e,
        },
{
    let negated = scope.negated();
    let values = scope.values();
    assert(values@ == scope@.values());
    if leaves_open(values) {
        return Ok(None);
    }
    let wildcard = holds_wildcard(values);
    match values {
        Value::One(one) => match Expr::str(one.as_str()) {
            Ok(pattern) => Ok(Some(single_conjunct(kind, negated, wildcard, pattern))),
            Err(e) => Err(e),
        },
        Value::Many(list) => match literals_of(list) {
            Ok(patterns) => Ok(Some(list_conjunct(kind, negated, wildcard, patterns))),
            Err(e) => Err(e),
        },
    }
}

/// The view of the conjunct, where there is one.
pub open spec fn seen(conjunct: Option<Expr>) -> Option<ExprView> {
    match conjunct {
        Some(e) => Some(e@),
        None => None,
    }
}

/// Adds the conjunct to the body, where there is one.
fn add_conjunct(
    exprs: &mut Vec<Expr>,
    conjunct: Option<Expr>,
    Ghost(earlier): Ghost<Seq<Option<ExprView>>>,
)
    requires
        views(old(exprs)@) == present(earlier),
    ensures
        views(final(exprs)@) == present(earlier.push(seen(conjunct))),
{
    let ghost before = views(exprs@);
    assert(earlier.push(seen(conjunct)).drop_last() =~= earlier);
    match conjunct {
        Some(e) => {
            exprs.push(e);
            assert(views(exprs@) =~= before.push(e@));
        },
        None => {},
    }
}

impl Statement {
    /// The rule for the statement, see [`StatementView::rule`].
    pub fn generate(self) -> (r: Result<Expr, Error>)
        ensures
            returns_expr(r, self@.rule()),
    {
        let mut exprs: Vec<Expr> = Vec::new();
        assert(views(exprs@) =~= present(Seq::empty()));
        let p = match scope_conjunct(ScopeType::Principal, &self.principals) {
            Err(e) => {
                return Err(e);
            },
            Ok(conjunct) => conjunct,
        };
        let ghost first = seq![seen(p)];
        assert(first =~= Seq::empty().push(seen(p)));
        add_conjunct(&mut exprs, p, Ghost(Seq::empty()));
        let a = match scope_conjunct(ScopeType::Action, &self.actions) {
            Err(e) => {
                return Err(e);
            },
            Ok(conjunct) => conjunct,
        };
        let ghost second = first.push(seen(a));
        add_conjunct(&mut exprs, a, Ghost(first));
        let r = match scope_conjunct(ScopeType::Resource, &self.resources) {
            Err(e) => {
                return Err(e);
            },
            Ok(conjunct) => conjunct,
        };
        let ghost third = second.push(seen(r));
        add_conjunct(&mut exprs, r, Ghost(second));
        proof {
            let cp = conjunct(ScopeType::Principal, self.principals@)->Ok_0;
            let ca = conjunct(ScopeType::Action, self.actions@)->Ok_0;
            let cr = conjunct(ScopeType::Resource, self.resources@)->Ok_0;
            assert(third =~= seq![cp, ca, cr]);
        }
        let rule = Expr::Statement(self.effect, exprs, self.conditions);
        proof {
            crate::expression::lemma_view_unfold(rule);
        }
        Ok(rule)
    }
}

/// A dimension gets no conjunct exactly where it is left open: where its
/// value is `*`, or every value of its list is.
pub proof fn lemma_open_scope_has_no_conjunct(kind: ScopeType, scope: ScopeView<Seq<char>>)
    ensures
        unconstrained(scope.values()) ==> conjunct(kind, scope) == Ok::<
            Option<ExprView>,
            ErrorView,
        >(None),
        conjunct(kind, scope) matches Ok(None) ==> unconstrained(scope.values()),
{
}

/// How many conjuncts there are.
pub open spec fn count_present(conjuncts: Seq<Option<ExprView>>) -> nat
    decreases conjuncts.len(),
{
    if conjuncts.len() == 0 {
        0
    } else {
        count_present(conjuncts.drop_last()) + if conjuncts.last() is Some {
            1nat
        } else {
            0nat
        }
    }
}

/// The conjuncts that are there are as many as were counted.
pub proof fn lemma_present_len(conjuncts: Seq<Option<ExprView>>)
    ensures
        present(conjuncts).len() == count_present(conjuncts),
    decreases conjuncts.len(),
{
    if conjuncts.len() > 0 {
        lemma_present_len(conjuncts.drop_last());
    }
}

/// The body of a rule holds one conjunct for each dimension that the
/// statement constrains, in the order principal, action, resource, and none
/// for a dimension that it leaves open.
pub proof fn lemma_body_skips_open_scopes(statement: StatementView)
    requires
        statement.rule() is Ok,
    ensures
        statement.rule() matches Ok(ExprView::Statement(effect, body, conditions)) && effect
            == statement.effect && conditions == statement.conditions && body.len() == (if unconstrained(
            statement.principals.values(),
        ) {
            0nat
        } else {
            1nat
        }) + (if unconstrained(statement.actions.values()) {
            0nat
        } else {
            1nat
        }) + (if unconstrained(statement.resources.values()) {
            0nat
        } else {
            1nat
        }),
        unconstrained(statement.principals.values()) && unconstrained(statement.actions.values())
            && unconstrained(statement.resources.values()) ==> statement.rule() == Ok::<
            ExprView,
            ErrorView,
        >(ExprView::Statement(statement.effect, Seq::empty(), statement.conditions)),
{
    let p = conjunct(ScopeType::Principal, statement.principals)->Ok_0;
    let a = conjunct(ScopeType::Action, statement.actions)->Ok_0;
    let r = conjunct(ScopeType::Resource, statement.resources)->Ok_0;
    lemma_open_scope_has_no_conjunct(ScopeType::Principal, statement.principals);
    lemma_open_scope_has_no_conjunct(ScopeType::Action, statement.actions);
    lemma_open_scope_has_no_conjunct(ScopeType::Resource, statement.resources);
    let all = seq![p, a, r];
    lemma_present_len(all);
    assert(all.drop_last() =~= seq![p, a]);
    assert(seq![p, a].drop_last() =~= seq![p]);
    assert(seq![p].drop_last() =~= Seq::empty());
    reveal_with_fuel(count_present, 4);
    if p is None && a is None && r is None {
        reveal_with_fuel(present, 4);
        assert(present(all) =~= Seq::empty());
    }
}

} // verus!
