//! The expression tree that a policy is compiled to, and its mathematical view.

use vstd::prelude::*;
use vstd::string::StringExecFns;
use crate::conditions::build_condition;
use crate::conditions::conditions;
use crate::conditions::lemma_conditions_rule_free;
use crate::interpolation::interpolate;
use crate::interpolation::substitute_variables;
use crate::model::ConditionOperator;
use crate::model::QString;
use crate::parser::Error;
use crate::parser::ErrorView;
use crate::text::bool_text;
use crate::text::int_text;
use crate::text::join;
use crate::text::lemma_join_push;
use crate::text::lemma_lines_push;
use crate::text::lines;
use crate::text::push_int;
use crate::text::quoted;
use crate::values::collect;
use crate::values::ConditionValue;
use crate::values::Effect;
use crate::values::lemma_collect_failed;
use crate::values::lemma_collect_step;
use crate::values::Value;

verus! {

/// One attribute of a condition with the policy values it is compared with.
pub type CondPair = (QString, Value<ConditionValue>);

/// The condition block of a statement: each operator with its attributes, in order.
pub type Conditions = Vec<(ConditionOperator, Vec<CondPair>)>;

/// A condition block as a sequence of operators with their attributes.
pub type Block = Seq<(ConditionOperator, Seq<CondPair>)>;

/// The block that `conditions` holds.
pub open spec fn block_of(conditions: Seq<(ConditionOperator, Vec<CondPair>)>) -> Block {
    Seq::new(conditions.len(), |i: int| (conditions[i].0, conditions[i].1@))
}

/// An expression of the target language.
#[derive(Debug, PartialEq, Eq)]
pub enum Expr {
    /// A rule: its effect, the conjuncts of its body and the conditions that
    /// are lowered to further conjuncts when the rule is written out.
    Statement(Effect, Vec<Expr>, Conditions),
    Call(Call),
    Var(Var),
    List(Vec<Expr>),
    AnyIn(Box<Expr>),
    Bool(bool),
    Str(Str),
    Int(i64),
    Neg(Box<Expr>),
    Eq(Box<Expr>, Box<Expr>),
    Ne(Box<Expr>, Box<Expr>),
    Gt(Box<Expr>, Box<Expr>),
    Gte(Box<Expr>, Box<Expr>),
    Lt(Box<Expr>, Box<Expr>),
    Lte(Box<Expr>, Box<Expr>),
    Every(Box<Expr>, Box<Expr>, Box<Expr>),
}

/// A string literal: plain, or a format with one argument for each `%s`.
#[derive(Debug, PartialEq, Eq)]
pub enum Str {
    Plain(String),
    Template(String, Vec<Expr>),
}

/// A dotted identifier.
#[derive(Clone, Debug, PartialEq, Eq)]
pub struct Var(pub String);

/// A call of a builtin of the target language.
#[derive(Debug, PartialEq, Eq)]
pub struct Call(pub &'static str, pub Vec<Expr>);

/// The six comparisons of the target language.
pub enum Comparator {
    Eq,
    Ne,
    Gt,
    Gte,
    Lt,
    Lte,
}

/// The mathematical content of an [`Expr`].
#[verifier::ext_equal]
pub enum ExprView {
    Statement(Effect, Seq<ExprView>, Block),
    Call(Seq<char>, Seq<ExprView>),
    Var(Seq<char>),
    List(Seq<ExprView>),
    AnyIn(Box<ExprView>),
    Bool(bool),
    Str(StrView),
    Int(i64),
    Neg(Box<ExprView>),
    Compare(Comparator, Box<ExprView>, Box<ExprView>),
    Every(Box<ExprView>, Box<ExprView>, Box<ExprView>),
}

/// The mathematical content of a [`Str`].
#[verifier::ext_equal]
pub enum StrView {
    Plain(Seq<char>),
    Template(Seq<char>, Seq<ExprView>),
}

impl Expr {
    /// The content of the tree, with strings as character sequences and
    /// vectors as sequences.
    pub open spec fn model(&self) -> ExprView
        decreases self,
    {
        match self {
            Expr::Statement(effect, body, conditions) => ExprView::Statement(
                *effect,
                Seq::new(
                    body.len() as nat,
                    |i: int|
                        if 0 <= i < body.len() {
                            body[i].model()
                        } else {
                            arbitrary()
                        },
                ),
                block_of(conditions@),
            ),
            Expr::Call(call) => ExprView::Call(
                call.0@,
                Seq::new(
                    call.1.len() as nat,
                    |i: int|
                        if 0 <= i < call.1.len() {
                            call.1[i].model()
                        } else {
                            arbitrary()
                        },
                ),
            ),
            Expr::Var(var) => ExprView::Var(var.0@),
            Expr::List(items) => ExprView::List(
                Seq::new(
                    items.len() as nat,
                    |i: int|
                        if 0 <= i < items.len() {
                            items[i].model()
                        } else {
                            arbitrary()
                        },
                ),
            ),
            Expr::AnyIn(e) => ExprView::AnyIn(Box::new(e.model())),
            Expr::Bool(b) => ExprView::Bool(*b),
            Expr::Str(s) => ExprView::Str(
                match s {
                    Str::Plain(p) => StrView::Plain(p@),
                    Str::Template(format, vars) => StrView::Template(
                        format@,
                        Seq::new(
                            vars.len() as nat,
                            |i: int|
                                if 0 <= i < vars.len() {
                                    vars[i].model()
                                } else {
                                    arbitrary()
                                },
                        ),
                    ),
                },
            ),
            Expr::Int(i) => ExprView::Int(*i),
            Expr::Neg(e) => ExprView::Neg(Box::new(e.model())),
            Expr::Eq(l, r) => ExprView::Compare(
                Comparator::Eq,
                Box::new(l.model()),
                Box::new(r.model()),
            ),
            Expr::Ne(l, r) => ExprView::Compare(
                Comparator::Ne,
                Box::new(l.model()),
                Box::new(r.model()),
            ),
            Expr::Gt(l, r) => ExprView::Compare(
                Comparator::Gt,
                Box::new(l.model()),
                Box::new(r.model()),
            ),
            Expr::Gte(l, r) => ExprView::Compare(
                Comparator::Gte,
                Box::new(l.model()),
                Box::new(r.model()),
            ),
            Expr::Lt(l, r) => ExprView::Compare(
                Comparator::Lt,
                Box::new(l.model()),
                Box::new(r.model()),
            ),
            Expr::Lte(l, r) => ExprView::Compare(
                Comparator::Lte,
                Box::new(l.model()),
                Box::new(r.model()),
            ),
            Expr::Every(var, list, body) => ExprView::Every(
                Box::new(var.model()),
                Box::new(list.model()),
                Box::new(body.model()),
            ),
        }
    }
}

impl View for Expr {
    type V = ExprView;

    open spec fn view(&self) -> ExprView {
        self.model()
    }
}

/// The views of the expressions of `list`, in order.
pub open spec fn views(list: Seq<Expr>) -> Seq<ExprView> {
    Seq::new(list.len(), |i: int| list[i]@)
}

impl View for Str {
    type V = StrView;

    open spec fn view(&self) -> StrView {
        match self {
            Str::Plain(p) => StrView::Plain(p@),
            Str::Template(format, vars) => StrView::Template(format@, views(vars@)),
        }
    }
}

impl View for Var {
    type V = ExprView;

    open spec fn view(&self) -> ExprView {
        ExprView::Var(self.0@)
    }
}

impl View for Call {
    type V = ExprView;

    open spec fn view(&self) -> ExprView {
        ExprView::Call(self.0@, views(self.1@))
    }
}

/// What the model of a tree is in terms of the views of its children.
pub proof fn lemma_view_unfold(e: Expr)
    ensures
        e@ == match e {
            Expr::Statement(effect, body, conditions) => ExprView::Statement(
                effect,
                views(body@),
                block_of(conditions@),
            ),
            Expr::Call(call) => call@,
            Expr::Var(var) => var@,
            Expr::List(items) => ExprView::List(views(items@)),
            Expr::AnyIn(e) => ExprView::AnyIn(Box::new(e@)),
            Expr::Bool(b) => ExprView::Bool(b),
            Expr::Str(s) => ExprView::Str(s@),
            Expr::Int(i) => ExprView::Int(i),
            Expr::Neg(e) => ExprView::Neg(Box::new(e@)),
            Expr::Eq(l, r) => ExprView::Compare(Comparator::Eq, Box::new(l@), Box::new(r@)),
            Expr::Ne(l, r) => ExprView::Compare(Comparator::Ne, Box::new(l@), Box::new(r@)),
            Expr::Gt(l, r) => ExprView::Compare(Comparator::Gt, Box::new(l@), Box::new(r@)),
            Expr::Gte(l, r) => ExprView::Compare(Comparator::Gte, Box::new(l@), Box::new(r@)),
            Expr::Lt(l, r) => ExprView::Compare(Comparator::Lt, Box::new(l@), Box::new(r@)),
            Expr::Lte(l, r) => ExprView::Compare(Comparator::Lte, Box::new(l@), Box::new(r@)),
            Expr::Every(var, list, body) => ExprView::Every(
                Box::new(var@),
                Box::new(list@),
                Box::new(body@),
            ),
        },
{
    match e {
        Expr::Statement(effect, body, conditions) => {
            let b = e.model()->Statement_1;
            assert forall|i: int| 0 <= i < b.len() implies b[i] == views(body@)[i] by {
                assert(b[i] == body[i].model());
            }
            assert(b =~= views(body@));
        },
        Expr::Call(call) => {
            let b = e.model()->Call_1;
            assert forall|i: int| 0 <= i < b.len() implies b[i] == views(call.1@)[i] by {
                assert(b[i] == call.1[i].model());
            }
            assert(b =~= views(call.1@));
        },
        Expr::List(items) => {
            let b = e.model()->List_0;
            assert forall|i: int| 0 <= i < b.len() implies b[i] == views(items@)[i] by {
                assert(b[i] == items[i].model());
            }
            assert(b =~= views(items@));
        },
        Expr::Str(s) => {
            match s {
                Str::Plain(_) => {},
                Str::Template(format, vars) => {
                    let b = e.model()->Str_0->Template_1;
                    assert forall|i: int| 0 <= i < b.len() implies b[i] == views(vars@)[i] by {
                        assert(b[i] == vars[i].model());
                    }
                    assert(b =~= views(vars@));
                },
            }
        },
        _ => {},
    }
}

impl ExprView {
    /// Whether no rule stands anywhere in the tree: the expression is one
    /// that a rule body can hold.
    pub open spec fn rule_free(self) -> bool
        decreases self,
    {
        match self {
            ExprView::Statement(_, _, _) => false,
            ExprView::Call(_, args) => forall|i: int|
                0 <= i < args.len() ==> (#[trigger] args[i]).rule_free(),
            ExprView::Var(_) => true,
            ExprView::List(items) => forall|i: int|
                0 <= i < items.len() ==> (#[trigger] items[i]).rule_free(),
            ExprView::AnyIn(e) => e.rule_free(),
            ExprView::Bool(_) => true,
            ExprView::Str(StrView::Plain(_)) => true,
            ExprView::Str(StrView::Template(_, vars)) => forall|i: int|
                0 <= i < vars.len() ==> (#[trigger] vars[i]).rule_free(),
            ExprView::Int(_) => true,
            ExprView::Neg(e) => e.rule_free(),
            ExprView::Compare(_, l, r) => l.rule_free() && r.rule_free(),
            ExprView::Every(var, list, body) => var.rule_free() && list.rule_free()
                && body.rule_free(),
        }
    }

    /// The variable `item`, which an `every` binds.
    pub open spec fn item() -> ExprView {
        ExprView::Var("item"@)
    }

    /// The string literal `s`, taken as it stands.
    pub open spec fn plain(s: Seq<char>) -> ExprView {
        ExprView::Str(StrView::Plain(s))
    }

    /// Any element of `e`.
    pub open spec fn any_in(e: ExprView) -> ExprView {
        ExprView::AnyIn(Box::new(e))
    }

    /// The negation of `e`.
    pub open spec fn not(e: ExprView) -> ExprView {
        ExprView::Neg(Box::new(e))
    }

    /// The comparison of `l` with `r` by `op`.
    pub open spec fn compare(op: Comparator, l: ExprView, r: ExprView) -> ExprView {
        ExprView::Compare(op, Box::new(l), Box::new(r))
    }

    /// `body` for every `var` in `list`.
    pub open spec fn every(var: ExprView, list: ExprView, body: ExprView) -> ExprView {
        ExprView::Every(Box::new(var), Box::new(list), Box::new(body))
    }
}

/// Whether `r` is what `expected` asks for: the expression with that view,
/// or the error with that view.
pub open spec fn returns_expr(r: Result<Expr, Error>, expected: Result<ExprView, ErrorView>) -> bool {
    match expected {
        Ok(e) => r matches Ok(x) && x@ == e,
        Err(e) => r matches Err(x) && x@ == e,
    }
}

/// Whether `r` is what `expected` asks for: expressions with those views,
/// or the error with that view.
pub open spec fn returns_exprs(
    r: Result<Vec<Expr>, Error>,
    expected: Result<Seq<ExprView>, ErrorView>,
) -> bool {
    match expected {
        Ok(es) => r matches Ok(xs) && views(xs@) == es,
        Err(e) => r matches Err(x) && x@ == e,
    }
}

/// The string literal that `s` stands for once its `${...}` segments are
/// interpolated, or the error of the first segment that is refused.
pub open spec fn literal(s: Seq<char>) -> Result<ExprView, ErrorView> {
    match interpolate(s) {
        Ok(l) => Ok(ExprView::Str(l)),
        Err(e) => Err(ErrorView::InvalidStringInterpolation(e)),
    }
}

/// Whether every expression of `list` is free of rules.
pub open spec fn all_rule_free(list: Seq<ExprView>) -> bool {
    forall|i: int| 0 <= i < list.len() ==> (#[trigger] list[i]).rule_free()
}

impl Expr {
    /// A call of the builtin `function` with the arguments `args`.
    pub fn call(function: &'static str, args: Vec<Expr>) -> (r: Expr)
        ensures
            r == Expr::Call(Call(function, args)),
            r@ == ExprView::Call(function@, views(args@)),
    {
        let r = Expr::Call(Call(function, args));
        proof {
            lemma_view_unfold(r);
        }
        r
    }

    /// The variable with the dotted path `var`.
    pub fn var(var: &str) -> (r: Expr)
        ensures
            r@ == ExprView::Var(var@),
    {
        Expr::Var(Var(String::from_str(var)))
    }

    /// The expression itself: the positive form of a scope.
    pub fn id(expr: Expr) -> (r: Expr)
        ensures
            r == expr,
    {
        expr
    }

    /// The negation of `expr`.
    pub fn neg(expr: Expr) -> (r: Expr)
        ensures
            r == Expr::Neg(Box::new(expr)),
            r@ == ExprView::not(expr@),
    {
        Expr::Neg(Box::new(expr))
    }

    /// The list of the expressions `list`.
    pub fn list(list: Vec<Expr>) -> (r: Expr)
        ensures
            r == Expr::List(list),
            r@ == ExprView::List(views(list@)),
    {
        let r = Expr::List(list);
        proof {
            lemma_view_unfold(r);
        }
        r
    }

    /// The boolean literal `b`.
    pub fn bool(b: bool) -> (r: Result<Expr, Error>)
        ensures
            r == Ok::<Expr, Error>(Expr::Bool(b)),
    {
        Ok(Expr::Bool(b))
    }

    /// The integer literal `i`.
    pub fn integer(i: i64) -> (r: Result<Expr, Error>)
        ensures
            r == Ok::<Expr, Error>(Expr::Int(i)),
    {
        Ok(Expr::Int(i))
    }

    /// The string literal that `s` stands for, with its `${...}` segments
    /// interpolated.
    pub fn str(s: &str) -> (r: Result<Expr, Error>)
        ensures
            returns_expr(r, literal(s@)),
    {
        match substitute_variables(s) {
            Ok(literal) => {
                let r = Expr::Str(literal);
                proof {
                    lemma_view_unfold(r);
                }
                Ok(r)
            },
            Err(e) => Err(e),
        }
    }

    /// `every item in list { body }`, with the body that `f` makes of the
    /// variable `item`.
    pub fn every<F>(list: Vec<Expr>, f: F) -> (r: Result<Expr, Error>) where
        F: Fn(Expr) -> Result<Expr, Error>,

        requires
            forall|item: Expr| item@ == ExprView::item() ==> call_requires(f, (item,)),
        ensures
            match r {
                Ok(e) => exists|item: Expr, body: Expr|
                    #![trigger call_ensures(f, (item,), Ok::<Expr, Error>(body))]
                    item@ == ExprView::item() && call_ensures(f, (item,), Ok::<Expr, Error>(body))
                        && e@ == ExprView::every(
                        ExprView::item(),
                        ExprView::List(views(list@)),
                        body@,
                    ),
                Err(e) => exists|item: Expr|
                    item@ == ExprView::item() && #[trigger] call_ensures(
                        f,
                        (item,),
                        Err::<Expr, Error>(e),
                    ),
            },
    {
        let item = Expr::item();
        let body = match f(item) {
            Ok(body) => body,
            Err(e) => {
                return Err(e);
            },
        };
        let r = Expr::Every(Box::new(Expr::item()), Box::new(Expr::list(list)), Box::new(body));
        assert(call_ensures(f, (item,), Ok::<Expr, Error>(body)) && r@ == ExprView::every(
            ExprView::item(),
            ExprView::List(views(list@)),
            body@,
        ));
        Ok(r)
    }

    /// The variable `item`, which an `every` binds.
    pub fn item() -> (r: Expr)
        ensures
            r@ == ExprView::item(),
    {
        Expr::var("item")
    }

    /// The expression in a box, as the children of a tree are held.
    pub fn boxed(self) -> (r: Box<Expr>)
        ensures
            *r == self,
    {
        Box::new(self)
    }

    /// Any element of `expr`.
    pub fn any_in(expr: Expr) -> (r: Expr)
        ensures
            r == Expr::AnyIn(Box::new(expr)),
            r@ == ExprView::any_in(expr@),
    {
        Expr::AnyIn(Box::new(expr))
    }
}

impl Str {
    /// The template with the format `lit` and the arguments `args`.
    pub fn tmpl(lit: &str, args: Vec<Expr>) -> (r: Str)
        ensures
            r@ == StrView::Template(lit@, views(args@)),
    {
        Str::Template(String::from_str(lit), args)
    }
}

impl Comparator {
    /// The operator as the target language writes it.
    pub open spec fn symbol(self) -> Seq<char> {
        match self {
            Comparator::Eq => "=="@,
            Comparator::Ne => "!="@,
            Comparator::Gt => ">"@,
            Comparator::Gte => ">="@,
            Comparator::Lt => "<"@,
            Comparator::Lte => "<="@,
        }
    }
}

/// 0 for an expression without rules, 2 for one with a rule in it; a
/// condition block stands between them at 1. A rule is written with the
/// expressions that its conditions are lowered to, which are no parts of it
/// but hold no rules: this is what bounds the recursion.
pub open spec fn phase(e: ExprView) -> nat {
    if e.rule_free() {
        0
    } else {
        2
    }
}

/// 0 for expressions without rules, 2 where one of them holds a rule.
pub open spec fn phase_all(list: Seq<ExprView>) -> nat {
    if all_rule_free(list) {
        0
    } else {
        2
    }
}

/// The text of an expression in the target language, or the error of the
/// first condition, in the order of writing, that cannot be translated.
///
/// A rule is written as its head, `if {`, one line for each conjunct of its
/// body, one line for each expression that its conditions are lowered to,
/// and `}`.
pub open spec fn render(e: ExprView) -> Result<Seq<char>, ErrorView>
    decreases phase(e), e,
{
    match e {
        ExprView::Statement(effect, body, block) => match render_list(body) {
            Err(e) => Err(e),
            Ok(conjuncts) => match render_block(block) {
                Err(e) => Err(e),
                Ok(conditions) => Ok(
                    effect.head() + " if {\n"@ + lines(conjuncts) + conditions + "}\n"@,
                ),
            },
        },
        ExprView::Call(name, args) => match render_list(args) {
            Err(e) => Err(e),
            Ok(texts) => Ok(name + "("@ + join(texts, ", "@) + ")"@),
        },
        ExprView::Var(path) => Ok(path),
        ExprView::List(items) => match render_list(items) {
            Err(e) => Err(e),
            Ok(texts) => Ok("["@ + join(texts, ", "@) + "]"@),
        },
        ExprView::AnyIn(e) => match render(*e) {
            Err(e) => Err(e),
            Ok(text) => Ok(text + "[_]"@),
        },
        ExprView::Bool(b) => Ok(bool_text(b)),
        ExprView::Str(StrView::Plain(s)) => Ok(quoted(s)),
        ExprView::Str(StrView::Template(format, vars)) => match render_list(vars) {
            Err(e) => Err(e),
            Ok(texts) => Ok(
                "sprintf("@ + quoted(format) + ", "@ + "["@ + join(texts, ", "@) + "]"@ + ")"@,
            ),
        },
        ExprView::Int(i) => Ok(int_text(i as int)),
        ExprView::Neg(e) => match render(*e) {
            Err(e) => Err(e),
            Ok(text) => Ok("not "@ + text),
        },
        ExprView::Compare(op, l, r) => match render(*l) {
            Err(e) => Err(e),
            Ok(left) => match render(*r) {
                Err(e) => Err(e),
                Ok(right) => Ok(left + " "@ + op.symbol() + " "@ + right),
            },
        },
        ExprView::Every(var, list, body) => match render(*var) {
            Err(e) => Err(e),
            Ok(v) => match render(*list) {
                Err(e) => Err(e),
                Ok(l) => match render(*body) {
                    Err(e) => Err(e),
                    Ok(b) => Ok("every "@ + v + " in "@ + l + " { "@ + b + " }"@),
                },
            },
        },
    }
}

/// The texts of the expressions of `list`, or the first error.
pub open spec fn render_list(list: Seq<ExprView>) -> Result<Seq<Seq<char>>, ErrorView>
    decreases phase_all(list), list,
{
    if list.len() == 0 {
        Ok(Seq::empty())
    } else {
        match render_list(list.drop_last()) {
            Err(e) => Err(e),
            Ok(texts) => match render(list.last()) {
                Err(e) => Err(e),
                Ok(text) => Ok(texts.push(text)),
            },
        }
    }
}

/// The lines for a condition block: for each operator in turn, one line for
/// each expression that it is translated to; or the first error.
pub open spec fn render_block(block: Block) -> Result<
    Seq<char>,
    ErrorView,
>
    decreases 1nat, block,
    via render_block_decreases
{
    if block.len() == 0 {
        Ok(Seq::empty())
    } else {
        match render_block(block.drop_last()) {
            Err(e) => Err(e),
            Ok(before) => match conditions(block.last().0, block.last().1) {
                Err(e) => Err(e),
                Ok(exprs) => match render_list(exprs) {
                    Err(e) => Err(e),
                    Ok(texts) => Ok(before + lines(texts)),
                },
            },
        }
    }
}

#[via_fn]
proof fn render_block_decreases(block: Block) {
    if block.len() > 0 {
        lemma_conditions_rule_free(block.last().0, block.last().1);
    }
}

/// What `render_list` says of a list that is one expression longer.
pub proof fn lemma_render_list_step(list: Seq<ExprView>, i: int)
    requires
        0 <= i < list.len(),
    ensures
        render_list(list.take(i + 1)) == match render_list(list.take(i)) {
            Err(e) => Err(e),
            Ok(texts) => match render(list[i]) {
                Err(e) => Err(e),
                Ok(text) => Ok(texts.push(text)),
            },
        },
{
    assert(list.take(i + 1).drop_last() =~= list.take(i));
}

/// Once a prefix of a list has failed, the list fails with the same error.
pub proof fn lemma_render_list_failed(list: Seq<ExprView>, i: int)
    requires
        0 <= i <= list.len(),
        render_list(list.take(i)) is Err,
    ensures
        render_list(list) == render_list(list.take(i)),
    decreases list.len() - i,
{
    if i < list.len() {
        lemma_render_list_step(list, i);
        lemma_render_list_failed(list, i + 1);
    } else {
        assert(list.take(i) =~= list);
    }
}

/// What `render_block` says of a block that is one condition longer.
pub proof fn lemma_render_block_step(block: Block, i: int)
    requires
        0 <= i < block.len(),
    ensures
        render_block(block.take(i + 1)) == match render_block(block.take(i)) {
            Err(e) => Err(e),
            Ok(before) => match conditions(block[i].0, block[i].1) {
                Err(e) => Err(e),
                Ok(exprs) => match render_list(exprs) {
                    Err(e) => Err(e),
                    Ok(texts) => Ok(before + lines(texts)),
                },
            },
        },
{
    assert(block.take(i + 1).drop_last() =~= block.take(i));
}

/// Once a prefix of a block has failed, the block fails with the same error.
pub proof fn lemma_render_block_failed(block: Block, i: int)
    requires
        0 <= i <= block.len(),
        render_block(block.take(i)) is Err,
    ensures
        render_block(block) == render_block(block.take(i)),
    decreases block.len() - i,
{
    if i < block.len() {
        lemma_render_block_step(block, i);
        lemma_render_block_failed(block, i + 1);
    } else {
        assert(block.take(i) =~= block);
    }
}

/// An expression without rules always has a text: only a rule can fail to
/// be written, and only for its conditions.
pub proof fn lemma_rule_free_has_text(e: ExprView)
    requires
        e.rule_free(),
    ensures
        render(e) is Ok,
    decreases e,
{
    match e {
        ExprView::Statement(_, _, _) => {},
        ExprView::Call(_, args) => {
            lemma_rule_free_have_texts(args);
        },
        ExprView::List(items) => {
            lemma_rule_free_have_texts(items);
        },
        ExprView::Str(StrView::Template(_, vars)) => {
            lemma_rule_free_have_texts(vars);
        },
        ExprView::AnyIn(inner) => {
            lemma_rule_free_has_text(*inner);
        },
        ExprView::Neg(inner) => {
            lemma_rule_free_has_text(*inner);
        },
        ExprView::Compare(_, l, r) => {
            lemma_rule_free_has_text(*l);
            lemma_rule_free_has_text(*r);
        },
        ExprView::Every(var, list, body) => {
            lemma_rule_free_has_text(*var);
            lemma_rule_free_has_text(*list);
            lemma_rule_free_has_text(*body);
        },
        _ => {},
    }
}

/// Expressions without rules all have a text.
pub proof fn lemma_rule_free_have_texts(list: Seq<ExprView>)
    requires
        all_rule_free(list),
    ensures
        render_list(list) matches Ok(texts) && texts.len() == list.len(),
    decreases list,
{
    if list.len() > 0 {
        assert(all_rule_free(list.drop_last())) by {
            assert forall|i: int| 0 <= i < list.drop_last().len() implies (
            #[trigger] list.drop_last()[i]).rule_free() by {
                assert(list[i].rule_free());
            }
        }
        lemma_rule_free_have_texts(list.drop_last());
        assert(list.last() == list[list.len() - 1]);
        lemma_rule_free_has_text(list.last());
    }
}

/// The conditions of a rule have their lines wherever they can be
/// translated: writing what they are translated to cannot fail.
pub proof fn lemma_block_fails_in_translation_only(block: Block)
    ensures
        render_block(block) matches Err(e) ==> exists|i: int|
            0 <= i < block.len() && conditions(block[i].0, block[i].1) == Err::<
                Seq<ExprView>,
                ErrorView,
            >(e),
    decreases block.len(),
{
    if block.len() > 0 {
        lemma_block_fails_in_translation_only(block.drop_last());
        match render_block(block.drop_last()) {
            Err(e) => {
                let i = choose|i: int|
                    0 <= i < block.drop_last().len() && conditions(
                        block.drop_last()[i].0,
                        block.drop_last()[i].1,
                    ) == Err::<Seq<ExprView>, ErrorView>(e);
                assert(block[i] == block.drop_last()[i]);
            },
            Ok(_) => {
                match conditions(block.last().0, block.last().1) {
                    Ok(exprs) => {
                        lemma_conditions_rule_free(block.last().0, block.last().1);
                        lemma_rule_free_have_texts(exprs);
                    },
                    Err(e) => {
                        assert(block[block.len() - 1] == block.last());
                    },
                }
            },
        }
    }
}

/// Whether a writer did what `expected` asks for: appended the text, or
/// returned the error.
pub open spec fn wrote(
    r: Result<(), Error>,
    before: Seq<char>,
    after: Seq<char>,
    expected: Result<Seq<char>, ErrorView>,
) -> bool {
    match expected {
        Ok(text) => r is Ok && after == before + text,
        Err(e) => r matches Err(x) && x@ == e,
    }
}

/// Appends the text of `e` to `buf`, see [`render`].
pub fn write_expr(e: &Expr, buf: &mut String) -> (r: Result<(), Error>)
    ensures
        wrote(r, old(buf)@, final(buf)@, render(e@)),
    decreases phase(e@), e, 1nat,
{
    proof {
        lemma_view_unfold(*e);
    }
    match e {
        Expr::Statement(effect, body, block) => write_rule(e, effect, body, block, buf),
        Expr::Call(call) => write_bracketed(e, call.0, "(", &call.1, ")", buf),
        Expr::Var(var) => {
            buf.append(var.0.as_str());
            Ok(())
        },
        Expr::List(items) => write_bracketed(e, "", "[", items, "]", buf),
        Expr::AnyIn(inner) => {
            match write_expr(&**inner, buf) {
                Err(e) => {
                    return Err(e);
                },
                Ok(_) => {},
            }
            buf.append("[_]");
            proof {
                let text = render(inner@)->Ok_0;
                assert(buf@ =~= old(buf)@ + (text + "[_]"@));
            }
            Ok(())
        },
        Expr::Bool(b) => {
            buf.append(
                if *b {
                    "true"
                } else {
                    "false"
                },
            );
            Ok(())
        },
        Expr::Str(s) => {
            match s {
                Str::Plain(p) => {
                    buf.append("\"");
                    buf.append(p.as_str());
                    buf.append("\"");
                    assert(buf@ =~= old(buf)@ + quoted(p@));
                    Ok(())
                },
                Str::Template(format, vars) => write_template(e, format, vars, buf),
            }
        },
        Expr::Int(i) => {
            push_int(buf, *i);
            Ok(())
        },
        Expr::Neg(inner) => {
            buf.append("not ");
            match write_expr(&**inner, buf) {
                Err(e) => {
                    return Err(e);
                },
                Ok(_) => {},
            }
            proof {
                let text = render(inner@)->Ok_0;
                assert(buf@ =~= old(buf)@ + ("not "@ + text));
            }
            Ok(())
        },
        Expr::Eq(l, r) => write_comparison(e, &**l, "==", &**r, buf, Ghost(Comparator::Eq)),
        Expr::Ne(l, r) => write_comparison(e, &**l, "!=", &**r, buf, Ghost(Comparator::Ne)),
        Expr::Gt(l, r) => write_comparison(e, &**l, ">", &**r, buf, Ghost(Comparator::Gt)),
        Expr::Gte(l, r) => write_comparison(e, &**l, ">=", &**r, buf, Ghost(Comparator::Gte)),
        Expr::Lt(l, r) => write_comparison(e, &**l, "<", &**r, buf, Ghost(Comparator::Lt)),
        Expr::Lte(l, r) => write_comparison(e, &**l, "<=", &**r, buf, Ghost(Comparator::Lte)),
        Expr::Every(var, list, body) => write_every(e, &**var, &**list, &**body, buf),
    }
}

/// Appends the rule `e`: its head, its body and its conditions.
fn write_rule(
    e: &Expr,
    effect: &Effect,
    body: &Vec<Expr>,
    block: &Conditions,
    buf: &mut String,
) -> (r: Result<(), Error>)
    requires
        e@ == ExprView::Statement(*effect, views(body@), block_of(block@)),
        decreases_to!(e => body),
    ensures
        wrote(r, old(buf)@, final(buf)@, render(e@)),
    decreases phase(e@), e, 0nat,
{
    buf.append(
        match effect {
            Effect::Allow => "permit",
            Effect::Deny => "deny",
        },
    );
    buf.append(" if {\n");
    match write_lines(body, buf) {
        Err(e) => {
            return Err(e);
        },
        Ok(_) => {},
    }
    match write_block(block, buf) {
        Err(e) => {
            return Err(e);
        },
        Ok(_) => {},
    }
    buf.append("}\n");
    proof {
        let conjuncts = render_list(views(body@))->Ok_0;
        let conditions = render_block(block_of(block@))->Ok_0;
        assert(buf@ =~= old(buf)@ + (effect.head() + " if {\n"@ + lines(conjuncts) + conditions
            + "}\n"@));
    }
    Ok(())
}

/// Appends the call or the list `e`: the name, where there is one, and the
/// elements between brackets.
fn write_bracketed(
    e: &Expr,
    name: &str,
    open: &str,
    items: &Vec<Expr>,
    close: &str,
    buf: &mut String,
) -> (r: Result<(), Error>)
    requires
        (e@ == ExprView::Call(name@, views(items@)) && open@ == "("@ && close@ == ")"@) || (e@
            == ExprView::List(views(items@)) && name@ == ""@ && open@ == "["@ && close@ == "]"@),
        decreases_to!(e => items),
    ensures
        wrote(r, old(buf)@, final(buf)@, render(e@)),
    decreases phase(e@), e, 0nat,
{
    buf.append(name);
    buf.append(open);
    match write_joined(items, ", ", buf) {
        Err(e) => {
            return Err(e);
        },
        Ok(_) => {},
    }
    buf.append(close);
    proof {
        reveal_strlit("");
        let texts = render_list(views(items@))->Ok_0;
        assert(buf@ =~= old(buf)@ + (name@ + open@ + join(texts, ", "@) + close@));
        assert(""@ + "["@ =~= "["@);
    }
    Ok(())
}

/// Appends the template `e`: a call of `sprintf` with the format and the
/// list of its arguments.
fn write_template(e: &Expr, format: &String, vars: &Vec<Expr>, buf: &mut String) -> (r: Result<
    (),
    Error,
>)
    requires
        e@ == ExprView::Str(StrView::Template(format@, views(vars@))),
        decreases_to!(e => vars),
    ensures
        wrote(r, old(buf)@, final(buf)@, render(e@)),
    decreases phase(e@), e, 0nat,
{
    buf.append("sprintf(");
    buf.append("\"");
    buf.append(format.as_str());
    buf.append("\"");
    buf.append(", ");
    buf.append("[");
    match write_joined(vars, ", ", buf) {
        Err(e) => {
            return Err(e);
        },
        Ok(_) => {},
    }
    buf.append("]");
    buf.append(")");
    proof {
        let texts = render_list(views(vars@))->Ok_0;
        assert(buf@ =~= old(buf)@ + ("sprintf("@ + quoted(format@) + ", "@ + "["@ + join(
            texts,
            ", "@,
        ) + "]"@ + ")"@));
    }
    Ok(())
}

/// Appends the quantification `e`: `every var in list { body }`.
fn write_every(e: &Expr, var: &Expr, list: &Expr, body: &Expr, buf: &mut String) -> (r: Result<
    (),
    Error,
>)
    requires
        e@ == ExprView::every(var@, list@, body@),
        decreases_to!(e => var),
        decreases_to!(e => list),
        decreases_to!(e => body),
    ensures
        wrote(r, old(buf)@, final(buf)@, render(e@)),
    decreases phase(e@), e, 0nat,
{
    buf.append("every ");
    match write_expr(var, buf) {
        Err(e) => {
            return Err(e);
        },
        Ok(_) => {},
    }
    buf.append(" in ");
    match write_expr(list, buf) {
        Err(e) => {
            return Err(e);
        },
        Ok(_) => {},
    }
    buf.append(" { ");
    match write_expr(body, buf) {
        Err(e) => {
            return Err(e);
        },
        Ok(_) => {},
    }
    buf.append(" }");
    proof {
        let v = render(var@)->Ok_0;
        let l = render(list@)->Ok_0;
        let b = render(body@)->Ok_0;
        assert(buf@ =~= old(buf)@ + ("every "@ + v + " in "@ + l + " { "@ + b + " }"@));
    }
    Ok(())
}

/// Appends the comparison `e` of `l` and `r`: `l`, the operator and `r`.
fn write_comparison(
    e: &Expr,
    l: &Expr,
    symbol: &str,
    r: &Expr,
    buf: &mut String,
    Ghost(op): Ghost<Comparator>,
) -> (res: Result<(), Error>)
    requires
        symbol@ == op.symbol(),
        e@ == ExprView::compare(op, l@, r@),
        decreases_to!(e => l),
        decreases_to!(e => r),
    ensures
        wrote(res, old(buf)@, final(buf)@, render(e@)),
    decreases phase(e@), e, 0nat,
{
    match write_expr(l, buf) {
        Err(e) => {
            return Err(e);
        },
        Ok(_) => {},
    }
    buf.append(" ");
    buf.append(symbol);
    buf.append(" ");
    match write_expr(r, buf) {
        Err(e) => {
            return Err(e);
        },
        Ok(_) => {},
    }
    proof {
        let left = render(l@)->Ok_0;
        let right = render(r@)->Ok_0;
        assert(buf@ =~= old(buf)@ + (left + " "@ + op.symbol() + " "@ + right));
    }
    Ok(())
}

/// Appends the texts of `list`, with `sep` between them.
pub fn write_joined(list: &Vec<Expr>, sep: &str, buf: &mut String) -> (r: Result<(), Error>)
    ensures
        wrote(
            r,
            old(buf)@,
            final(buf)@,
            match render_list(views(list@)) {
                Ok(texts) => Ok(join(texts, sep@)),
                Err(e) => Err(e),
            },
        ),
    decreases phase_all(views(list@)), list,
{
    let ghost all = views(list@);
    let ghost mut texts: Seq<Seq<char>> = Seq::empty();
    assert(all.take(0) =~= Seq::empty());
    let mut i: usize = 0;
    while i < list.len()
        invariant
            i <= list.len(),
            all == views(list@),
            render_list(all.take(i as int)) == Ok::<Seq<Seq<char>>, ErrorView>(texts),
            texts.len() == i,
            buf@ == old(buf)@ + join(texts, sep@),
        decreases list.len() - i,
    {
        if i > 0 {
            buf.append(sep);
        }
        proof {
            lemma_render_list_step(all, i as int);
            assert(all[i as int] == list[i as int]@);
        }
        match write_expr(&list[i], buf) {
            Err(e) => {
                proof {
                    lemma_render_list_failed(all, i + 1);
                }
                return Err(e);
            },
            Ok(_) => {},
        }
        proof {
            let text = render(list[i as int]@)->Ok_0;
            lemma_join_push(texts, text, sep@);
            assert(buf@ =~= old(buf)@ + join(texts.push(text), sep@));
            texts = texts.push(text);
        }
        i += 1;
    }
    assert(all.take(list.len() as int) =~= all);
    Ok(())
}

/// Appends the texts of `list`, each on a line of its own.
pub fn write_lines(list: &Vec<Expr>, buf: &mut String) -> (r: Result<(), Error>)
    ensures
        wrote(
            r,
            old(buf)@,
            final(buf)@,
            match render_list(views(list@)) {
                Ok(texts) => Ok(lines(texts)),
                Err(e) => Err(e),
            },
        ),
    decreases phase_all(views(list@)), list,
{
    let ghost all = views(list@);
    let ghost mut texts: Seq<Seq<char>> = Seq::empty();
    assert(all.take(0) =~= Seq::empty());
    let mut i: usize = 0;
    while i < list.len()
        invariant
            i <= list.len(),
            all == views(list@),
            render_list(all.take(i as int)) == Ok::<Seq<Seq<char>>, ErrorView>(texts),
            buf@ == old(buf)@ + lines(texts),
        decreases list.len() - i,
    {
        buf.append("  ");
        proof {
            lemma_render_list_step(all, i as int);
            assert(all[i as int] == list[i as int]@);
        }
        match write_expr(&list[i], buf) {
            Err(e) => {
                proof {
                    lemma_render_list_failed(all, i + 1);
                }
                return Err(e);
            },
            Ok(_) => {},
        }
        buf.append("\n");
        proof {
            let text = render(list[i as int]@)->Ok_0;
            lemma_lines_push(texts, text);
            assert(buf@ =~= old(buf)@ + lines(texts.push(text)));
            texts = texts.push(text);
        }
        i += 1;
    }
    assert(all.take(list.len() as int) =~= all);
    Ok(())
}

/// Appends the lines for a condition block, see [`render_block`].
pub fn write_block(block: &Conditions, buf: &mut String) -> (r: Result<(), Error>)
    ensures
        wrote(r, old(buf)@, final(buf)@, render_block(block_of(block@))),
    decreases 1nat, block,
{
    let ghost all = block_of(block@);
    let ghost mut text: Seq<char> = Seq::empty();
    assert(all.take(0) =~= Seq::empty());
    let mut i: usize = 0;
    while i < block.len()
        invariant
            i <= block.len(),
            all == block_of(block@),
            render_block(all.take(i as int)) == Ok::<Seq<char>, ErrorView>(text),
            buf@ == old(buf)@ + text,
        decreases block.len() - i,
    {
        proof {
            lemma_render_block_step(all, i as int);
            lemma_conditions_rule_free(all[i as int].0, all[i as int].1);
        }
        let exprs = match build_condition(&block[i].0, block[i].1.as_slice()) {
            Ok(exprs) => exprs,
            Err(e) => {
                proof {
                    lemma_render_block_failed(all, i + 1);
                }
                return Err(e);
            },
        };
        match write_lines(&exprs, buf) {
            Err(e) => {
                proof {
                    lemma_render_block_failed(all, i + 1);
                }
                return Err(e);
            },
            Ok(_) => {},
        }
        proof {
            let texts = render_list(views(exprs@))->Ok_0;
            assert(buf@ =~= old(buf)@ + (text + lines(texts)));
            text = text + lines(texts);
        }
        i += 1;
    }
    assert(all.take(block.len() as int) =~= all);
    Ok(())
}

/// Whether `r` is what `expected` asks for: the string with that text, or
/// the error with that view.
pub open spec fn returns_text(r: Result<String, Error>, expected: Result<Seq<char>, ErrorView>) -> bool {
    match expected {
        Ok(text) => r matches Ok(s) && s@ == text,
        Err(e) => r matches Err(x) && x@ == e,
    }
}

/// Values that have a text in the target language.
pub trait Repr {
    /// The text of the value, or the error that stands in its way.
    spec fn text(&self) -> Result<Seq<char>, ErrorView>;

    /// The text of the value as a new string.
    fn repr(&self) -> (r: Result<String, Error>)
        ensures
            returns_text(r, self.text()),
    ;
}

impl Repr for Expr {
    open spec fn text(&self) -> Result<Seq<char>, ErrorView> {
        render(self@)
    }

    fn repr(&self) -> (r: Result<String, Error>) {
        let mut buf = String::new();
        match write_expr(self, &mut buf) {
            Ok(_) => {
                assert(buf@ =~= render(self@)->Ok_0);
                Ok(buf)
            },
            Err(e) => Err(e),
        }
    }
}

impl Repr for Str {
    open spec fn text(&self) -> Result<Seq<char>, ErrorView> {
        render(ExprView::Str(self@))
    }

    fn repr(&self) -> (r: Result<String, Error>) {
        let mut buf = String::new();
        match self {
            Str::Plain(p) => {
                buf.append("\"");
                buf.append(p.as_str());
                buf.append("\"");
                assert(buf@ =~= quoted(p@));
                Ok(buf)
            },
            Str::Template(format, vars) => {
                buf.append("sprintf(");
                buf.append("\"");
                buf.append(format.as_str());
                buf.append("\"");
                buf.append(", ");
                buf.append("[");
                match write_joined(vars, ", ", &mut buf) {
                    Err(e) => {
                        return Err(e);
                    },
                    Ok(_) => {},
                }
                buf.append("]");
                buf.append(")");
                proof {
                    let texts = render_list(views(vars@))->Ok_0;
                    assert(buf@ =~= "sprintf("@ + quoted(format@) + ", "@ + "["@ + join(
                        texts,
                        ", "@,
                    ) + "]"@ + ")"@);
                }
                Ok(buf)
            },
        }
    }
}

impl Repr for Var {
    open spec fn text(&self) -> Result<Seq<char>, ErrorView> {
        render(self@)
    }

    fn repr(&self) -> (r: Result<String, Error>) {
        Ok(self.0.clone())
    }
}

impl Repr for Call {
    open spec fn text(&self) -> Result<Seq<char>, ErrorView> {
        render(self@)
    }

    fn repr(&self) -> (r: Result<String, Error>) {
        let mut buf = String::new();
        buf.append(self.0);
        buf.append("(");
        match write_joined(&self.1, ", ", &mut buf) {
            Err(e) => {
                return Err(e);
            },
            Ok(_) => {},
        }
        buf.append(")");
        proof {
            let texts = render_list(views(self.1@))->Ok_0;
            assert(buf@ =~= self.0@ + "("@ + join(texts, ", "@) + ")"@);
        }
        Ok(buf)
    }
}

impl Repr for &str {
    open spec fn text(&self) -> Result<Seq<char>, ErrorView> {
        Ok(quoted(self@))
    }

    fn repr(&self) -> (r: Result<String, Error>) {
        let mut buf = String::new();
        buf.append("\"");
        buf.append(self);
        buf.append("\"");
        assert(buf@ =~= quoted(self@));
        Ok(buf)
    }
}

/// The texts of the elements of `list`, or the first error.
pub open spec fn texts<T: Repr>(list: Seq<T>) -> Result<Seq<Seq<char>>, ErrorView> {
    collect(Seq::new(list.len(), |i: int| list[i].text()))
}

/// The text of a list: its elements between brackets, with `, ` between them.
pub open spec fn list_text<T: Repr>(list: Seq<T>) -> Result<Seq<char>, ErrorView> {
    match texts(list) {
        Ok(ts) => Ok("["@ + join(ts, ", "@) + "]"@),
        Err(e) => Err(e),
    }
}

/// The text of a list, see [`list_text`].
pub fn repr_list<T: Repr>(list: &[T]) -> (r: Result<String, Error>)
    ensures
        returns_text(r, list_text(list@)),
{
    let ghost results = Seq::new(list@.len(), |i: int| list@[i].text());
    let ghost mut done: Seq<Seq<char>> = Seq::empty();
    let mut buf = String::new();
    buf.append("[");
    assert(results.take(0) =~= Seq::empty());
    let mut i: usize = 0;
    while i < list.len()
        invariant
            i <= list.len(),
            results == Seq::new(list@.len(), |i: int| list@[i].text()),
            collect(results.take(i as int)) == Ok::<Seq<Seq<char>>, ErrorView>(done),
            done.len() == i,
            buf@ == "["@ + join(done, ", "@),
        decreases list.len() - i,
    {
        proof {
            lemma_collect_step(results, i as int);
        }
        let text = match list[i].repr() {
            Ok(text) => text,
            Err(e) => {
                proof {
                    lemma_collect_failed(results, i + 1);
                }
                return Err(e);
            },
        };
        if i > 0 {
            buf.append(", ");
        }
        buf.append(text.as_str());
        proof {
            lemma_join_push(done, text@, ", "@);
            assert(buf@ =~= "["@ + join(done.push(text@), ", "@));
            done = done.push(text@);
        }
        i += 1;
    }
    assert(results.take(list.len() as int) =~= results);
    buf.append("]");
    Ok(buf)
}

impl<T: Repr> Repr for &[T] {
    open spec fn text(&self) -> Result<Seq<char>, ErrorView> {
        list_text(self@)
    }

    fn repr(&self) -> (r: Result<String, Error>) {
        repr_list(*self)
    }
}

impl<T: Repr> Repr for Value<T> {
    open spec fn text(&self) -> Result<Seq<char>, ErrorView> {
        match self {
            Value::One(one) => one.text(),
            Value::Many(list) => list_text(list@),
        }
    }

    fn repr(&self) -> (r: Result<String, Error>) {
        match self {
            Value::One(one) => one.repr(),
            Value::Many(list) => repr_list(list.as_slice()),
        }
    }
}

} // verus!
