//! Policies: the error type of the compiler, the compiled policy and its text.

use vstd::prelude::*;
use vstd::string::StringExecFns;
use crate::expression::Block;
use crate::expression::block_of;
use crate::expression::Conditions;
use crate::expression::CondPair;
use crate::expression::Expr;
use crate::expression::ExprView;
use crate::expression::render_list;
use crate::expression::returns_expr;
use crate::expression::views;
use crate::expression::write_joined;
use crate::interpolation::SubstitutionError;
use crate::interpolation::SubstitutionErrorView;
use crate::model::Action;
use crate::model::ConditionEntry;
use crate::model::ConditionOperator;
use crate::model::OneOrAny;
use crate::model::PolicyDocument;
use crate::model::Principal;
use crate::model::PrincipalType;
use crate::model::QString;
use crate::model::Resource;
use crate::model::StatementElement;
use crate::statement::Statement;
use crate::statement::StatementView;
use crate::text::join;
use crate::values::collect;
use crate::values::Effect;
use crate::values::lemma_collect_failed;
use crate::values::lemma_collect_step;
use crate::values::Scope;
use crate::values::ScopeView;
use crate::values::Value;
use crate::values::ValueView;
use crate::values::view_all;

verus! {

/// Everything that can go wrong while a policy is compiled or evaluated.
///
/// `GenericError` carries the message of a failure of the evaluation engine;
/// `JsonError` and `PolicyError` carry the text of a failure to read a
/// document, and `FmtError` stands for a failure to write text.
#[derive(Debug)]
pub enum Error {
    GenericError(String),
    UnsupportedPrincipalType,
    UnsupportedWildcard,
    UnsupportedNegation,
    InvalidType(&'static str, String),
    UnsupportedFunction(String),
    InvalidStringInterpolation(SubstitutionError),
    JsonError(String),
    PolicyError(String),
    FmtError,
}

/// The mathematical content of an [`Error`].
pub enum ErrorView {
    GenericError(Seq<char>),
    UnsupportedPrincipalType,
    UnsupportedWildcard,
    UnsupportedNegation,
    InvalidType(Seq<char>, Seq<char>),
    UnsupportedFunction(Seq<char>),
    InvalidStringInterpolation(SubstitutionErrorView),
    JsonError(Seq<char>),
    PolicyError(Seq<char>),
    FmtError,
}

impl View for Error {
    type V = ErrorView;

    open spec fn view(&self) -> ErrorView {
        match self {
            Error::GenericError(s) => ErrorView::GenericError(s@),
            Error::UnsupportedPrincipalType => ErrorView::UnsupportedPrincipalType,
            Error::UnsupportedWildcard => ErrorView::UnsupportedWildcard,
            Error::UnsupportedNegation => ErrorView::UnsupportedNegation,
            Error::InvalidType(expected, found) => ErrorView::InvalidType(expected@, found@),
            Error::UnsupportedFunction(s) => ErrorView::UnsupportedFunction(s@),
            Error::InvalidStringInterpolation(e) => ErrorView::InvalidStringInterpolation(e@),
            Error::JsonError(s) => ErrorView::JsonError(s@),
            Error::PolicyError(s) => ErrorView::PolicyError(s@),
            Error::FmtError => ErrorView::FmtError,
        }
    }
}

impl ErrorView {
    /// The message for a reader.
    pub open spec fn message(self) -> Seq<char> {
        match self {
            ErrorView::GenericError(s) => "generic error: "@ + s,
            ErrorView::UnsupportedPrincipalType =>
                "unsupported principal type, only 'AWS' is supported"@,
            ErrorView::UnsupportedWildcard => "unsupported wildcard"@,
            ErrorView::UnsupportedNegation => "unsupported negation"@,
            ErrorView::InvalidType(expected, found) => "expected "@ + expected + ", found '"@
                + found + "'"@,
            ErrorView::UnsupportedFunction(s) => "unsupported function "@ + s,
            ErrorView::InvalidStringInterpolation(e) => "invalid string interpolation: "@
                + e.message(),
            ErrorView::JsonError(s) => "json error: "@ + s,
            ErrorView::PolicyError(s) => "I/O error: "@ + s,
            ErrorView::FmtError =>
                "formatting error: an error occurred when formatting an argument"@,
        }
    }
}

impl Error {
    /// The message for a reader.
    pub fn to_string(&self) -> (r: String)
        ensures
            r@ == self@.message(),
    {
        match self {
            Error::GenericError(s) => String::from_str("generic error: ").concat(s.as_str()),
            Error::UnsupportedPrincipalType => String::from_str(
                "unsupported principal type, only 'AWS' is supported",
            ),
            Error::UnsupportedWildcard => String::from_str("unsupported wildcard"),
            Error::UnsupportedNegation => String::from_str("unsupported negation"),
            Error::InvalidType(expected, found) => String::from_str("expected ").concat(
                expected,
            ).concat(", found '").concat(found.as_str()).concat("'"),
            Error::UnsupportedFunction(s) => String::from_str("unsupported function ").concat(
                s.as_str(),
            ),
            Error::InvalidStringInterpolation(e) => String::from_str(
                "invalid string interpolation: ",
            ).concat(e.to_string().as_str()),
            Error::JsonError(s) => String::from_str("json error: ").concat(s.as_str()),
            Error::PolicyError(s) => String::from_str("I/O error: ").concat(s.as_str()),
            Error::FmtError => String::from_str(
                "formatting error: an error occurred when formatting an argument",
            ),
        }
    }
}

impl From<SubstitutionError> for Error {
    fn from(value: SubstitutionError) -> (r: Self) {
        Error::InvalidStringInterpolation(value)
    }
}

impl vstd::std_specs::convert::FromSpecImpl<SubstitutionError> for Error {
    open spec fn obeys_from_spec() -> bool {
        true
    }

    open spec fn from_spec(value: SubstitutionError) -> Self {
        Error::InvalidStringInterpolation(value)
    }
}

/// What every compiled program begins with: the package, the defaults of
/// `allow`, `deny` and `permit`, the helpers `to_array` and `arn_like`, and
/// the decision: a request is allowed where a `permit` rule holds and no
/// `deny` rule does.
pub open spec fn preamble() -> Seq<char> {
    "package main
default allow = false
default deny = false
default permit = false
to_array(x) := x if { is_array(x) }
to_array(x) := [x] if { not is_array(x) }
arn_like(lhs, rhs) if {
  count(indexof_n(lhs, \":\")) == 5
  count(indexof_n(rhs, \":\")) == 5
  glob.match(lhs, [\":\"], rhs)
}
allow if {
  permit
  not deny
}"@
}

/// The text of [`preamble`].
pub fn base() -> (r: &'static str)
    ensures
        r@ == preamble(),
{
    "package main
default allow = false
default deny = false
default permit = false
to_array(x) := x if { is_array(x) }
to_array(x) := [x] if { not is_array(x) }
arn_like(lhs, rhs) if {
  count(indexof_n(lhs, \":\")) == 5
  count(indexof_n(rhs, \":\")) == 5
  glob.match(lhs, [\":\"], rhs)
}
allow if {
  permit
  not deny
}"
}

/// The program for the rules `statements`: the preamble on lines of its own,
/// then the text of each rule in order; or the first error of a rule.
pub open spec fn program(statements: Seq<ExprView>) -> Result<Seq<char>, ErrorView> {
    match render_list(statements) {
        Err(e) => Err(e),
        Ok(texts) => Ok(preamble() + "\n"@ + join(texts, ""@)),
    }
}

/// A compiled policy: one rule for each statement of the document, in order.
#[derive(Debug)]
pub struct Policy(pub(crate) Vec<Expr>);

impl View for Policy {
    type V = Seq<ExprView>;

    closed spec fn view(&self) -> Seq<ExprView> {
        views(self.0@)
    }
}

impl Policy {
    /// The text of the policy in the target language, see [`program`].
    pub fn serialize(&self) -> (r: Result<String, Error>)
        ensures
            match program(self@) {
                Ok(text) => r matches Ok(s) && s@ == text,
                Err(e) => r matches Err(x) && x@ == e,
            },
    {
        let mut buf = String::new();
        buf.append(base());
        buf.append("\n");
        match write_joined(&self.0, "", &mut buf) {
            Err(e) => {
                return Err(e);
            },
            Ok(_) => {},
        }
        proof {
            let texts = render_list(self@)->Ok_0;
            assert(buf@ =~= preamble() + "\n"@ + join(texts, ""@));
        }
        Ok(buf)
    }

    /// The number of rules.
    pub fn len(&self) -> (r: usize)
        ensures
            r == self@.len(),
    {
        self.0.len()
    }
}

/// The entry for AWS identities that comes first.
pub open spec fn aws_entry(entries: Seq<(PrincipalType, OneOrAny<String>)>) -> Option<
    OneOrAny<String>,
>
    decreases entries.len(),
{
    if entries.len() == 0 {
        None
    } else if entries[0].0 == PrincipalType::AWS {
        Some(entries[0].1)
    } else {
        aws_entry(entries.drop_first())
    }
}

/// In an element that names each kind of principal once, the entry for AWS
/// identities is the one that counts, wherever it stands.
pub proof fn lemma_aws_entry_is_unique(principal: Principal, i: int)
    requires
        principal.well_formed(),
        0 <= i < principal.entries().len(),
        principal.entries()[i].0 == PrincipalType::AWS,
    ensures
        aws_entry(principal.entries()) == Some(principal.entries()[i].1),
{
    lemma_aws_entry_found(principal.entries(), i);
}

/// The first entry for AWS identities is the one before which none stands.
pub proof fn lemma_aws_entry_found(entries: Seq<(PrincipalType, OneOrAny<String>)>, i: int)
    requires
        0 <= i < entries.len(),
        entries[i].0 == PrincipalType::AWS,
        forall|j: int| 0 <= j < i ==> (#[trigger] entries[j]).0 != PrincipalType::AWS,
    ensures
        aws_entry(entries) == Some(entries[i].1),
    decreases i,
{
    if i > 0 {
        let rest = entries.drop_first();
        assert forall|j: int| 0 <= j < i - 1 implies (#[trigger] rest[j]).0
            != PrincipalType::AWS by {
            assert(rest[j] == entries[j + 1]);
        }
        assert(rest[i - 1] == entries[i]);
        lemma_aws_entry_found(rest, i - 1);
    }
}

/// The written forms of the names of `list`.
pub open spec fn texts_of(list: Seq<QString>) -> Seq<Seq<char>> {
    Seq::new(list.len(), |i: int| list[i].text())
}

/// The principals that a statement is about. A statement without the
/// element is about everyone. `NotPrincipal` is refused, and so is an
/// element that names no AWS identities or names them by the wildcard
/// value.
pub open spec fn principals(principal: Option<Principal>) -> Result<ScopeView<Seq<char>>, ErrorView> {
    match principal {
        None => Ok(ScopeView::Id(ValueView::One("*"@))),
        Some(Principal::NotPrincipal(_)) => Err(ErrorView::UnsupportedNegation),
        Some(Principal::Principal(entries)) => match aws_entry(entries@) {
            Some(OneOrAny::AnyOf(list)) => Ok(ScopeView::Id(ValueView::Many(view_all(list@)))),
            Some(OneOrAny::One(one)) => Ok(ScopeView::Id(ValueView::One(one@))),
            _ => Err(ErrorView::UnsupportedPrincipalType),
        },
    }
}

/// The actions that a statement is about; the wildcard value is refused.
pub open spec fn actions(action: Action) -> Result<ScopeView<Seq<char>>, ErrorView> {
    match action {
        Action::Action(OneOrAny::AnyOf(list)) => Ok(
            ScopeView::Id(ValueView::Many(texts_of(list@))),
        ),
        Action::Action(OneOrAny::One(one)) => Ok(ScopeView::Id(ValueView::One(one.text()))),
        Action::NotAction(OneOrAny::AnyOf(list)) => Ok(
            ScopeView::Not(ValueView::Many(texts_of(list@))),
        ),
        Action::NotAction(OneOrAny::One(one)) => Ok(ScopeView::Not(ValueView::One(one.text()))),
        _ => Err(ErrorView::UnsupportedWildcard),
    }
}

/// The resources that a statement is about; the wildcard value is refused.
pub open spec fn resources(resource: Resource) -> Result<ScopeView<Seq<char>>, ErrorView> {
    match resource {
        Resource::Resource(OneOrAny::AnyOf(list)) => Ok(
            ScopeView::Id(ValueView::Many(view_all(list@))),
        ),
        Resource::Resource(OneOrAny::One(one)) => Ok(ScopeView::Id(ValueView::One(one@))),
        Resource::NotResource(OneOrAny::AnyOf(list)) => Ok(
            ScopeView::Not(ValueView::Many(view_all(list@))),
        ),
        Resource::NotResource(OneOrAny::One(one)) => Ok(ScopeView::Not(ValueView::One(one@))),
        _ => Err(ErrorView::UnsupportedWildcard),
    }
}

/// The attributes of one operator, with their values as [`Value`]s.
pub open spec fn pairs_of(entries: Seq<ConditionEntry>) -> Seq<CondPair> {
    Seq::new(entries.len(), |i: int| (entries[i].0, entries[i].1.value()))
}

/// The condition block of a statement; empty where the statement has none.
pub open spec fn block(condition: Option<Vec<(ConditionOperator, Vec<ConditionEntry>)>>) -> Block {
    match condition {
        None => Seq::empty(),
        Some(operators) => Seq::new(
            operators@.len(),
            |i: int| (operators@[i].0, pairs_of(operators@[i].1@)),
        ),
    }
}

/// The statement that an element of the document describes; or the error
/// of its principal, else of its action, else of its resource.
pub open spec fn statement(element: StatementElement) -> Result<StatementView, ErrorView> {
    match principals(element.principal) {
        Err(e) => Err(e),
        Ok(p) => match actions(element.action) {
            Err(e) => Err(e),
            Ok(a) => match resources(element.resource) {
                Err(e) => Err(e),
                Ok(r) => Ok(
                    StatementView {
                        effect: element.effect,
                        principals: p,
                        actions: a,
                        resources: r,
                        conditions: block(element.condition),
                    },
                ),
            },
        },
    }
}

/// The rule that a statement of the document is compiled to.
pub open spec fn rule(element: StatementElement) -> Result<ExprView, ErrorView> {
    match statement(element) {
        Err(e) => Err(e),
        Ok(s) => s.rule(),
    }
}

/// The rules that a document is compiled to: one for each statement, in
/// order; or the error of the first statement that cannot be compiled.
pub open spec fn compiled(document: PolicyDocument) -> Result<Seq<ExprView>, ErrorView> {
    let elements = document.statement.elements();
    collect(Seq::new(elements.len(), |i: int| rule(elements[i])))
}

/// The principals that a statement is about, see [`principals`].
fn principals_of(principal: Option<Principal>) -> (r: Result<Scope<String>, Error>)
    ensures
        match principals(principal) {
            Ok(s) => r matches Ok(x) && x@ == s,
            Err(e) => r matches Err(x) && x@ == e,
        },
{
    match principal {
        None => Ok(Scope::Id(Value::One(String::from_str("*")))),
        Some(Principal::NotPrincipal(_)) => Err(Error::UnsupportedNegation),
        Some(Principal::Principal(entries)) => {
            let ghost all = entries@;
            assert(all.skip(0) =~= all);
            for entry in it: entries
                invariant
                    it.seq() == all,
                    principal matches Some(Principal::Principal(es)) && es@ == all,
                    aws_entry(all) == aws_entry(all.skip(it.index() as int)),
            {
                proof {
                    let rest = all.skip(it.index() as int);
                    assert(rest[0] == entry);
                    assert(rest.drop_first() =~= all.skip(it.index() + 1));
                }
                let (kind, names) = entry;
                match kind {
                    PrincipalType::AWS => {
                        return match names {
                            OneOrAny::AnyOf(list) => Ok(Scope::Id(Value::Many(list))),
                            OneOrAny::One(one) => Ok(Scope::Id(Value::One(one))),
                            OneOrAny::Any => Err(Error::UnsupportedPrincipalType),
                        };
                    },
                    _ => {},
                }
            }
            Err(Error::UnsupportedPrincipalType)
        },
    }
}

/// The written forms of the names of `list`.
fn names_of(list: Vec<QString>) -> (r: Vec<String>)
    ensures
        view_all(r@) == texts_of(list@),
{
    let mut out: Vec<String> = Vec::with_capacity(list.len());
    let mut i: usize = 0;
    while i < list.len()
        invariant
            i <= list.len(),
            view_all(out@) == texts_of(list@).take(i as int),
        decreases list.len() - i,
    {
        let ghost before = view_all(out@);
        let name = list[i].to_string();
        out.push(name);
        assert(view_all(out@) =~= before.push(name@));
        assert(texts_of(list@).take(i + 1) =~= texts_of(list@).take(i as int).push(
            list@[i as int].text(),
        ));
        i += 1;
    }
    assert(texts_of(list@).take(list.len() as int) =~= texts_of(list@));
    out
}

/// The actions that a statement is about, see [`actions`].
fn actions_of(action: Action) -> (r: Result<Scope<String>, Error>)
    ensures
        match actions(action) {
            Ok(s) => r matches Ok(x) && x@ == s,
            Err(e) => r matches Err(x) && x@ == e,
        },
{
    match action {
        Action::Action(a) => match a {
            OneOrAny::AnyOf(list) => Ok(Scope::Id(Value::Many(names_of(list)))),
            OneOrAny::One(one) => Ok(Scope::Id(Value::One(one.to_string()))),
            OneOrAny::Any => Err(Error::UnsupportedWildcard),
        },
        Action::NotAction(a) => match a {
            OneOrAny::AnyOf(list) => Ok(Scope::Not(Value::Many(names_of(list)))),
            OneOrAny::One(one) => Ok(Scope::Not(Value::One(one.to_string()))),
            OneOrAny::Any => Err(Error::UnsupportedWildcard),
        },
    }
}

/// The resources that a statement is about, see [`resources`].
fn resources_of(resource: Resource) -> (r: Result<Scope<String>, Error>)
    ensures
        match resources(resource) {
            Ok(s) => r matches Ok(x) && x@ == s,
            Err(e) => r matches Err(x) && x@ == e,
        },
{
    match resource {
        Resource::Resource(r) => match r {
            OneOrAny::AnyOf(list) => Ok(Scope::Id(Value::Many(list))),
            OneOrAny::One(one) => Ok(Scope::Id(Value::One(one))),
            OneOrAny::Any => Err(Error::UnsupportedWildcard),
        },
        Resource::NotResource(r) => match r {
            OneOrAny::AnyOf(list) => Ok(Scope::Not(Value::Many(list))),
            OneOrAny::One(one) => Ok(Scope::Not(Value::One(one))),
            OneOrAny::Any => Err(Error::UnsupportedWildcard),
        },
    }
}

/// The attributes of one operator, see [`pairs_of`].
fn attributes_of(entries: Vec<ConditionEntry>) -> (r: Vec<CondPair>)
    ensures
        r@ == pairs_of(entries@),
{
    let mut out: Vec<CondPair> = Vec::new();
    let ghost all = entries@;
    for entry in it: entries
        invariant
            it.seq() == all,
            out@ == pairs_of(all).take(it.index() as int),
    {
        let (attribute, condition) = entry;
        out.push((attribute, condition.into_value()));
        assert(pairs_of(all).take(it.index() + 1) =~= pairs_of(all).take(it.index() as int).push(
            (attribute, condition.value()),
        ));
    }
    assert(pairs_of(all).take(all.len() as int) =~= pairs_of(all));
    out
}

/// The condition block of a statement, see [`block`].
fn conditions_of(condition: Option<Vec<(ConditionOperator, Vec<ConditionEntry>)>>) -> (r:
    Conditions)
    ensures
        block_of(r@) == block(condition),
{
    let mut out: Conditions = Vec::new();
    match condition {
        None => {
            assert(block_of(out@) =~= Seq::empty());
        },
        Some(operators) => {
            let ghost all = operators@;
            assert(block_of(out@) =~= block(condition).take(0));
            for entry in it: operators
                invariant
                    it.seq() == all,
                    all == operators@,
                    condition == Some(operators),
                    block_of(out@) == block(condition).take(it.index() as int),
            {
                let ghost before = block_of(out@);
                let (operator, vars) = entry;
                let attributes = attributes_of(vars);
                out.push((operator, attributes));
                assert(block_of(out@) =~= before.push((operator, attributes@)));
                assert(block(condition).take(it.index() + 1) =~= block(condition).take(
                    it.index() as int,
                ).push((operator, pairs_of(vars@))));
            }
            assert(block(condition).take(all.len() as int) =~= block(condition));
        },
    }
    out
}

/// Compiles one statement of a document, see [`rule`].
pub fn compile_statement(element: StatementElement) -> (r: Result<Expr, Error>)
    ensures
        returns_expr(r, rule(element)),
{
    let StatementElement { effect, principal, action, resource, condition } = element;
    let principals = match principals_of(principal) {
        Ok(s) => s,
        Err(e) => {
            return Err(e);
        },
    };
    let actions = match actions_of(action) {
        Ok(s) => s,
        Err(e) => {
            return Err(e);
        },
    };
    let resources = match resources_of(resource) {
        Ok(s) => s,
        Err(e) => {
            return Err(e);
        },
    };
    let conditions = conditions_of(condition);
    let s = Statement { effect, principals, actions, resources, conditions };
    s.generate()
}

/// Compiles a policy document: each statement becomes one rule, in the
/// order of the document, and the first statement that cannot be compiled
/// decides the error. See [`compiled`].
pub fn parse_iam_policy(document: PolicyDocument) -> (r: Result<Policy, Error>)
    ensures
        match compiled(document) {
            Ok(rules) => r matches Ok(p) && p@ == rules,
            Err(e) => r matches Err(x) && x@ == e,
        },
{
    let ghost elements = document.statement.elements();
    let ghost results = Seq::new(elements.len(), |i: int| rule(elements[i]));
    let statements = document.statement.into_vec();
    let mut out: Vec<Expr> = Vec::new();
    assert(results.take(0) =~= Seq::empty());
    assert(views(out@) =~= Seq::empty());
    for element in it: statements
        invariant
            it.seq() == elements,
            results.len() == elements.len(),
            forall|i: int| 0 <= i < elements.len() ==> results[i] == rule(elements[i]),
            compiled(document) == collect(results),
            collect(results.take(it.index() as int)) == Ok::<Seq<ExprView>, ErrorView>(
                views(out@),
            ),
    {
        let ghost before = views(out@);
        proof {
            lemma_collect_step(results, it.index() as int);
        }
        match compile_statement(element) {
            Ok(e) => {
                out.push(e);
                assert(views(out@) =~= before.push(e@));
            },
            Err(e) => {
                proof {
                    lemma_collect_failed(results, it.index() + 1);
                }
                return Err(e);
            },
        }
    }
    assert(results.take(elements.len() as int) =~= results);
    Ok(Policy(out))
}

/// The text that a document is compiled to, or the error that stands
/// in its way.
pub open spec fn compiled_text(document: PolicyDocument) -> Result<Seq<char>, ErrorView> {
    match compiled(document) {
        Ok(rules) => program(rules),
        Err(e) => Err(e),
    }
}

/// Compiling is a function of the document: whatever two runs of
/// [`parse_iam_policy`] and [`Policy::serialize`] return for the same
/// document, they return the same characters or the same error.
pub proof fn lemma_compilation_is_determined(
    document: PolicyDocument,
    first: Result<Policy, Error>,
    second: Result<Policy, Error>,
    first_text: Result<String, Error>,
    second_text: Result<String, Error>,
)
    requires
        match compiled(document) {
            Ok(rules) => first matches Ok(p) && p@ == rules,
            Err(e) => first matches Err(x) && x@ == e,
        },
        match compiled(document) {
            Ok(rules) => second matches Ok(p) && p@ == rules,
            Err(e) => second matches Err(x) && x@ == e,
        },
        first matches Ok(p) ==> match program(p@) {
            Ok(text) => first_text matches Ok(s) && s@ == text,
            Err(e) => first_text matches Err(x) && x@ == e,
        },
        second matches Ok(p) ==> match program(p@) {
            Ok(text) => second_text matches Ok(s) && s@ == text,
            Err(e) => second_text matches Err(x) && x@ == e,
        },
    ensures
        match (first, second) {
            (Ok(p), Ok(q)) => p@ == q@ && match (first_text, second_text) {
                (Ok(s), Ok(t)) => s@ == t@ && compiled_text(document) == Ok::<
                    Seq<char>,
                    ErrorView,
                >(s@),
                (Err(x), Err(y)) => x@ == y@,
                _ => false,
            },
            (Err(x), Err(y)) => x@ == y@,
            _ => false,
        },
{
}

/// Every program begins with the preamble, which defines `allow` as
/// `permit` and not `deny`, and goes on with the rules in order.
pub proof fn lemma_program_begins_with_preamble(statements: Seq<ExprView>)
    ensures
        program(statements) matches Ok(text) ==> text.len() >= preamble().len() && text.subrange(
            0,
            preamble().len() as int,
        ) == preamble(),
{
    match program(statements) {
        Ok(text) => {
            assert(text.subrange(0, preamble().len() as int) =~= preamble());
        },
        Err(_) => {},
    }
}

/// Every element of a compiled policy is a rule, with the effect of the
/// statement that it was compiled from.
pub proof fn lemma_compiled_are_rules(document: PolicyDocument)
    ensures
        compiled(document) matches Ok(rules) ==> rules.len() == document.statement.elements().len()
            && forall|i: int|
            0 <= i < rules.len() ==> (#[trigger] rules[i] matches ExprView::Statement(effect, _, _)
                && effect == document.statement.elements()[i].effect),
{
    let elements = document.statement.elements();
    let results = Seq::new(elements.len(), |i: int| rule(elements[i]));
    crate::values::lemma_collect_ok(results);
    match compiled(document) {
        Ok(rules) => {
            assert forall|i: int| 0 <= i < rules.len() implies (#[trigger] rules[i] matches ExprView::Statement(
                effect,
                _,
                _,
            ) && effect == elements[i].effect) by {
                assert(results[i] == Ok::<ExprView, ErrorView>(rules[i]));
            }
        },
        Err(_) => {},
    }
}

/// The text of a rule begins with its head, `permit` or `deny`, and ends
/// with a closing brace on a line of its own.
pub proof fn lemma_rule_text(effect: Effect, body: Seq<ExprView>, conditions: Block)
    ensures
        crate::expression::render(ExprView::Statement(effect, body, conditions)) matches Ok(text)
            ==> ({
            let head = effect.head() + " if {\n"@;
            &&& text.len() >= head.len() + 2
            &&& text.subrange(0, head.len() as int) == head
            &&& text.subrange(text.len() - 2, text.len() as int) == "}\n"@
        }),
{
    reveal_strlit("}\n");
    match crate::expression::render(ExprView::Statement(effect, body, conditions)) {
        Ok(text) => {
            let head = effect.head() + " if {\n"@;
            assert(text.subrange(0, head.len() as int) =~= head);
            assert(text.subrange(text.len() - 2, text.len() as int) =~= "}\n"@);
        },
        Err(_) => {},
    }
}

} // verus!
