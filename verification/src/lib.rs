//! Compiler from IAM policy documents to Rego rule sets, and evaluation of
//! the compiled rules against requests.
//!
//! A policy document ([`model::PolicyDocument`]) is compiled statement by
//! statement ([`parser::parse_iam_policy`]): principal, action and resource
//! become the conjuncts of a rule ([`statement`]), the condition block stays
//! with the rule and is lowered to further conjuncts when the rule is written
//! out ([`conditions`]), and every string of the policy is read for `${...}`
//! segments ([`interpolation`]). The rules are trees of [`expression::Expr`];
//! their text is fixed by [`expression::render`], and the text of a whole
//! policy by [`parser::program`].
//!
//! [`Regoer`] collects compiled policies and hands their text to the
//! evaluation engine; the [`Evaluator`] that comes out of it asks the engine
//! for the decision on a request. What the engine does with the rules is its
//! own business: the contracts of this crate end at the text that it is
//! given.

pub mod conditions;
pub mod emit;
pub mod expression;
pub mod extensions;
pub mod functions;
pub mod interpolation;
pub mod model;
pub mod parser;
pub mod statement;
pub mod text;
pub mod values;

use vstd::prelude::*;
use vstd::string::StringExecFns;
use crate::expression::ExprView;
use crate::model::PolicyDocument;
use crate::parser::compiled;
use crate::parser::parse_iam_policy;
use crate::parser::program;

pub use crate::parser::Error;
pub use crate::parser::ErrorView;
pub use crate::parser::Policy;

verus! {

/// The evaluation engine: the rules and data it was given.
#[verifier::external_type_specification]
#[verifier::external_body]
pub struct ExEngine(regorus::Engine);

/// A set of rules that the engine has compiled for one entry point.
#[verifier::external_type_specification]
#[verifier::external_body]
pub struct ExCompiledPolicy(regorus::CompiledPolicy);

/// `regorus::Engine::new`: an engine without rules or data.
#[verifier::external_body]
fn engine_new() -> regorus::Engine {
    regorus::Engine::new()
}

/// `regorus::Engine::add_policy`: parses `rego` and adds it to the engine's
/// rules under the file name `path`, or fails with a message. Nothing is
/// claimed of either outcome. It is called for the text of a policy under
/// the file name of this crate's policies only.
#[verifier::external_body]
fn engine_add_policy(engine: &mut regorus::Engine, path: &str, rego: String) -> Result<(), String>
    requires
        path@ == policy_file(),
        exists|rules: Seq<ExprView>| #[trigger] program(rules) == Ok::<Seq<char>, ErrorView>(rego@),
{
    engine.add_policy(path.to_string(), rego).map(|_| ()).map_err(|e| e.to_string())
}

/// `regorus::Engine::add_data_json`: reads `data` as JSON and merges it into
/// the engine's data document, or fails with a message. Nothing is claimed
/// of either outcome.
#[verifier::external_body]
fn engine_add_data(engine: &mut regorus::Engine, data: &str) -> Result<(), String> {
    engine.add_data_json(data).map_err(|e| e.to_string())
}

/// `regorus::Engine::compile_with_entrypoint`: compiles the engine's rules
/// for the rule `rule`, or fails with a message. Nothing is claimed of
/// either outcome. It is called for the decision of this crate's programs
/// only.
#[verifier::external_body]
fn engine_compile(engine: &mut regorus::Engine, rule: &str) -> Result<
    regorus::CompiledPolicy,
    String,
>
    requires
        rule@ == decision(),
{
    engine.compile_with_entrypoint(&rule.into()).map_err(|e| e.to_string())
}

/// `regorus::CompiledPolicy::eval_with_input`, on the request that the
/// JSON text `input` describes: the decision where the entry point yields a
/// boolean, else a message. Nothing is claimed of either outcome.
#[verifier::external_body]
fn policy_eval(policy: &regorus::CompiledPolicy, input: &str) -> Result<bool, String> {
    let request = match regorus::Value::from_json_str(input) {
        Ok(value) => value,
        Err(e) => return Err(e.to_string()),
    };
    match policy.eval_with_input(request) {
        Ok(value) => value.as_bool().copied().map_err(|e| e.to_string()),
        Err(e) => Err(e.to_string()),
    }
}

/// The file name under which the engine is given every policy.
pub open spec fn policy_file() -> Seq<char> {
    "main.rego"@
}

/// The rule that the engine is asked for: `allow` in the package `main`, as
/// the preamble of every program defines it.
pub open spec fn decision() -> Seq<char> {
    "data.main.allow"@
}

/// The text of [`policy_file`].
pub fn policy_file_name() -> (r: &'static str)
    ensures
        r@ == policy_file(),
{
    "main.rego"
}

/// The text of [`decision`].
pub fn decision_rule() -> (r: &'static str)
    ensures
        r@ == decision(),
{
    "data.main.allow"
}

/// The contents of the policies of `list`, in order.
pub open spec fn contents(list: Seq<Policy>) -> Seq<Seq<ExprView>> {
    Seq::new(list.len(), |i: int| list[i]@)
}

/// Collects compiled policies, and static data for the engine, until they
/// are handed over to an [`Evaluator`].
pub struct Regoer {
    engine: regorus::Engine,
    policies: Vec<Policy>,
}

/// The compiled policies together with the engine's form of them, ready to
/// decide requests.
pub struct Evaluator {
    policy: regorus::CompiledPolicy,
    policies: Vec<Policy>,
}

impl Default for Regoer {
    fn default() -> (r: Self)
        ensures
            r.policies() == Seq::<Seq<ExprView>>::empty(),
    {
        let r = Regoer { engine: engine_new(), policies: Vec::new() };
        assert(r.policies() =~= Seq::<Seq<ExprView>>::empty());
        r
    }
}

impl Regoer {
    /// The policies added so far, in order.
    pub closed spec fn policies(&self) -> Seq<Seq<ExprView>> {
        contents(self.policies@)
    }

    /// Compiles `document` and appends it to the policies. Where the
    /// document cannot be compiled, the policies stay as they are.
    pub fn add_policy(&mut self, document: PolicyDocument) -> (r: Result<(), Error>)
        ensures
            match compiled(document) {
                Ok(rules) => r is Ok && final(self).policies() == old(self).policies().push(rules),
                Err(e) => r matches Err(x) && x@ == e && final(self).policies() == old(
                    self,
                ).policies(),
            },
    {
        match parse_iam_policy(document) {
            Ok(policy) => {
                self.policies.push(policy);
                assert(self.policies() =~= old(self).policies().push(policy@));
                Ok(())
            },
            Err(e) => Err(e),
        }
    }

    /// Hands static data to the engine, as the text of a JSON object: data
    /// that every decision can read. Whether the engine takes it is up to the
    /// engine, see [`engine_outcome`]; the policies stay as they are.
    pub fn add_data(&mut self, data: &str) -> (r: Result<(), Error>)
        ensures
            final(self).policies() == old(self).policies(),
            r matches Err(e) ==> e is GenericError,
    {
        let outcome = engine_add_data(&mut self.engine, data);
        engine_outcome(outcome)
    }

    /// Hands the text of each policy to the engine, in order, under the file
    /// name [`policy_file`], and has the engine compile them for the rule
    /// [`decision`].
    ///
    /// The evaluator holds the same policies, and every one of them has a
    /// text. The first policy without a text makes this fail, with its own
    /// error unless the engine has failed before; where the very first
    /// policy has no text, the engine is not asked and the error is that
    /// policy's. Any other failure is the engine's, and comes as a
    /// `GenericError`, see [`engine_outcome`].
    pub fn compile(self) -> (r: Result<Evaluator, Error>)
        ensures
            match r {
                Ok(evaluator) => evaluator.policies() == self.policies() && forall|i: int|
                    0 <= i < self.policies().len() ==> program(
                        #[trigger] self.policies()[i],
                    ) is Ok,
                Err(e) => e is GenericError || exists|i: int|
                    0 <= i < self.policies().len() && program(#[trigger] self.policies()[i])
                        == Err::<Seq<char>, ErrorView>(e@) && forall|j: int|
                        0 <= j < i ==> program(#[trigger] self.policies()[j]) is Ok,
            },
            self.policies().len() > 0 && program(self.policies()[0]) is Err ==> (r matches Err(e)
                && program(self.policies()[0]) == Err::<Seq<char>, ErrorView>(e@)),
    {
        let Regoer { mut engine, policies } = self;
        let mut i: usize = 0;
        while i < policies.len()
            invariant
                i <= policies.len(),
                self.policies() == contents(policies@),
                forall|j: int| 0 <= j < i ==> program(#[trigger] contents(policies@)[j]) is Ok,
            decreases policies.len() - i,
        {
            assert(contents(policies@)[i as int] == policies@[i as int]@);
            let text = match policies[i].serialize() {
                Ok(text) => text,
                Err(e) => {
                    assert(program(self.policies()[i as int]) == Err::<Seq<char>, ErrorView>(e@));
                    return Err(e);
                },
            };
            assert(program(policies@[i as int]@) == Ok::<Seq<char>, ErrorView>(text@));
            let added = engine_add_policy(&mut engine, policy_file_name(), text);
            match engine_outcome(added) {
                Ok(_) => {},
                Err(e) => {
                    return Err(e);
                },
            }
            i += 1;
        }
        let compiled = engine_compile(&mut engine, decision_rule());
        match engine_outcome(compiled) {
            Ok(policy) => Ok(Evaluator { policy, policies }),
            Err(e) => Err(e),
        }
    }
}

/// What the evaluator shows of a policy: its text, or a comment with the
/// error that it has in place of a text.
pub open spec fn shown(policy: Seq<ExprView>) -> Seq<char> {
    match program(policy) {
        Ok(text) => text,
        Err(e) => "// ERROR: "@ + e.message(),
    }
}

/// What the evaluator shows of its policies, one after the other.
pub open spec fn shown_all(policies: Seq<Seq<ExprView>>) -> Seq<char>
    decreases policies.len(),
{
    if policies.len() == 0 {
        Seq::empty()
    } else {
        shown_all(policies.drop_last()) + shown(policies.last())
    }
}

impl Evaluator {
    /// The policies that were compiled into this evaluator, in order.
    pub closed spec fn policies(&self) -> Seq<Seq<ExprView>> {
        contents(self.policies@)
    }

    /// Asks the engine whether the policies allow the request that the
    /// JSON text `input` describes. The decision is the engine's; a failure
    /// of the engine, or a result that is no boolean, is reported as a
    /// `GenericError`, see [`engine_outcome`].
    pub fn evaluate(&self, input: &str) -> (r: Result<bool, Error>)
        ensures
            r matches Err(e) ==> e is GenericError,
    {
        let outcome = policy_eval(&self.policy, input);
        engine_outcome(outcome)
    }

    /// The policies that were compiled into this evaluator, in order.
    pub fn rego(&self) -> (r: &[Policy])
        ensures
            contents(r@) == self.policies(),
    {
        self.policies.as_slice()
    }

    /// The text of all policies, one after the other; see [`shown_all`].
    pub fn to_string(&self) -> (r: String)
        ensures
            r@ == shown_all(self.policies()),
    {
        let ghost all = contents(self.policies@);
        let mut out = String::new();
        let mut i: usize = 0;
        assert(all.take(0) =~= Seq::empty());
        while i < self.policies.len()
            invariant
                i <= self.policies.len(),
                all == contents(self.policies@),
                out@ == shown_all(all.take(i as int)),
            decreases self.policies.len() - i,
        {
            assert(all.take(i + 1).drop_last() =~= all.take(i as int));
            assert(all[i as int] == self.policies@[i as int]@);
            match self.policies[i].serialize() {
                Ok(text) => {
                    out.append(text.as_str());
                },
                Err(e) => {
                    out.append("// ERROR: ");
                    out.append(e.to_string().as_str());
                    assert(out@ =~= shown_all(all.take(i as int)) + ("// ERROR: "@
                        + e@.message()));
                },
            }
            i += 1;
        }
        assert(all.take(self.policies.len() as int) =~= all);
        out
    }
}

/// What this crate returns for an outcome of the engine: the engine's value
/// where it gave one, and its message as a `GenericError` where it failed.
pub fn engine_outcome<T>(outcome: Result<T, String>) -> (r: Result<T, Error>)
    ensures
        match outcome {
            Ok(value) => r matches Ok(x) && x == value,
            Err(message) => r matches Err(e) && e@ == ErrorView::GenericError(message@),
        },
{
    match outcome {
        Ok(value) => Ok(value),
        Err(message) => Err(Error::GenericError(message)),
    }
}

} // verus!
