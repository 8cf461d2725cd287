//! Validation: the pass-through boundary between a parsed message and
//! a rule set. The rules themselves live outside this crate; here is
//! only the contract by which a message is handed to them.

use vstd::prelude::*;
use crate::message::Message;

verus! {

/// How severe a rule violation is.
#[derive(Clone, Copy, Debug, PartialEq, Eq)]
pub enum Severity {
    /// The rule reports a problem but does not fail the message.
    Warning,
    /// The rule fails the message.
    Error,
}

/// A single rule failure: which rule fired, how severe it is, and a
/// message for the user.
#[derive(Clone, Debug, PartialEq, Eq)]
pub struct Violation {
    /// Identifier of the rule that fired.
    pub rule: String,
    /// Severity the rule is configured with.
    pub severity: Severity,
    /// Human-readable explanation.
    pub message: String,
}

/// The outcome of validating one message: the violations the rule set
/// produced, in the order it produced them.
#[derive(Clone, Debug)]
pub struct LintResult {
    /// The violations, unchanged from the rule set.
    pub violations: Vec<Violation>,
}

/// Error type of [`validate`]. The pass-through itself cannot fail,
/// so no value of this type is ever produced by this crate.
#[derive(Clone, Copy, Debug, PartialEq, Eq)]
pub struct ValidateError;

/// A set of rules that can judge a message. Implementations decide
/// what the violations are; the contract only ties the executable
/// result to the implementation's own specification.
pub trait RuleSet {
    /// The violations this rule set assigns to `m`.
    spec fn spec_validate(&self, m: Message) -> Seq<Violation>;

    /// Evaluates the rules on `m`.
    fn validate(&self, m: &Message) -> (v: Vec<Violation>)
        ensures
            v@ == self.spec_validate(*m),
    ;
}

/// The rule set with no rules: no message violates it.
#[derive(Clone, Copy, Debug)]
pub struct EmptyRuleSet;

impl RuleSet for EmptyRuleSet {
    open spec fn spec_validate(&self, m: Message) -> Seq<Violation> {
        Seq::empty()
    }

    fn validate(&self, m: &Message) -> (v: Vec<Violation>) {
        let v: Vec<Violation> = Vec::new();
        proof {
            assert(v@ =~= Seq::<Violation>::empty());
        }
        v
    }
}

/// Configuration for a validation run: the rule set to evaluate.
pub struct Config<R: RuleSet> {
    /// The rules to judge messages with.
    pub rules: R,
}

/// Validates `msg` against the rule set of `config`: a pass-through
/// that hands the message to the rules and returns their violations
/// unchanged — neither reordered, filtered nor deduplicated. The
/// orchestration itself cannot fail, so the result is always `Ok`.
pub fn validate<R: RuleSet>(msg: &Message, config: &Config<R>) -> (r: Result<
    LintResult,
    ValidateError,
>)
    ensures
        r is Ok,
        r matches Ok(lr) ==> lr.violations@ == config.rules.spec_validate(*msg),
{
    let violations = config.rules.validate(msg);
    Ok(LintResult { violations })
}

} // verus!
