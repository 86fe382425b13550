//! The rule graph: steps, alternatives and rule sets.
use vstd::prelude::*;

use crate::parser::Token;

pub mod rule_c;
pub mod rule_r;

verus! {

/// One edge of the rule graph.
#[derive(Clone, Copy, Debug, PartialEq, Eq, Structural)]
pub enum RuleStep {
    /// Matches one token of the given kind and consumes it.
    Terminal(Token),
    /// Descends into the rule set stored at the given position of the store,
    /// without consuming a token.
    Link(usize),
}

/// One alternative of a rule set: its steps are matched in sequence. An
/// alternative without steps is the epsilon alternative.
#[derive(Debug)]
pub struct Rule {
    pub steps: Vec<RuleStep>,
}

/// An ordered list of alternatives, tried in the order in which they stand.
#[derive(Debug)]
pub struct RuleSet {
    pub rules: Vec<Rule>,
}

impl View for Rule {
    type V = Seq<RuleStep>;

    open spec fn view(&self) -> Seq<RuleStep> {
        self.steps@
    }
}

impl Clone for Rule {
    fn clone(&self) -> (copy: Rule)
        ensures
            copy@ == self@,
    {
        Rule { steps: self.steps.clone() }
    }
}

/// The step sequences of a list of alternatives, in its order.
pub open spec fn alternatives(rules: Seq<Rule>) -> Seq<Seq<RuleStep>> {
    Seq::new(rules.len(), |i: int| rules[i]@)
}

impl View for RuleSet {
    type V = Seq<Seq<RuleStep>>;

    open spec fn view(&self) -> Seq<Seq<RuleStep>> {
        alternatives(self.rules@)
    }
}

impl RuleSet {
    /// Makes a rule set of the given alternatives, in their order.
    pub fn new(rules: Vec<Rule>) -> (set: RuleSet)
        ensures
            set.rules == rules,
    {
        RuleSet { rules }
    }
}

impl Clone for RuleSet {
    fn clone(&self) -> (copy: RuleSet)
        ensures
            copy@ == self@,
    {
        let mut rules: Vec<Rule> = Vec::new();
        let mut i: usize = 0;
        while i < self.rules.len()
            invariant
                i <= self.rules@.len(),
                rules@.len() == i,
                forall|j: int| 0 <= j < i ==> rules@[j]@ == self.rules@[j]@,
            decreases self.rules@.len() - i,
        {
            rules.push(self.rules[i].clone());
            i += 1;
        }
        RuleSet { rules }
    }
}

} // verus!
