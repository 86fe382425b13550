//! The rule set `C` of the contact grammar.
use vstd::prelude::*;

use crate::parser::Token;
use crate::rules::{Rule, RuleSet, RuleStep};

verus! {

/// The terminal steps of the alternative `contact <id> <id> <num> <num>`.
pub open spec fn contact_steps() -> Seq<RuleStep> {
    seq![
        RuleStep::Terminal(Token::Contact),
        RuleStep::Terminal(Token::Identifier),
        RuleStep::Terminal(Token::Identifier),
        RuleStep::Terminal(Token::Number),
        RuleStep::Terminal(Token::Number),
    ]
}

/// The rule set `C` with its terminal steps alone: the alternative
/// `contact <id> <id> <num> <num>`, to which the link to `R` is yet to be
/// appended, and the alternative without steps.
pub fn construct_c() -> (set: RuleSet)
    ensures
        set@ == seq![contact_steps(), Seq::<RuleStep>::empty()],
{
    let base: Vec<RuleStep> = vec![
        RuleStep::Terminal(Token::Contact),
        RuleStep::Terminal(Token::Identifier),
        RuleStep::Terminal(Token::Identifier),
        RuleStep::Terminal(Token::Number),
        RuleStep::Terminal(Token::Number),
    ];
    let c1 = Rule { steps: base };
    let c2 = Rule { steps: Vec::new() };
    let set = RuleSet { rules: vec![c1, c2] };
    assert(c1@ =~= contact_steps());
    assert(set@ =~= seq![contact_steps(), Seq::<RuleStep>::empty()]);
    set
}

} // verus!
