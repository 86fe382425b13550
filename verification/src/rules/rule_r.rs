//! The rule set `R` of the contact grammar.
use vstd::prelude::*;

use crate::parser::Token;
use crate::rules::{Rule, RuleSet, RuleStep};

verus! {

/// The terminal steps of the alternative `rate <num> <num> <num>`. The
/// keywords `rate` and `delay` are one token kind, so the same steps stand
/// for `delay <num> <num> <num>`.
pub open spec fn option_steps() -> Seq<RuleStep> {
    seq![
        RuleStep::Terminal(Token::Options),
        RuleStep::Terminal(Token::Number),
        RuleStep::Terminal(Token::Number),
        RuleStep::Terminal(Token::Number),
    ]
}

/// The rule set `R` with its terminal steps alone: two alternatives with
/// the same terminals, of which the first is to go on with `R` and the
/// second with `C` once the links are appended, and the alternative without
/// steps.
pub fn construct_r() -> (set: RuleSet)
    ensures
        set@ == seq![option_steps(), option_steps(), Seq::<RuleStep>::empty()],
{
    let base: Vec<RuleStep> = vec![
        RuleStep::Terminal(Token::Options),
        RuleStep::Terminal(Token::Number),
        RuleStep::Terminal(Token::Number),
        RuleStep::Terminal(Token::Number),
    ];
    let r1 = Rule { steps: base.clone() };
    let r2 = Rule { steps: base };
    let r3 = Rule { steps: Vec::new() };
    let set = RuleSet { rules: vec![r1, r2, r3] };
    assert(r1@ =~= option_steps());
    assert(r2@ =~= option_steps());
    assert(set@ =~= seq![option_steps(), option_steps(), Seq::<RuleStep>::empty()]);
    set
}

} // verus!
