//! What the recognizer decides, stated over sequences.
//!
//! The input of a walk is one sequence of items: the token that was read
//! ahead and not yet matched, if there is one, then what the cursor still
//! holds, then the end sentinel unless it has been handed out already.
//!
//! A graph may lead from a rule set back to the same rule set without an
//! item consumed in between, so acceptance is defined in two steps. First
//! for walks that follow a bounded number of link steps in a row
//! ([`rule_accepts_within`], [`set_accepts_within`]); then as acceptance
//! under some bound ([`rule_accepts`], [`set_accepts`]). What is accepted
//! under some bound obeys the rules of matching step by step
//! ([`step_accepts`]); that is shown in [`crate::bound`].
use vstd::prelude::*;

use crate::cursor::Lexeme;
use crate::parser::Token;
use crate::rules::RuleStep;

verus! {

/// The items that a walk can still read: the carried token first, then the
/// rest of the stream, then the end sentinel if `end` is not set.
pub open spec fn remaining(carry: Option<Lexeme>, rest: Seq<Lexeme>, end: bool) -> Seq<Lexeme> {
    let tail = if end {
        rest
    } else {
        rest.push(Lexeme::Token(Token::End))
    };
    match carry {
        Some(token) => seq![token] + tail,
        None => tail,
    }
}

/// Tells whether the steps of one alternative, from step `index` on, accept
/// `input` on a walk that follows at most `depth` link steps before it
/// consumes an item, and at most `cap` link steps in a row from then on.
///
/// With the input used up, the alternative accepts if its steps are used up
/// too. With its steps used up, it accepts if the next item is the end
/// sentinel. A terminal step asks for an item of its kind and goes on behind
/// it. A link step hands the whole input to the rule set it leads to, and
/// what follows the link step in the alternative is not looked at.
pub open spec fn rule_accepts_within(
    graph: Seq<Seq<Seq<RuleStep>>>,
    steps: Seq<RuleStep>,
    index: nat,
    input: Seq<Lexeme>,
    depth: nat,
    cap: nat,
) -> bool
    decreases input.len(), depth, 0nat,
{
    if input.len() == 0 {
        index == steps.len()
    } else if index >= steps.len() {
        index == steps.len() && input[0] == Lexeme::Token(Token::End)
    } else {
        match steps[index as int] {
            RuleStep::Terminal(kind) => {
                &&& input[0] == Lexeme::Token(kind)
                &&& rule_accepts_within(graph, steps, index + 1, input.skip(1), cap, cap)
            },
            RuleStep::Link(target) => {
                &&& depth > 0
                &&& target < graph.len()
                &&& set_accepts_within(graph, graph[target as int], input, (depth - 1) as nat, cap)
            },
        }
    }
}

/// Tells whether one of the alternatives `rules`, taken from its first step,
/// accepts `input` on a walk that follows at most `depth` link steps before
/// it consumes an item, and at most `cap` link steps in a row from then on.
pub open spec fn set_accepts_within(
    graph: Seq<Seq<Seq<RuleStep>>>,
    rules: Seq<Seq<RuleStep>>,
    input: Seq<Lexeme>,
    depth: nat,
    cap: nat,
) -> bool
    decreases input.len(), depth, 1nat,
{
    exists|i: int|
        0 <= i < rules.len() && rule_accepts_within(graph, #[trigger] rules[i], 0, input, depth, cap)
}

/// Tells whether the steps of one alternative, from step `index` on, accept
/// `input`: whether some walk accepts it, however many link steps the walk
/// follows in a row.
pub open spec fn rule_accepts(
    graph: Seq<Seq<Seq<RuleStep>>>,
    steps: Seq<RuleStep>,
    index: nat,
    input: Seq<Lexeme>,
) -> bool {
    exists|depth: nat, cap: nat| rule_accepts_within(graph, steps, index, input, depth, cap)
}

/// Tells whether one of the alternatives `rules`, taken from its first step,
/// accepts `input`.
pub open spec fn set_accepts(
    graph: Seq<Seq<Seq<RuleStep>>>,
    rules: Seq<Seq<RuleStep>>,
    input: Seq<Lexeme>,
) -> bool {
    exists|depth: nat, cap: nat| set_accepts_within(graph, rules, input, depth, cap)
}

/// What the steps of one alternative ask of `input` at step `index`, and
/// how acceptance goes on from there.
pub open spec fn step_accepts(
    graph: Seq<Seq<Seq<RuleStep>>>,
    steps: Seq<RuleStep>,
    index: nat,
    input: Seq<Lexeme>,
) -> bool {
    if input.len() == 0 {
        index == steps.len()
    } else if index >= steps.len() {
        index == steps.len() && input[0] == Lexeme::Token(Token::End)
    } else {
        match steps[index as int] {
            RuleStep::Terminal(kind) => {
                &&& input[0] == Lexeme::Token(kind)
                &&& rule_accepts(graph, steps, index + 1, input.skip(1))
            },
            RuleStep::Link(target) => {
                &&& target < graph.len()
                &&& set_accepts(graph, graph[target as int], input)
            },
        }
    }
}

/// Tells whether `found` names the first of the alternatives `rules` that
/// accepts `input`: the alternative at that place accepts and none before it
/// does, or, where `found` is `None`, no alternative accepts.
pub open spec fn first_accepting(
    graph: Seq<Seq<Seq<RuleStep>>>,
    rules: Seq<Seq<RuleStep>>,
    input: Seq<Lexeme>,
    found: Option<usize>,
) -> bool {
    match found {
        Some(at) => {
            &&& at < rules.len()
            &&& rule_accepts(graph, rules[at as int], 0, input)
            &&& forall|j: int| 0 <= j < at ==> !rule_accepts(graph, #[trigger] rules[j], 0, input)
        },
        None => !set_accepts(graph, rules, input),
    }
}

/// `first_accepting` for walks that follow at most `depth` link steps
/// before they consume an item, and at most `cap` in a row from then on.
pub open spec fn first_accepting_within(
    graph: Seq<Seq<Seq<RuleStep>>>,
    rules: Seq<Seq<RuleStep>>,
    input: Seq<Lexeme>,
    depth: nat,
    cap: nat,
    found: Option<usize>,
) -> bool {
    match found {
        Some(at) => {
            &&& at < rules.len()
            &&& rule_accepts_within(graph, rules[at as int], 0, input, depth, cap)
            &&& forall|j: int|
                0 <= j < at ==> !rule_accepts_within(graph, #[trigger] rules[j], 0, input, depth, cap)
        },
        None => !set_accepts_within(graph, rules, input, depth, cap),
    }
}

/// Tells whether the graph accepts the token stream `tokens`: whether some
/// alternative of some rule set accepts the stream followed by the end
/// sentinel.
pub open spec fn accepts(graph: Seq<Seq<Seq<RuleStep>>>, tokens: Seq<Lexeme>) -> bool {
    set_accepts(graph, graph.flatten(), remaining(None, tokens, false))
}

/// The number of steps of `steps`, from step `index` on, that are terminal
/// steps and match `input` item by item.
pub open spec fn matched_terminals(steps: Seq<RuleStep>, index: nat, input: Seq<Lexeme>) -> nat
    decreases input.len(),
{
    if input.len() > 0 && index < steps.len() {
        match steps[index as int] {
            RuleStep::Terminal(kind) => if input[0] == Lexeme::Token(kind) {
                1 + matched_terminals(steps, index + 1, input.skip(1))
            } else {
                0
            },
            RuleStep::Link(_) => 0,
        }
    } else {
        0
    }
}

/// The number of items that a walk of `steps` from step `index` takes from
/// the cursor. The walk reads one item for each terminal step that matches
/// and one more to see that it ends, as far as there are items. Of the items
/// read, the carried token and the end sentinel are not the cursor's.
pub open spec fn cursor_advance(
    steps: Seq<RuleStep>,
    index: nat,
    carry: Option<Lexeme>,
    rest: Seq<Lexeme>,
    end: bool,
) -> nat {
    let input = remaining(carry, rest, end);
    let read = if matched_terminals(steps, index, input) < input.len() {
        matched_terminals(steps, index, input) + 1
    } else {
        input.len()
    };
    let own = if carry is Some {
        read - 1
    } else {
        read as int
    };
    if own < 0 {
        0
    } else if own > rest.len() {
        rest.len()
    } else {
        own as nat
    }
}

} // verus!
