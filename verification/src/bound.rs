//! The bound on link steps loses nothing.
//!
//! The recognizer follows at most as many link steps in a row, without
//! consuming an item in between, as the graph has rule sets. A longer row
//! would come through one rule set twice with the same input before it, and
//! what the second visit accepts the first one accepts by a shorter way. So
//! an input that is accepted under any bound is accepted under this one,
//! and what the recognizer answers is acceptance as the rules of matching
//! define it, step by step.
use vstd::prelude::*;
use vstd::set_lib::{lemma_int_range, lemma_len_subset, set_int_range};

use crate::cursor::Lexeme;
use crate::language::{
    accepts, remaining, rule_accepts, rule_accepts_within, set_accepts, set_accepts_within, step_accepts,
};
use crate::rules::RuleStep;

verus! {

/// A larger bound accepts what a smaller one accepts.
pub proof fn lemma_rule_accepts_under_larger_bound(
    graph: Seq<Seq<Seq<RuleStep>>>,
    steps: Seq<RuleStep>,
    index: nat,
    input: Seq<Lexeme>,
    depth: nat,
    cap: nat,
    larger_depth: nat,
    larger_cap: nat,
)
    requires
        depth <= larger_depth,
        cap <= larger_cap,
        rule_accepts_within(graph, steps, index, input, depth, cap),
    ensures
        rule_accepts_within(graph, steps, index, input, larger_depth, larger_cap),
    decreases input.len(), depth, 0nat,
{
    if input.len() > 0 && index < steps.len() {
        match steps[index as int] {
            RuleStep::Terminal(_) => {
                lemma_rule_accepts_under_larger_bound(
                    graph,
                    steps,
                    index + 1,
                    input.skip(1),
                    cap,
                    cap,
                    larger_cap,
                    larger_cap,
                );
            },
            RuleStep::Link(target) => {
                lemma_set_accepts_under_larger_bound(
                    graph,
                    graph[target as int],
                    input,
                    (depth - 1) as nat,
                    cap,
                    (larger_depth - 1) as nat,
                    larger_cap,
                );
            },
        }
    }
}

/// A larger bound accepts what a smaller one accepts.
pub proof fn lemma_set_accepts_under_larger_bound(
    graph: Seq<Seq<Seq<RuleStep>>>,
    rules: Seq<Seq<RuleStep>>,
    input: Seq<Lexeme>,
    depth: nat,
    cap: nat,
    larger_depth: nat,
    larger_cap: nat,
)
    requires
        depth <= larger_depth,
        cap <= larger_cap,
        set_accepts_within(graph, rules, input, depth, cap),
    ensures
        set_accepts_within(graph, rules, input, larger_depth, larger_cap),
    decreases input.len(), depth, 1nat,
{
    let i = choose|i: int|
        0 <= i < rules.len() && rule_accepts_within(graph, #[trigger] rules[i], 0, input, depth, cap);
    lemma_rule_accepts_under_larger_bound(
        graph,
        rules[i],
        0,
        input,
        depth,
        cap,
        larger_depth,
        larger_cap,
    );
}

/// Tells whether rule set `set` of the graph accepts `input` on a way that
/// follows at most `depth` more link steps before it consumes an item, and
/// as many in a row as the graph has rule sets from then on.
spec fn reaches(graph: Seq<Seq<Seq<RuleStep>>>, input: Seq<Lexeme>, set: int, depth: nat) -> bool {
    &&& 0 <= set < graph.len()
    &&& set_accepts_within(graph, graph[set], input, depth, graph.len())
}

/// Tells whether `depth` is the least depth at which `set` accepts.
spec fn reaches_first_at(
    graph: Seq<Seq<Seq<RuleStep>>>,
    input: Seq<Lexeme>,
    set: int,
    depth: nat,
) -> bool {
    &&& reaches(graph, input, set, depth)
    &&& depth > 0 ==> !reaches(graph, input, set, (depth - 1) as nat)
}

/// A rule set that accepts at some depth has a least depth at which it
/// accepts.
proof fn lemma_least_depth(
    graph: Seq<Seq<Seq<RuleStep>>>,
    input: Seq<Lexeme>,
    set: int,
    depth: nat,
) -> (least: nat)
    requires
        reaches(graph, input, set, depth),
    ensures
        least <= depth,
        reaches_first_at(graph, input, set, least),
    decreases depth,
{
    if depth > 0 && reaches(graph, input, set, (depth - 1) as nat) {
        lemma_least_depth(graph, input, set, (depth - 1) as nat)
    } else {
        depth
    }
}

/// The rule sets on a shortest way differ from each other: a rule set
/// whose least depth is `depth` begins a row of `depth + 1` rule sets of the
/// graph, no two of them the same.
proof fn lemma_shortest_way(
    graph: Seq<Seq<Seq<RuleStep>>>,
    input: Seq<Lexeme>,
    set: int,
    depth: nat,
) -> (way: Set<int>)
    requires
        reaches_first_at(graph, input, set, depth),
    ensures
        way.finite(),
        way.len() == depth + 1,
        forall|member: int| way.contains(member) ==> reaches(graph, input, member, depth),
    decreases depth,
{
    if depth == 0 {
        set![set]
    } else {
        let cap = graph.len();
        let rules = graph[set];
        let shallower = (depth - 1) as nat;
        let i = choose|i: int|
            0 <= i < rules.len() && rule_accepts_within(graph, #[trigger] rules[i], 0, input, depth, cap);
        assert(!rule_accepts_within(graph, rules[i], 0, input, shallower, cap));
        let target = rules[i][0]->Link_0;
        assert(rules[i][0] is Link);
        assert(reaches(graph, input, target as int, shallower));
        if shallower > 0 && reaches(graph, input, target as int, (shallower - 1) as nat) {
            assert(rule_accepts_within(graph, rules[i], 0, input, shallower, cap));
        }
        let rest = lemma_shortest_way(graph, input, target as int, shallower);
        let way = rest.insert(set);
        assert forall|member: int| way.contains(member) implies reaches(
            graph,
            input,
            member,
            depth,
        ) by {
            if member != set {
                lemma_set_accepts_under_larger_bound(
                    graph,
                    graph[member],
                    input,
                    shallower,
                    cap,
                    depth,
                    cap,
                );
            }
        }
        way
    }
}

/// A rule set that accepts at some depth accepts at a depth below the
/// number of rule sets.
proof fn lemma_short_way_exists(
    graph: Seq<Seq<Seq<RuleStep>>>,
    input: Seq<Lexeme>,
    set: int,
    depth: nat,
)
    requires
        reaches(graph, input, set, depth),
    ensures
        reaches(graph, input, set, (graph.len() - 1) as nat),
{
    let least = lemma_least_depth(graph, input, set, depth);
    let way = lemma_shortest_way(graph, input, set, least);
    let all = set_int_range(0, graph.len() as int);
    lemma_int_range(0, graph.len() as int);
    assert(way.subset_of(all));
    lemma_len_subset(way, all);
    lemma_set_accepts_under_larger_bound(
        graph,
        graph[set],
        input,
        least,
        graph.len(),
        (graph.len() - 1) as nat,
        graph.len(),
    );
}

/// What a walk accepts with items consumed under some bound, it accepts
/// under the bound of the graph from the first consumed item on.
proof fn lemma_rule_accepts_at_cap(
    graph: Seq<Seq<Seq<RuleStep>>>,
    steps: Seq<RuleStep>,
    index: nat,
    input: Seq<Lexeme>,
    depth: nat,
    cap: nat,
)
    requires
        rule_accepts_within(graph, steps, index, input, depth, cap),
    ensures
        rule_accepts_within(graph, steps, index, input, depth, graph.len()),
    decreases input.len(), 0nat, depth, 0nat,
{
    if input.len() > 0 && index < steps.len() {
        match steps[index as int] {
            RuleStep::Terminal(_) => {
                lemma_bound_is_enough_for_rule(graph, steps, index + 1, input.skip(1), cap, cap);
            },
            RuleStep::Link(target) => {
                lemma_set_accepts_at_cap(
                    graph,
                    graph[target as int],
                    input,
                    (depth - 1) as nat,
                    cap,
                );
            },
        }
    }
}

proof fn lemma_set_accepts_at_cap(
    graph: Seq<Seq<Seq<RuleStep>>>,
    rules: Seq<Seq<RuleStep>>,
    input: Seq<Lexeme>,
    depth: nat,
    cap: nat,
)
    requires
        set_accepts_within(graph, rules, input, depth, cap),
    ensures
        set_accepts_within(graph, rules, input, depth, graph.len()),
    decreases input.len(), 0nat, depth, 1nat,
{
    let i = choose|i: int|
        0 <= i < rules.len() && rule_accepts_within(graph, #[trigger] rules[i], 0, input, depth, cap);
    lemma_rule_accepts_at_cap(graph, rules[i], 0, input, depth, cap);
}

/// The bound of the recognizer is enough: what the steps of an alternative
/// accept when a walk may follow `depth` link steps in a row, and `cap` of
/// them once it has consumed an item, they accept when it may follow as many
/// as the graph has rule sets. This holds for every `depth` and `cap`, so no
/// bound accepts more than the recognizer does.
pub proof fn lemma_bound_is_enough_for_rule(
    graph: Seq<Seq<Seq<RuleStep>>>,
    steps: Seq<RuleStep>,
    index: nat,
    input: Seq<Lexeme>,
    depth: nat,
    cap: nat,
)
    requires
        rule_accepts_within(graph, steps, index, input, depth, cap),
    ensures
        rule_accepts_within(graph, steps, index, input, graph.len(), graph.len()),
    decreases input.len(), 1nat, 0nat, 0nat,
{
    if input.len() > 0 && index < steps.len() {
        match steps[index as int] {
            RuleStep::Terminal(_) => {
                lemma_bound_is_enough_for_rule(graph, steps, index + 1, input.skip(1), cap, cap);
            },
            RuleStep::Link(target) => {
                lemma_set_accepts_at_cap(
                    graph,
                    graph[target as int],
                    input,
                    (depth - 1) as nat,
                    cap,
                );
                lemma_short_way_exists(graph, input, target as int, (depth - 1) as nat);
            },
        }
    }
}

/// The bound of the recognizer is enough: what a list of alternatives
/// accepts under any bound, it accepts under the bound of the graph.
pub proof fn lemma_bound_is_enough_for_set(
    graph: Seq<Seq<Seq<RuleStep>>>,
    rules: Seq<Seq<RuleStep>>,
    input: Seq<Lexeme>,
    depth: nat,
    cap: nat,
)
    requires
        set_accepts_within(graph, rules, input, depth, cap),
    ensures
        set_accepts_within(graph, rules, input, graph.len(), graph.len()),
{
    let i = choose|i: int|
        0 <= i < rules.len() && rule_accepts_within(graph, #[trigger] rules[i], 0, input, depth, cap);
    lemma_bound_is_enough_for_rule(graph, rules[i], 0, input, depth, cap);
}

/// The bound of the recognizer decides acceptance: the steps of an
/// alternative accept an input exactly if they accept it on a walk that
/// follows no more link steps in a row than the graph has rule sets.
pub proof fn lemma_rule_accepts_within_bound(
    graph: Seq<Seq<Seq<RuleStep>>>,
    steps: Seq<RuleStep>,
    index: nat,
    input: Seq<Lexeme>,
)
    ensures
        rule_accepts(graph, steps, index, input) <==> rule_accepts_within(
            graph,
            steps,
            index,
            input,
            graph.len(),
            graph.len(),
        ),
{
    if rule_accepts(graph, steps, index, input) {
        let (depth, cap) = choose|depth: nat, cap: nat|
            rule_accepts_within(graph, steps, index, input, depth, cap);
        lemma_bound_is_enough_for_rule(graph, steps, index, input, depth, cap);
    }
}

/// The bound of the recognizer decides acceptance: a list of alternatives
/// accepts an input exactly if it accepts it on a walk that follows no more
/// link steps in a row than the graph has rule sets.
pub proof fn lemma_set_accepts_within_bound(
    graph: Seq<Seq<Seq<RuleStep>>>,
    rules: Seq<Seq<RuleStep>>,
    input: Seq<Lexeme>,
)
    ensures
        set_accepts(graph, rules, input) <==> set_accepts_within(
            graph,
            rules,
            input,
            graph.len(),
            graph.len(),
        ),
{
    if set_accepts(graph, rules, input) {
        let (depth, cap) = choose|depth: nat, cap: nat|
            set_accepts_within(graph, rules, input, depth, cap);
        lemma_bound_is_enough_for_set(graph, rules, input, depth, cap);
    }
}

/// A graph accepts a token stream exactly if one of its alternatives
/// accepts the stream followed by the end sentinel on a walk that follows no
/// more link steps in a row than the graph has rule sets.
pub proof fn lemma_accepts_within_bound(graph: Seq<Seq<Seq<RuleStep>>>, tokens: Seq<Lexeme>)
    ensures
        accepts(graph, tokens) <==> set_accepts_within(
            graph,
            graph.flatten(),
            remaining(None, tokens, false),
            graph.len(),
            graph.len(),
        ),
{
    lemma_set_accepts_within_bound(graph, graph.flatten(), remaining(None, tokens, false));
}

/// Acceptance obeys the rules of matching, step by step. With the input
/// used up, an alternative accepts exactly if its steps are used up. With
/// its steps used up, it accepts exactly if the next item is the end
/// sentinel. At a terminal step it accepts exactly if the next item is of
/// the kind of the step and the steps behind it accept the rest of the
/// input. At a link step it accepts exactly if the rule set that the step
/// leads to accepts the input.
pub proof fn lemma_rule_accepts_step_by_step(
    graph: Seq<Seq<Seq<RuleStep>>>,
    steps: Seq<RuleStep>,
    index: nat,
    input: Seq<Lexeme>,
)
    ensures
        rule_accepts(graph, steps, index, input) <==> step_accepts(graph, steps, index, input),
{
    if rule_accepts(graph, steps, index, input) {
        let (depth, cap) = choose|depth: nat, cap: nat|
            rule_accepts_within(graph, steps, index, input, depth, cap);
        if input.len() > 0 && index < steps.len() {
            match steps[index as int] {
                RuleStep::Terminal(_) => {
                    assert(rule_accepts_within(graph, steps, index + 1, input.skip(1), cap, cap));
                },
                RuleStep::Link(target) => {
                    assert(set_accepts_within(
                        graph,
                        graph[target as int],
                        input,
                        (depth - 1) as nat,
                        cap,
                    ));
                },
            }
        }
    }
    if step_accepts(graph, steps, index, input) {
        if input.len() > 0 && index < steps.len() {
            match steps[index as int] {
                RuleStep::Terminal(_) => {
                    let rest = input.skip(1);
                    let next = index + 1;
                    let (depth, cap) = choose|depth: nat, cap: nat|
                        rule_accepts_within(graph, steps, next, rest, depth, cap);
                    let most = if depth < cap {
                        cap
                    } else {
                        depth
                    };
                    lemma_rule_accepts_under_larger_bound(
                        graph,
                        steps,
                        next,
                        rest,
                        depth,
                        cap,
                        most,
                        most,
                    );
                    assert(rule_accepts_within(graph, steps, index, input, 0, most));
                },
                RuleStep::Link(target) => {
                    let (depth, cap) = choose|depth: nat, cap: nat|
                        set_accepts_within(graph, graph[target as int], input, depth, cap);
                    assert(rule_accepts_within(graph, steps, index, input, depth + 1, cap));
                },
            }
        } else {
            assert(rule_accepts_within(graph, steps, index, input, 0, 0));
        }
    }
}

/// A list of alternatives accepts an input exactly if one of the
/// alternatives, taken from its first step, accepts it.
pub proof fn lemma_set_accepts_one_of(
    graph: Seq<Seq<Seq<RuleStep>>>,
    rules: Seq<Seq<RuleStep>>,
    input: Seq<Lexeme>,
)
    ensures
        set_accepts(graph, rules, input) <==> exists|i: int|
            0 <= i < rules.len() && rule_accepts(graph, #[trigger] rules[i], 0, input),
{
    if set_accepts(graph, rules, input) {
        let (depth, cap) = choose|depth: nat, cap: nat|
            set_accepts_within(graph, rules, input, depth, cap);
        let i = choose|i: int|
            0 <= i < rules.len() && rule_accepts_within(graph, #[trigger] rules[i], 0, input, depth, cap);
        assert(rule_accepts(graph, rules[i], 0, input));
    }
    if exists|i: int| 0 <= i < rules.len() && rule_accepts(graph, #[trigger] rules[i], 0, input) {
        let i = choose|i: int| 0 <= i < rules.len() && rule_accepts(graph, #[trigger] rules[i], 0, input);
        let (depth, cap) = choose|depth: nat, cap: nat|
            rule_accepts_within(graph, rules[i], 0, input, depth, cap);
        assert(set_accepts_within(graph, rules, input, depth, cap));
    }
}

} // verus!
