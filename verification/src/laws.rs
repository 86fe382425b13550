//! What holds of the recognizer and of the building of stores, for every
//! grammar and every input.
use vstd::prelude::*;

use crate::cursor::Lexeme;
use crate::grammar::GrammarView;
use crate::bound::{lemma_rule_accepts_step_by_step, lemma_set_accepts_one_of};
use crate::language::{first_accepting, remaining, rule_accepts, set_accepts};
use crate::parser::Token;
use crate::rules::RuleStep;
use crate::store::{first_place, graph_of, links_resolve, place_of};

verus! {

/// An alternative without steps accepts at the end of the input and nowhere
/// else: where nothing is left to read, or where the next item is the end
/// sentinel.
pub proof fn lemma_epsilon_accepts_at_end(graph: Seq<Seq<Seq<RuleStep>>>, input: Seq<Lexeme>)
    ensures
        rule_accepts(graph, Seq::empty(), 0, input) <==> (input.len() == 0 || input[0]
            == Lexeme::Token(Token::End)),
{
    lemma_rule_accepts_step_by_step(graph, Seq::empty(), 0, input);
}

/// At the start of a walk, an alternative without steps accepts a stream of
/// tokens that holds no end sentinel of its own exactly if the stream is
/// empty.
pub proof fn lemma_epsilon_accepts_empty_stream(graph: Seq<Seq<Seq<RuleStep>>>, tokens: Seq<Lexeme>)
    requires
        forall|i: int| 0 <= i < tokens.len() ==> tokens[i] != Lexeme::Token(Token::End),
    ensures
        rule_accepts(graph, Seq::empty(), 0, remaining(None, tokens, false)) <==> tokens.len() == 0,
{
    lemma_rule_accepts_step_by_step(graph, Seq::empty(), 0, remaining(None, tokens, false));
}

/// A list of alternatives accepts exactly if it has a first alternative
/// that accepts. The recognizer answers by that one: an input that several
/// alternatives accept is accepted through the first of them.
pub proof fn lemma_accepted_through_first(
    graph: Seq<Seq<Seq<RuleStep>>>,
    rules: Seq<Seq<RuleStep>>,
    input: Seq<Lexeme>,
)
    requires
        rules.len() <= usize::MAX,
    ensures
        set_accepts(graph, rules, input) <==> exists|at: usize|
            first_accepting(graph, rules, input, Some(at)),
        forall|a: usize, b: usize|
            first_accepting(graph, rules, input, Some(a)) && first_accepting(
                graph,
                rules,
                input,
                Some(b),
            ) ==> a == b,
{
    lemma_set_accepts_one_of(graph, rules, input);
    if set_accepts(graph, rules, input) {
        let i = choose|i: int|
            0 <= i < rules.len() && rule_accepts(graph, #[trigger] rules[i], 0, input);
        lemma_first_exists(graph, rules, input, i);
    }
}

proof fn lemma_first_exists(
    graph: Seq<Seq<Seq<RuleStep>>>,
    rules: Seq<Seq<RuleStep>>,
    input: Seq<Lexeme>,
    i: int,
)
    requires
        rules.len() <= usize::MAX,
        0 <= i < rules.len(),
        rule_accepts(graph, rules[i], 0, input),
    ensures
        exists|at: usize| first_accepting(graph, rules, input, Some(at)),
    decreases i,
{
    if exists|j: int| 0 <= j < i && rule_accepts(graph, #[trigger] rules[j], 0, input) {
        let j = choose|j: int| 0 <= j < i && rule_accepts(graph, #[trigger] rules[j], 0, input);
        lemma_first_exists(graph, rules, input, j);
    } else {
        assert(first_accepting(graph, rules, input, Some(i as usize)));
    }
}

/// Building a store moves no terminal step: every alternative of the table
/// that a grammar describes begins with the terminal steps of its rule, in
/// their order, and what follows them is nothing or one link step.
pub proof fn lemma_terminals_stay_in_front(grammar: GrammarView, k: int, j: int)
    requires
        0 <= k < grammar.sets.len(),
        0 <= j < grammar.sets[k].rules.len(),
    ensures
        ({
            let steps = grammar.compiled()[k].1[j];
            let terminals = grammar.sets[k].rules[j].terminal_steps();
            ||| steps == terminals
            ||| steps.len() == terminals.len() + 1 && steps.drop_last() == terminals
                && steps.last() is Link
        }),
{
    let steps = grammar.compiled()[k].1[j];
    let terminals = grammar.sets[k].rules[j].terminal_steps();
    if steps != terminals {
        assert(steps.drop_last() =~= terminals);
    }
}

/// The alternative of a rule that refers to a grammar set is made of the
/// rule's terminal steps and, behind them, one link step to the grammar set
/// that the rule refers to.
pub proof fn lemma_link_follows_terminals(grammar: GrammarView, k: int, j: int)
    requires
        0 <= k < grammar.sets.len(),
        0 <= j < grammar.sets[k].rules.len(),
        grammar.sets[k].rules[j].non_terminal is Some,
    ensures
        grammar.compiled()[k].1[j] == grammar.sets[k].rules[j].terminal_steps().push(
            RuleStep::Link(
                place_of(
                    grammar.names(),
                    grammar.sets[k].rules[j].non_terminal.unwrap(),
                ).unwrap() as usize,
            ),
        ),
{
}

/// Each alternative holds the link step of its own rule and no other: a
/// step of an alternative is a link step exactly if the rule refers to a
/// grammar set and the step is the one behind the rule's terminals. So the
/// alternative of a rule with a reference holds one link step, and the
/// alternative of a rule without one holds none.
pub proof fn lemma_one_link_for_each_reference(grammar: GrammarView, k: int, j: int)
    requires
        0 <= k < grammar.sets.len(),
        0 <= j < grammar.sets[k].rules.len(),
    ensures
        ({
            let steps = grammar.compiled()[k].1[j];
            let rule = grammar.sets[k].rules[j];
            &&& steps.len() == rule.terminals.len() + if rule.non_terminal is Some {
                1int
            } else {
                0int
            }
            &&& forall|i: int|
                0 <= i < steps.len() ==> (#[trigger] steps[i] is Link <==> rule.non_terminal is Some && i
                    == rule.terminals.len())
        }),
{
}

/// The store of a grammar is complete: where every reference of the
/// grammar names one of its grammar sets, every link step of the table that
/// the grammar describes leads to a rule set of the table, and it is the
/// rule set under the name that the reference gives.
pub proof fn lemma_links_lead_into_the_table(grammar: GrammarView)
    requires
        grammar.references_defined(),
    ensures
        links_resolve(graph_of(grammar.compiled())),
        forall|k: int, j: int|
            0 <= k < grammar.sets.len() && 0 <= j < grammar.sets[k].rules.len() ==> (
            (#[trigger] grammar.sets[k].rules[j]).non_terminal matches Some(name) ==> first_place(
                grammar.names(),
                name,
                place_of(grammar.names(), name).unwrap(),
            )),
{
    let graph = graph_of(grammar.compiled());
    assert forall|s: int, r: int, i: int|
        0 <= s < graph.len() && 0 <= r < graph[s].len() && 0 <= i < graph[s][r].len() implies (
    #[trigger] graph[s][r][i] matches RuleStep::Link(target) ==> target < graph.len()) by {
        if grammar.sets[s].rules[r].non_terminal is Some {
            let name = grammar.sets[s].rules[r].non_terminal.unwrap();
            assert(first_place(grammar.names(), name, place_of(grammar.names(), name).unwrap()));
        }
    }
}

} // verus!
