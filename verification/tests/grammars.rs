use recognizer::grammar::{Grammar, GrammarError, GrammarRule, GrammarSet};
use recognizer::parser::Token;
use recognizer::rules::RuleStep;
use recognizer::store::Store;

fn rule(terminals: &[&str], non_terminal: Option<&str>) -> GrammarRule {
    GrammarRule {
        terminals: terminals.iter().map(|t| t.to_string()).collect(),
        non_terminal: non_terminal.map(|n| n.to_string()),
    }
}

fn set(name: &str, rules: Vec<GrammarRule>) -> GrammarSet {
    GrammarSet { name: name.to_string(), rules }
}

fn steps_under(store: &Store, name: &str) -> Vec<Vec<RuleStep>> {
    store.get_rule_set(name).unwrap().rules.iter().map(|r| r.steps.clone()).collect()
}

fn reference_grammar() -> Grammar {
    Grammar {
        sets: vec![
            set(
                "C",
                vec![
                    rule(&["Contact", "Identifier", "Identifier", "Number", "Number"], Some("R")),
                    rule(&[], None),
                ],
            ),
            set(
                "R",
                vec![
                    rule(&["Options", "Number", "Number", "Number"], Some("R")),
                    rule(&["Options", "Number", "Number", "Number"], Some("C")),
                    rule(&[], None),
                ],
            ),
        ],
    }
}

fn error_of(grammar: Grammar) -> GrammarError {
    match grammar.validate() {
        Ok(()) => panic!("the grammar is well formed"),
        Err(error) => error,
    }
}

#[test]
fn rule_without_reference_becomes_its_terminal_steps() {
    let built = rule(&["Contact", "Number", "End"], Some("R")).to_rule_without_non_terminal();
    assert_eq!(
        built.steps,
        vec![
            RuleStep::Terminal(Token::Contact),
            RuleStep::Terminal(Token::Number),
            RuleStep::Terminal(Token::End),
        ]
    );
    assert!(rule(&[], None).to_rule_without_non_terminal().steps.is_empty());
}

#[test]
fn rule_tells_whether_its_terminals_are_known() {
    assert!(rule(&["Contact", "Number", "End"], Some("R")).has_known_terminals());
    assert!(rule(&[], None).has_known_terminals());
    assert!(!rule(&["Contact", "Rate"], None).has_known_terminals());
    assert!(!rule(&["number"], Some("R")).has_known_terminals());
}

#[test]
fn set_without_references_keeps_the_order_of_its_rules() {
    let built = set("S", vec![rule(&["Number"], Some("S")), rule(&[], None), rule(&["End"], None)])
        .to_rule_set_without_non_terminal();
    let steps: Vec<Vec<RuleStep>> = built.rules.iter().map(|r| r.steps.clone()).collect();
    assert_eq!(
        steps,
        vec![
            vec![RuleStep::Terminal(Token::Number)],
            vec![],
            vec![RuleStep::Terminal(Token::End)],
        ]
    );
}

#[test]
fn set_tells_whether_its_terminals_are_known() {
    assert!(set("S", vec![rule(&["Number"], Some("S")), rule(&[], None)]).has_known_terminals());
    assert!(set("S", vec![]).has_known_terminals());
    assert!(!set("S", vec![rule(&["Number"], None), rule(&["number"], None)]).has_known_terminals());
}

#[test]
fn reference_grammar_is_built_with_its_links() {
    let store = reference_grammar().to_store();
    assert_eq!(store.len(), 2);
    assert_eq!(store.index_of("C"), Some(0));
    assert_eq!(store.index_of("R"), Some(1));
    let line = vec![
        RuleStep::Terminal(Token::Options),
        RuleStep::Terminal(Token::Number),
        RuleStep::Terminal(Token::Number),
        RuleStep::Terminal(Token::Number),
    ];
    let mut to_r = line.clone();
    to_r.push(RuleStep::Link(1));
    let mut to_c = line;
    to_c.push(RuleStep::Link(0));
    assert_eq!(
        steps_under(&store, "C"),
        vec![
            vec![
                RuleStep::Terminal(Token::Contact),
                RuleStep::Terminal(Token::Identifier),
                RuleStep::Terminal(Token::Identifier),
                RuleStep::Terminal(Token::Number),
                RuleStep::Terminal(Token::Number),
                RuleStep::Link(1),
            ],
            vec![],
        ]
    );
    assert_eq!(steps_under(&store, "R"), vec![to_r, to_c, vec![]]);
}

#[test]
fn every_link_of_a_built_store_leads_into_the_store() {
    let store = reference_grammar().to_store();
    for rule in store.get_all_rules() {
        for step in rule.steps {
            if let RuleStep::Link(target) = step {
                assert!(store.rule_set_at(target).is_some());
            }
        }
    }
}

#[test]
fn empty_grammar_gives_an_empty_store() {
    let store = Grammar { sets: vec![] }.to_store();
    assert_eq!(store.len(), 0);
}

#[test]
fn a_link_stands_on_the_alternative_of_its_own_rule() {
    let grammar = Grammar {
        sets: vec![set("S", vec![rule(&["Number"], None), rule(&["Contact"], Some("S"))])],
    };
    assert_eq!(grammar.validate(), Ok(()));
    let store = grammar.to_store();
    assert_eq!(
        steps_under(&store, "S"),
        vec![
            vec![RuleStep::Terminal(Token::Number)],
            vec![RuleStep::Terminal(Token::Contact), RuleStep::Link(0)],
        ]
    );
    let grammar = Grammar {
        sets: vec![
            set("S", vec![rule(&["Number"], None), rule(&["Contact"], Some("T")), rule(&["End"], None)]),
            set("T", vec![rule(&[], None)]),
        ],
    };
    let store = grammar.to_store();
    assert_eq!(
        steps_under(&store, "S"),
        vec![
            vec![RuleStep::Terminal(Token::Number)],
            vec![RuleStep::Terminal(Token::Contact), RuleStep::Link(1)],
            vec![RuleStep::Terminal(Token::End)],
        ]
    );
    assert_eq!(steps_under(&store, "T"), vec![Vec::<RuleStep>::new()]);
}

#[test]
fn rules_with_and_without_references_keep_their_places() {
    let grammar = Grammar {
        sets: vec![
            set(
                "S",
                vec![
                    rule(&["Number"], Some("U")),
                    rule(&["Contact"], None),
                    rule(&["Options"], Some("T")),
                    rule(&[], Some("S")),
                ],
            ),
            set("T", vec![]),
            set("U", vec![]),
        ],
    };
    let store = grammar.to_store();
    assert_eq!(
        steps_under(&store, "S"),
        vec![
            vec![RuleStep::Terminal(Token::Number), RuleStep::Link(2)],
            vec![RuleStep::Terminal(Token::Contact)],
            vec![RuleStep::Terminal(Token::Options), RuleStep::Link(1)],
            vec![RuleStep::Link(0)],
        ]
    );
}

#[test]
fn well_formed_grammars_pass_the_check() {
    assert_eq!(reference_grammar().validate(), Ok(()));
    assert_eq!(Grammar { sets: vec![] }.validate(), Ok(()));
    assert!(reference_grammar().declares("C"));
    assert!(reference_grammar().declares("R"));
    assert!(!reference_grammar().declares("c"));
    assert!(!reference_grammar().declares(""));
}

#[test]
fn unknown_terminal_is_an_error() {
    let grammar = Grammar { sets: vec![set("S", vec![rule(&["Number", "Word"], None)])] };
    assert_eq!(error_of(grammar), GrammarError::UnknownTerminal);
}

#[test]
fn duplicate_set_is_an_error() {
    let grammar = Grammar {
        sets: vec![
            set("S", vec![rule(&["Number"], None)]),
            set("T", vec![]),
            set("S", vec![rule(&["Contact"], None)]),
        ],
    };
    assert_eq!(error_of(grammar), GrammarError::DuplicateSet);
}

#[test]
fn unknown_non_terminal_is_an_error() {
    let grammar = Grammar { sets: vec![set("S", vec![rule(&["Number"], Some("T"))])] };
    assert_eq!(error_of(grammar), GrammarError::UnknownNonTerminal);
    let grammar = Grammar { sets: vec![set("S", vec![rule(&[], Some("s"))])] };
    assert_eq!(error_of(grammar), GrammarError::UnknownNonTerminal);
}

#[test]
fn errors_come_in_a_fixed_order() {
    let all_three = Grammar {
        sets: vec![
            set("S", vec![rule(&[], Some("X"))]),
            set("S", vec![rule(&["Word"], None)]),
        ],
    };
    assert_eq!(error_of(all_three), GrammarError::UnknownTerminal);
    let two = Grammar {
        sets: vec![set("S", vec![rule(&[], Some("X"))]), set("S", vec![rule(&["End"], None)])],
    };
    assert_eq!(error_of(two), GrammarError::DuplicateSet);
}

#[test]
fn a_rule_may_refer_to_a_set_declared_behind_it_or_to_its_own() {
    let grammar = Grammar {
        sets: vec![
            set("A", vec![rule(&["Number"], Some("B"))]),
            set("B", vec![rule(&["Contact"], Some("B")), rule(&[], None)]),
        ],
    };
    let store = grammar.to_store();
    assert_eq!(
        steps_under(&store, "A"),
        vec![vec![RuleStep::Terminal(Token::Number), RuleStep::Link(1)]]
    );
    assert_eq!(
        steps_under(&store, "B"),
        vec![vec![RuleStep::Terminal(Token::Contact), RuleStep::Link(1)], vec![]]
    );
}

#[test]
fn a_copy_of_a_grammar_says_the_same() {
    let grammar = reference_grammar();
    let copy = grammar.clone();
    assert_eq!(copy.sets.len(), 2);
    for (left, right) in grammar.sets.iter().zip(copy.sets.iter()) {
        assert_eq!(left.name, right.name);
        assert_eq!(left.rules.len(), right.rules.len());
        for (a, b) in left.rules.iter().zip(right.rules.iter()) {
            assert_eq!(a.terminals, b.terminals);
            assert_eq!(a.non_terminal, b.non_terminal);
        }
    }
    let one = rule(&["Number", "End"], Some("S")).clone();
    assert_eq!(one.terminals, vec!["Number".to_string(), "End".to_string()]);
    assert_eq!(one.non_terminal, Some("S".to_string()));
    let two = set("S", vec![rule(&[], None)]).clone();
    assert_eq!(two.name, "S");
    assert_eq!(two.rules.len(), 1);
    assert!(two.rules[0].terminals.is_empty());
    assert_eq!(two.rules[0].non_terminal, None);
}
