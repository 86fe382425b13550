use recognizer::parser::Token;
use recognizer::rules::rule_c::construct_c;
use recognizer::rules::rule_r::construct_r;
use recognizer::rules::{Rule, RuleSet, RuleStep};
use recognizer::store::Store;

fn terminals(kinds: &[Token]) -> Rule {
    Rule { steps: kinds.iter().map(|k| RuleStep::Terminal(*k)).collect() }
}

fn steps_of(set: &RuleSet) -> Vec<Vec<RuleStep>> {
    set.rules.iter().map(|r| r.steps.clone()).collect()
}

#[test]
fn new_store_is_empty() {
    let store = Store::new();
    assert_eq!(store.len(), 0);
    assert!(store.get_rule_set("C").is_none());
    assert_eq!(store.index_of("C"), None);
    assert!(store.rule_set_at(0).is_none());
    assert!(store.get_all_rules().is_empty());
    assert_eq!(Store::default().len(), 0);
}

#[test]
fn rule_sets_are_found_under_their_names() {
    let mut store = Store::new();
    store.add_rule_set("C".to_string(), construct_c());
    store.add_rule_set("R".to_string(), construct_r());
    assert_eq!(store.len(), 2);
    assert_eq!(store.index_of("C"), Some(0));
    assert_eq!(store.index_of("R"), Some(1));
    assert_eq!(store.index_of("c"), None);
    assert_eq!(store.index_of(""), None);
    assert_eq!(steps_of(store.get_rule_set("C").unwrap()), steps_of(&construct_c()));
    assert_eq!(steps_of(store.get_rule_set("R").unwrap()), steps_of(&construct_r()));
    assert!(store.get_rule_set("D").is_none());
    assert_eq!(steps_of(store.rule_set_at(1).unwrap()), steps_of(&construct_r()));
    assert!(store.rule_set_at(2).is_none());
}

#[test]
fn a_name_that_is_there_already_is_overwritten_in_place() {
    let mut store = Store::new();
    store.add_rule_set("C".to_string(), construct_c());
    store.add_rule_set("R".to_string(), construct_r());
    store.add_rule_set("C".to_string(), RuleSet::new(vec![terminals(&[Token::Number])]));
    assert_eq!(store.len(), 2);
    assert_eq!(store.index_of("C"), Some(0));
    assert_eq!(store.index_of("R"), Some(1));
    assert_eq!(
        steps_of(store.get_rule_set("C").unwrap()),
        vec![vec![RuleStep::Terminal(Token::Number)]]
    );
    assert_eq!(steps_of(store.get_rule_set("R").unwrap()), steps_of(&construct_r()));
}

#[test]
fn all_rules_come_in_the_order_of_the_table() {
    let mut store = Store::new();
    store.add_rule_set("R".to_string(), construct_r());
    store.add_rule_set("E".to_string(), RuleSet::new(vec![]));
    store.add_rule_set("C".to_string(), construct_c());
    let all: Vec<Vec<RuleStep>> = store.get_all_rules().into_iter().map(|r| r.steps).collect();
    let mut expected = steps_of(&construct_r());
    expected.extend(steps_of(&construct_c()));
    assert_eq!(all, expected);
    assert_eq!(all.len(), 5);
}

#[test]
fn the_rule_set_c_has_its_terminals_and_epsilon() {
    let c = construct_c();
    assert_eq!(
        steps_of(&c),
        vec![
            vec![
                RuleStep::Terminal(Token::Contact),
                RuleStep::Terminal(Token::Identifier),
                RuleStep::Terminal(Token::Identifier),
                RuleStep::Terminal(Token::Number),
                RuleStep::Terminal(Token::Number),
            ],
            vec![],
        ]
    );
}

#[test]
fn the_rule_set_r_has_its_terminals_twice_and_epsilon() {
    let r = construct_r();
    let line = vec![
        RuleStep::Terminal(Token::Options),
        RuleStep::Terminal(Token::Number),
        RuleStep::Terminal(Token::Number),
        RuleStep::Terminal(Token::Number),
    ];
    assert_eq!(steps_of(&r), vec![line.clone(), line, vec![]]);
}

#[test]
fn rule_set_keeps_the_rules_it_is_made_of() {
    let set = RuleSet::new(vec![terminals(&[Token::End]), terminals(&[])]);
    assert_eq!(steps_of(&set), vec![vec![RuleStep::Terminal(Token::End)], vec![]]);
    let copy = set.clone();
    assert_eq!(steps_of(&copy), steps_of(&set));
    let rule = terminals(&[Token::Contact, Token::Number]);
    assert_eq!(rule.clone().steps, rule.steps);
}

#[test]
fn token_names() {
    assert_eq!(Token::from_string("Contact"), Token::Contact);
    assert_eq!(Token::from_string("Options"), Token::Options);
    assert_eq!(Token::from_string("Identifier"), Token::Identifier);
    assert_eq!(Token::from_string("Number"), Token::Number);
    assert_eq!(Token::from_string("End"), Token::End);
    for name in ["Contact", "Options", "Identifier", "Number", "End"] {
        assert!(Token::is_name(name));
    }
}

#[test]
fn names_of_no_token_kind() {
    for name in ["", "contact", "NUMBER", "Rate", "Delay", "Option", "Numbers", " End", "End ", "rate"] {
        assert!(!Token::is_name(name));
    }
}

#[test]
fn a_copy_of_a_store_holds_the_same_table() {
    let mut store = Store::new();
    store.add_rule_set("C".to_string(), construct_c());
    store.add_rule_set("R".to_string(), construct_r());
    let copy = store.clone();
    assert_eq!(copy.len(), 2);
    assert_eq!(copy.index_of("C"), Some(0));
    assert_eq!(copy.index_of("R"), Some(1));
    assert_eq!(steps_of(copy.get_rule_set("C").unwrap()), steps_of(&construct_c()));
    assert_eq!(steps_of(copy.get_rule_set("R").unwrap()), steps_of(&construct_r()));
    // The copy is a store of its own.
    store.add_rule_set("C".to_string(), RuleSet::new(vec![]));
    assert_eq!(steps_of(copy.get_rule_set("C").unwrap()), steps_of(&construct_c()));
    assert!(steps_of(store.get_rule_set("C").unwrap()).is_empty());
}
