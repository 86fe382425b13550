//! The grammar description and the building of a store from it.
use vstd::prelude::*;

use crate::parser::{token_named, Token};
use crate::rules::{Rule, RuleSet, RuleStep};
use crate::store::{first_place, graph_of, lemma_place_exists, links_resolve, place_of, Store};
use crate::text::same_text;

verus! {

/// Why a grammar description cannot be built into a store.
#[derive(Clone, Copy, Debug, PartialEq, Eq, Structural)]
pub enum GrammarError {
    /// A terminal name is the name of no token kind.
    UnknownTerminal,
    /// Two grammar sets have the same name.
    DuplicateSet,
    /// A rule refers to a grammar set that the description does not define.
    UnknownNonTerminal,
}

/// One alternative of a grammar set, as it is written down: the names of
/// its terminals in order and, behind them, at most one reference to a
/// grammar set.
#[derive(Debug)]
pub struct GrammarRule {
    pub terminals: Vec<String>,
    pub non_terminal: Option<String>,
}

/// A named list of alternatives, as it is written down.
#[derive(Debug)]
pub struct GrammarSet {
    pub name: String,
    pub rules: Vec<GrammarRule>,
}

/// A grammar description: its grammar sets in the order of their
/// declaration.
#[derive(Debug)]
pub struct Grammar {
    pub sets: Vec<GrammarSet>,
}

/// What a grammar rule says.
pub struct GrammarRuleView {
    pub terminals: Seq<Seq<char>>,
    pub non_terminal: Option<Seq<char>>,
}

/// What a grammar set says.
pub struct GrammarSetView {
    pub name: Seq<char>,
    pub rules: Seq<GrammarRuleView>,
}

/// What a grammar description says.
pub struct GrammarView {
    pub sets: Seq<GrammarSetView>,
}

impl View for GrammarRule {
    type V = GrammarRuleView;

    open spec fn view(&self) -> GrammarRuleView {
        GrammarRuleView {
            terminals: Seq::new(self.terminals@.len(), |i: int| self.terminals@[i]@),
            non_terminal: match self.non_terminal {
                Some(name) => Some(name@),
                None => None,
            },
        }
    }
}

impl View for GrammarSet {
    type V = GrammarSetView;

    open spec fn view(&self) -> GrammarSetView {
        GrammarSetView {
            name: self.name@,
            rules: Seq::new(self.rules@.len(), |j: int| self.rules@[j]@),
        }
    }
}

impl View for Grammar {
    type V = GrammarView;

    open spec fn view(&self) -> GrammarView {
        GrammarView { sets: Seq::new(self.sets@.len(), |k: int| self.sets@[k]@) }
    }
}

impl GrammarRuleView {
    /// Tells whether every terminal name of the rule names a token kind.
    pub open spec fn terminals_known(self) -> bool {
        forall|i: int|
            0 <= i < self.terminals.len() ==> token_named(#[trigger] self.terminals[i]) is Some
    }

    /// The terminal steps that the rule's terminal names stand for.
    pub open spec fn terminal_steps(self) -> Seq<RuleStep> {
        Seq::new(
            self.terminals.len(),
            |i: int| RuleStep::Terminal(token_named(self.terminals[i]).unwrap()),
        )
    }
}

impl GrammarSetView {
    /// Tells whether every terminal name of the set names a token kind.
    pub open spec fn terminals_known(self) -> bool {
        forall|j: int| 0 <= j < self.rules.len() ==> (#[trigger] self.rules[j]).terminals_known()
    }

    /// The alternatives of the set with their terminal steps alone.
    pub open spec fn skeleton(self) -> Seq<Seq<RuleStep>> {
        Seq::new(self.rules.len(), |j: int| self.rules[j].terminal_steps())
    }
}

impl GrammarView {
    /// The names of the grammar sets, in the order of their declaration.
    pub open spec fn names(self) -> Seq<Seq<char>> {
        Seq::new(self.sets.len(), |k: int| self.sets[k].name)
    }

    /// Tells whether every terminal name of the grammar names a token kind.
    pub open spec fn terminals_known(self) -> bool {
        forall|k: int| 0 <= k < self.sets.len() ==> (#[trigger] self.sets[k]).terminals_known()
    }

    /// Tells whether no two grammar sets have the same name.
    pub open spec fn names_distinct(self) -> bool {
        forall|a: int, b: int|
            0 <= a < b < self.sets.len() ==> (#[trigger] self.sets[a]).name != (
            #[trigger] self.sets[b]).name
    }

    /// Tells whether every reference of a rule names a grammar set of the
    /// grammar.
    pub open spec fn references_defined(self) -> bool {
        forall|k: int, j: int|
            0 <= k < self.sets.len() && 0 <= j < self.sets[k].rules.len() ==> (
            (#[trigger] self.sets[k].rules[j]).non_terminal matches Some(name) ==> place_of(
                self.names(),
                name,
            ) is Some)
    }

    /// Tells whether the grammar can be built into a store: every terminal
    /// name names a token kind, no two sets have the same name, and every
    /// reference names a set of the grammar.
    pub open spec fn well_formed(self) -> bool {
        &&& self.terminals_known()
        &&& self.names_distinct()
        &&& self.references_defined()
    }

    /// The steps of alternative `j` of set `k`: the terminal steps of the
    /// rule and, where the rule refers to a grammar set, one link step
    /// behind them that leads to that set.
    pub open spec fn linked_rule(self, k: int, j: int) -> Seq<RuleStep> {
        let steps = self.sets[k].rules[j].terminal_steps();
        match self.sets[k].rules[j].non_terminal {
            Some(name) => steps.push(RuleStep::Link(place_of(self.names(), name).unwrap() as usize)),
            None => steps,
        }
    }

    /// The table in which the references of the sets before set `k` are
    /// resolved, and of set `k` those of the rules before rule `j`; the other
    /// alternatives hold their terminal steps alone.
    pub open spec fn linked_up_to(self, k: int, j: int) -> Seq<(Seq<char>, Seq<Seq<RuleStep>>)> {
        Seq::new(
            self.sets.len(),
            |s: int|
                (
                    self.sets[s].name,
                    Seq::new(
                        self.sets[s].rules.len(),
                        |r: int|
                            if s < k || (s == k && r < j) {
                                self.linked_rule(s, r)
                            } else {
                                self.sets[s].rules[r].terminal_steps()
                            },
                    ),
                ),
        )
    }

    /// The table that the grammar describes: each grammar set under its
    /// name, in the order of declaration, each alternative with its terminal
    /// steps and its link step.
    pub open spec fn compiled(self) -> Seq<(Seq<char>, Seq<Seq<RuleStep>>)> {
        Seq::new(
            self.sets.len(),
            |k: int|
                (self.sets[k].name, Seq::new(self.sets[k].rules.len(), |j: int| self.linked_rule(k, j))),
        )
    }
}

impl Clone for GrammarRule {
    fn clone(&self) -> (copy: GrammarRule)
        ensures
            copy@ == self@,
    {
        let mut terminals: Vec<String> = Vec::new();
        let mut i: usize = 0;
        while i < self.terminals.len()
            invariant
                i <= self.terminals@.len(),
                terminals@.len() == i,
                forall|t: int| 0 <= t < i ==> (#[trigger] terminals@[t])@ == self.terminals@[t]@,
            decreases self.terminals@.len() - i,
        {
            terminals.push(self.terminals[i].clone());
            i += 1;
        }
        let non_terminal = match &self.non_terminal {
            Some(name) => Some(name.clone()),
            None => None,
        };
        let copy = GrammarRule { terminals, non_terminal };
        assert(copy@.terminals =~= self@.terminals);
        copy
    }
}

impl Clone for GrammarSet {
    fn clone(&self) -> (copy: GrammarSet)
        ensures
            copy@ == self@,
    {
        let mut rules: Vec<GrammarRule> = Vec::new();
        let mut j: usize = 0;
        while j < self.rules.len()
            invariant
                j <= self.rules@.len(),
                rules@.len() == j,
                forall|r: int| 0 <= r < j ==> (#[trigger] rules@[r])@ == self.rules@[r]@,
            decreases self.rules@.len() - j,
        {
            rules.push(self.rules[j].clone());
            j += 1;
        }
        let copy = GrammarSet { name: self.name.clone(), rules };
        assert(copy@.rules =~= self@.rules);
        copy
    }
}

impl Clone for Grammar {
    fn clone(&self) -> (copy: Grammar)
        ensures
            copy@ == self@,
    {
        let mut sets: Vec<GrammarSet> = Vec::new();
        let mut k: usize = 0;
        while k < self.sets.len()
            invariant
                k <= self.sets@.len(),
                sets@.len() == k,
                forall|s: int| 0 <= s < k ==> (#[trigger] sets@[s])@ == self.sets@[s]@,
            decreases self.sets@.len() - k,
        {
            sets.push(self.sets[k].clone());
            k += 1;
        }
        let copy = Grammar { sets };
        assert(copy@.sets =~= self@.sets);
        copy
    }
}

impl GrammarRule {
    /// Tells whether every terminal name of the rule names a token kind.
    pub fn has_known_terminals(&self) -> (known: bool)
        ensures
            known == self@.terminals_known(),
    {
        let mut i: usize = 0;
        while i < self.terminals.len()
            invariant
                i <= self.terminals@.len(),
                forall|j: int| 0 <= j < i ==> token_named(#[trigger] self@.terminals[j]) is Some,
            decreases self.terminals@.len() - i,
        {
            if !Token::is_name(self.terminals[i].as_str()) {
                assert(token_named(self@.terminals[i as int]) is None);
                return false;
            }
            i += 1;
        }
        true
    }

    /// The alternative that the rule's terminals make up, without the step
    /// for its reference. Every terminal name has to name a token kind:
    /// `has_known_terminals` tells whether that is so.
    pub fn to_rule_without_non_terminal(&self) -> (rule: Rule)
        requires
            self@.terminals_known(),
        ensures
            rule@ == self@.terminal_steps(),
    {
        let mut steps: Vec<RuleStep> = Vec::new();
        let mut i: usize = 0;
        while i < self.terminals.len()
            invariant
                self@.terminals_known(),
                i <= self.terminals@.len(),
                steps@.len() == i,
                forall|j: int|
                    0 <= j < i ==> #[trigger] steps@[j] == RuleStep::Terminal(
                        token_named(self@.terminals[j]).unwrap(),
                    ),
            decreases self.terminals@.len() - i,
        {
            assert(token_named(self@.terminals[i as int]) is Some);
            steps.push(RuleStep::Terminal(Token::from_string(self.terminals[i].as_str())));
            i += 1;
        }
        Rule { steps }
    }
}

impl GrammarSet {
    /// Tells whether every terminal name of the set names a token kind.
    pub fn has_known_terminals(&self) -> (known: bool)
        ensures
            known == self@.terminals_known(),
    {
        let mut j: usize = 0;
        while j < self.rules.len()
            invariant
                j <= self.rules@.len(),
                forall|r: int| 0 <= r < j ==> (#[trigger] self@.rules[r]).terminals_known(),
            decreases self.rules@.len() - j,
        {
            if !self.rules[j].has_known_terminals() {
                assert(!self@.rules[j as int].terminals_known());
                return false;
            }
            j += 1;
        }
        true
    }

    /// The rule set that the terminals of the set make up: one alternative
    /// for each rule, in order, without the steps for the references. Every
    /// terminal name has to name a token kind: `has_known_terminals` tells
    /// whether that is so.
    pub fn to_rule_set_without_non_terminal(&self) -> (rule_set: RuleSet)
        requires
            self@.terminals_known(),
        ensures
            rule_set@ == self@.skeleton(),
    {
        let mut rules: Vec<Rule> = Vec::new();
        let mut j: usize = 0;
        while j < self.rules.len()
            invariant
                self@.terminals_known(),
                j <= self.rules@.len(),
                rules@.len() == j,
                forall|r: int| 0 <= r < j ==> (#[trigger] rules@[r])@ == self@.rules[r].terminal_steps(),
            decreases self.rules@.len() - j,
        {
            assert(self@.rules[j as int].terminals_known());
            rules.push(self.rules[j].to_rule_without_non_terminal());
            j += 1;
        }
        RuleSet { rules }
    }
}

impl Grammar {
    /// Tells whether the grammar declares a grammar set of the given name.
    pub fn declares(&self, name: &str) -> (declared: bool)
        ensures
            declared == place_of(self@.names(), name@) is Some,
    {
        let mut k: usize = 0;
        while k < self.sets.len()
            invariant
                k <= self.sets@.len(),
                forall|s: int| 0 <= s < k ==> self@.names()[s] != name@,
            decreases self.sets@.len() - k,
        {
            if same_text(self.sets[k].name.as_str(), name) {
                proof {
                    lemma_place_exists(self@.names(), name@, k as int);
                }
                return true;
            }
            k += 1;
        }
        false
    }

    /// Tells whether the grammar can be built into a store, and if not, why.
    /// It fails if a terminal name names no token kind; else if two sets
    /// have the same name; else if a rule refers to a set that is not
    /// declared.
    pub fn validate(&self) -> (checked: Result<(), GrammarError>)
        ensures
            match checked {
                Ok(_) => self@.well_formed(),
                Err(GrammarError::UnknownTerminal) => !self@.terminals_known(),
                Err(GrammarError::DuplicateSet) => self@.terminals_known() && !self@.names_distinct(),
                Err(GrammarError::UnknownNonTerminal) => {
                    &&& self@.terminals_known()
                    &&& self@.names_distinct()
                    &&& !self@.references_defined()
                },
            },
    {
        let count = self.sets.len();
        let mut k: usize = 0;
        while k < count
            invariant
                count == self.sets@.len(),
                k <= count,
                forall|s: int| 0 <= s < k ==> (#[trigger] self@.sets[s]).terminals_known(),
            decreases count - k,
        {
            if !self.sets[k].has_known_terminals() {
                assert(!self@.sets[k as int].terminals_known());
                return Err(GrammarError::UnknownTerminal);
            }
            k += 1;
        }

        let mut b: usize = 0;
        while b < count
            invariant
                count == self.sets@.len(),
                b <= count,
                self@.terminals_known(),
                forall|x: int, y: int|
                    0 <= x < y < b ==> (#[trigger] self@.sets[x]).name != (#[trigger] self@.sets[y]).name,
            decreases count - b,
        {
            let mut a: usize = 0;
            while a < b
                invariant
                    count == self.sets@.len(),
                    b < count,
                    a <= b,
                    self@.terminals_known(),
                    forall|x: int| 0 <= x < a ==> (#[trigger] self@.sets[x]).name != self@.sets[b as int].name,
                decreases b - a,
            {
                if same_text(self.sets[a].name.as_str(), self.sets[b].name.as_str()) {
                    assert(self@.sets[a as int].name == self@.sets[b as int].name);
                    return Err(GrammarError::DuplicateSet);
                }
                a += 1;
            }
            b += 1;
        }

        let mut k: usize = 0;
        while k < count
            invariant
                count == self.sets@.len(),
                k <= count,
                self@.terminals_known(),
                self@.names_distinct(),
                forall|s: int, j: int|
                    0 <= s < k && 0 <= j < self@.sets[s].rules.len() ==> (
                    (#[trigger] self@.sets[s].rules[j]).non_terminal matches Some(name) ==> place_of(
                        self@.names(),
                        name,
                    ) is Some),
            decreases count - k,
        {
            let set = &self.sets[k];
            let mut j: usize = 0;
            while j < set.rules.len()
                invariant
                    count == self.sets@.len(),
                    k < count,
                    self@.terminals_known(),
                    self@.names_distinct(),
                    set == self.sets@[k as int],
                    j <= set.rules@.len(),
                    forall|r: int|
                        0 <= r < j ==> ((#[trigger] self@.sets[k as int].rules[r]).non_terminal matches Some(
                            name,
                        ) ==> place_of(self@.names(), name) is Some),
                decreases set.rules@.len() - j,
            {
                assert(self@.sets[k as int].rules[j as int] == set.rules@[j as int]@);
                match &set.rules[j].non_terminal {
                    None => {},
                    Some(name) => {
                        if !self.declares(name.as_str()) {
                            assert(self@.sets[k as int].rules[j as int].non_terminal == Some(name@));
                            return Err(GrammarError::UnknownNonTerminal);
                        }
                    },
                }
                j += 1;
            }
            k += 1;
        }
        Ok(())
    }

    /// Builds the store that the grammar describes, in two passes. The first
    /// puts every grammar set into the store with its terminal steps alone.
    /// The second appends to the alternative of every rule that refers to a
    /// grammar set the link step to that set, so that a rule may refer to a
    /// set that is declared behind it, or to its own.
    ///
    /// The grammar has to be well formed: `validate` tells whether it is.
    pub fn to_store(&self) -> (store: Store)
        requires
            self@.terminals_known(),
            self@.names_distinct(),
            self@.references_defined(),
        ensures
            store@ == self@.compiled(),
            links_resolve(store.graph()),
    {
        let count = self.sets.len();
        let mut store = Store::new();
        let mut k: usize = 0;
        while k < count
            invariant
                count == self.sets@.len(),
                k <= count,
                self@.terminals_known(),
                self@.names_distinct(),
                store@.len() == k,
                forall|s: int|
                    0 <= s < k ==> #[trigger] store@[s] == (self@.sets[s].name, self@.sets[s].skeleton()),
            decreases count - k,
        {
            let set = &self.sets[k];
            assert(set@ == self@.sets[k as int]);
            assert(place_of(store.names(), set@.name) is None) by {
                if place_of(store.names(), set@.name) is Some {
                    let at = place_of(store.names(), set@.name).unwrap();
                    assert(first_place(store.names(), set@.name, at));
                    assert(self@.sets[at].name == self@.sets[k as int].name);
                }
            }
            store.add_rule_set(set.name.clone(), set.to_rule_set_without_non_terminal());
            k += 1;
        }
        assert(store@ =~= self@.linked_up_to(0, 0)) by {
            assert forall|s: int| 0 <= s < count implies #[trigger] store@[s] == self@.linked_up_to(
                0,
                0,
            )[s] by {
                assert(self@.linked_up_to(0, 0)[s].1 =~= self@.sets[s].skeleton());
            }
        }

        let mut k: usize = 0;
        while k < count
            invariant
                count == self.sets@.len(),
                k <= count,
                self@.references_defined(),
                store@ == self@.linked_up_to(k as int, 0),
                links_resolve(store.graph()),
            decreases count - k,
        {
            let set = &self.sets[k];
            let mut j: usize = 0;
            while j < set.rules.len()
                invariant
                    count == self.sets@.len(),
                    k < count,
                    self@.references_defined(),
                    set == self.sets@[k as int],
                    j <= set.rules@.len(),
                    store@ == self@.linked_up_to(k as int, j as int),
                    links_resolve(store.graph()),
                decreases set.rules@.len() - j,
            {
                assert(self@.sets[k as int].rules[j as int] == set.rules@[j as int]@);
                assert(store.names() =~= self@.names());
                match &set.rules[j].non_terminal {
                    None => {
                        assert(store@ =~= self@.linked_up_to(k as int, j + 1)) by {
                            assert forall|s: int| 0 <= s < count implies #[trigger] store@[s]
                                == self@.linked_up_to(k as int, j + 1)[s] by {
                                assert(store@[s].1 =~= self@.linked_up_to(k as int, j + 1)[s].1);
                            }
                        }
                    },
                    Some(name) => {
                        assert(self@.sets[k as int].rules[j as int].non_terminal == Some(name@));
                        let target = store.index_of(name.as_str()).unwrap();
                        let ghost table = store@;
                        store.append_link(k, j, target);
                        assert(store@ =~= self@.linked_up_to(k as int, j + 1)) by {
                            assert forall|s: int| 0 <= s < count implies #[trigger] store@[s]
                                == self@.linked_up_to(k as int, j + 1)[s] by {
                                assert(store@[s].1 =~= self@.linked_up_to(k as int, j + 1)[s].1);
                            }
                        }
                        assert(links_resolve(store.graph())) by {
                            assert forall|s: int, r: int, i: int|
                                0 <= s < store.graph().len() && 0 <= r < store.graph()[s].len() && 0
                                    <= i < store.graph()[s][r].len() implies (
                            #[trigger] store.graph()[s][r][i] matches RuleStep::Link(t) ==> t
                                < store.graph().len()) by {
                                if s != k || r != j {
                                    assert(store.graph()[s][r][i] == graph_of(table)[s][r][i]);
                                } else if i < graph_of(table)[s][r].len() {
                                    assert(store.graph()[s][r][i] == graph_of(table)[s][r][i]);
                                }
                            }
                        }
                    },
                }
                j += 1;
            }
            assert(store@ =~= self@.linked_up_to(k + 1, 0)) by {
                assert forall|s: int| 0 <= s < count implies #[trigger] store@[s] == self@.linked_up_to(
                    k + 1,
                    0,
                )[s] by {
                    assert(store@[s].1 =~= self@.linked_up_to(k + 1, 0)[s].1);
                }
            }
            k += 1;
        }
        assert(store@ =~= self@.compiled()) by {
            assert forall|s: int| 0 <= s < count implies #[trigger] store@[s] == self@.compiled()[s] by {
                assert(store@[s].1 =~= self@.compiled()[s].1);
            }
        }
        store
    }
}

} // verus!
