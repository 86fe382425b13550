//! The rule store: the owner of the rule graph.
//!
//! The store is a table of rule sets, each under its name. A link step
//! names the rule set it leads to by its place in the table, so rule sets
//! can lead to each other in a circle without owning each other.
use vstd::prelude::*;

use crate::rules::{alternatives, Rule, RuleSet, RuleStep};
use crate::text::same_text;

verus! {

/// Tells whether `at` is the first place of `names` that holds `name`.
pub open spec fn first_place(names: Seq<Seq<char>>, name: Seq<char>, at: int) -> bool {
    &&& 0 <= at < names.len()
    &&& names[at] == name
    &&& forall|j: int| 0 <= j < at ==> names[j] != name
}

/// The first place of `names` that holds `name`, if there is one.
pub open spec fn place_of(names: Seq<Seq<char>>, name: Seq<char>) -> Option<int> {
    if exists|at: int| first_place(names, name, at) {
        Some(choose|at: int| first_place(names, name, at))
    } else {
        None
    }
}

/// `place_of` finds a first place.
pub proof fn lemma_place_found(names: Seq<Seq<char>>, name: Seq<char>, at: int)
    requires
        first_place(names, name, at),
    ensures
        place_of(names, name) == Some(at),
{
}

/// A name among `names` has a first place.
pub proof fn lemma_place_exists(names: Seq<Seq<char>>, name: Seq<char>, at: int)
    requires
        0 <= at < names.len(),
        names[at] == name,
    ensures
        place_of(names, name) matches Some(first) && first_place(names, name, first) && first <= at,
    decreases at,
{
    if exists|j: int| 0 <= j < at && names[j] == name {
        let j = choose|j: int| 0 <= j < at && names[j] == name;
        lemma_place_exists(names, name, j);
    } else {
        lemma_place_found(names, name, at);
    }
}

/// The names of a table of named rule sets, in the table's order.
pub open spec fn names_of(table: Seq<(Seq<char>, Seq<Seq<RuleStep>>)>) -> Seq<Seq<char>> {
    Seq::new(table.len(), |i: int| table[i].0)
}

/// The rule sets of a table of named rule sets, in the table's order. A link
/// step with target `t` leads to the rule set at place `t` of this sequence.
pub open spec fn graph_of(table: Seq<(Seq<char>, Seq<Seq<RuleStep>>)>) -> Seq<Seq<Seq<RuleStep>>> {
    Seq::new(table.len(), |i: int| table[i].1)
}

/// The table with `rule_set` put under `name`: in the first place that
/// holds the name, or, where no place holds it, at the end.
pub open spec fn inserted(
    table: Seq<(Seq<char>, Seq<Seq<RuleStep>>)>,
    name: Seq<char>,
    rule_set: Seq<Seq<RuleStep>>,
) -> Seq<(Seq<char>, Seq<Seq<RuleStep>>)> {
    match place_of(names_of(table), name) {
        Some(at) => table.update(at, (name, rule_set)),
        None => table.push((name, rule_set)),
    }
}

/// The table with a link step to the rule set at place `target` appended
/// to alternative `rule` of the rule set at place `set`.
pub open spec fn with_link(
    table: Seq<(Seq<char>, Seq<Seq<RuleStep>>)>,
    set: int,
    rule: int,
    target: usize,
) -> Seq<(Seq<char>, Seq<Seq<RuleStep>>)> {
    table.update(
        set,
        (table[set].0, table[set].1.update(rule, table[set].1[rule].push(RuleStep::Link(target)))),
    )
}

/// Tells whether no name stands twice in `names`.
pub open spec fn distinct(names: Seq<Seq<char>>) -> bool {
    forall|a: int, b: int| 0 <= a < b < names.len() ==> names[a] != names[b]
}

/// A store is a mapping from names to rule sets. What is put under a name
/// is found under it afterwards; what stands under any other name stays
/// where it is and as it is; and a table without a name that stands twice
/// stays one.
pub proof fn lemma_inserted_is_found(
    table: Seq<(Seq<char>, Seq<Seq<RuleStep>>)>,
    name: Seq<char>,
    rule_set: Seq<Seq<RuleStep>>,
    other: Seq<char>,
)
    requires
        other != name,
    ensures
        place_of(names_of(inserted(table, name, rule_set)), name) matches Some(at) && graph_of(
            inserted(table, name, rule_set),
        )[at] == rule_set,
        place_of(names_of(inserted(table, name, rule_set)), other) == place_of(names_of(table), other),
        place_of(names_of(table), other) matches Some(at) ==> graph_of(
            inserted(table, name, rule_set),
        )[at] == graph_of(table)[at],
        distinct(names_of(table)) ==> distinct(names_of(inserted(table, name, rule_set))),
{
    let names = names_of(table);
    let after = names_of(inserted(table, name, rule_set));
    match place_of(names, name) {
        Some(at) => {
            assert(after =~= names);
        },
        None => {
            assert forall|j: int| 0 <= j < names.len() implies names[j] != name by {
                if names[j] == name {
                    lemma_place_exists(names, name, j);
                }
            }
            assert(after =~= names.push(name));
            lemma_place_found(after, name, names.len() as int);
            match place_of(names, other) {
                Some(at) => {
                    lemma_place_found(after, other, at);
                },
                None => {
                    assert forall|j: int| 0 <= j < after.len() implies after[j] != other by {
                        if j < names.len() && names[j] == other {
                            lemma_place_exists(names, other, j);
                        }
                    }
                },
            }
        },
    }
}

/// Tells whether every link step of `graph` leads to a rule set of `graph`.
pub open spec fn links_resolve(graph: Seq<Seq<Seq<RuleStep>>>) -> bool {
    forall|s: int, r: int, i: int|
        0 <= s < graph.len() && 0 <= r < graph[s].len() && 0 <= i < graph[s][r].len() ==> (
        #[trigger] graph[s][r][i] matches RuleStep::Link(target) ==> target < graph.len())
}

#[derive(Debug)]
struct Entry {
    name: String,
    rule_set: RuleSet,
}

/// The owner of the rule graph: a table of rule sets, each under its name,
/// in the order in which the names came in.
#[derive(Debug)]
pub struct Store {
    entries: Vec<Entry>,
}

impl Clone for Store {
    /// A store of its own with the same table.
    fn clone(&self) -> (copy: Store)
        ensures
            copy@ == self@,
    {
        let mut entries: Vec<Entry> = Vec::new();
        let mut i: usize = 0;
        while i < self.entries.len()
            invariant
                i <= self.entries@.len(),
                entries@.len() == i,
                forall|j: int|
                    0 <= j < i ==> (#[trigger] entries@[j]).name@ == self.entries@[j].name@
                        && entries@[j].rule_set@ == self.entries@[j].rule_set@,
            decreases self.entries@.len() - i,
        {
            let entry = &self.entries[i];
            entries.push(Entry { name: entry.name.clone(), rule_set: entry.rule_set.clone() });
            i += 1;
        }
        let copy = Store { entries };
        copy
    }
}

impl Default for Store {
    /// An empty store.
    fn default() -> (store: Store)
        ensures
            store@ == Seq::<(Seq<char>, Seq<Seq<RuleStep>>)>::empty(),
    {
        Store::new()
    }
}

impl View for Store {
    type V = Seq<(Seq<char>, Seq<Seq<RuleStep>>)>;

    /// The table of the store: each name with its rule set.
    closed spec fn view(&self) -> Seq<(Seq<char>, Seq<Seq<RuleStep>>)> {
        Seq::new(self.entries@.len(), |i: int| (self.entries@[i].name@, self.entries@[i].rule_set@))
    }
}

impl Store {
    /// The names of the store, in its order.
    pub open spec fn names(&self) -> Seq<Seq<char>> {
        names_of(self@)
    }

    /// The rule sets of the store, in its order.
    pub open spec fn graph(&self) -> Seq<Seq<Seq<RuleStep>>> {
        graph_of(self@)
    }

    /// An empty store.
    pub fn new() -> (store: Store)
        ensures
            store@ == Seq::<(Seq<char>, Seq<Seq<RuleStep>>)>::empty(),
    {
        Store { entries: Vec::new() }
    }

    /// The number of rule sets in the store.
    pub fn len(&self) -> (n: usize)
        ensures
            n == self@.len(),
    {
        self.entries.len()
    }

    /// The place of the rule set stored under `name`.
    pub fn index_of(&self, name: &str) -> (found: Option<usize>)
        ensures
            match found {
                Some(at) => place_of(self.names(), name@) == Some(at as int),
                None => place_of(self.names(), name@) is None,
            },
    {
        let mut i: usize = 0;
        while i < self.entries.len()
            invariant
                i <= self.entries@.len(),
                forall|j: int| 0 <= j < i ==> self.names()[j] != name@,
            decreases self.entries@.len() - i,
        {
            if same_text(self.entries[i].name.as_str(), name) {
                proof {
                    lemma_place_found(self.names(), name@, i as int);
                }
                return Some(i);
            }
            i += 1;
        }
        None
    }

    /// Puts `rule_set` into the store under `name`. Under a name that the
    /// store holds already it takes the place of the rule set that was there;
    /// under a new name it goes to the end of the table.
    pub fn add_rule_set(&mut self, name: String, rule_set: RuleSet)
        ensures
            final(self)@ == inserted(old(self)@, name@, rule_set@),
    {
        match self.index_of(name.as_str()) {
            Some(at) => {
                self.entries[at] = Entry { name, rule_set };
            },
            None => {
                self.entries.push(Entry { name, rule_set });
            },
        }
    }

    /// The rule set stored under `name`.
    pub fn get_rule_set(&self, name: &str) -> (found: Option<&RuleSet>)
        ensures
            match found {
                Some(rule_set) => place_of(self.names(), name@) matches Some(at) && rule_set@
                    == self.graph()[at],
                None => place_of(self.names(), name@) is None,
            },
    {
        match self.index_of(name) {
            Some(at) => Some(&self.entries[at].rule_set),
            None => None,
        }
    }

    /// The rule set at place `at` of the table.
    pub fn rule_set_at(&self, at: usize) -> (found: Option<&RuleSet>)
        ensures
            match found {
                Some(rule_set) => at < self@.len() && rule_set@ == self.graph()[at as int],
                None => at >= self@.len(),
            },
    {
        if at < self.entries.len() {
            Some(&self.entries[at].rule_set)
        } else {
            None
        }
    }

    /// Appends a link step that leads to the rule set at place `target` to
    /// alternative `rule` of the rule set at place `set`. Nothing else
    /// changes: the steps that the alternative had stay in front of it.
    pub(crate) fn append_link(&mut self, set: usize, rule: usize, target: usize)
        requires
            set < old(self)@.len(),
            rule < old(self)@[set as int].1.len(),
        ensures
            final(self)@ == with_link(old(self)@, set as int, rule as int, target),
    {
        self.entries[set].rule_set.rules[rule].steps.push(RuleStep::Link(target));
        assert(self@[set as int].1 =~= with_link(old(self)@, set as int, rule as int, target)[set as int].1);
        assert(self@ =~= with_link(old(self)@, set as int, rule as int, target));
    }

    /// The alternatives of every rule set of the store, in the order of the
    /// table and, within a rule set, in its own order.
    pub fn get_all_rules(&self) -> (rules: Vec<Rule>)
        ensures
            alternatives(rules@) == self.graph().flatten(),
    {
        let mut rules: Vec<Rule> = Vec::new();
        let mut s: usize = 0;
        while s < self.entries.len()
            invariant
                s <= self.entries@.len(),
                alternatives(rules@) == self.graph().take(s as int).flatten(),
            decreases self.entries@.len() - s,
        {
            let set = &self.entries[s].rule_set;
            let ghost before = alternatives(rules@);
            let mut r: usize = 0;
            while r < set.rules.len()
                invariant
                    r <= set.rules@.len(),
                    alternatives(rules@) == before + set@.take(r as int),
                decreases set.rules@.len() - r,
            {
                let ghost so_far = rules@;
                rules.push(set.rules[r].clone());
                assert(alternatives(rules@) =~= alternatives(so_far).push(set@[r as int]));
                r += 1;
            }
            proof {
                assert(self.graph().take(s + 1) =~= self.graph().take(s as int).push(set@));
                self.graph().take(s as int).lemma_flatten_push(set@);
            }
            s += 1;
        }
        assert(self.graph().take(s as int) =~= self.graph());
        rules
    }
}

} // verus!
