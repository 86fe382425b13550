//! The token kinds and the recognizer.
//!
//! The recognizer is a recursive-descent matcher with backtracking. It
//! tries the alternatives of a rule set in their order, each on a copy of
//! the token cursor, and answers with the first that accepts.
//!
//! A rule set may lead back to itself through link steps alone. So that
//! every walk ends, the recognizer follows at most as many link steps in a
//! row, without an item consumed in between, as the store has rule sets. No
//! input that is accepted at all needs more; see [`crate::bound`].
use vstd::prelude::*;

use crate::bound::{
    lemma_rule_accepts_within_bound, lemma_set_accepts_one_of, lemma_set_accepts_within_bound,
};
use crate::cursor::{Lexeme, TokenCursor};
use crate::language::{
    accepts, cursor_advance, first_accepting, first_accepting_within, remaining, rule_accepts,
    rule_accepts_within, set_accepts, set_accepts_within,
};
use crate::rules::{alternatives, Rule, RuleStep};
use crate::store::Store;
use crate::text::same_text;

verus! {

/// The lexical category of one token of the input.
#[derive(Clone, Copy, Debug, PartialEq, Eq, Structural)]
pub enum Token {
    /// The keyword `contact`.
    Contact,
    /// One of the keywords `rate` and `delay`.
    Options,
    /// A run of letters that is no keyword.
    Identifier,
    /// A run of digits.
    Number,
    /// The sentinel that follows the last token of the input, once.
    End,
}

/// The token kind that a grammar names `name`, if it names one.
pub open spec fn token_named(name: Seq<char>) -> Option<Token> {
    if name == "Contact"@ {
        Some(Token::Contact)
    } else if name == "Options"@ {
        Some(Token::Options)
    } else if name == "Identifier"@ {
        Some(Token::Identifier)
    } else if name == "Number"@ {
        Some(Token::Number)
    } else if name == "End"@ {
        Some(Token::End)
    } else {
        None
    }
}

impl Token {
    /// Tells whether `s` is the name of a token kind. Names are
    /// case-sensitive.
    pub fn is_name(s: &str) -> (known: bool)
        ensures
            known == token_named(s@) is Some,
    {
        same_text(s, "Contact") || same_text(s, "Options") || same_text(s, "Identifier") || same_text(
            s,
            "Number",
        ) || same_text(s, "End")
    }

    /// The token kind of the given name. The name has to be one of a token
    /// kind: `is_name` tells whether it is.
    pub fn from_string(s: &str) -> (token: Token)
        requires
            token_named(s@) is Some,
        ensures
            token_named(s@) == Some(token),
    {
        if same_text(s, "Contact") {
            Token::Contact
        } else if same_text(s, "Options") {
            Token::Options
        } else if same_text(s, "Identifier") {
            Token::Identifier
        } else if same_text(s, "Number") {
            Token::Number
        } else {
            Token::End
        }
    }
}

/// A recognizer: a rule store and a cursor over the token stream to judge.
pub struct Parser<'a> {
    cursor: TokenCursor<'a>,
    store: Store,
}

impl<'a> Parser<'a> {
    /// The store that the recognizer walks.
    pub closed spec fn store(&self) -> Store {
        self.store
    }

    /// The cursor from which the recognizer reads.
    pub closed spec fn cursor(&self) -> TokenCursor<'a> {
        self.cursor
    }

    /// A recognizer for the grammar in `store`, reading from `cursor`.
    pub fn new(store: Store, cursor: TokenCursor<'a>) -> (parser: Parser<'a>)
        ensures
            parser.store() == store,
            parser.cursor() == cursor,
    {
        Parser { cursor, store }
    }

    /// Tells whether the grammar accepts the token stream: whether some
    /// alternative of some rule set of the store matches what the cursor
    /// holds, followed by the end sentinel. Neither the store nor the cursor
    /// changes.
    pub fn parse(&mut self) -> (accepted: bool)
        ensures
            accepted == accepts(old(self).store().graph(), old(self).cursor()@),
            *final(self) == *old(self),
    {
        let rules = self.store.get_all_rules();
        let mut cursor = self.cursor;
        Self::process_rule_set(&self.store, &mut cursor, &rules, None, false)
    }

    /// Gets the token for the step at hand. A carried token is used first.
    /// Without one, the cursor hands out its next item. Once the cursor is
    /// used up, the end sentinel is produced, once: `end` says whether that
    /// has happened already, and the second part of the result says so for
    /// the steps that follow.
    pub fn acquire(cursor: &mut TokenCursor<'a>, next_token: Option<Lexeme>, end: bool) -> (got: (
        Option<Lexeme>,
        bool,
    ))
        ensures
            ({
                let input = remaining(next_token, old(cursor)@, end);
                if input.len() == 0 {
                    got.0 is None && got.1 == end && final(cursor)@ == old(cursor)@
                } else {
                    &&& got.0 == Some(input[0])
                    &&& remaining(None, final(cursor)@, got.1) == input.skip(1)
                    &&& final(cursor)@ == old(cursor)@.skip(
                        if next_token is None && old(cursor)@.len() > 0 {
                            1int
                        } else {
                            0int
                        },
                    )
                }
            }),
    {
        match next_token {
            Some(token) => (Some(token), end),
            None => match cursor.next() {
                Some(token) => (Some(token), end),
                None => if end {
                    (None, true)
                } else {
                    (Some(Lexeme::Token(Token::End)), true)
                },
            },
        }
    }

    /// Tries the alternatives `rules` in their order, each on a copy of the
    /// cursor and from its first step, and tells whether one of them accepts.
    /// The cursor itself does not move.
    pub fn process_rule_set(
        store: &Store,
        cursor: &mut TokenCursor<'a>,
        rules: &Vec<Rule>,
        next_token: Option<Lexeme>,
        end: bool,
    ) -> (accepted: bool)
        ensures
            accepted == set_accepts(
                store.graph(),
                alternatives(rules@),
                remaining(next_token, old(cursor)@, end),
            ),
            *final(cursor) == *old(cursor),
    {
        proof {
            lemma_set_accepts_one_of(
                store.graph(),
                alternatives(rules@),
                remaining(next_token, old(cursor)@, end),
            );
        }
        Self::first_match(store, cursor, rules, next_token, end).is_some()
    }

    /// Tries the alternatives `rules` in their order, each on a copy of the
    /// cursor and from its first step, and returns the place of the first
    /// one that accepts. The alternatives behind it are not tried.
    pub fn first_match(
        store: &Store,
        cursor: &TokenCursor<'a>,
        rules: &Vec<Rule>,
        next_token: Option<Lexeme>,
        end: bool,
    ) -> (found: Option<usize>)
        ensures
            first_accepting(
                store.graph(),
                alternatives(rules@),
                remaining(next_token, cursor@, end),
                found,
            ),
    {
        let found = Self::first_match_within(store, cursor, rules, next_token, end, store.len());
        proof {
            let graph = store.graph();
            let input = remaining(next_token, cursor@, end);
            lemma_set_accepts_within_bound(graph, alternatives(rules@), input);
            assert forall|j: int| 0 <= j < rules@.len() implies (rule_accepts(
                graph,
                #[trigger] alternatives(rules@)[j],
                0,
                input,
            ) <==> rule_accepts_within(
                graph,
                alternatives(rules@)[j],
                0,
                input,
                graph.len(),
                graph.len(),
            )) by {
                lemma_rule_accepts_within_bound(graph, alternatives(rules@)[j], 0, input);
            }
        }
        found
    }

    /// Walks the steps of one alternative from step `index` on and tells
    /// whether they accept the input. An `index` behind the end of the steps
    /// accepts nothing. The cursor moves past the items that the walk reads
    /// from it; what a link step leads to is tried on copies of the cursor.
    pub fn process(
        store: &Store,
        cursor: &mut TokenCursor<'a>,
        steps: &Vec<RuleStep>,
        index: usize,
        next_token: Option<Lexeme>,
        end: bool,
    ) -> (accepted: bool)
        ensures
            accepted == rule_accepts(
                store.graph(),
                steps@,
                index as nat,
                remaining(next_token, old(cursor)@, end),
            ),
            final(cursor)@ == old(cursor)@.skip(
                cursor_advance(steps@, index as nat, next_token, old(cursor)@, end) as int,
            ),
    {
        proof {
            lemma_rule_accepts_within_bound(
                store.graph(),
                steps@,
                index as nat,
                remaining(next_token, old(cursor)@, end),
            );
        }
        Self::process_within(store, cursor, steps, index, next_token, end, store.len())
    }

    /// `first_match` for a walk that may follow `depth` more link steps
    /// before it consumes an item.
    fn first_match_within(
        store: &Store,
        cursor: &TokenCursor<'a>,
        rules: &Vec<Rule>,
        next_token: Option<Lexeme>,
        end: bool,
        depth: usize,
    ) -> (found: Option<usize>)
        ensures
            first_accepting_within(
                store.graph(),
                alternatives(rules@),
                remaining(next_token, cursor@, end),
                depth as nat,
                store@.len(),
                found,
            ),
        decreases remaining(next_token, cursor@, end).len(), depth, 1nat,
    {
        let mut i: usize = 0;
        while i < rules.len()
            invariant
                i <= rules@.len(),
                forall|j: int|
                    0 <= j < i ==> !rule_accepts_within(
                        store.graph(),
                        #[trigger] alternatives(rules@)[j],
                        0,
                        remaining(next_token, cursor@, end),
                        depth as nat,
                        store@.len(),
                    ),
            decreases rules@.len() - i,
        {
            let mut trial = cursor.clone();
            if Self::process_within(store, &mut trial, &rules[i].steps, 0, next_token, end, depth) {
                return Some(i);
            }
            i += 1;
        }
        None
    }

    /// `process` for a walk that may follow `depth` more link steps before
    /// it consumes an item.
    fn process_within(
        store: &Store,
        cursor: &mut TokenCursor<'a>,
        steps: &Vec<RuleStep>,
        index: usize,
        next_token: Option<Lexeme>,
        end: bool,
        depth: usize,
    ) -> (accepted: bool)
        ensures
            accepted == rule_accepts_within(
                store.graph(),
                steps@,
                index as nat,
                remaining(next_token, old(cursor)@, end),
                depth as nat,
                store@.len(),
            ),
            final(cursor)@ == old(cursor)@.skip(
                cursor_advance(steps@, index as nat, next_token, old(cursor)@, end) as int,
            ),
        decreases remaining(next_token, old(cursor)@, end).len(), depth, 0nat,
    {
        let ghost input = remaining(next_token, old(cursor)@, end);
        let (token, latched) = Self::acquire(cursor, next_token, end);
        match token {
            None => index == steps.len(),
            Some(token) => {
                if index >= steps.len() {
                    index == steps.len() && token == Lexeme::Token(Token::End)
                } else {
                    match steps[index] {
                        RuleStep::Link(target) => {
                            if depth == 0 {
                                false
                            } else {
                                match store.rule_set_at(target) {
                                    None => false,
                                    Some(rule_set) => {
                                        assert(remaining(Some(token), cursor@, latched) =~= input);
                                        let found = Self::first_match_within(
                                            store,
                                            cursor,
                                            &rule_set.rules,
                                            Some(token),
                                            latched,
                                            depth - 1,
                                        );
                                        assert(found.is_some() == set_accepts_within(
                                            store.graph(),
                                            rule_set@,
                                            input,
                                            (depth - 1) as nat,
                                            store@.len(),
                                        ));
                                        found.is_some()
                                    },
                                }
                            }
                        },
                        RuleStep::Terminal(kind) => {
                            if token == Lexeme::Token(kind) {
                                Self::process_within(
                                    store,
                                    cursor,
                                    steps,
                                    index + 1,
                                    None,
                                    latched,
                                    store.len(),
                                )
                            } else {
                                false
                            }
                        },
                    }
                }
            },
        }
    }
}

} // verus!
