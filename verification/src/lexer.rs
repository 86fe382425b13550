//! The lexical rules: how a text is cut into tokens.
//!
//! Blanks separate tokens and are dropped. A run of letters is one word, as
//! long as it can be made: the words `contact`, `rate` and `delay` are
//! keywords, every other word is an identifier. A run of digits is one
//! number. Any other byte is an item of no kind.
use vstd::prelude::*;
use vstd::string::is_ascii;

use crate::cursor::Lexeme;
use crate::parser::Token;

verus! {

/// The kinds of bytes that the lexical rules tell apart.
#[derive(Clone, Copy, Debug, PartialEq, Eq, Structural)]
pub enum ByteClass {
    /// A space, a tab, a line feed or a form feed.
    Blank,
    /// One of `a` to `z` and `A` to `Z`.
    Letter,
    /// One of `0` to `9`.
    Digit,
    /// Any other byte.
    Other,
}

/// The class of a byte.
pub open spec fn class_of(byte: u8) -> ByteClass {
    if byte == 0x20 || byte == 0x09 || byte == 0x0a || byte == 0x0c {
        ByteClass::Blank
    } else if (0x41 <= byte && byte <= 0x5a) || (0x61 <= byte && byte <= 0x7a) {
        ByteClass::Letter
    } else if 0x30 <= byte && byte <= 0x39 {
        ByteClass::Digit
    } else {
        ByteClass::Other
    }
}

/// The length of the longest prefix of `input` whose bytes all are of
/// class `class`.
pub open spec fn run(input: Seq<u8>, class: ByteClass) -> nat
    decreases input.len(),
{
    if input.len() > 0 && class_of(input[0]) == class {
        1 + run(input.skip(1), class)
    } else {
        0
    }
}

/// A run is no longer than the input, and not empty where the input begins
/// with a byte of the class.
pub proof fn lemma_run_bounds(input: Seq<u8>, class: ByteClass)
    ensures
        run(input, class) <= input.len(),
        input.len() > 0 && class_of(input[0]) == class ==> run(input, class) >= 1,
    decreases input.len(),
{
    if input.len() > 0 && class_of(input[0]) == class {
        lemma_run_bounds(input.skip(1), class);
    }
}

/// The run of a class is as long as the stretch of bytes of the class at
/// the front of the input that a byte of another class, or the end, follows.
pub proof fn lemma_run_found(input: Seq<u8>, class: ByteClass, count: nat)
    requires
        count <= input.len(),
        forall|i: int| 0 <= i < count ==> class_of(#[trigger] input[i]) == class,
        count < input.len() ==> class_of(input[count as int]) != class,
    ensures
        run(input, class) == count,
    decreases count,
{
    if count > 0 {
        lemma_run_found(input.skip(1), class, (count - 1) as nat);
    }
}

/// The bytes of a text of ASCII characters.
pub open spec fn bytes_of(text: Seq<char>) -> Seq<u8> {
    Seq::new(text.len(), |i: int| text[i] as u8)
}

/// The token kind of a word.
pub open spec fn word_token(word: Seq<u8>) -> Token {
    if word == bytes_of("contact"@) {
        Token::Contact
    } else if word == bytes_of("rate"@) || word == bytes_of("delay"@) {
        Token::Options
    } else {
        Token::Identifier
    }
}

/// The items that the lexical rules cut `input` into, in order.
pub open spec fn lex(input: Seq<u8>) -> Seq<Lexeme>
    decreases input.len(),
{
    if input.len() == 0 {
        Seq::empty()
    } else {
        match class_of(input[0]) {
            ByteClass::Blank => lex(input.skip(1)),
            ByteClass::Letter => {
                let length = run(input, ByteClass::Letter);
                proof {
                    lemma_run_bounds(input, ByteClass::Letter);
                }
                seq![Lexeme::Token(word_token(input.take(length as int)))] + lex(
                    input.skip(length as int),
                )
            },
            ByteClass::Digit => {
                let length = run(input, ByteClass::Digit);
                proof {
                    lemma_run_bounds(input, ByteClass::Digit);
                }
                seq![Lexeme::Token(Token::Number)] + lex(input.skip(length as int))
            },
            ByteClass::Other => seq![Lexeme::Unknown] + lex(input.skip(1)),
        }
    }
}

/// The end sentinel never comes out of a text: no item that the lexical
/// rules cut is the end token.
pub proof fn lemma_lex_gives_no_end(input: Seq<u8>)
    ensures
        forall|i: int| 0 <= i < lex(input).len() ==> lex(input)[i] != Lexeme::Token(Token::End),
    decreases input.len(),
{
    if input.len() > 0 {
        match class_of(input[0]) {
            ByteClass::Blank => {
                lemma_lex_gives_no_end(input.skip(1));
            },
            ByteClass::Letter => {
                lemma_run_bounds(input, ByteClass::Letter);
                lemma_lex_gives_no_end(input.skip(run(input, ByteClass::Letter) as int));
            },
            ByteClass::Digit => {
                lemma_run_bounds(input, ByteClass::Digit);
                lemma_lex_gives_no_end(input.skip(run(input, ByteClass::Digit) as int));
            },
            ByteClass::Other => {
                lemma_lex_gives_no_end(input.skip(1));
            },
        }
    }
}

/// The class of a byte.
pub fn classify(byte: u8) -> (class: ByteClass)
    ensures
        class == class_of(byte),
{
    if byte == 0x20 || byte == 0x09 || byte == 0x0a || byte == 0x0c {
        ByteClass::Blank
    } else if (0x41 <= byte && byte <= 0x5a) || (0x61 <= byte && byte <= 0x7a) {
        ByteClass::Letter
    } else if 0x30 <= byte && byte <= 0x39 {
        ByteClass::Digit
    } else {
        ByteClass::Other
    }
}

/// The place behind the run of `class` that begins at `from`.
fn run_end(input: &[u8], from: usize, class: ByteClass) -> (end: usize)
    requires
        from <= input@.len(),
    ensures
        from <= end <= input@.len(),
        end == from + run(input@.skip(from as int), class),
{
    let mut end = from;
    while end < input.len() && classify(input[end]) == class
        invariant
            from <= end <= input@.len(),
            forall|i: int| from <= i < end ==> class_of(#[trigger] input@[i]) == class,
        decreases input@.len() - end,
    {
        end += 1;
    }
    proof {
        lemma_run_found(input@.skip(from as int), class, (end - from) as nat);
    }
    end
}

/// Tells whether the bytes of `input` from `from` up to `to` spell `word`.
fn spells(input: &[u8], from: usize, to: usize, word: &str) -> (same: bool)
    requires
        from <= to <= input@.len(),
        is_ascii(word),
    ensures
        same == (input@.subrange(from as int, to as int) == bytes_of(word@)),
{
    let letters = word.as_bytes();
    if to - from != letters.len() {
        return false;
    }
    let mut i: usize = 0;
    while i < letters.len()
        invariant
            from <= to <= input@.len(),
            to - from == letters@.len(),
            letters@ == bytes_of(word@),
            i <= letters@.len(),
            forall|j: int| 0 <= j < i ==> input@[from + j] == letters@[j],
        decreases letters@.len() - i,
    {
        if input[from + i] != letters[i] {
            return false;
        }
        i += 1;
    }
    assert(input@.subrange(from as int, to as int) =~= letters@);
    true
}

/// The token kind of the word that the bytes of `input` from `from` up to
/// `to` spell.
fn word_kind(input: &[u8], from: usize, to: usize) -> (kind: Token)
    requires
        from <= to <= input@.len(),
    ensures
        kind == word_token(input@.subrange(from as int, to as int)),
{
    proof {
        reveal_strlit("contact");
        reveal_strlit("rate");
        reveal_strlit("delay");
    }
    if spells(input, from, to, "contact") {
        Token::Contact
    } else if spells(input, from, to, "rate") || spells(input, from, to, "delay") {
        Token::Options
    } else {
        Token::Identifier
    }
}

/// Cuts a text into the items of its token stream.
pub fn tokenize(input: &[u8]) -> (tokens: Vec<Lexeme>)
    ensures
        tokens@ == lex(input@),
{
    let mut tokens: Vec<Lexeme> = Vec::new();
    let mut at: usize = 0;
    assert(input@.skip(0) =~= input@);
    while at < input.len()
        invariant
            at <= input@.len(),
            tokens@ + lex(input@.skip(at as int)) == lex(input@),
        decreases input@.len() - at,
    {
        let ghost rest = input@.skip(at as int);
        match classify(input[at]) {
            ByteClass::Blank => {
                assert(rest.skip(1) =~= input@.skip(at + 1));
                at += 1;
            },
            ByteClass::Letter => {
                let end = run_end(input, at, ByteClass::Letter);
                let kind = word_kind(input, at, end);
                tokens.push(Lexeme::Token(kind));
                proof {
                    assert(rest.take(end - at) =~= input@.subrange(at as int, end as int));
                    assert(rest.skip(end - at) =~= input@.skip(end as int));
                }
                at = end;
            },
            ByteClass::Digit => {
                let end = run_end(input, at, ByteClass::Digit);
                tokens.push(Lexeme::Token(Token::Number));
                proof {
                    assert(rest.skip(end - at) =~= input@.skip(end as int));
                }
                at = end;
            },
            ByteClass::Other => {
                tokens.push(Lexeme::Unknown);
                proof {
                    assert(rest.skip(1) =~= input@.skip(at + 1));
                }
                at += 1;
            },
        }
    }
    tokens
}

} // verus!
