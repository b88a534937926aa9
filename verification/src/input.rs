//! A text laid out for reading character by character.

use vstd::prelude::*;
use vstd::std_specs::iter::IteratorSpec;

verus! {

/// A text together with its characters, so that the character at a position
/// can be read in constant time.
pub struct Input<'a> {
    text: &'a str,
    chars: Vec<char>,
}

impl<'a> Input<'a> {
    #[verifier::type_invariant]
    spec fn consistent(&self) -> bool {
        self.chars@ == self.text@
    }

    /// The text as a sequence of characters.
    pub closed spec fn view(&self) -> Seq<char> {
        self.text@
    }

    /// Lays out `text` for reading.
    pub fn new(text: &'a str) -> (inp: Input<'a>)
        ensures
            inp@ == text@,
    {
        broadcast use vstd::string::group_string_axioms;

        let mut it = text.chars();
        let mut chars: Vec<char> = Vec::new();
        loop
            invariant
                chars@ + it.remaining() == text@,
                it.obeys_prophetic_iter_laws(),
            ensures
                chars@ == text@,
            decreases text@.len() - chars@.len(),
        {
            let ghost before = it.remaining();
            match it.next() {
                Some(c) => {
                    chars.push(c);
                    assert(chars@ + it.remaining() =~= text@);
                },
                None => {
                    assert(chars@ =~= text@);
                    break ;
                },
            }
        }
        Input { text, chars }
    }

    /// The number of characters in the text.
    pub fn len(&self) -> (n: usize)
        ensures
            n == self@.len(),
    {
        proof {
            use_type_invariant(self);
        }
        self.chars.len()
    }

    /// The character at position `i`, where the text has one.
    pub fn get(&self, i: usize) -> (c: Option<char>)
        ensures
            c == if i < self@.len() {
                Some(self@[i as int])
            } else {
                None
            },
            self@.len() <= usize::MAX,
    {
        proof {
            use_type_invariant(self);
        }
        if i < self.chars.len() {
            Some(self.chars[i])
        } else {
            None
        }
    }

    /// Whether the text holds the character `c` at position `i`.
    pub fn has(&self, i: usize, c: char) -> (b: bool)
        ensures
            b == crate::grammar::at(self@, i as int, c),
            self@.len() <= usize::MAX,
    {
        proof {
            use_type_invariant(self);
        }
        i < self.chars.len() && self.chars[i] == c
    }

    /// The characters from `from` up to, not including, `to`, as a string.
    /// Takes time in proportion to `to`: the text is walked from its start.
    pub fn slice(&self, from: usize, to: usize) -> (t: String)
        requires
            from <= to <= self@.len(),
        ensures
            t@ == self@.subrange(from as int, to as int),
    {
        self.text.substring_char(from, to).to_owned()
    }

    /// The text from position `from` on.
    pub fn rest(&self, from: usize) -> (t: &'a str)
        requires
            from <= self@.len(),
        ensures
            t@ == self@.subrange(from as int, self@.len() as int),
    {
        proof {
            use_type_invariant(self);
        }
        self.text.substring_char(from, self.chars.len())
    }
}

} // verus!
