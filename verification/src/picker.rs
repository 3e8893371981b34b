//! The word picker: a dictionary that is not empty, and a source of
//! randomness to draw from it.

use vstd::prelude::*;
use vstd::pervasive::unreached;
use rand::rngs::StdRng;
use rand::seq::SliceRandom;
use crate::dictionary::{texts, WordCollection};
use crate::text::is_word;

verus! {

/// `rand::rngs::StdRng`, a pseudo-random generator that runs on its seed
/// alone. Nothing is known of its state.
#[verifier::external_type_specification]
#[verifier::external_body]
pub struct ExStdRng(StdRng);

/// The failure to start on a dictionary without words.
#[derive(Debug)]
pub struct EmptyDictionary;

impl EmptyDictionary {
    /// The line that reports the failure.
    pub fn message(&self) -> (r: &'static str)
        ensures
            r@ == "No words found in the provided files."@,
    {
        "No words found in the provided files."
    }
}

/// `rand::seq::SliceRandom::choose` on a slice of strings, drawing with a
/// `StdRng`: nothing where the slice is empty, else one of its entries.
/// Which one depends on the state of the generator, so nothing more is said
/// of it.
#[verifier::external_body]
fn choose_word<'a>(words: &'a Vec<String>, rng: &mut StdRng) -> (r: Option<&'a String>)
    ensures
        r is Some <==> words@.len() > 0,
        r matches Some(word) ==> exists|i: int|
            0 <= i < words@.len() && (#[trigger] words@[i])@ == word@,
{
    words.choose(rng)
}

/// A dictionary with at least one word.
struct Stock {
    words: WordCollection,
}

impl Stock {
    #[verifier::type_invariant]
    spec fn has_words(&self) -> bool {
        self.words@.len() > 0
    }

    /// The words. There is at least one.
    fn words(&self) -> (r: &WordCollection)
        ensures
            r == self.words,
            r@.len() > 0,
    {
        proof {
            use_type_invariant(self);
        }
        &self.words
    }
}

/// A dictionary with at least one word, and the generator that picks from
/// it.
pub struct WordPicker {
    stock: Stock,
    rng: StdRng,
}

impl View for WordPicker {
    type V = Seq<Seq<char>>;

    /// The words to pick from.
    closed spec fn view(&self) -> Seq<Seq<char>> {
        self.stock.words@
    }
}

impl WordPicker {
    /// A picker for `words` that draws with `rng`. It fails exactly where
    /// `words` is empty.
    pub fn new(words: WordCollection, rng: StdRng) -> (r: Result<WordPicker, EmptyDictionary>)
        ensures
            r is Ok <==> words@.len() > 0,
            r matches Ok(picker) ==> picker@ == words@,
    {
        if words.is_empty() {
            Err(EmptyDictionary)
        } else {
            Ok(WordPicker { stock: Stock { words }, rng })
        }
    }

    /// The words to pick from. There is at least one.
    pub fn collection(&self) -> (r: &WordCollection)
        ensures
            r@ == self@,
            r@.len() > 0,
    {
        self.stock.words()
    }

    /// Picks one word of the dictionary at random. The dictionary stays as
    /// it is.
    pub fn pick(&mut self) -> (word: String)
        ensures
            final(self)@ == old(self)@,
            old(self)@.contains(word@),
            is_word(word@),
    {
        let list = self.stock.words().words();
        match choose_word(list, &mut self.rng) {
            Some(word) => {
                proof {
                    let i = choose|i: int| 0 <= i < list@.len() && (#[trigger] list@[i])@ == word@;
                    assert(texts(list@)[i] == word@);
                }
                word.clone()
            },
            None => unreached(),
        }
    }
}

} // verus!
