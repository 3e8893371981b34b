//! The game: what a round makes of the player's input, the text of the
//! dialogue, and the course of a session.
//!
//! A session neither reads nor writes. Whoever runs it shows the text that
//! a step returns and hands the next line of input to the next step.

use vstd::prelude::*;
use crate::dictionary::WordCollection;
use crate::picker::WordPicker;
use crate::text::{
    ascii_lower, eq_ignore_ascii_case, is_space, is_word, lemma_trimmed_between, lemma_word_edges,
    same_ignoring_ascii_case, same_text, trim, trimmed,
};

verus! {

/// What a round makes of a line of input.
#[derive(Debug, Clone, Copy, PartialEq, Eq, Structural)]
pub enum Verdict {
    /// The player asked to leave.
    Quit,
    /// The input is the prompted word.
    Correct,
    /// The input is something else.
    Incorrect,
}

/// Whether a line of input asks to leave: trimmed, it is `quit`, in capital
/// or small letters.
pub open spec fn asks_to_quit(line: Seq<char>) -> bool {
    same_ignoring_ascii_case(trimmed(line), "quit"@)
}

/// The verdict on the line `line` where `word` was prompted.
pub open spec fn verdict_of(line: Seq<char>, word: Seq<char>) -> Verdict {
    if asks_to_quit(line) {
        Verdict::Quit
    } else if trimmed(line) == word {
        Verdict::Correct
    } else {
        Verdict::Incorrect
    }
}

/// Twenty asterisks and a line feed: the line that separates the rounds.
pub open spec fn separator_text() -> Seq<char> {
    Seq::new(20, |i: int| '*').push('\n')
}

/// What a session opens with: a line of welcome and a separator.
pub open spec fn welcome_text() -> Seq<char> {
    "Welcome to the typing game! Type 'quit' to exit.\n"@ + separator_text()
}

/// What asks for `word`: a line that shows it, then the prompt, on which
/// the line stays open.
pub open spec fn prompt_text(word: Seq<char>) -> Seq<char> {
    "Type the word: "@ + word + "\nYour input: "@
}

/// What answers a line of input, where `word` was prompted: the farewell,
/// or the verdict with an empty line and a separator after it.
pub open spec fn reply_text(verdict: Verdict, word: Seq<char>) -> Seq<char> {
    match verdict {
        Verdict::Quit => "Thanks for playing\n"@,
        Verdict::Correct => "Correct!\n\n"@ + separator_text(),
        Verdict::Incorrect => "Incorrect. The correct word was: "@ + word + "\n\n"@
            + separator_text(),
    }
}

/// The text of an input, where there is one.
pub open spec fn input_text(input: Option<&str>) -> Option<Seq<char>> {
    match input {
        Some(line) => Some(line@),
        None => None,
    }
}

/// Whether an input ends the session: the end of the input stream does, and
/// so does a line that asks to leave.
pub open spec fn ends_session(input: Option<Seq<char>>) -> bool {
    match input {
        Some(line) => asks_to_quit(line),
        None => true,
    }
}

/// What a running session answers to `input`, where `word` was prompted and
/// `next` is the word of the round that follows: the farewell where the
/// input ends the session, else the verdict and the prompt for `next`.
pub open spec fn response_text(word: Seq<char>, input: Option<Seq<char>>, next: Seq<char>) -> Seq<
    char,
> {
    match input {
        Some(line) => if asks_to_quit(line) {
            reply_text(Verdict::Quit, word)
        } else {
            reply_text(verdict_of(line, word), word) + prompt_text(next)
        },
        None => reply_text(Verdict::Quit, word),
    }
}

/// The spellings of the quit token: text is `quit` but for the case of its
/// letters exactly where it has four characters, a `q`, a `u`, an `i` and a
/// `t` in this order, each capital or small.
pub proof fn lemma_quit_spellings(text: Seq<char>)
    ensures
        same_ignoring_ascii_case(text, "quit"@) <==> {
            &&& text.len() == 4
            &&& (text[0] == 'q' || text[0] == 'Q')
            &&& (text[1] == 'u' || text[1] == 'U')
            &&& (text[2] == 'i' || text[2] == 'I')
            &&& (text[3] == 't' || text[3] == 'T')
        },
{
    reveal_strlit("quit");
    let quit = "quit"@;
    assert(quit.len() == 4 && quit[0] == 'q' && quit[1] == 'u' && quit[2] == 'i' && quit[3] == 't');
    assert forall|c: char| ascii_lower(c) == 'q' <==> (c == 'q' || c == 'Q') by {}
    assert forall|c: char| ascii_lower(c) == 'u' <==> (c == 'u' || c == 'U') by {}
    assert forall|c: char| ascii_lower(c) == 'i' <==> (c == 'i' || c == 'I') by {}
    assert forall|c: char| ascii_lower(c) == 't' <==> (c == 't' || c == 'T') by {}
    if same_ignoring_ascii_case(text, quit) {
        assert(ascii_lower(text[0]) == ascii_lower(quit[0]));
        assert(ascii_lower(text[1]) == ascii_lower(quit[1]));
        assert(ascii_lower(text[2]) == ascii_lower(quit[2]));
        assert(ascii_lower(text[3]) == ascii_lower(quit[3]));
    }
}

/// An answer that is the prompted word, and does not ask to leave, is
/// correct, and the reply says so.
pub proof fn lemma_exact_answer_is_correct(line: Seq<char>, word: Seq<char>)
    requires
        trimmed(line) == word,
        !asks_to_quit(line),
    ensures
        verdict_of(line, word) == Verdict::Correct,
        reply_text(verdict_of(line, word), word) == "Correct!\n\n"@ + separator_text(),
{
}

/// An answer that is not the prompted word, and does not ask to leave, is
/// incorrect, and the reply shows the prompted word.
pub proof fn lemma_other_answer_is_incorrect(line: Seq<char>, word: Seq<char>)
    requires
        trimmed(line) != word,
        !asks_to_quit(line),
    ensures
        verdict_of(line, word) == Verdict::Incorrect,
        reply_text(verdict_of(line, word), word) == "Incorrect. The correct word was: "@ + word
            + "\n\n"@ + separator_text(),
{
}

/// Whitespace around an answer does not count: a word of the dictionary
/// that is not a spelling of the quit token, typed with any whitespace
/// before and after it, is correct.
pub proof fn lemma_padded_answer_is_correct(before: Seq<char>, word: Seq<char>, after: Seq<char>)
    requires
        is_word(word),
        !same_ignoring_ascii_case(word, "quit"@),
        forall|i: int| 0 <= i < before.len() ==> is_space(#[trigger] before[i]),
        forall|i: int| 0 <= i < after.len() ==> is_space(#[trigger] after[i]),
    ensures
        trimmed(before + word + after) == word,
        verdict_of(before + word + after, word) == Verdict::Correct,
{
    let line = before + word + after;
    let a = before.len() as int;
    let b = a + word.len();
    lemma_word_edges(word);
    assert(line[a] == word.first());
    assert(line[b - 1] == word.last());
    assert forall|j: int| b <= j < line.len() implies is_space(#[trigger] line[j]) by {
        assert(line[j] == after[j - b]);
    }
    assert forall|j: int| 0 <= j < a implies is_space(#[trigger] line[j]) by {
        assert(line[j] == before[j]);
    }
    lemma_trimmed_between(line, a, b);
    assert(line.subrange(a, b) =~= word);
}

/// The verdict on the line `line` where `word` was prompted.
pub fn classify(line: &str, word: &str) -> (verdict: Verdict)
    ensures
        verdict == verdict_of(line@, word@),
{
    let answer = trim(line);
    if eq_ignore_ascii_case(answer, "quit") {
        Verdict::Quit
    } else if same_text(answer, word) {
        Verdict::Correct
    } else {
        Verdict::Incorrect
    }
}

/// The line that separates the rounds.
pub fn separator() -> (r: &'static str)
    ensures
        r@ == separator_text(),
{
    proof {
        reveal_strlit("********************\n");
    }
    let r = "********************\n";
    assert(r@ =~= separator_text());
    r
}

/// What a session opens with.
pub fn welcome() -> (r: String)
    ensures
        r@ == welcome_text(),
{
    let mut r = String::from_str("Welcome to the typing game! Type 'quit' to exit.\n");
    r.append(separator());
    r
}

/// What asks for `word`.
pub fn prompt(word: &str) -> (r: String)
    ensures
        r@ == prompt_text(word@),
{
    let mut r = String::from_str("Type the word: ");
    r.append(word);
    r.append("\nYour input: ");
    r
}

/// What answers a line of input with the verdict `verdict`, where `word`
/// was prompted.
pub fn reply(verdict: Verdict, word: &str) -> (r: String)
    ensures
        r@ == reply_text(verdict, word@),
{
    match verdict {
        Verdict::Quit => String::from_str("Thanks for playing\n"),
        Verdict::Correct => {
            let mut r = String::from_str("Correct!\n\n");
            r.append(separator());
            r
        },
        Verdict::Incorrect => {
            let mut r = String::from_str("Incorrect. The correct word was: ");
            r.append(word);
            r.append("\n\n");
            r.append(separator());
            r
        },
    }
}

/// What a running session answers to `input`, where `word` was prompted and
/// `next` is the word of the round that follows.
pub fn response(word: &str, input: Option<&str>, next: &str) -> (r: String)
    ensures
        r@ == response_text(word@, input_text(input), next@),
{
    match input {
        Some(line) => {
            let verdict = classify(line, word);
            let mut r = reply(verdict, word);
            match verdict {
                Verdict::Quit => {},
                _ => {
                    r.append(prompt(next).as_str());
                },
            }
            r
        },
        None => reply(Verdict::Quit, word),
    }
}

/// A session as its steps see it.
pub struct SessionView {
    /// The dictionary.
    pub words: Seq<Seq<char>>,
    /// The word that was prompted last.
    pub word: Seq<char>,
    /// Whether the session has ended.
    pub over: bool,
}

/// A session of the game: the picker, the word of the current round, and
/// whether the player has left. The word is always one of the dictionary.
pub struct Session {
    picker: WordPicker,
    word: String,
    over: bool,
}

impl View for Session {
    type V = SessionView;

    closed spec fn view(&self) -> SessionView {
        SessionView { words: self.picker@, word: self.word@, over: self.over }
    }
}

impl Session {
    #[verifier::type_invariant]
    spec fn prompts_known_word(&self) -> bool {
        self.picker@.contains(self.word@)
    }

    /// Opens a session on the dictionary of `picker`: picks the word of the
    /// first round, and returns the session with the text to show, which is
    /// the welcome and the prompt for that word.
    pub fn start(picker: WordPicker) -> (r: (Session, String))
        ensures
            r.0@.words == picker@,
            r.0@.words.contains(r.0@.word),
            !r.0@.over,
            r.1@ == welcome_text() + prompt_text(r.0@.word),
    {
        let mut picker = picker;
        let word = picker.pick();
        let mut output = welcome();
        output.append(prompt(word.as_str()).as_str());
        (Session { picker, word, over: false }, output)
    }

    /// Whether the session has ended.
    pub fn is_over(&self) -> (r: bool)
        ensures
            r == self@.over,
    {
        self.over
    }

    /// The word that was prompted last. It is one of the dictionary.
    pub fn word(&self) -> (r: &String)
        ensures
            r@ == self@.word,
            self@.words.contains(r@),
    {
        proof {
            use_type_invariant(self);
        }
        &self.word
    }

    /// The dictionary of the session. It holds the prompted word.
    pub fn collection(&self) -> (r: &WordCollection)
        ensures
            r@ == self@.words,
            r@.contains(self@.word),
    {
        proof {
            use_type_invariant(self);
        }
        self.picker.collection()
    }

    /// One step of the session: takes the player's input, a line or, as
    /// `None`, the end of the input stream, and returns the session after it
    /// with the text to show.
    ///
    /// A session that has ended stays as it is and shows nothing. A running
    /// session ends exactly where the input is the end of the stream or a
    /// line that asks to leave, and then shows the farewell. Otherwise it
    /// shows the verdict, picks the word of the next round from the same
    /// dictionary, and prompts for it.
    pub fn respond(self, input: Option<&str>) -> (r: (Session, String))
        ensures
            r.0@.words == self@.words,
            r.0@.words.contains(r.0@.word),
            r.0@.over == (self@.over || ends_session(input_text(input))),
            r.0@.over ==> r.0@.word == self@.word,
            self@.over ==> r.1@ == Seq::<char>::empty(),
            !self@.over ==> r.1@ == response_text(self@.word, input_text(input), r.0@.word),
    {
        proof {
            use_type_invariant(&self);
        }
        let Session { picker, word, over } = self;
        if over {
            return (Session { picker, word, over }, String::new());
        }
        let leaving = match input {
            Some(line) => match classify(line, word.as_str()) {
                Verdict::Quit => true,
                _ => false,
            },
            None => true,
        };
        if leaving {
            let output = response(word.as_str(), input, word.as_str());
            (Session { picker, word, over: true }, output)
        } else {
            let mut picker = picker;
            let next = picker.pick();
            let output = response(word.as_str(), input, next.as_str());
            (Session { picker, word: next, over: false }, output)
        }
    }
}

} // verus!
