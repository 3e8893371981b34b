//! The dictionary: the words that a set of plain-text files holds, one word
//! to a line.
//!
//! A file is handed over as its bytes. Its lines are the stretches between
//! line feeds; a line that is valid UTF-8 gives the word that trimming
//! leaves of it, unless that is empty. A carriage return before the line
//! feed is whitespace and goes with the rest.

use vstd::prelude::*;
use vstd::slice::slice_subrange;
use vstd::utf8::{decode_utf8, valid_utf8};
use crate::text::{is_word, lemma_trimmed_idempotent, trim, trimmed};

verus! {

/// The byte that ends a line.
pub const LINE_FEED: u8 = 10;

/// What was found at the place of one word file.
#[derive(Debug)]
pub enum Source {
    /// There is no such file.
    Missing,
    /// There is such a file, and it could not be opened or read.
    Unreadable,
    /// The bytes of the file.
    Content(Vec<u8>),
}

/// The texts of a sequence of strings.
pub open spec fn texts(strings: Seq<String>) -> Seq<Seq<char>> {
    strings.map_values(|s: String| s@)
}

/// The length of the first line of `bytes`: the number of bytes before the
/// first line feed, or of all bytes where there is none.
pub open spec fn line_len(bytes: Seq<u8>) -> int
    decreases bytes.len(),
{
    if bytes.len() == 0 || bytes.first() == LINE_FEED {
        0
    } else {
        1 + line_len(bytes.drop_first())
    }
}

/// The word that one line gives, if any: none where the line is not valid
/// UTF-8 or holds nothing but whitespace.
pub open spec fn word_of_line(line: Seq<u8>) -> Option<Seq<char>> {
    if valid_utf8(line) && trimmed(decode_utf8(line)).len() > 0 {
        Some(trimmed(decode_utf8(line)))
    } else {
        None
    }
}

/// The words of a file with the content `bytes`, in the order of its lines.
pub open spec fn words_of(bytes: Seq<u8>) -> Seq<Seq<char>>
    decreases bytes.len(),
{
    if bytes.len() == 0 {
        Seq::empty()
    } else {
        let n = line_len(bytes);
        let rest = if 0 <= n < bytes.len() {
            words_of(bytes.skip(n + 1))
        } else {
            Seq::empty()
        };
        match word_of_line(bytes.take(n)) {
            Some(word) => seq![word] + rest,
            None => rest,
        }
    }
}

/// The words that one source adds: those of its content, none where there
/// is no content.
pub open spec fn source_words(source: Source) -> Seq<Seq<char>> {
    match source {
        Source::Content(bytes) => words_of(bytes@),
        _ => Seq::empty(),
    }
}

/// The words of all `sources`: those of the first, then those of the
/// second, and so on.
pub open spec fn collection_of(sources: Seq<Source>) -> Seq<Seq<char>>
    decreases sources.len(),
{
    if sources.len() == 0 {
        Seq::empty()
    } else {
        collection_of(sources.drop_last()) + source_words(sources.last())
    }
}

/// Whether every file of `sources` that is there could be read.
pub open spec fn all_readable(sources: Seq<Source>) -> bool {
    forall|i: int| 0 <= i < sources.len() ==> !(#[trigger] sources[i] is Unreadable)
}

/// The places in `sources` of the missing files, in ascending order.
pub open spec fn missing_of(sources: Seq<Source>) -> Seq<int>
    decreases sources.len(),
{
    if sources.len() == 0 {
        Seq::empty()
    } else if sources.last() is Missing {
        missing_of(sources.drop_last()).push(sources.len() - 1)
    } else {
        missing_of(sources.drop_last())
    }
}

/// The letters that name the word files of the game, one file to a letter.
pub open spec fn file_letters() -> Seq<char> {
    "abcdefghilmnoprstuv"@
}

/// The path of the word file that `letter` names: beside the directory in
/// which the game runs.
pub open spec fn file_path(letter: char) -> Seq<char> {
    "../"@ + seq![letter] + ".txt"@
}

/// The paths of the word files of the game, in their order.
pub open spec fn file_paths() -> Seq<Seq<char>> {
    file_letters().map_values(|letter: char| file_path(letter))
}

/// Where the first line ends: at `n`, if no byte before `n` is a line feed
/// and the byte at `n`, if any, is one.
proof fn lemma_line_len_at(bytes: Seq<u8>, n: int)
    requires
        0 <= n <= bytes.len(),
        forall|j: int| 0 <= j < n ==> #[trigger] bytes[j] != LINE_FEED,
        n < bytes.len() ==> bytes[n] == LINE_FEED,
    ensures
        line_len(bytes) == n,
    decreases n,
{
    if n > 0 {
        let rest = bytes.drop_first();
        assert(bytes[0] != LINE_FEED);
        assert forall|j: int| 0 <= j < n - 1 implies #[trigger] rest[j] != LINE_FEED by {
            assert(rest[j] == bytes[j + 1]);
        }
        lemma_line_len_at(rest, n - 1);
    }
}

/// Every word that a file gives is a word: it is not empty, and trimming
/// leaves it as it is.
pub proof fn lemma_words_of_are_words(bytes: Seq<u8>)
    ensures
        forall|i: int| 0 <= i < words_of(bytes).len() ==> is_word(#[trigger] words_of(bytes)[i]),
    decreases bytes.len(),
{
    if bytes.len() > 0 {
        let n = line_len(bytes);
        let line = bytes.take(n);
        let rest = if 0 <= n < bytes.len() {
            words_of(bytes.skip(n + 1))
        } else {
            Seq::empty()
        };
        if 0 <= n < bytes.len() {
            lemma_words_of_are_words(bytes.skip(n + 1));
        }
        assert forall|i: int| 0 <= i < words_of(bytes).len() implies is_word(
            #[trigger] words_of(bytes)[i],
        ) by {
            match word_of_line(line) {
                Some(word) => {
                    lemma_trimmed_idempotent(decode_utf8(line));
                    if i > 0 {
                        assert(words_of(bytes)[i] == rest[i - 1]);
                    }
                },
                None => {},
            }
        }
    }
}

/// Every word of a collection read from `sources` is a word: it is not
/// empty, and trimming leaves it as it is.
pub proof fn lemma_collection_holds_words(sources: Seq<Source>)
    ensures
        forall|i: int|
            0 <= i < collection_of(sources).len() ==> is_word(#[trigger] collection_of(sources)[i]),
    decreases sources.len(),
{
    if sources.len() > 0 {
        let init = collection_of(sources.drop_last());
        let added = source_words(sources.last());
        lemma_collection_holds_words(sources.drop_last());
        match sources.last() {
            Source::Content(bytes) => {
                lemma_words_of_are_words(bytes@);
            },
            _ => {},
        }
        assert forall|i: int| 0 <= i < collection_of(sources).len() implies is_word(
            #[trigger] collection_of(sources)[i],
        ) by {
            if i >= init.len() {
                assert(collection_of(sources)[i] == added[i - init.len()]);
            }
        }
    }
}

/// Whether two sources are alike: both missing, both unreadable, or both
/// with the same bytes.
pub open spec fn same_source(a: Source, b: Source) -> bool {
    match (a, b) {
        (Source::Missing, Source::Missing) => true,
        (Source::Unreadable, Source::Unreadable) => true,
        (Source::Content(x), Source::Content(y)) => x@ == y@,
        _ => false,
    }
}

/// Reading the same files again gives the same dictionary: lists of
/// sources that are alike place by place hold the same words in the same
/// order, miss the same files, and are readable alike.
pub proof fn lemma_same_sources_same_words(a: Seq<Source>, b: Seq<Source>)
    requires
        a.len() == b.len(),
        forall|i: int| 0 <= i < a.len() ==> same_source(#[trigger] a[i], b[i]),
    ensures
        collection_of(a) == collection_of(b),
        missing_of(a) == missing_of(b),
        all_readable(a) == all_readable(b),
    decreases a.len(),
{
    if a.len() > 0 {
        assert(same_source(a.last(), b.last()));
        assert forall|i: int| 0 <= i < a.drop_last().len() implies same_source(
            #[trigger] a.drop_last()[i],
            b.drop_last()[i],
        ) by {
            assert(same_source(a[i], b[i]));
        }
        lemma_same_sources_same_words(a.drop_last(), b.drop_last());
    }
    if all_readable(a) {
        assert forall|i: int| 0 <= i < b.len() implies !(#[trigger] b[i] is Unreadable) by {
            assert(same_source(a[i], b[i]));
        }
    }
    if all_readable(b) {
        assert forall|i: int| 0 <= i < a.len() implies !(#[trigger] a[i] is Unreadable) by {
            assert(same_source(a[i], b[i]));
        }
    }
}

/// `std::str::from_utf8`: the text that `bytes` encode. It is there exactly
/// where the bytes are valid UTF-8, and is then their decoding.
#[verifier::external_body]
fn decoded(bytes: &[u8]) -> (r: Option<&str>)
    ensures
        r is Some <==> valid_utf8(bytes@),
        r matches Some(text) ==> text@ == decode_utf8(bytes@),
{
    std::str::from_utf8(bytes).ok()
}

/// The word that the line `line` gives, if any.
pub fn word_in_line(line: &[u8]) -> (r: Option<String>)
    ensures
        r is Some <==> word_of_line(line@) is Some,
        r matches Some(word) ==> Some(word@) == word_of_line(line@),
{
    match decoded(line) {
        Some(text) => {
            let word = trim(text);
            if word.is_empty() {
                None
            } else {
                Some(word.to_owned())
            }
        },
        None => None,
    }
}

/// The words of a file with the content `content`, in the order of its
/// lines.
pub fn words_in(content: &[u8]) -> (words: Vec<String>)
    ensures
        texts(words@) == words_of(content@),
        forall|i: int| 0 <= i < words@.len() ==> is_word(#[trigger] words@[i]@),
{
    let mut words: Vec<String> = Vec::new();
    let mut pos: usize = 0;
    assert(content@.skip(0) =~= content@);
    assert(texts(words@) =~= Seq::empty());
    while pos < content.len()
        invariant
            pos <= content@.len(),
            texts(words@) + words_of(content@.skip(pos as int)) == words_of(content@),
        decreases content@.len() - pos,
    {
        let mut end: usize = pos;
        while end < content.len() && content[end] != LINE_FEED
            invariant
                pos <= end <= content@.len(),
                forall|j: int| pos <= j < end ==> #[trigger] content@[j] != LINE_FEED,
            decreases content@.len() - end,
        {
            end = end + 1;
        }
        let ghost tail = content@.skip(pos as int);
        let ghost before = texts(words@);
        proof {
            assert forall|j: int| 0 <= j < end - pos implies #[trigger] tail[j] != LINE_FEED by {
                assert(tail[j] == content@[pos + j]);
            }
            lemma_line_len_at(tail, end - pos);
            assert(tail.take(end - pos) =~= content@.subrange(pos as int, end as int));
        }
        let line = slice_subrange(content, pos, end);
        match word_in_line(line) {
            Some(word) => {
                proof {
                    assert(texts(words@.push(word)) =~= before + seq![word@]);
                }
                words.push(word);
            },
            None => {},
        }
        if end < content.len() {
            proof {
                assert(tail.skip(end - pos + 1) =~= content@.skip(end + 1));
            }
            pos = end + 1;
        } else {
            pos = end;
        }
        proof {
            let rest = words_of(content@.skip(pos as int));
            match word_of_line(line@) {
                Some(w) => {
                    assert((before + seq![w]) + rest =~= before + (seq![w] + rest));
                },
                None => {},
            }
        }
    }
    proof {
        assert(texts(words@) + Seq::<Seq<char>>::empty() =~= texts(words@));
        lemma_words_of_are_words(content@);
        assert forall|i: int| 0 <= i < words@.len() implies is_word(#[trigger] words@[i]@) by {
            assert(texts(words@)[i] == words@[i]@);
        }
    }
    words
}

/// An ordered collection of words. Every word in it is a word in the sense
/// of `is_word`; a word may occur more than once.
#[derive(Debug)]
pub struct WordCollection {
    words: Vec<String>,
}

impl View for WordCollection {
    type V = Seq<Seq<char>>;

    closed spec fn view(&self) -> Seq<Seq<char>> {
        texts(self.words@)
    }
}

impl WordCollection {
    #[verifier::type_invariant]
    spec fn holds_words(&self) -> bool {
        forall|i: int| 0 <= i < self.words@.len() ==> is_word(#[trigger] self.words@[i]@)
    }

    /// The collection without any word.
    pub fn new() -> (r: Self)
        ensures
            r@ == Seq::<Seq<char>>::empty(),
    {
        let r = WordCollection { words: Vec::new() };
        assert(r@ =~= Seq::empty());
        r
    }

    /// The number of words.
    pub fn len(&self) -> (n: usize)
        ensures
            n == self@.len(),
    {
        self.words.len()
    }

    /// Whether the collection holds no word.
    pub fn is_empty(&self) -> (b: bool)
        ensures
            b == (self@.len() == 0),
    {
        self.words.len() == 0
    }

    /// The word at place `i`, if there is one.
    pub fn get(&self, i: usize) -> (r: Option<&String>)
        ensures
            r is Some <==> i < self@.len(),
            r matches Some(word) ==> word@ == self@[i as int] && is_word(word@),
    {
        proof {
            use_type_invariant(self);
        }
        if i < self.words.len() {
            Some(&self.words[i])
        } else {
            None
        }
    }

    /// The words, in their order.
    pub fn words(&self) -> (r: &Vec<String>)
        ensures
            texts(r@) == self@,
            forall|i: int| 0 <= i < r@.len() ==> is_word(#[trigger] r@[i]@),
    {
        proof {
            use_type_invariant(self);
        }
        &self.words
    }
}

/// What reading a set of word files gave.
#[derive(Debug)]
pub struct Loaded {
    /// The words of the files that were there, file after file.
    pub words: WordCollection,
    /// The places, in the list of sources, of the files that were missing.
    pub missing: Vec<usize>,
}

/// The failure to read a word file that is there.
#[derive(Debug)]
pub struct ReadFailure {
    /// The place, in the list of sources, of the first file that could not
    /// be read.
    pub place: usize,
    /// The places of the files before it that were missing.
    pub missing: Vec<usize>,
}

/// The places that a sequence of indices names.
pub open spec fn places(indices: Seq<usize>) -> Seq<int> {
    indices.map_values(|i: usize| i as int)
}

/// Reads the dictionary from `sources`.
///
/// A missing file is passed over, and its place is reported. A file that is
/// there and could not be read fails the whole reading: the failure names
/// the first such file and reports the files that were missing before it.
/// Otherwise the result holds the words of every file, in the order of the
/// files and of their lines.
pub fn load(sources: &Vec<Source>) -> (r: Result<Loaded, ReadFailure>)
    ensures
        r is Ok <==> all_readable(sources@),
        r matches Ok(loaded) ==> {
            &&& loaded.words@ == collection_of(sources@)
            &&& places(loaded.missing@) == missing_of(sources@)
            &&& forall|i: int|
                0 <= i < loaded.words@.len() ==> is_word(#[trigger] loaded.words@[i])
        },
        r matches Err(failure) ==> {
            &&& failure.place < sources@.len()
            &&& sources@[failure.place as int] is Unreadable
            &&& all_readable(sources@.take(failure.place as int))
            &&& places(failure.missing@) == missing_of(sources@.take(failure.place as int))
        },
{
    let mut words: Vec<String> = Vec::new();
    let mut missing: Vec<usize> = Vec::new();
    assert(sources@.take(0) =~= Seq::empty());
    assert(texts(words@) =~= Seq::empty());
    assert(places(missing@) =~= Seq::empty());
    for i in 0..sources.len()
        invariant
            all_readable(sources@.take(i as int)),
            texts(words@) == collection_of(sources@.take(i as int)),
            places(missing@) == missing_of(sources@.take(i as int)),
            forall|k: int| 0 <= k < words@.len() ==> is_word(#[trigger] words@[k]@),
    {
        let ghost before = words@;
        let ghost absent = missing@;
        proof {
            assert(sources@.take(i + 1).drop_last() =~= sources@.take(i as int));
            assert(sources@.take(i + 1).last() == sources@[i as int]);
        }
        match &sources[i] {
            Source::Missing => {
                missing.push(i);
                proof {
                    assert(places(absent.push(i)) =~= places(absent).push(i as int));
                    assert(texts(before) + Seq::<Seq<char>>::empty() =~= texts(before));
                }
            },
            Source::Unreadable => {
                return Err(ReadFailure { place: i, missing });
            },
            Source::Content(bytes) => {
                let mut found = words_in(bytes.as_slice());
                proof {
                    assert(texts(before + found@) =~= texts(before) + texts(found@));
                }
                words.append(&mut found);
            },
        }
        proof {
            assert forall|k: int| 0 <= k < i + 1 implies !(#[trigger] sources@.take(i + 1)[k]
                is Unreadable) by {
                if k < i {
                    assert(sources@.take(i as int)[k] == sources@[k]);
                }
            }
        }
    }
    proof {
        assert(sources@.take(sources@.len() as int) =~= sources@);
        assert forall|i: int| 0 <= i < texts(words@).len() implies is_word(
            #[trigger] texts(words@)[i],
        ) by {
            assert(texts(words@)[i] == words@[i]@);
        }
    }
    Ok(Loaded { words: WordCollection { words }, missing })
}

/// The paths of the nineteen word files of the game, in the order in which
/// they are read.
pub fn word_files() -> (r: Vec<String>)
    ensures
        texts(r@) == file_paths(),
        r@.len() == 19,
{
    let letters = "abcdefghilmnoprstuv";
    proof {
        reveal_strlit("abcdefghilmnoprstuv");
    }
    let mut paths: Vec<String> = Vec::new();
    for i in 0..19usize
        invariant
            letters@ == file_letters(),
            letters@.len() == 19,
            paths@.len() == i,
            forall|k: int| 0 <= k < i ==> (#[trigger] paths@[k])@ == file_path(letters@[k]),
    {
        let letter = letters.substring_char(i, i + 1);
        assert(letter@ =~= seq![letters@[i as int]]);
        let mut path = String::from_str("../");
        path.append(letter);
        path.append(".txt");
        paths.push(path);
    }
    assert(texts(paths@) =~= file_paths());
    paths
}

} // verus!
