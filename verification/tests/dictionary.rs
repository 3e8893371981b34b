use std::io::BufRead;
use word_game::dictionary::{load, word_files, word_in_line, words_in, Source, WordCollection};

fn content(text: &str) -> Source {
    Source::Content(text.as_bytes().to_vec())
}

fn strings(words: &[&str]) -> Vec<String> {
    words.iter().map(|w| w.to_string()).collect()
}

#[test]
fn one_file_and_one_missing_file() {
    let sources = vec![content("\nhello\n \nworld\n"), Source::Missing];
    let loaded = load(&sources).unwrap();
    assert_eq!(loaded.words.words(), &strings(&["hello", "world"]));
    assert_eq!(loaded.missing, vec![1]);
}

#[test]
fn words_come_in_file_order_then_line_order() {
    let sources = vec![content("pear\napple\n"), Source::Missing, content("fig\n"), content("date\nbanana")];
    let loaded = load(&sources).unwrap();
    assert_eq!(loaded.words.words(), &strings(&["pear", "apple", "fig", "date", "banana"]));
    assert_eq!(loaded.missing, vec![1]);
}

#[test]
fn duplicates_and_case_are_kept() {
    let sources = vec![content("apple\nApple\napple\n"), content("apple\n")];
    let loaded = load(&sources).unwrap();
    assert_eq!(loaded.words.words(), &strings(&["apple", "Apple", "apple", "apple"]));
    assert!(loaded.missing.is_empty());
}

#[test]
fn no_sources_give_no_words() {
    let loaded = load(&Vec::new()).unwrap();
    assert!(loaded.words.is_empty());
    assert_eq!(loaded.words.len(), 0);
    assert!(loaded.missing.is_empty());
}

#[test]
fn missing_files_are_listed_in_order() {
    let sources = vec![Source::Missing, content("a\n"), Source::Missing, Source::Missing];
    let loaded = load(&sources).unwrap();
    assert_eq!(loaded.words.words(), &strings(&["a"]));
    assert_eq!(loaded.missing, vec![0, 2, 3]);
}

#[test]
fn empty_and_blank_files_give_nothing() {
    let sources = vec![content(""), content("\n"), content(" \n\t\n\r\n   "), content("\n\n\n")];
    let loaded = load(&sources).unwrap();
    assert!(loaded.words.is_empty());
    assert!(loaded.missing.is_empty());
}

#[test]
fn loading_twice_gives_the_same_collection() {
    let sources = vec![content("one\n two \n\nthree"), Source::Missing, content("four\r\nfive\r\n")];
    let first = load(&sources).unwrap();
    let second = load(&sources).unwrap();
    assert_eq!(first.words.words(), second.words.words());
    assert_eq!(first.missing, second.missing);
    assert_eq!(first.words.words(), &strings(&["one", "two", "three", "four", "five"]));
}

#[test]
fn every_loaded_word_is_trimmed_and_not_empty() {
    let sources = vec![content("  alpha\nbeta  \n\t\n gamma delta \r\n\u{3000}epsilon\u{a0}\n")];
    let loaded = load(&sources).unwrap();
    assert_eq!(loaded.words.len(), 4);
    for word in loaded.words.words() {
        assert!(!word.is_empty());
        assert_eq!(word.as_str(), word.trim());
    }
    assert_eq!(loaded.words.words(), &strings(&["alpha", "beta", "gamma delta", "epsilon"]));
}

#[test]
fn lines_end_at_line_feeds() {
    assert_eq!(words_in(b"a\nb\nc"), strings(&["a", "b", "c"]));
    assert_eq!(words_in(b"a\nb\nc\n"), strings(&["a", "b", "c"]));
    assert_eq!(words_in(b"a\r\nb\r\n"), strings(&["a", "b"]));
    assert_eq!(words_in(b"a\rb\n"), strings(&["a\rb"]));
    assert_eq!(words_in(b"single"), strings(&["single"]));
    assert_eq!(words_in(b""), Vec::<String>::new());
    assert_eq!(words_in(b"\n"), Vec::<String>::new());
}

#[test]
fn a_line_that_is_not_utf8_is_skipped() {
    assert_eq!(words_in(b"good\n\xff\xfe\nfine\n"), strings(&["good", "fine"]));
    assert_eq!(words_in(b"caf\xc3\xa9\nbad \xc3\nok"), strings(&["caf\u{e9}", "ok"]));
    assert_eq!(words_in(b"\xed\xa0\x80\nx\n"), strings(&["x"]));
    assert_eq!(words_in(b"\xc0\x80\n"), Vec::<String>::new());
}

#[test]
fn a_sequence_cut_by_a_line_feed_spoils_both_lines() {
    assert_eq!(words_in(b"a\xc3\n\xa9b\nc\n"), strings(&["c"]));
}

#[test]
fn word_in_line_examples() {
    assert_eq!(word_in_line(b"  hello \r"), Some("hello".to_string()));
    assert_eq!(word_in_line(b"hello"), Some("hello".to_string()));
    assert_eq!(word_in_line(b"   "), None);
    assert_eq!(word_in_line(b""), None);
    assert_eq!(word_in_line(b"\x80"), None);
    assert_eq!(word_in_line("\u{2003}na\u{ef}ve\u{2003}".as_bytes()), Some("na\u{ef}ve".to_string()));
}

#[test]
fn collection_access() {
    let empty = WordCollection::new();
    assert!(empty.is_empty());
    assert_eq!(empty.len(), 0);
    assert_eq!(empty.get(0), None);
    let loaded = load(&vec![content("x\ny\n")]).unwrap();
    assert!(!loaded.words.is_empty());
    assert_eq!(loaded.words.len(), 2);
    assert_eq!(loaded.words.get(0), Some(&"x".to_string()));
    assert_eq!(loaded.words.get(1), Some(&"y".to_string()));
    assert_eq!(loaded.words.get(2), None);
}

#[test]
fn lines_agree_with_a_buffered_reader() {
    let samples: [&[u8]; 6] = [
        b"\nhello\n \nworld\n",
        b"a\r\nb\rc\n\r\n d ",
        b"x\n\xff\ny",
        b"",
        b"\n\n",
        b"tab\there\n\x0bvt\x0c\n",
    ];
    for sample in samples {
        let mut expected = Vec::new();
        for line in std::io::BufReader::new(sample).lines() {
            if let Ok(line) = line {
                let word = line.trim().to_string();
                if !word.is_empty() {
                    expected.push(word);
                }
            }
        }
        assert_eq!(words_in(sample), expected);
    }
}

#[test]
fn the_nineteen_word_files() {
    let expected = strings(&[
        "../a.txt", "../b.txt", "../c.txt", "../d.txt", "../e.txt", "../f.txt", "../g.txt",
        "../h.txt", "../i.txt", "../l.txt", "../m.txt", "../n.txt", "../o.txt", "../p.txt",
        "../r.txt", "../s.txt", "../t.txt", "../u.txt", "../v.txt",
    ]);
    assert_eq!(word_files().len(), 19);
    assert_eq!(word_files(), expected);
}

#[test]
fn a_file_that_cannot_be_read_fails_the_loading() {
    let sources = vec![Source::Missing, content("a\n"), Source::Unreadable, Source::Missing, content("b\n")];
    let failure = load(&sources).unwrap_err();
    assert_eq!(failure.place, 2);
    assert_eq!(failure.missing, vec![0]);
}

#[test]
fn the_first_unreadable_file_is_named() {
    let sources = vec![Source::Unreadable, Source::Unreadable];
    let failure = load(&sources).unwrap_err();
    assert_eq!(failure.place, 0);
    assert!(failure.missing.is_empty());
    let sources = vec![content("a\n"), Source::Missing, Source::Missing, Source::Unreadable];
    let failure = load(&sources).unwrap_err();
    assert_eq!(failure.place, 3);
    assert_eq!(failure.missing, vec![1, 2]);
}

#[test]
fn missing_files_alone_do_not_fail_the_loading() {
    let loaded = load(&vec![Source::Missing, Source::Missing]).unwrap();
    assert!(loaded.words.is_empty());
    assert_eq!(loaded.missing, vec![0, 1]);
}
