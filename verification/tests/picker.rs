use rand::rngs::StdRng;
use rand::SeedableRng;
use word_game::dictionary::{load, Source, WordCollection};
use word_game::picker::WordPicker;

fn collection(text: &str) -> WordCollection {
    load(&vec![Source::Content(text.as_bytes().to_vec())]).unwrap().words
}

#[test]
fn an_empty_dictionary_is_refused() {
    let result = WordPicker::new(WordCollection::new(), StdRng::seed_from_u64(7919));
    match result {
        Ok(_) => panic!("a picker on no words"),
        Err(error) => assert_eq!(error.message(), "No words found in the provided files."),
    }
}

#[test]
fn a_blank_file_leaves_the_dictionary_empty() {
    assert!(WordPicker::new(collection(" \n\n"), StdRng::seed_from_u64(15838)).is_err());
}

#[test]
fn the_only_word_is_always_picked() {
    let mut picker = WordPicker::new(collection("apple\n"), StdRng::seed_from_u64(23757)).unwrap();
    for _ in 0..50 {
        assert_eq!(picker.pick(), "apple");
    }
    assert_eq!(picker.collection().len(), 1);
}

#[test]
fn every_pick_is_in_the_dictionary() {
    let words = collection("ant\nbee\ncat\ndog\neel\n");
    let expected = words.words().clone();
    let mut picker = WordPicker::new(words, StdRng::seed_from_u64(31676)).unwrap();
    for _ in 0..500 {
        let word = picker.pick();
        assert!(expected.contains(&word));
        assert_eq!(picker.collection().words(), &expected);
    }
}

#[test]
fn picks_spread_over_the_dictionary() {
    let names = ["ant", "bee", "cat", "dog"];
    let mut picker = WordPicker::new(collection("ant\nbee\ncat\ndog\n"), StdRng::seed_from_u64(39595)).unwrap();
    let mut counts = [0usize; 4];
    let rounds = 40_000;
    for _ in 0..rounds {
        let word = picker.pick();
        let place = names.iter().position(|name| *name == word).unwrap();
        counts[place] += 1;
    }
    for count in counts {
        assert!(count > rounds / 5 && count < rounds * 3 / 10, "{:?}", counts);
    }
}

#[test]
fn a_word_that_occurs_twice_is_picked_more_often() {
    let mut picker = WordPicker::new(collection("x\nx\nx\ny\n"), StdRng::seed_from_u64(47514)).unwrap();
    let mut xs = 0usize;
    let rounds = 20_000;
    for _ in 0..rounds {
        if picker.pick() == "x" {
            xs += 1;
        }
    }
    assert!(xs > rounds * 13 / 20 && xs < rounds * 17 / 20, "{}", xs);
}

#[test]
fn a_generator_seeded_by_the_system_serves_too() {
    let rng = StdRng::from_rng(rand::thread_rng()).unwrap();
    let mut picker = WordPicker::new(collection("ant\nbee\n"), rng).unwrap();
    for _ in 0..100 {
        let word = picker.pick();
        assert!(word == "ant" || word == "bee");
    }
}

#[test]
fn the_same_seed_gives_the_same_picks() {
    let mut first = WordPicker::new(collection("ant\nbee\ncat\ndog\n"), StdRng::seed_from_u64(5)).unwrap();
    let mut second = WordPicker::new(collection("ant\nbee\ncat\ndog\n"), StdRng::seed_from_u64(5)).unwrap();
    for _ in 0..100 {
        assert_eq!(first.pick(), second.pick());
    }
}
