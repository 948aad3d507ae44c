use ezwordle2::Match;
use ezwordle2::MatchString;
use ezwordle2::Word;
use ezwordle2::Wordlist;

fn corpus(entries: &[&str]) -> Vec<String> {
    entries.iter().map(|s| s.to_string()).collect()
}

fn wordlist(entries: &[&str]) -> Wordlist {
    Wordlist::new(&corpus(entries)).unwrap()
}

// The Shannon self-information contribution of one outcome, as the
// scoring layer computes it from the verified filter.
fn contribution(word: &Word, wl: &Wordlist, ms: &MatchString) -> f64 {
    let filtered_len = wl.filter(word, ms).words.len() as f64;
    let original_len = wl.words.len() as f64;
    if filtered_len == 0.0 || original_len == 0.0 {
        return 0.0;
    }
    let p = filtered_len / original_len;
    -p * p.log2()
}

fn entropy(word: &Word, wl: &Wordlist) -> f64 {
    let mut e = 0.0;
    for ms in MatchString::all() {
        e += contribution(word, wl, &ms);
    }
    e
}

#[test]
fn new_skips_blank_lines_and_keeps_order() {
    let wl = wordlist(&["", "abcde", "", "fghij", "klmno", ""]);
    assert_eq!(wl.words.len(), 3);
    assert_eq!(wl.words[0].0, ['a', 'b', 'c', 'd', 'e']);
    assert_eq!(wl.words[1].0, ['f', 'g', 'h', 'i', 'j']);
    assert_eq!(wl.words[2].0, ['k', 'l', 'm', 'n', 'o']);
}

#[test]
fn new_fails_on_a_malformed_entry() {
    assert!(Wordlist::new(&corpus(&["abcde", "abcd"])).is_err());
    assert!(Wordlist::new(&corpus(&["toolong"])).is_err());
}

#[test]
fn contains_is_membership_by_value() {
    let wl = wordlist(&["abcde", "fghij"]);
    assert!(wl.contains(&Word::try_from("abcde").unwrap()));
    assert!(wl.contains(&Word::try_from("fghij").unwrap()));
    assert!(!wl.contains(&Word::try_from("zzzzz").unwrap()));
}

#[test]
fn filter_keeps_exactly_the_consistent_words() {
    let wl = wordlist(&["abcde", "abcdx", "vwxyz"]);
    let guess = Word::try_from("abcde").unwrap();
    let all_green = MatchString([Match::Green; 5]);
    let filtered = wl.filter(&guess, &all_green);
    assert_eq!(filtered.words, vec![Word::try_from("abcde").unwrap()]);
}

#[test]
fn filter_is_stable_and_keeps_duplicates() {
    let wl = wordlist(&["fghij", "abcde", "fghij", "abcde"]);
    let guess = Word::try_from("abcde").unwrap();
    let all_green = MatchString([Match::Green; 5]);
    let filtered = wl.filter(&guess, &all_green);
    let abcde = Word::try_from("abcde").unwrap();
    assert_eq!(filtered.words, vec![abcde, abcde]);
}

#[test]
fn every_word_falls_into_exactly_one_feedback_bucket() {
    let wl = wordlist(&["slate", "crane", "crate", "trace", "slats", "eeeee"]);
    for guess in &wl.words {
        let mut total = 0;
        for ms in MatchString::all() {
            total += wl.filter(guess, &ms).words.len();
        }
        assert_eq!(total, wl.words.len());
    }
}

#[test]
fn filtering_twice_changes_nothing_more() {
    let wl = wordlist(&["slate", "crane", "crate", "trace", "slats"]);
    let guess = Word::try_from("crane").unwrap();
    for ms in MatchString::all() {
        let once = wl.filter(&guess, &ms);
        let twice = once.filter(&guess, &ms);
        assert_eq!(once.words, twice.words);
    }
}

#[test]
fn scores_are_nonnegative_and_zero_in_degenerate_cases() {
    let wl = wordlist(&["slate", "crane", "crate", "trace"]);
    let guess = Word::try_from("slate").unwrap();
    for ms in MatchString::all() {
        assert!(contribution(&guess, &wl, &ms) >= 0.0);
    }
    assert!(entropy(&guess, &wl) >= 0.0);

    // An impossible outcome contributes zero.
    let impossible = MatchString([Match::Yellow; 5]);
    assert_eq!(contribution(&guess, &wordlist(&["slate"]), &impossible), 0.0);

    // An empty candidate set scores zero everywhere.
    let empty = wordlist(&[]);
    for ms in MatchString::all() {
        assert_eq!(contribution(&guess, &empty, &ms), 0.0);
    }
    assert_eq!(entropy(&guess, &empty), 0.0);
}

#[test]
fn guess_returns_a_word_from_the_candidate_set() {
    let wl = wordlist(&["slate", "crane", "crate", "trace", "slats"]);
    let mut scores: Vec<u64> = Vec::new();
    for w in &wl.words {
        scores.push(entropy(w, &wl).to_bits());
    }
    let best = wl.guess(&scores).unwrap();
    assert!(wl.contains(&best));
}

#[test]
fn guess_picks_the_first_highest_score() {
    let wl = wordlist(&["aaaaa", "bbbbb", "ccccc", "ddddd"]);
    let scores = vec![1u64, 7u64, 7u64, 2u64];
    let best = wl.guess(&scores).unwrap();
    assert_eq!(best, Word::try_from("bbbbb").unwrap());
}

#[test]
fn single_candidate_is_guessed_with_zero_entropy() {
    let wl = wordlist(&["slate"]);
    let only = Word::try_from("slate").unwrap();
    assert_eq!(entropy(&only, &wl), 0.0);
    let scores = vec![entropy(&only, &wl).to_bits()];
    assert_eq!(wl.guess(&scores).unwrap(), only);
}

#[test]
fn guess_fails_on_an_empty_candidate_set() {
    let empty = wordlist(&[]);
    let scores: Vec<u64> = Vec::new();
    assert!(empty.guess(&scores).is_err());
}
