use ezwordle2::Match;
use ezwordle2::MatchString;
use ezwordle2::Word;

#[test]
fn feedback_example_with_all_letters_shuffled() {
    let guess = Word::try_from("AEDCB").unwrap();
    let secret = Word::try_from("ABCDE").unwrap();
    let feedback = guess.check(&secret);
    assert_eq!(
        feedback,
        MatchString([Match::Green, Match::Yellow, Match::Yellow, Match::Yellow, Match::Yellow])
    );
}

#[test]
fn feedback_against_itself_is_winning() {
    for s in ["abcde", "raise", "aaaaa", "zzzzz"] {
        let w = Word::try_from(s).unwrap();
        assert!(w.check(&w).check());
    }
}

#[test]
fn feedback_with_no_common_letters_is_all_gray() {
    let guess = Word::try_from("abcde").unwrap();
    let secret = Word::try_from("fghij").unwrap();
    assert_eq!(guess.check(&secret), MatchString([Match::Gray; 5]));
}

#[test]
fn one_secret_letter_may_turn_two_positions_yellow() {
    // The presence scan does not consume secret-letter occurrences: the
    // single 'a' of the secret validates both guessed 'a's.
    let guess = Word(['a', 'a', 'c', 'd', 'e']);
    let secret = Word(['x', 'y', 'z', 'w', 'a']);
    assert_eq!(
        guess.check(&secret),
        MatchString([Match::Yellow, Match::Yellow, Match::Gray, Match::Gray, Match::Gray])
    );
}

#[test]
fn secret_letters_already_green_do_not_count_as_present() {
    // The secret's 'a' is an exact match at position 0, so the second
    // guessed 'a' finds no non-green occurrence and stays gray.
    let guess = Word(['a', 'a', 'x', 'y', 'z']);
    let secret = Word(['a', 'b', 'c', 'd', 'e']);
    assert_eq!(
        guess.check(&secret),
        MatchString([Match::Green, Match::Gray, Match::Gray, Match::Gray, Match::Gray])
    );
}

#[test]
fn contains_finds_only_present_letters() {
    let w = Word::try_from("raise").unwrap();
    assert!(w.contains(&'r'));
    assert!(w.contains(&'e'));
    assert!(!w.contains(&'z'));
    assert!(!w.contains(&'R'));
}

#[test]
fn word_renders_as_its_five_letters() {
    let w = Word::try_from("raise").unwrap();
    assert_eq!(w.to_string(), "raise");
    let w = Word(['A', 'E', 'D', 'C', 'B']);
    assert_eq!(w.to_string(), "AEDCB");
}

#[test]
fn word_parsing_requires_exactly_five_characters() {
    let w = Word::try_from("abcde").unwrap();
    assert_eq!(w.0, ['a', 'b', 'c', 'd', 'e']);
    assert!(Word::try_from("abcd").is_err());
    assert!(Word::try_from("abcdef").is_err());
    assert!(Word::try_from("").is_err());
}
