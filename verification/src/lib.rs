//! A guess-recommendation engine for a five-letter word-guessing game:
//! given the set of still-possible secret words and the feedback seen so
//! far, it narrows the candidate set and recommends the next guess that
//! maximizes expected information gain.

use vstd::prelude::*;

mod matchstring;
mod word;
mod wordlist;

pub use matchstring::Match;
pub use matchstring::MatchString;
pub use matchstring::encode;
pub use matchstring::is_winning;
pub use matchstring::lemma_all_pairwise_distinct;
pub use matchstring::lemma_encode_bounds;
pub use matchstring::lemma_encode_injective;
pub use matchstring::match_digit;
pub use matchstring::match_of_symbol;
pub use matchstring::symbol_ok;
pub use word::Word;
pub use word::feedback_seq;
pub use word::lemma_self_feedback_winning;
pub use word::outcome_spec;
pub use wordlist::Wordlist;
pub use wordlist::bucket_sum;
pub use wordlist::filter_words;
pub use wordlist::first_max_index;
pub use wordlist::lemma_first_max_index_properties;
pub use wordlist::kept_lines;
pub use wordlist::lemma_feedback_partitions;
pub use wordlist::lemma_filter_idempotent;

verus! {

#[derive(PartialEq, Eq, Structural, Clone, Copy, Debug)]
/// Error returned when a textual encoding of a word or a matchstring
/// has the wrong length or holds an unrecognized symbol.
pub struct FormatError;

#[derive(PartialEq, Eq, Structural, Clone, Copy, Debug)]
/// Error returned when the corpus holds a malformed entry; no partial
/// wordlist is produced.
pub struct CorpusError;

#[derive(PartialEq, Eq, Structural, Clone, Copy, Debug)]
/// Error returned when a guess is requested from an empty wordlist:
/// the observations are contradictory and no selection exists.
pub struct EmptyWordlistError;

} // verus!
