//! The five-letter word and the rule that compares a guess against a
//! potential secret to produce a matchstring.

use vstd::prelude::*;

use crate::FormatError;
use crate::matchstring::Match;
use crate::matchstring::MatchString;

verus! {

#[derive(PartialEq, Eq, Clone, Copy, Debug)]
/// A five-letter word.
pub struct Word(pub [char; 5]);

impl View for Word {
    type V = Seq<char>;

    open spec fn view(&self) -> Seq<char> {
        self.0@
    }
}

/// The outcome at position `i` of comparing guess `g` against secret `s`,
/// both of length 5. Green when the letters agree at `i`; otherwise
/// Yellow when the guessed letter occurs at some secret position that is
/// not itself an exact match; otherwise Gray. The presence scan does not
/// consume secret-letter occurrences: one non-Green secret letter may
/// turn more than one guess position Yellow.
pub open spec fn outcome_spec(g: Seq<char>, s: Seq<char>, i: int) -> Match {
    if g[i] == s[i] {
        Match::Green
    } else if exists|j: int| 0 <= j < 5 && s[j] == g[i] && g[j] != s[j] {
        Match::Yellow
    } else {
        Match::Gray
    }
}

/// The full five-position outcome sequence of comparing guess `g`
/// against secret `s`.
pub open spec fn feedback_seq(g: Seq<char>, s: Seq<char>) -> Seq<Match> {
    Seq::new(5, |i: int| outcome_spec(g, s, i))
}

impl Word {
    /// Compare this word against a potential secret, generating the
    /// corresponding matchstring. A first pass marks every exact match
    /// Green; a second pass marks Yellow each remaining position whose
    /// letter occurs at a secret position that is not an exact match;
    /// everything else stays Gray.
    pub fn check(&self, secret: &Word) -> (r: MatchString)
        ensures
            r@ == feedback_seq(self@, secret@),
    {
        let mut ms: [Match; 5] = [Match::Gray; 5];

        // Pass 1: reserve all the exactly matching positions first.
        let mut i: usize = 0;
        while i < 5
            invariant
                i <= 5,
                forall|k: int|
                    0 <= k < i ==> ms@[k] == (if self@[k] == secret@[k] {
                        Match::Green
                    } else {
                        Match::Gray
                    }),
                forall|k: int| i <= k < 5 ==> ms@[k] == Match::Gray,
            decreases 5 - i,
        {
            if self.0[i] == secret.0[i] {
                ms[i] = Match::Green;
            }
            i = i + 1;
        }

        // Pass 2: go back and color Yellow every non-Green position whose
        // letter the secret holds at a position that is not itself Green.
        let mut i: usize = 0;
        while i < 5
            invariant
                i <= 5,
                forall|k: int|
                    0 <= k < 5 ==> ((ms@[k] == Match::Green) <==> self@[k] == secret@[k]),
                forall|k: int| 0 <= k < i ==> ms@[k] == outcome_spec(self@, secret@, k),
                forall|k: int|
                    i <= k < 5 ==> ms@[k] == (if self@[k] == secret@[k] {
                        Match::Green
                    } else {
                        Match::Gray
                    }),
            decreases 5 - i,
        {
            if !matches!(ms[i], Match::Green) {
                let mut j: usize = 0;
                while j < 5
                    invariant
                        i < 5,
                        j <= 5,
                        self@[i as int] != secret@[i as int],
                        forall|k: int|
                            0 <= k < 5 ==> ((ms@[k] == Match::Green) <==> self@[k] == secret@[k]),
                        forall|k: int| 0 <= k < i ==> ms@[k] == outcome_spec(self@, secret@, k),
                        forall|k: int|
                            i < k < 5 ==> ms@[k] == (if self@[k] == secret@[k] {
                                Match::Green
                            } else {
                                Match::Gray
                            }),
                        ms@[i as int] == (if exists|j2: int|
                            0 <= j2 < j && secret@[j2] == self@[i as int] && self@[j2]
                                != secret@[j2] {
                            Match::Yellow
                        } else {
                            Match::Gray
                        }),
                    decreases 5 - j,
                {
                    if secret.0[j] == self.0[i] && !matches!(ms[j], Match::Green) {
                        ms[i] = Match::Yellow;
                    }
                    j = j + 1;
                }
            }
            i = i + 1;
        }

        let r = MatchString(ms);
        assert(r@ =~= feedback_seq(self@, secret@));
        r
    }

    /// Render this word as the concatenation of its five letters in
    /// order. Relies on `String`'s `FromIterator<char>` implementation:
    /// the collected string holds exactly the iterated characters.
    #[verifier::external_body]
    pub fn to_string(&self) -> (r: String)
        ensures
            r@ == self@,
    {
        self.0.iter().collect()
    }

    /// Compare two words letter-wise.
    pub fn equals(&self, other: &Word) -> (r: bool)
        ensures
            r == (self@ == other@),
    {
        let r = self.0[0] == other.0[0] && self.0[1] == other.0[1] && self.0[2] == other.0[2]
            && self.0[3] == other.0[3] && self.0[4] == other.0[4];
        if r {
            assert(self@ =~= other@);
        } else {
            assert(self@ != other@);
        }
        r
    }

    /// Check if this word contains a given character.
    pub fn contains(&self, c: &char) -> (r: bool)
        ensures
            r == self@.contains(*c),
    {
        let mut i: usize = 0;
        while i < 5
            invariant
                i <= 5,
                forall|k: int| 0 <= k < i ==> self@[k] != *c,
            decreases 5 - i,
        {
            if self.0[i] == *c {
                assert(self@.contains(*c));
                return true;
            }
            i = i + 1;
        }
        assert(!self@.contains(*c));
        return false;
    }

    /// Build a word from a five-character string; fails on any other
    /// length. Any character is accepted.
    pub fn try_from(s: &str) -> (r: Result<Word, FormatError>)
        ensures
            r is Ok <==> s@.len() == 5,
            r is Ok ==> r->Ok_0@ == s@,
    {
        if s.unicode_len() != 5 {
            return Err(FormatError);
        }
        let mut letters: [char; 5] = [' '; 5];
        let mut i: usize = 0;
        while i < 5
            invariant
                i <= 5,
                s@.len() == 5,
                forall|j: int| 0 <= j < i ==> letters@[j] == s@[j],
            decreases 5 - i,
        {
            letters[i] = s.get_char(i);
            i = i + 1;
        }
        let w = Word(letters);
        assert(w@ =~= s@);
        Ok(w)
    }
}

/// Comparing any word against itself yields a winning matchstring:
/// every position is an exact match, so every outcome is Green.
pub proof fn lemma_self_feedback_winning(w: Word)
    ensures
        crate::matchstring::is_winning(feedback_seq(w@, w@)),
{
}

} // verus!
