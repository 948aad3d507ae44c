//! The candidate set: an ordered collection of words still consistent
//! with all feedback observed so far, with the filtering rule and the
//! selection of the next guess.

use vstd::prelude::*;

use crate::CorpusError;
use crate::EmptyWordlistError;
use crate::matchstring::Match;
use crate::matchstring::MatchString;
use crate::matchstring::encode;
use crate::word::Word;
use crate::word::feedback_seq;

verus! {

#[derive(Clone, Debug)]
/// A wordlist: the ordered candidate set of possible secret words.
pub struct Wordlist {
    /// All the words, in their original corpus order.
    pub words: Vec<Word>,
}

/// The non-blank lines of a corpus, in order.
pub open spec fn kept_lines(lines: Seq<Seq<char>>) -> Seq<Seq<char>>
    decreases lines.len(),
{
    if lines.len() == 0 {
        Seq::empty()
    } else {
        let rest = kept_lines(lines.drop_last());
        if lines.last().len() == 0 {
            rest
        } else {
            rest.push(lines.last())
        }
    }
}

/// The words of `s`, in order, whose comparison against guess `g`
/// yields exactly the outcome sequence `f`.
pub open spec fn filter_words(s: Seq<Word>, g: Seq<char>, f: Seq<Match>) -> Seq<Word>
    decreases s.len(),
{
    if s.len() == 0 {
        Seq::empty()
    } else {
        let rest = filter_words(s.drop_last(), g, f);
        if feedback_seq(g, s.last()@) == f {
            rest.push(s.last())
        } else {
            rest
        }
    }
}

proof fn lemma_kept_lines_take_step(lines: Seq<Seq<char>>, i: int)
    requires
        0 <= i < lines.len(),
    ensures
        kept_lines(lines.take(i + 1)) == if lines[i].len() == 0 {
            kept_lines(lines.take(i))
        } else {
            kept_lines(lines.take(i)).push(lines[i])
        },
{
    assert(lines.take(i + 1).drop_last() =~= lines.take(i));
    assert(lines.take(i + 1).last() == lines[i]);
}

proof fn lemma_filter_words_take_step(s: Seq<Word>, g: Seq<char>, f: Seq<Match>, i: int)
    requires
        0 <= i < s.len(),
    ensures
        filter_words(s.take(i + 1), g, f) == if feedback_seq(g, s[i]@) == f {
            filter_words(s.take(i), g, f).push(s[i])
        } else {
            filter_words(s.take(i), g, f)
        },
{
    assert(s.take(i + 1).drop_last() =~= s.take(i));
    assert(s.take(i + 1).last() == s[i]);
}

/// The index of the first occurrence of the maximum of a non-empty
/// score sequence (0 for an empty one).
pub open spec fn first_max_index(scores: Seq<u64>) -> int
    decreases scores.len(),
{
    if scores.len() <= 1 {
        0
    } else {
        let i = first_max_index(scores.drop_last());
        if scores.last() > scores[i] {
            scores.len() - 1
        } else {
            i
        }
    }
}

/// `first_max_index` names the first occurrence of the maximum: no
/// score exceeds the one it points at, and every earlier score is
/// strictly below it.
pub proof fn lemma_first_max_index_properties(scores: Seq<u64>)
    requires
        scores.len() > 0,
    ensures
        0 <= first_max_index(scores) < scores.len(),
        forall|j: int| 0 <= j < scores.len() ==> #[trigger] scores[j] <= scores[first_max_index(scores)],
        forall|j: int|
            0 <= j < first_max_index(scores) ==> #[trigger] scores[j] < scores[first_max_index(scores)],
    decreases scores.len(),
{
    if scores.len() > 1 {
        lemma_first_max_index_properties(scores.drop_last());
        assert(forall|j: int|
            0 <= j < scores.len() - 1 ==> scores[j] == scores.drop_last()[j]);
    }
}

proof fn lemma_first_max_take_step(scores: Seq<u64>, j: int)
    requires
        1 <= j < scores.len(),
    ensures
        first_max_index(scores.take(j + 1)) == if scores[j] > scores.take(j)[first_max_index(
            scores.take(j),
        )] {
            j
        } else {
            first_max_index(scores.take(j))
        },
{
    assert(scores.take(j + 1).drop_last() =~= scores.take(j));
    assert(scores.take(j + 1).last() == scores[j]);
    lemma_first_max_index_properties(scores.take(j));
    let i = first_max_index(scores.take(j));
    assert(scores.take(j + 1)[i] == scores.take(j)[i]);
}

impl Wordlist {
    /// Construct a wordlist from a corpus, one entry per line. Blank
    /// lines are skipped; every other line must hold exactly five
    /// characters, else the whole construction fails and no partial
    /// wordlist is produced.
    pub fn new(corpus: &Vec<String>) -> (r: Result<Wordlist, CorpusError>)
        ensures
            r is Ok <==> (forall|i: int|
                0 <= i < corpus@.len() ==> (#[trigger] corpus@[i]@.len() == 0 || corpus@[i]@.len()
                    == 5)),
            r is Ok ==> r->Ok_0.words@.len() == kept_lines(corpus.deep_view()).len(),
            r is Ok ==> forall|k: int|
                0 <= k < r->Ok_0.words@.len() ==> (#[trigger] r->Ok_0.words@[k])@ == kept_lines(
                    corpus.deep_view(),
                )[k],
    {
        let ghost lines = corpus.deep_view();
        let mut words: Vec<Word> = Vec::new();
        let mut i: usize = 0;
        while i < corpus.len()
            invariant
                i <= corpus@.len(),
                lines == corpus.deep_view(),
                lines.len() == corpus@.len(),
                forall|j: int| 0 <= j < lines.len() ==> #[trigger] lines[j] == corpus@[j]@,
                forall|j: int|
                    0 <= j < i ==> (#[trigger] corpus@[j]@.len() == 0 || corpus@[j]@.len() == 5),
                words@.len() == kept_lines(lines.take(i as int)).len(),
                forall|k: int|
                    0 <= k < words@.len() ==> (#[trigger] words@[k])@ == kept_lines(
                        lines.take(i as int),
                    )[k],
            decreases corpus@.len() - i,
        {
            let line = corpus[i].as_str();
            if line.unicode_len() != 0 {
                match Word::try_from(line) {
                    Ok(w) => {
                        words.push(w);
                    },
                    Err(_) => {
                        assert(corpus@[i as int]@.len() != 0 && corpus@[i as int]@.len() != 5);
                        return Err(CorpusError);
                    },
                }
            }
            proof {
                lemma_kept_lines_take_step(lines, i as int);
            }
            i = i + 1;
        }
        proof {
            assert(lines.take(corpus@.len() as int) =~= lines);
        }
        Ok(Wordlist { words })
    }

    /// Filter the wordlist, keeping exactly those words that, as
    /// secrets, would have answered `word` with `matchstring`. The
    /// relative order of the surviving words is preserved, and a new
    /// wordlist is produced; the input is never changed.
    pub fn filter(&self, word: &Word, matchstring: &MatchString) -> (r: Wordlist)
        ensures
            r.words@ == filter_words(self.words@, word@, matchstring@),
    {
        let mut words: Vec<Word> = Vec::new();
        let mut i: usize = 0;
        while i < self.words.len()
            invariant
                i <= self.words@.len(),
                words@ == filter_words(self.words@.take(i as int), word@, matchstring@),
            decreases self.words@.len() - i,
        {
            let fb = word.check(&self.words[i]);
            proof {
                lemma_filter_words_take_step(self.words@, word@, matchstring@, i as int);
            }
            if fb.equals(matchstring) {
                words.push(self.words[i]);
            }
            i = i + 1;
        }
        proof {
            assert(self.words@.take(self.words@.len() as int) =~= self.words@);
        }
        Wordlist { words }
    }

    /// Check if the wordlist contains the given word, by value equality
    /// of the five letters.
    pub fn contains(&self, word: &Word) -> (r: bool)
        ensures
            r == exists|i: int| 0 <= i < self.words@.len() && (#[trigger] self.words@[i])@ == word@,
    {
        let mut i: usize = 0;
        while i < self.words.len()
            invariant
                i <= self.words@.len(),
                forall|j: int| 0 <= j < i ==> (#[trigger] self.words@[j])@ != word@,
            decreases self.words@.len() - i,
        {
            if self.words[i].equals(word) {
                return true;
            }
            i = i + 1;
        }
        return false;
    }

    /// Select the next guess: the word whose score is highest, ties
    /// broken by original order (the first occurrence of the maximum
    /// wins). `scores` gives one score per word, in the same order;
    /// the caller scores each word by its expected information gain.
    /// Fails exactly when the wordlist is empty.
    pub fn guess(&self, scores: &Vec<u64>) -> (r: Result<Word, EmptyWordlistError>)
        requires
            scores@.len() == self.words@.len(),
        ensures
            r is Ok <==> self.words@.len() > 0,
            r is Ok ==> r->Ok_0 == self.words@[first_max_index(scores@)],
            r is Ok ==> self.words@.contains(r->Ok_0),
            self.words@.len() == 1 ==> r == Ok::<Word, EmptyWordlistError>(self.words@[0]),
    {
        if self.words.len() == 0 {
            return Err(EmptyWordlistError);
        }
        let mut best: usize = 0;
        let mut j: usize = 1;
        while j < self.words.len()
            invariant
                scores@.len() == self.words@.len(),
                0 < self.words@.len(),
                best < j,
                j <= self.words@.len(),
                best as int == first_max_index(scores@.take(j as int)),
            decreases self.words@.len() - j,
        {
            proof {
                lemma_first_max_take_step(scores@, j as int);
                assert(scores@.take(j as int)[best as int] == scores@[best as int]);
            }
            if scores[j] > scores[best] {
                best = j;
            }
            j = j + 1;
        }
        proof {
            assert(scores@.take(scores@.len() as int) =~= scores@);
        }
        let w = self.words[best];
        assert(self.words@.contains(w)) by {
            assert(self.words@[best as int] == w);
        }
        Ok(w)
    }
}

/// Every word that survives a filtering step answers the guess with
/// exactly the filtering matchstring.
proof fn lemma_filter_words_all_match(s: Seq<Word>, g: Seq<char>, f: Seq<Match>)
    ensures
        forall|k: int|
            0 <= k < filter_words(s, g, f).len() ==> feedback_seq(
                g,
                (#[trigger] filter_words(s, g, f)[k])@,
            ) == f,
    decreases s.len(),
{
    if s.len() > 0 {
        lemma_filter_words_all_match(s.drop_last(), g, f);
        let rest = filter_words(s.drop_last(), g, f);
        assert forall|k: int|
            0 <= k < filter_words(s, g, f).len() implies feedback_seq(
            g,
            (#[trigger] filter_words(s, g, f)[k])@,
        ) == f by {
            if feedback_seq(g, s.last()@) == f {
                assert(filter_words(s, g, f) == rest.push(s.last()));
                if k < rest.len() {
                    assert(filter_words(s, g, f)[k] == rest[k]);
                } else {
                    assert(filter_words(s, g, f)[k] == s.last());
                }
            } else {
                assert(filter_words(s, g, f) == rest);
            }
        }
    }
}

/// Filtering a list every one of whose words already matches changes
/// nothing.
proof fn lemma_filter_words_of_matching(s: Seq<Word>, g: Seq<char>, f: Seq<Match>)
    requires
        forall|k: int| 0 <= k < s.len() ==> feedback_seq(g, (#[trigger] s[k])@) == f,
    ensures
        filter_words(s, g, f) == s,
    decreases s.len(),
{
    if s.len() == 0 {
        assert(filter_words(s, g, f) =~= s);
    } else {
        lemma_filter_words_of_matching(s.drop_last(), g, f);
        assert(feedback_seq(g, s.last()@) == f);
        assert(filter_words(s, g, f) =~= s.drop_last().push(s.last()));
        assert(s.drop_last().push(s.last()) =~= s);
    }
}

/// Idempotence of filtering: filtering twice by the same word and
/// matchstring yields the same wordlist as filtering once.
pub proof fn lemma_filter_idempotent(s: Seq<Word>, g: Word, f: MatchString)
    ensures
        filter_words(filter_words(s, g@, f@), g@, f@) == filter_words(s, g@, f@),
{
    lemma_filter_words_all_match(s, g@, f@);
    lemma_filter_words_of_matching(filter_words(s, g@, f@), g@, f@);
}

/// The sum, over the first `k` matchstrings of `all`, of the size of
/// the wordlist filtered by each.
pub open spec fn bucket_sum(s: Seq<Word>, g: Seq<char>, all: Seq<MatchString>, k: int) -> int
    decreases k,
{
    if k <= 0 {
        0
    } else {
        bucket_sum(s, g, all, k - 1) + filter_words(s, g, all[k - 1]@).len()
    }
}

proof fn lemma_bucket_sum_empty(s: Seq<Word>, g: Seq<char>, all: Seq<MatchString>, k: int)
    requires
        s.len() == 0,
    ensures
        bucket_sum(s, g, all, k) == 0,
    decreases k,
{
    if k > 0 {
        lemma_bucket_sum_empty(s, g, all, k - 1);
    }
}

proof fn lemma_bucket_sum_push(s: Seq<Word>, x: Word, g: Seq<char>, all: Seq<MatchString>, k: int)
    requires
        0 <= k <= all.len(),
        forall|k2: int| 0 <= k2 < all.len() ==> encode(#[trigger] all[k2]@) == k2,
    ensures
        bucket_sum(s.push(x), g, all, k) == bucket_sum(s, g, all, k) + if encode(
            feedback_seq(g, x@),
        ) < k {
            1int
        } else {
            0int
        },
    decreases k,
{
    if k > 0 {
        lemma_bucket_sum_push(s, x, g, all, k - 1);
        assert(s.push(x).drop_last() =~= s);
        assert(s.push(x).last() == x);
        let e = encode(feedback_seq(g, x@));
        if e == k - 1 {
            crate::matchstring::lemma_encode_injective(feedback_seq(g, x@), all[k - 1]@);
            assert(feedback_seq(g, x@) == all[k - 1]@);
        } else {
            assert(feedback_seq(g, x@) != all[k - 1]@);
        }
    }
}

/// Partition law: for any wordlist and any guess, the sum over all 243
/// matchstrings of the size of the wordlist filtered by each equals the
/// size of the wordlist — every word falls into exactly one outcome
/// bucket. `all` is the full enumeration, as `MatchString::all`
/// produces it: entry `k` is the matchstring whose encoding is `k`.
pub proof fn lemma_feedback_partitions(s: Seq<Word>, g: Word, all: Seq<MatchString>)
    requires
        all.len() == 243,
        forall|k: int| 0 <= k < all.len() ==> encode(#[trigger] all[k]@) == k,
    ensures
        bucket_sum(s, g@, all, 243) == s.len(),
    decreases s.len(),
{
    if s.len() == 0 {
        lemma_bucket_sum_empty(s, g@, all, 243);
    } else {
        lemma_feedback_partitions(s.drop_last(), g, all);
        lemma_bucket_sum_push(s.drop_last(), s.last(), g@, all, 243);
        crate::matchstring::lemma_encode_bounds(feedback_seq(g@, s.last()@));
        assert(s.drop_last().push(s.last()) =~= s);
    }
}

} // verus!
