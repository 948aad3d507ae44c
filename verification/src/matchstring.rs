//! The per-letter outcome and the five-letter outcome pattern
//! ("matchstring") that comparing a guess against a secret produces.

use vstd::prelude::*;

use crate::FormatError;

verus! {

#[derive(PartialEq, Eq, Structural, Clone, Copy, Debug)]
/// A match element: the outcome at a single letter position.
pub enum Match {
    /// Correct letter and position.
    Green,
    /// Correct letter, wrong position.
    Yellow,
    /// Incorrect letter.
    Gray,
}

/// The base-3 digit that a match element stands for in the
/// enumeration order: Green is 0, Yellow is 1, Gray is 2.
pub open spec fn match_digit(m: Match) -> int {
    match m {
        Match::Green => 0,
        Match::Yellow => 1,
        Match::Gray => 2,
    }
}

/// Whether a character is one of the three recognized feedback symbols.
pub open spec fn symbol_ok(c: char) -> bool {
    c == '.' || c == '/' || c == 'x'
}

/// The match element that a recognized feedback symbol encodes:
/// `.` is Green, `/` is Yellow, `x` is Gray.
pub open spec fn match_of_symbol(c: char) -> Match {
    if c == '.' {
        Match::Green
    } else if c == '/' {
        Match::Yellow
    } else {
        Match::Gray
    }
}

impl Match {
    /// Decode a single feedback symbol; fails on an unrecognized character.
    pub fn try_from(c: char) -> (r: Result<Match, FormatError>)
        ensures
            r is Ok <==> symbol_ok(c),
            r is Ok ==> r->Ok_0 == match_of_symbol(c),
    {
        match c {
            '.' => Ok(Match::Green),
            '/' => Ok(Match::Yellow),
            'x' => Ok(Match::Gray),
            _ => Err(FormatError),
        }
    }
}

#[derive(PartialEq, Eq, Clone, Copy, Debug)]
/// A matchstring, consisting of five match elements.
pub struct MatchString(pub [Match; 5]);

impl View for MatchString {
    type V = Seq<Match>;

    open spec fn view(&self) -> Seq<Match> {
        self.0@
    }
}

/// The position of a five-element outcome sequence in the enumeration
/// order: its value as a base-3 number whose digits are given by
/// `match_digit`, position 0 being the most significant digit.
pub open spec fn encode(f: Seq<Match>) -> int {
    81 * match_digit(f[0]) + 27 * match_digit(f[1]) + 9 * match_digit(f[2]) + 3 * match_digit(f[3])
        + match_digit(f[4])
}

/// A matchstring is winning exactly when every position is Green.
pub open spec fn is_winning(f: Seq<Match>) -> bool {
    forall|i: int| 0 <= i < f.len() ==> f[i] == Match::Green
}

/// The match element standing for a base-3 digit; inverse of `match_digit`.
fn of_digit(d: usize) -> (m: Match)
    requires
        d < 3,
    ensures
        match_digit(m) == d,
{
    if d == 0 {
        Match::Green
    } else if d == 1 {
        Match::Yellow
    } else {
        Match::Gray
    }
}

impl MatchString {
    /// Generate the list of all 243 possible matchstrings, in ascending
    /// base-3 order: position 0 is the most significant digit, and the
    /// digits are ordered Green, then Yellow, then Gray.
    pub fn all() -> (r: Vec<MatchString>)
        ensures
            r@.len() == 243,
            forall|k: int| 0 <= k < 243 ==> encode(#[trigger] r@[k]@) == k,
    {
        let mut r: Vec<MatchString> = Vec::new();
        let mut d0: usize = 0;
        let mut d1: usize = 0;
        let mut d2: usize = 0;
        let mut d3: usize = 0;
        let mut d4: usize = 0;
        let mut k: usize = 0;
        while k < 243
            invariant
                d0 <= 3,
                d1 < 3,
                d2 < 3,
                d3 < 3,
                d4 < 3,
                k == 81 * d0 + 27 * d1 + 9 * d2 + 3 * d3 + d4,
                k <= 243,
                r@.len() == k,
                forall|j: int| 0 <= j < k ==> encode(#[trigger] r@[j]@) == j,
            decreases 243 - k,
        {
            let mut elems: [Match; 5] = [Match::Gray; 5];
            elems[0] = of_digit(d0);
            elems[1] = of_digit(d1);
            elems[2] = of_digit(d2);
            elems[3] = of_digit(d3);
            elems[4] = of_digit(d4);
            let ms = MatchString(elems);
            assert(encode(ms@) == k);
            r.push(ms);

            // Advance the base-3 odometer, least significant digit first.
            k = k + 1;
            d4 = d4 + 1;
            if d4 == 3 {
                d4 = 0;
                d3 = d3 + 1;
                if d3 == 3 {
                    d3 = 0;
                    d2 = d2 + 1;
                    if d2 == 3 {
                        d2 = 0;
                        d1 = d1 + 1;
                        if d1 == 3 {
                            d1 = 0;
                            d0 = d0 + 1;
                        }
                    }
                }
            }
        }
        r
    }

    /// Check if this matchstring is winning: all five positions Green.
    pub fn check(&self) -> (r: bool)
        ensures
            r == is_winning(self@),
    {
        let r = matches!(self.0[0], Match::Green) && matches!(self.0[1], Match::Green) && matches!(
            self.0[2],
            Match::Green,
        ) && matches!(self.0[3], Match::Green) && matches!(self.0[4], Match::Green);
        assert(r == is_winning(self@)) by {
            if r {
                assert(forall|i: int| 0 <= i < 5 ==> self@[i] == Match::Green) by {
                    assert(self@[0] == Match::Green);
                    assert(self@[1] == Match::Green);
                    assert(self@[2] == Match::Green);
                    assert(self@[3] == Match::Green);
                    assert(self@[4] == Match::Green);
                }
            }
        }
        r
    }

    /// Compare two matchstrings element-wise.
    pub fn equals(&self, other: &MatchString) -> (r: bool)
        ensures
            r == (self@ == other@),
    {
        let r = self.0[0] == other.0[0] && self.0[1] == other.0[1] && self.0[2] == other.0[2]
            && self.0[3] == other.0[3] && self.0[4] == other.0[4];
        if r {
            assert(self@ =~= other@);
        } else {
            assert(self@ != other@);
        }
        r
    }

    /// Decode a five-symbol textual encoding of a matchstring; fails on
    /// any other length or on an unrecognized symbol.
    pub fn try_from(s: &str) -> (r: Result<MatchString, FormatError>)
        ensures
            r is Ok <==> (s@.len() == 5 && forall|i: int| 0 <= i < 5 ==> symbol_ok(#[trigger] s@[i])),
            r is Ok ==> forall|i: int|
                0 <= i < 5 ==> r->Ok_0@[i] == match_of_symbol(#[trigger] s@[i]),
    {
        if s.unicode_len() != 5 {
            return Err(FormatError);
        }
        let mut elems: [Match; 5] = [Match::Gray; 5];
        let mut i: usize = 0;
        while i < 5
            invariant
                i <= 5,
                s@.len() == 5,
                forall|j: int| 0 <= j < i ==> symbol_ok(#[trigger] s@[j]),
                forall|j: int| 0 <= j < i ==> elems@[j] == match_of_symbol(#[trigger] s@[j]),
            decreases 5 - i,
        {
            let c = s.get_char(i);
            match Match::try_from(c) {
                Ok(m) => {
                    elems[i] = m;
                },
                Err(e) => {
                    return Err(e);
                },
            }
            i = i + 1;
        }
        Ok(MatchString(elems))
    }
}

/// Pairwise distinctness of the enumeration (every two entries at
/// different positions differ): any sequence of matchstrings indexed
/// by its own encoding, as `MatchString::all` produces, holds no two
/// entries with the same five outcomes.
pub proof fn lemma_all_pairwise_distinct(ms: Seq<MatchString>)
    requires
        forall|k: int| 0 <= k < ms.len() ==> encode(#[trigger] ms[k]@) == k,
    ensures
        forall|i: int, j: int|
            0 <= i < ms.len() && 0 <= j < ms.len() && i != j ==> ms[i]@ != ms[j]@,
{
    assert forall|i: int, j: int|
        0 <= i < ms.len() && 0 <= j < ms.len() && i != j implies ms[i]@ != ms[j]@ by {
        assert(encode(ms[i]@) == i);
        assert(encode(ms[j]@) == j);
    }
}

/// The encoding of any five-element outcome sequence lies in [0, 243).
pub proof fn lemma_encode_bounds(f: Seq<Match>)
    ensures
        0 <= encode(f) < 243,
{
}

/// Two five-element outcome sequences with the same encoding are equal:
/// the encoding determines each base-3 digit, and each digit determines
/// its match element.
pub proof fn lemma_encode_injective(a: Seq<Match>, b: Seq<Match>)
    requires
        a.len() == 5,
        b.len() == 5,
        encode(a) == encode(b),
    ensures
        a == b,
{
    assert(match_digit(a[0]) == match_digit(b[0]));
    assert(match_digit(a[1]) == match_digit(b[1]));
    assert(match_digit(a[2]) == match_digit(b[2]));
    assert(match_digit(a[3]) == match_digit(b[3]));
    assert(match_digit(a[4]) == match_digit(b[4]));
    assert(a =~= b);
}

} // verus!
