//! Edit distance between two words, and the choice of the closest word
//! among candidates.

use vstd::prelude::*;
use vstd::string::StrSliceExecFns;

verus! {

/// The least of three numbers.
pub open spec fn min3(a: nat, b: nat, c: nat) -> nat {
    if a <= b && a <= c {
        a
    } else if b <= c {
        b
    } else {
        c
    }
}

/// The number of single-character insertions, deletions and substitutions
/// that it takes, at least, to turn `a` into `b`.
pub open spec fn edit_distance(a: Seq<char>, b: Seq<char>) -> nat
    decreases a.len() + b.len(),
{
    if a.len() == 0 {
        b.len()
    } else if b.len() == 0 {
        a.len()
    } else {
        min3(
            edit_distance(a.drop_last(), b) + 1,
            edit_distance(a, b.drop_last()) + 1,
            edit_distance(a.drop_last(), b.drop_last()) + if a.last() == b.last() {
                0nat
            } else {
                1nat
            },
        )
    }
}

/// The distance is at most the length of the longer word.
pub proof fn lemma_distance_bounded(a: Seq<char>, b: Seq<char>)
    ensures
        edit_distance(a, b) <= a.len() || edit_distance(a, b) <= b.len(),
    decreases a.len() + b.len(),
{
    if a.len() > 0 && b.len() > 0 {
        lemma_distance_bounded(a.drop_last(), b.drop_last());
    }
}

/// A word is at distance zero from itself.
pub proof fn lemma_distance_to_itself(a: Seq<char>)
    ensures
        edit_distance(a, a) == 0,
    decreases a.len(),
{
    if a.len() > 0 {
        lemma_distance_to_itself(a.drop_last());
    }
}

/// The edit distance between two words.
pub fn distance(word1: &[char], word2: &[char]) -> (d: usize)
    ensures
        d == edit_distance(word1@, word2@),
{
    let m: usize = word1.len();
    let n: usize = word2.len();
    if n == 0 {
        return m;
    }
    // `previous[j]` is the distance from the first `i` characters of
    // `word1` to the first `j + 1` characters of `word2`.
    let mut previous: Vec<usize> = Vec::new();
    let mut j: usize = 0;
    while j < n
        invariant
            j <= n,
            n == word2@.len(),
            previous@.len() == j,
            forall|k: int| 0 <= k < j ==> #[trigger] previous@[k] == edit_distance(word1@.take(0), word2@.take(k + 1)),
        decreases n - j,
    {
        previous.push(j + 1);
        j += 1;
    }
    let mut i: usize = 0;
    while i < m
        invariant
            i <= m,
            m == word1@.len(),
            n == word2@.len(),
            n > 0,
            previous@.len() == n,
            forall|k: int| 0 <= k < n ==> #[trigger] previous@[k] == edit_distance(word1@.take(i as int), word2@.take(k + 1)),
        decreases m - i,
    {
        let mut current: Vec<usize> = Vec::new();
        let mut j: usize = 0;
        while j < n
            invariant
                j <= n,
                i < m,
                m == word1@.len(),
                n == word2@.len(),
                previous@.len() == n,
                current@.len() == j,
                forall|k: int| 0 <= k < n ==> #[trigger] previous@[k] == edit_distance(word1@.take(i as int), word2@.take(k + 1)),
                forall|k: int| 0 <= k < j ==> #[trigger] current@[k] == edit_distance(word1@.take(i + 1), word2@.take(k + 1)),
            decreases n - j,
        {
            let up: usize = previous[j];
            let left: usize = if j == 0 {
                i + 1
            } else {
                current[j - 1]
            };
            let diagonal: usize = if j == 0 {
                i
            } else {
                previous[j - 1]
            };
            let same: bool = word1[i] == word2[j];
            proof {
                let a = word1@.take(i + 1);
                let b = word2@.take(j + 1);
                assert(a.drop_last() =~= word1@.take(i as int));
                assert(b.drop_last() =~= word2@.take(j as int));
                assert(a.last() == word1@[i as int]);
                assert(b.last() == word2@[j as int]);
                lemma_distance_bounded(a, b);
                assert(up == edit_distance(a.drop_last(), b));
                assert(left == edit_distance(a, b.drop_last()));
                assert(diagonal == edit_distance(a.drop_last(), b.drop_last()));
            }
            let low: usize = if up < left {
                up
            } else {
                left
            };
            let cell: usize = if same {
                if diagonal <= low {
                    diagonal
                } else {
                    low + 1
                }
            } else if diagonal < low {
                diagonal + 1
            } else {
                low + 1
            };
            current.push(cell);
            j += 1;
        }
        previous = current;
        i += 1;
    }
    proof {
        assert(word1@.take(m as int) =~= word1@);
        assert(word2@.take(n as int) =~= word2@);
    }
    previous[n - 1]
}

/// The characters of a string.
pub fn chars_of(s: &str) -> (v: Vec<char>)
    ensures
        v@ == s@,
{
    let n: usize = s.unicode_len();
    let mut v: Vec<char> = Vec::new();
    let mut i: usize = 0;
    while i < n
        invariant
            i <= n,
            n == s@.len(),
            v@ == s@.take(i as int),
        decreases n - i,
    {
        v.push(s.get_char(i));
        i += 1;
        assert(v@ =~= s@.take(i as int));
    }
    assert(s@.take(n as int) =~= s@);
    v
}

/// The texts of a list of strings.
pub open spec fn texts(words: Seq<String>) -> Seq<Seq<char>> {
    Seq::new(words.len(), |i: int| words[i]@)
}

/// Whether `best` is the position of the candidate closest to `word`: no
/// candidate is closer, and every earlier candidate is farther.
pub open spec fn is_closest(word: Seq<char>, candidates: Seq<Seq<char>>, best: int) -> bool {
    &&& 0 <= best < candidates.len()
    &&& forall|j: int| 0 <= j < candidates.len() ==> edit_distance(word, candidates[best]) <= edit_distance(word, #[trigger] candidates[j])
    &&& forall|j: int| 0 <= j < best ==> edit_distance(word, candidates[best]) < edit_distance(word, #[trigger] candidates[j])
}

/// At most one position is the closest.
pub proof fn lemma_closest_is_unique(word: Seq<char>, candidates: Seq<Seq<char>>, first: int, second: int)
    requires
        is_closest(word, candidates, first),
        is_closest(word, candidates, second),
    ensures
        first == second,
{
    if first < second {
        assert(edit_distance(word, candidates[second]) < edit_distance(word, candidates[first]));
    } else if second < first {
        assert(edit_distance(word, candidates[first]) < edit_distance(word, candidates[second]));
    }
}

/// A candidate equal to the word is the closest unless an earlier one is
/// equal to it too.
pub proof fn lemma_exact_match_is_closest(word: Seq<char>, candidates: Seq<Seq<char>>, best: int, at: int)
    requires
        is_closest(word, candidates, best),
        0 <= at < candidates.len(),
        candidates[at] == word,
    ensures
        best <= at,
        edit_distance(word, candidates[best]) == 0,
{
    lemma_distance_to_itself(word);
}

/// The position of the candidate closest to `word`, the first of them where
/// several are equally close; `None` where there is no candidate.
pub fn closest(word: &String, candidates: &Vec<String>) -> (best: Option<usize>)
    ensures
        candidates@.len() == 0 ==> best is None,
        candidates@.len() > 0 ==> best is Some && is_closest(word@, texts(candidates@), best->0 as int),
{
    if candidates.len() == 0 {
        return None;
    }
    let word_chars = chars_of(word.as_str());
    let first_chars = chars_of(candidates[0].as_str());
    let mut best: usize = 0;
    let mut best_score: usize = distance(word_chars.as_slice(), first_chars.as_slice());
    let mut i: usize = 1;
    while i < candidates.len()
        invariant
            1 <= i <= candidates@.len(),
            word_chars@ == word@,
            best < i,
            best_score == edit_distance(word@, texts(candidates@)[best as int]),
            forall|j: int| 0 <= j < i ==> best_score <= edit_distance(word@, #[trigger] texts(candidates@)[j]),
            forall|j: int| 0 <= j < best ==> best_score < edit_distance(word@, #[trigger] texts(candidates@)[j]),
        decreases candidates@.len() - i,
    {
        let possible_chars = chars_of(candidates[i].as_str());
        let score: usize = distance(word_chars.as_slice(), possible_chars.as_slice());
        if score < best_score {
            best = i;
            best_score = score;
        }
        i += 1;
    }
    Some(best)
}

} // verus!
