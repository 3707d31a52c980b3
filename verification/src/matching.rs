use vstd::prelude::*;

use crate::fold::{fold, fold_chars};

verus! {

/// The query `q` occurs in line `l` as a contiguous substring starting at
/// character position `i`.
pub open spec fn match_at(l: Seq<char>, q: Seq<char>, i: int) -> bool {
    &&& 0 <= i
    &&& i + q.len() <= l.len()
    &&& l.subrange(i, i + q.len() as int) == q
}

/// The query `q` occurs somewhere in line `l` as a contiguous substring.
/// The empty query occurs in every line.
pub open spec fn contains_substring(l: Seq<char>, q: Seq<char>) -> bool {
    exists|i: int| match_at(l, q, i)
}

/// Word-constituent characters: ASCII letters, ASCII digits and the
/// underscore. Everything else (whitespace, punctuation, the ends of the
/// line) acts as a word boundary.
pub open spec fn is_word_char(c: char) -> bool {
    ||| ('a' <= c && c <= 'z')
    ||| ('A' <= c && c <= 'Z')
    ||| ('0' <= c && c <= '9')
    ||| c == '_'
}

/// The query `q` occurs in line `l` at position `i` as a whole word: the
/// occurrence is anchored by a word boundary on both sides, that is, the
/// character just before it (if any) and the character just after it (if
/// any) are not word-constituent.
pub open spec fn word_match_at(l: Seq<char>, q: Seq<char>, i: int) -> bool {
    &&& match_at(l, q, i)
    &&& (i == 0 || !is_word_char(l[i - 1]))
    &&& (i + q.len() == l.len() || !is_word_char(l[i + q.len()]))
}

/// The query `q` occurs somewhere in line `l` as a boundary-anchored whole
/// word. The empty query matches no line in whole-word mode: no word is the
/// empty string.
pub open spec fn contains_word(l: Seq<char>, q: Seq<char>) -> bool {
    &&& q.len() > 0
    &&& exists|i: int| word_match_at(l, q, i)
}

/// Whether line `l` matches query `q` under the given mode flags. With
/// `ignore_case` both sides are case-folded before the comparison; with
/// `whole_word` the occurrence must be anchored by word boundaries.
pub open spec fn line_matches(l: Seq<char>, q: Seq<char>, ignore_case: bool, whole_word: bool) -> bool {
    let lf = if ignore_case { fold(l) } else { l };
    let qf = if ignore_case { fold(q) } else { q };
    if whole_word {
        contains_word(lf, qf)
    } else {
        contains_substring(lf, qf)
    }
}

/// Executable counterpart of [`is_word_char`].
pub fn is_word_char_exec(c: char) -> (r: bool)
    ensures
        r == is_word_char(c),
{
    ('a' <= c && c <= 'z') || ('A' <= c && c <= 'Z') || ('0' <= c && c <= '9') || c == '_'
}

/// Compares `q` with the characters of `l` starting at position `i`.
fn match_at_exec(l: &Vec<char>, q: &Vec<char>, i: usize) -> (r: bool)
    requires
        l@.len() <= usize::MAX,
        i + q@.len() <= l@.len(),
    ensures
        r == match_at(l@, q@, i as int),
{
    let mut k: usize = 0;
    while k < q.len()
        invariant
            l@.len() <= usize::MAX,
            i + q@.len() <= l@.len(),
            k <= q@.len(),
            forall|m: int| 0 <= m < k ==> l@[i + m] == q@[m],
        decreases q@.len() - k,
    {
        if l[i + k] != q[k] {
            proof {
                assert(l@.subrange(i as int, i + q@.len()) != q@) by {
                    if l@.subrange(i as int, i + q@.len()) == q@ {
                        assert(l@.subrange(i as int, i + q@.len())[k as int] == l@[i + k]);
                    }
                }
            }
            return false;
        }
        k += 1;
    }
    proof {
        assert(l@.subrange(i as int, i + q@.len()) =~= q@);
    }
    true
}

/// Substring scan: tries every starting position in order.
fn contains_substring_exec(l: &Vec<char>, q: &Vec<char>) -> (r: bool)
    ensures
        r == contains_substring(l@, q@),
{
    if q.len() > l.len() {
        proof {
            assert(forall|i: int| !match_at(l@, q@, i));
        }
        return false;
    }
    let last = l.len() - q.len();
    let mut i: usize = 0;
    loop
        invariant
            l@.len() <= usize::MAX,
            q@.len() <= l@.len(),
            last == l@.len() - q@.len(),
            i <= last,
            forall|j: int| 0 <= j < i ==> !match_at(l@, q@, j),
        ensures
            forall|j: int| 0 <= j <= last ==> !match_at(l@, q@, j),
        decreases last - i,
    {
        if match_at_exec(l, q, i) {
            return true;
        }
        if i == last {
            break;
        }
        i += 1;
    }
    proof {
        assert(forall|j: int| j > last ==> !match_at(l@, q@, j));
    }
    false
}

/// Whole-word scan: tries every starting position in order, and accepts one
/// only when it is anchored by a word boundary on both sides.
fn contains_word_exec(l: &Vec<char>, q: &Vec<char>) -> (r: bool)
    ensures
        r == contains_word(l@, q@),
{
    if q.len() == 0 || q.len() > l.len() {
        proof {
            assert(forall|i: int| q@.len() > l@.len() ==> !word_match_at(l@, q@, i));
        }
        return false;
    }
    let last = l.len() - q.len();
    let mut i: usize = 0;
    loop
        invariant
            l@.len() <= usize::MAX,
            0 < q@.len() <= l@.len(),
            last == l@.len() - q@.len(),
            i <= last,
            forall|j: int| 0 <= j < i ==> !word_match_at(l@, q@, j),
        ensures
            forall|j: int| 0 <= j <= last ==> !word_match_at(l@, q@, j),
        decreases last - i,
    {
        if match_at_exec(l, q, i) {
            proof {
                assert(i + q@.len() <= l@.len());
            }
            let left_ok = i == 0 || !is_word_char_exec(l[i - 1]);
            let right_ok = i == last || !is_word_char_exec(l[i + q.len()]);
            if left_ok && right_ok {
                proof {
                    assert(word_match_at(l@, q@, i as int));
                }
                return true;
            }
        }
        if i == last {
            break;
        }
        i += 1;
    }
    proof {
        assert(forall|j: int| j > last ==> !word_match_at(l@, q@, j));
    }
    false
}

/// Decides whether one line matches the query under the given mode flags.
/// Case folding is applied to copies for the comparison only; the caller
/// keeps the line verbatim.
pub fn line_matches_exec(l: &Vec<char>, q: &Vec<char>, ignore_case: bool, whole_word: bool) -> (r: bool)
    ensures
        r == line_matches(l@, q@, ignore_case, whole_word),
{
    if ignore_case {
        let lf = fold_chars(l);
        let qf = fold_chars(q);
        if whole_word {
            contains_word_exec(&lf, &qf)
        } else {
            contains_substring_exec(&lf, &qf)
        }
    } else {
        if whole_word {
            contains_word_exec(l, q)
        } else {
            contains_substring_exec(l, q)
        }
    }
}

} // verus!
