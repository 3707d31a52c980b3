use vstd::prelude::*;

use crate::fold::fold;
use crate::matching::{contains_substring, contains_word, line_matches, match_at};
use crate::matching_lines;

verus! {

/// The positions, in document order, of the lines that match the query
/// under the given mode flags.
pub open spec fn matching_indices(
    q: Seq<char>,
    doc: Seq<Seq<char>>,
    ignore_case: bool,
    whole_word: bool,
) -> Seq<int>
    decreases doc.len(),
{
    if doc.len() == 0 {
        Seq::empty()
    } else {
        let rest = matching_indices(q, doc.drop_last(), ignore_case, whole_word);
        if line_matches(doc.last(), q, ignore_case, whole_word) {
            rest.push(doc.len() - 1)
        } else {
            rest
        }
    }
}

/// Idempotence: the result of a search is a function of the query, the
/// document and the mode flags alone, so two searches over identical
/// inputs return identical ordered results.
pub proof fn lemma_search_idempotent(
    q: Seq<char>,
    doc: Seq<Seq<char>>,
    ignore_case: bool,
    whole_word: bool,
    r1: Seq<Seq<char>>,
    r2: Seq<Seq<char>>,
)
    requires
        r1 == matching_lines(q, doc, ignore_case, whole_word),
        r2 == matching_lines(q, doc, ignore_case, whole_word),
    ensures
        r1 == r2,
{
}

/// Order preservation: each result line comes from a position in the
/// document, those positions are strictly increasing, and every result
/// line is the document line at its position, verbatim.
pub proof fn lemma_order_preservation(
    q: Seq<char>,
    doc: Seq<Seq<char>>,
    ignore_case: bool,
    whole_word: bool,
)
    ensures
        ({
            let idx = matching_indices(q, doc, ignore_case, whole_word);
            let res = matching_lines(q, doc, ignore_case, whole_word);
            &&& idx.len() == res.len()
            &&& forall|k: int|
                0 <= k < idx.len() ==> 0 <= #[trigger] idx[k] < doc.len() && res[k] == doc[idx[k]]
            &&& forall|k: int| 0 < k < idx.len() ==> #[trigger] idx[k - 1] < idx[k]
        }),
    decreases doc.len(),
{
    reveal_with_fuel(Seq::filter, 2);
    if doc.len() == 0 {
    } else {
        let dl = doc.drop_last();
        lemma_order_preservation(q, dl, ignore_case, whole_word);
        let idx0 = matching_indices(q, dl, ignore_case, whole_word);
        let res0 = matching_lines(q, dl, ignore_case, whole_word);
        let idx = matching_indices(q, doc, ignore_case, whole_word);
        let res = matching_lines(q, doc, ignore_case, whole_word);
        assert(forall|k: int| 0 <= k < dl.len() ==> #[trigger] dl[k] == doc[k]);
        if line_matches(doc.last(), q, ignore_case, whole_word) {
            assert(idx == idx0.push(doc.len() - 1));
            assert(res == res0.push(doc.last()));
            assert(forall|k: int|
                0 <= k < idx.len() ==> 0 <= #[trigger] idx[k] < doc.len() && res[k] == doc[idx[k]]);
        } else {
            assert(idx == idx0);
            assert(res == res0);
        }
    }
}

/// Subset property: the result is a sub-multiset of the document's lines;
/// every returned line occurs verbatim in the document, and no more often
/// than it does there.
pub proof fn lemma_subset_property(
    q: Seq<char>,
    doc: Seq<Seq<char>>,
    ignore_case: bool,
    whole_word: bool,
)
    ensures
        matching_lines(q, doc, ignore_case, whole_word).to_multiset().subset_of(
            doc.to_multiset(),
        ),
    decreases doc.len(),
{
    broadcast use vstd::seq_lib::group_to_multiset_ensures;
    broadcast use vstd::multiset::group_multiset_axioms;

    reveal_with_fuel(Seq::filter, 2);
    let res = matching_lines(q, doc, ignore_case, whole_word);
    if doc.len() == 0 {
        assert(forall|x: Seq<char>| res.to_multiset().count(x) <= doc.to_multiset().count(x)) by {
            assert(forall|x: Seq<char>| !res.contains(x));
        }
    } else {
        let dl = doc.drop_last();
        let last = doc.last();
        lemma_subset_property(q, dl, ignore_case, whole_word);
        let res0 = matching_lines(q, dl, ignore_case, whole_word);
        assert(doc =~= dl.push(last));
        assert(doc.to_multiset() =~= dl.to_multiset().insert(last));
        assert forall|x: Seq<char>| res.to_multiset().count(x) <= doc.to_multiset().count(x) by {
            vstd::multiset::lemma_insert_increases_count_by_1(dl.to_multiset(), last);
            vstd::multiset::lemma_insert_other_elements_unchanged(dl.to_multiset(), last, x);
            if line_matches(last, q, ignore_case, whole_word) {
                assert(res == res0.push(last));
                assert(res.to_multiset() =~= res0.to_multiset().insert(last));
                vstd::multiset::lemma_insert_increases_count_by_1(res0.to_multiset(), last);
                vstd::multiset::lemma_insert_other_elements_unchanged(res0.to_multiset(), last, x);
            } else {
                assert(res == res0);
            }
        }
    }
}

/// Case-fold correctness: under `ignore_case` a line matches exactly when
/// its folded form contains the folded query — as a substring in substring
/// mode, as a boundary-anchored whole word in whole-word mode.
pub proof fn lemma_case_fold_correctness(l: Seq<char>, q: Seq<char>, whole_word: bool)
    ensures
        line_matches(l, q, true, whole_word) == (if whole_word {
            contains_word(fold(l), fold(q))
        } else {
            contains_substring(fold(l), fold(q))
        }),
{
}

/// The empty-query boundary: in substring mode the empty query matches
/// every line, since every line contains the empty substring; in
/// whole-word mode it matches no line, since no word is the empty string.
pub proof fn lemma_empty_query(l: Seq<char>, ignore_case: bool)
    ensures
        line_matches(l, Seq::<char>::empty(), ignore_case, false),
        !line_matches(l, Seq::<char>::empty(), ignore_case, true),
{
    let q = Seq::<char>::empty();
    assert(fold(q) =~= q);
    let lf = if ignore_case {
        fold(l)
    } else {
        l
    };
    assert(match_at(lf, q, 0)) by {
        assert(lf.subrange(0, 0) =~= q);
    }
}

} // verus!
