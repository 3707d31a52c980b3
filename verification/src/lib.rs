use vstd::prelude::*;

pub mod fold;
pub mod lines;
pub mod matching;
pub mod props;

use crate::lines::{spec_lines, split_lines, str_chars, views_of};
use crate::matching::{line_matches, line_matches_exec};

verus! {

/// The search configuration: the literal query, the name of the file the
/// surrounding command-line tool reads the document from, and the two
/// independent mode flags.
#[derive(Debug)]
pub struct Config {
    pub query: String,
    pub filename: String,
    pub ignore_case: bool,
    pub whole_word: bool,
}

/// The lines of the document that match the query under the given mode
/// flags, kept verbatim and in document order.
pub open spec fn matching_lines(
    q: Seq<char>,
    doc: Seq<Seq<char>>,
    ignore_case: bool,
    whole_word: bool,
) -> Seq<Seq<char>> {
    doc.filter(|l: Seq<char>| line_matches(l, q, ignore_case, whole_word))
}

/// Scans the document line by line and returns every line that matches the
/// query under the configured mode, verbatim (original casing and content)
/// and in document order.
pub fn search<'a>(config: &Config, contents: &'a str) -> (r: Vec<&'a str>)
    ensures
        views_of(r@) == matching_lines(
            config.query@,
            spec_lines(contents@),
            config.ignore_case,
            config.whole_word,
        ),
{
    let doc_lines = split_lines(contents);
    let q = str_chars(config.query.as_str());
    let ghost t = views_of(doc_lines@);
    let mut r: Vec<&'a str> = Vec::new();
    let mut i: usize = 0;
    proof {
        assert(t.take(0) =~= Seq::<Seq<char>>::empty());
        assert(views_of(r@) =~= Seq::<Seq<char>>::empty());
        reveal_with_fuel(Seq::filter, 2);
        assert(matching_lines(config.query@, t.take(0), config.ignore_case, config.whole_word)
            == Seq::<Seq<char>>::empty());
    }
    while i < doc_lines.len()
        invariant
            q@ == config.query@,
            t == views_of(doc_lines@),
            t == spec_lines(contents@),
            t.len() == doc_lines@.len(),
            i <= doc_lines@.len(),
            forall|k: int| 0 <= k < t.len() ==> t[k] == #[trigger] doc_lines@[k]@,
            views_of(r@) == matching_lines(config.query@, t.take(i as int), config.ignore_case, config.whole_word),
        decreases doc_lines@.len() - i,
    {
        let line = doc_lines[i];
        let lc = str_chars(line);
        let ghost prev = r@;
        if line_matches_exec(&lc, &q, config.ignore_case, config.whole_word) {
            r.push(line);
        }
        proof {
            reveal_with_fuel(Seq::filter, 2);
            assert(t.take(i + 1).drop_last() =~= t.take(i as int));
            assert(t.take(i + 1).last() == t[i as int]);
            if line_matches(t[i as int], config.query@, config.ignore_case, config.whole_word) {
                assert(views_of(r@) =~= views_of(prev).push(line@));
            }
            assert(views_of(r@) == matching_lines(config.query@, t.take(i + 1), config.ignore_case, config.whole_word));
        }
        i += 1;
    }
    proof {
        assert(t.take(doc_lines@.len() as int) =~= t);
    }
    r
}

} // verus!
