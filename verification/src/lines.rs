use vstd::prelude::*;
use vstd::string::StrSliceExecFns;

verus! {

/// Removes a single trailing carriage return, if present. Applied to the
/// content of a line that was ended by a line feed, so that a `"\r\n"`
/// terminator leaves no `'\r'` behind.
pub open spec fn strip_cr(l: Seq<char>) -> Seq<char> {
    if l.len() > 0 && l.last() == '\r' {
        l.drop_last()
    } else {
        l
    }
}

/// The document text split into its ordered sequence of lines. A line ends
/// at a `'\n'` or at a `"\r\n"`, and the terminator is not part of the
/// line; no line is produced for a final terminator, so empty text has no
/// lines at all. A `'\r'` not followed by `'\n'` is ordinary content.
pub open spec fn spec_lines(s: Seq<char>) -> Seq<Seq<char>>
    decreases s.len(),
{
    if s.len() == 0 {
        Seq::empty()
    } else if s[0] == '\n' {
        seq![Seq::<char>::empty()] + spec_lines(s.skip(1))
    } else if s[0] == '\r' && s.len() >= 2 && s[1] == '\n' {
        seq![Seq::<char>::empty()] + spec_lines(s.skip(2))
    } else {
        let rest = spec_lines(s.skip(1));
        if rest.len() == 0 {
            seq![seq![s[0]]]
        } else {
            seq![seq![s[0]] + rest[0]] + rest.skip(1)
        }
    }
}

/// The views of a sequence of borrowed lines.
pub open spec fn views_of(lines: Seq<&str>) -> Seq<Seq<char>> {
    lines.map_values(|l: &str| l@)
}

/// Splitting off the first line: if the first line feed of `u` stands at
/// position `j`, the lines of `u` are the content before it (with a
/// trailing carriage return stripped) followed by the lines of the rest.
proof fn lemma_lines_split_first(u: Seq<char>, j: int)
    requires
        0 <= j < u.len(),
        u[j] == '\n',
        forall|k: int| 0 <= k < j ==> u[k] != '\n',
    ensures
        spec_lines(u) == seq![strip_cr(u.take(j))] + spec_lines(u.skip(j + 1)),
    decreases j,
{
    if j == 0 {
        assert(u.take(0) =~= Seq::<char>::empty());
        assert(strip_cr(u.take(0)) =~= Seq::<char>::empty());
        assert(spec_lines(u) =~= seq![strip_cr(u.take(j))] + spec_lines(u.skip(j + 1)));
    } else if j == 1 && u[0] == '\r' {
        assert(u.len() >= 2 && u[1] == '\n');
        assert(u.take(1) =~= seq![u[0]]);
        assert(strip_cr(u.take(1)) =~= Seq::<char>::empty());
        assert(spec_lines(u) == seq![Seq::<char>::empty()] + spec_lines(u.skip(2)));
        assert(spec_lines(u) =~= seq![strip_cr(u.take(j))] + spec_lines(u.skip(j + 1)));
    } else {
        // Here `j >= 1`, `u[0]` is not a line feed, and `u[0]` does not
        // start a `"\r\n"` terminator, so the first character belongs to
        // the first line.
        assert(u[0] != '\n');
        assert(!(u[0] == '\r' && u.len() >= 2 && u[1] == '\n')) by {
            if u[0] == '\r' && u.len() >= 2 && u[1] == '\n' {
                assert(u[1] == '\n' && 1 < j);
            }
        }
        let w = u.skip(1);
        assert(w[j - 1] == u[j]);
        assert(forall|k: int| 0 <= k < j - 1 ==> w[k] == u[k + 1] && u[k + 1] != '\n');
        lemma_lines_split_first(w, j - 1);
        let rest = spec_lines(w);
        assert(rest == seq![strip_cr(w.take(j - 1))] + spec_lines(w.skip(j)));
        assert(rest.len() > 0);
        assert(rest[0] == strip_cr(w.take(j - 1)));
        assert(rest.skip(1) =~= spec_lines(w.skip(j)));
        assert(w.skip(j) =~= u.skip(j + 1));
        let v = w.take(j - 1);
        assert(u.take(j) =~= seq![u[0]] + v);
        assert(seq![u[0]] + strip_cr(v) =~= strip_cr(u.take(j))) by {
            if v.len() == 0 {
                // The first line is the single character `u[0]`, and it is
                // not a carriage return: were it one, `u[1] == '\n'` would
                // have made a terminator of it.
                assert(u[1] == '\n' ==> j <= 1);
                assert(u[0] != '\r');
            } else {
                assert(v.last() == u[j - 1]);
                assert(u.take(j).last() == u[j - 1]);
                if u[j - 1] == '\r' {
                    assert(strip_cr(u.take(j)) =~= u.take(j).drop_last());
                    assert(seq![u[0]] + v.drop_last() =~= u.take(j).drop_last());
                } else {
                    assert(seq![u[0]] + v =~= u.take(j));
                }
            }
        }
        assert(spec_lines(u) == seq![seq![u[0]] + rest[0]] + rest.skip(1));
        assert(spec_lines(u) =~= seq![strip_cr(u.take(j))] + spec_lines(u.skip(j + 1)));
    }
}

/// Text without a line feed is a single line (or no line when empty); a
/// carriage return inside it is ordinary content.
proof fn lemma_lines_no_newline(u: Seq<char>)
    requires
        forall|k: int| 0 <= k < u.len() ==> u[k] != '\n',
    ensures
        u.len() == 0 ==> spec_lines(u) == Seq::<Seq<char>>::empty(),
        u.len() > 0 ==> spec_lines(u) == seq![u],
    decreases u.len(),
{
    if u.len() == 0 {
    } else {
        assert(u[0] != '\n');
        assert(!(u[0] == '\r' && u.len() >= 2 && u[1] == '\n'));
        let w = u.skip(1);
        assert(forall|k: int| 0 <= k < w.len() ==> w[k] == u[k + 1] && u[k + 1] != '\n');
        lemma_lines_no_newline(w);
        let rest = spec_lines(w);
        if rest.len() == 0 {
            assert(w.len() == 0);
            assert(seq![u[0]] =~= u);
            assert(spec_lines(u) =~= seq![u]);
        } else {
            assert(rest == seq![w]);
            assert(rest[0] == w);
            assert(rest.skip(1) =~= Seq::<Seq<char>>::empty());
            assert(seq![u[0]] + w =~= u);
            assert(spec_lines(u) =~= seq![u]);
        }
    }
}

/// Collects the characters of a string slice into a vector.
pub fn str_chars(s: &str) -> (r: Vec<char>)
    ensures
        r@ == s@,
{
    let n = s.unicode_len();
    let mut r: Vec<char> = Vec::new();
    let mut i: usize = 0;
    while i < n
        invariant
            n == s@.len(),
            i <= n,
            r@ == s@.take(i as int),
        decreases n - i,
    {
        r.push(s.get_char(i));
        proof {
            assert(s@.take(i + 1) =~= s@.take(i as int).push(s@[i as int]));
        }
        i += 1;
    }
    proof {
        assert(s@.take(n as int) =~= s@);
    }
    r
}

/// Splits the document text into its lines, each borrowed verbatim from
/// `contents`.
pub fn split_lines<'a>(contents: &'a str) -> (r: Vec<&'a str>)
    ensures
        views_of(r@) == spec_lines(contents@),
{
    let n = contents.unicode_len();
    let mut r: Vec<&'a str> = Vec::new();
    let mut start: usize = 0;
    let mut i: usize = 0;
    proof {
        assert(contents@.skip(0) =~= contents@);
        assert(views_of(r@) =~= Seq::<Seq<char>>::empty());
        assert(views_of(r@) + spec_lines(contents@) =~= spec_lines(contents@));
    }
    while i < n
        invariant
            n == contents@.len(),
            start <= i <= n,
            views_of(r@) + spec_lines(contents@.skip(start as int)) == spec_lines(contents@),
            forall|k: int| start <= k < i ==> contents@[k] != '\n',
        decreases n - i,
    {
        let c = contents.get_char(i);
        if c == '\n' {
            let end = if i > start && contents.get_char(i - 1) == '\r' {
                i - 1
            } else {
                i
            };
            let line = contents.substring_char(start, end);
            proof {
                let w = contents@.skip(start as int);
                let j = i - start;
                assert(w[j] == contents@[i as int]);
                assert(forall|k: int| 0 <= k < j ==> w[k] == contents@[k + start] && contents@[k + start] != '\n');
                lemma_lines_split_first(w, j);
                assert(w.take(j) =~= contents@.subrange(start as int, i as int));
                assert(w.skip(j + 1) =~= contents@.skip(i + 1));
                assert(line@ == strip_cr(w.take(j))) by {
                    let full = contents@.subrange(start as int, i as int);
                    if i > start && contents@[i - 1] == '\r' {
                        assert(full.len() > 0 && full.last() == contents@[i - 1]);
                        assert(line@ == contents@.subrange(start as int, i - 1));
                        assert(full.drop_last() =~= contents@.subrange(start as int, i - 1));
                    } else {
                        if full.len() > 0 {
                            assert(full.last() == contents@[i - 1]);
                        }
                        assert(line@ == full);
                        assert(strip_cr(full) == full);
                    }
                }
            }
            r.push(line);
            proof {
                let w = contents@.skip(start as int);
                let prev = r@.drop_last();
                assert(views_of(r@) =~= views_of(prev).push(line@));
                assert(views_of(prev).push(line@) + spec_lines(contents@.skip(i + 1))
                    =~= views_of(prev) + (seq![line@] + spec_lines(contents@.skip(i + 1))));
                assert(views_of(r@) + spec_lines(contents@.skip(i + 1)) == spec_lines(contents@));
            }
            start = i + 1;
        }
        i += 1;
    }
    if start < n {
        let line = contents.substring_char(start, n);
        proof {
            let w = contents@.skip(start as int);
            assert(forall|k: int| 0 <= k < w.len() ==> w[k] == contents@[k + start] && contents@[k + start] != '\n');
            lemma_lines_no_newline(w);
            assert(line@ =~= w);
        }
        r.push(line);
        proof {
            let prev = r@.drop_last();
            assert(views_of(r@) =~= views_of(prev).push(line@));
            assert(views_of(prev).push(line@) =~= views_of(prev) + seq![line@]);
            assert(views_of(r@) == spec_lines(contents@));
        }
    } else {
        proof {
            assert(contents@.skip(start as int) =~= Seq::<char>::empty());
            assert(spec_lines(contents@.skip(start as int)) == Seq::<Seq<char>>::empty());
            assert(views_of(r@) + Seq::<Seq<char>>::empty() =~= views_of(r@));
        }
    }
    r
}

} // verus!
