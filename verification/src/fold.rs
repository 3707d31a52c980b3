use vstd::prelude::*;

verus! {

/// Simple case folding of one character: an ASCII uppercase letter maps to
/// its lowercase counterpart, every other character is left unchanged.
/// Non-ASCII letters are deliberately not folded; the case-insensitive
/// modes are ASCII-only, and the folding is applied consistently to both
/// the query and the line before they are compared.
pub open spec fn fold_char(c: char) -> char {
    if 'A' <= c && c <= 'Z' {
        (((c as u32) + 32) as char)
    } else {
        c
    }
}

/// Case folding of a whole sequence of characters, character by character.
pub open spec fn fold(s: Seq<char>) -> Seq<char> {
    s.map_values(|c: char| fold_char(c))
}

/// Executable counterpart of [`fold_char`].
pub fn fold_char_exec(c: char) -> (r: char)
    ensures
        r == fold_char(c),
{
    let u = c as u32;
    if 65 <= u && u <= 90 {
        ((u as u8) + 32) as char
    } else {
        c
    }
}

/// Folds every character of `v`, returning the folded copy.
pub fn fold_chars(v: &Vec<char>) -> (r: Vec<char>)
    ensures
        r@ == fold(v@),
{
    let mut r: Vec<char> = Vec::new();
    let mut i: usize = 0;
    while i < v.len()
        invariant
            i <= v@.len(),
            r@ == fold(v@.take(i as int)),
        decreases v@.len() - i,
    {
        r.push(fold_char_exec(v[i]));
        proof {
            assert(fold(v@.take(i + 1)) =~= fold(v@.take(i as int)).push(fold_char(v@[i as int])));
        }
        i += 1;
    }
    proof {
        assert(v@.take(v@.len() as int) =~= v@);
    }
    r
}

} // verus!
