use vstd::prelude::*;

verus! {

/// Whether `s` from position `j` matches the LIKE pattern `p` from position
/// `i`: `%` stands for any run of characters, `_` for any one character.
pub open spec fn like_at(p: Seq<char>, s: Seq<char>, i: int, j: int) -> bool
    decreases p.len() - i + s.len() - j,
{
    if i < 0 || j < 0 || i >= p.len() {
        i >= p.len() && j == s.len()
    } else if j > s.len() {
        false
    } else if p[i] == '%' {
        like_at(p, s, i + 1, j) || (j < s.len() && like_at(p, s, i, j + 1))
    } else if j == s.len() {
        false
    } else if p[i] == '_' || p[i] == s[j] {
        like_at(p, s, i + 1, j + 1)
    } else {
        false
    }
}

/// Whether the whole of `s` matches the LIKE pattern `p`.
pub open spec fn like(p: Seq<char>, s: Seq<char>) -> bool {
    like_at(p, s, 0, 0)
}

fn like_from(p: &Vec<char>, s: &Vec<char>, i: usize, j: usize) -> (r: bool)
    requires
        i <= p.len(),
        j <= s.len(),
    ensures
        r == like_at(p@, s@, i as int, j as int),
    decreases p.len() - i + s.len() - j,
{
    if i >= p.len() {
        j == s.len()
    } else if p[i] == '%' {
        if like_from(p, s, i + 1, j) {
            true
        } else {
            j < s.len() && like_from(p, s, i, j + 1)
        }
    } else if j == s.len() {
        false
    } else if p[i] == '_' || p[i] == s[j] {
        like_from(p, s, i + 1, j + 1)
    } else {
        false
    }
}

/// Matches `s` against the LIKE pattern `p`.
pub fn like_match(p: &Vec<char>, s: &Vec<char>) -> (r: bool)
    ensures
        r == like(p@, s@),
{
    like_from(p, s, 0, 0)
}

} // verus!
