//! The orders in which text is sorted: `String`'s order (character by
//! character, by code point) and the order of relative paths (component by
//! component, which for a path without empty components is the character
//! order with `/` below every other character).
use vstd::prelude::*;

verus! {

/// The rank of a character; in path order `/` comes first.
pub open spec fn rank(c: char, path: bool) -> int {
    if path && c == '/' {
        -1
    } else {
        c as int
    }
}

/// Lexicographic order on character sequences by `rank`.
pub open spec fn lex_lt(a: Seq<char>, b: Seq<char>, path: bool) -> bool
    decreases a.len(),
{
    if a.len() == 0 {
        b.len() > 0
    } else if b.len() == 0 {
        false
    } else if a[0] != b[0] {
        rank(a[0], path) < rank(b[0], path)
    } else {
        lex_lt(a.drop_first(), b.drop_first(), path)
    }
}

/// The order of `String`s.
pub open spec fn text_lt(a: Seq<char>, b: Seq<char>) -> bool {
    lex_lt(a, b, false)
}

/// The order of relative paths.
pub open spec fn path_lt(a: Seq<char>, b: Seq<char>) -> bool {
    lex_lt(a, b, true)
}

pub proof fn lemma_rank_injective(c: char, d: char, path: bool)
    requires
        c != d,
    ensures
        rank(c, path) != rank(d, path),
{
    assert(c as int != d as int) by {
        if c as int == d as int {
            assert((c as int) as char == c);
        }
    }
}

pub proof fn lemma_lex_irreflexive(a: Seq<char>, path: bool)
    ensures
        !lex_lt(a, a, path),
    decreases a.len(),
{
    if a.len() > 0 {
        lemma_lex_irreflexive(a.drop_first(), path);
    }
}

pub proof fn lemma_lex_asymmetric(a: Seq<char>, b: Seq<char>, path: bool)
    requires
        lex_lt(a, b, path),
    ensures
        !lex_lt(b, a, path),
    decreases a.len(),
{
    if a.len() > 0 && b.len() > 0 && a[0] == b[0] {
        lemma_lex_asymmetric(a.drop_first(), b.drop_first(), path);
    }
}

pub proof fn lemma_lex_transitive(a: Seq<char>, b: Seq<char>, c: Seq<char>, path: bool)
    requires
        lex_lt(a, b, path),
        lex_lt(b, c, path),
    ensures
        lex_lt(a, c, path),
    decreases a.len(),
{
    if a.len() > 0 && b.len() > 0 && c.len() > 0 {
        if a[0] == b[0] && b[0] == c[0] {
            lemma_lex_transitive(a.drop_first(), b.drop_first(), c.drop_first(), path);
        } else if a[0] != b[0] && b[0] != c[0] && a[0] == c[0] {
            lemma_rank_injective(a[0], b[0], path);
        } else if a[0] != c[0] {
            lemma_rank_injective(a[0], c[0], path);
        }
    }
}

pub proof fn lemma_lex_total(a: Seq<char>, b: Seq<char>, path: bool)
    requires
        a != b,
    ensures
        lex_lt(a, b, path) || lex_lt(b, a, path),
    decreases a.len(),
{
    if a.len() > 0 && b.len() > 0 {
        if a[0] == b[0] {
            assert(a.drop_first() != b.drop_first()) by {
                if a.drop_first() == b.drop_first() {
                    assert(a =~= seq![a[0]] + a.drop_first());
                    assert(b =~= seq![b[0]] + b.drop_first());
                }
            }
            lemma_lex_total(a.drop_first(), b.drop_first(), path);
        } else {
            lemma_rank_injective(a[0], b[0], path);
        }
    } else if a.len() == 0 && b.len() == 0 {
        assert(a =~= b);
    }
}

fn rank_of(c: char, path: bool) -> (r: i64)
    ensures
        r == rank(c, path),
{
    if path && c == '/' {
        -1
    } else {
        (c as u32) as i64
    }
}

/// Whether `a` comes before `b`.
pub fn lex_less(a: &Vec<char>, b: &Vec<char>, path: bool) -> (r: bool)
    ensures
        r == lex_lt(a@, b@, path),
{
    let mut i: usize = 0;
    assert(a@.skip(0) =~= a@);
    assert(b@.skip(0) =~= b@);
    while i < a.len() && i < b.len()
        invariant
            i <= a@.len(),
            i <= b@.len(),
            lex_lt(a@.skip(i as int), b@.skip(i as int), path) == lex_lt(a@, b@, path),
        decreases a@.len() - i,
    {
        if a[i] != b[i] {
            return rank_of(a[i], path) < rank_of(b[i], path);
        }
        assert(a@.skip(i as int).drop_first() =~= a@.skip(i + 1));
        assert(b@.skip(i as int).drop_first() =~= b@.skip(i + 1));
        i += 1;
    }
    i < b.len()
}

} // verus!
