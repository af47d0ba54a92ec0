//! Relative paths inside the content tree, written as text with `/` between
//! their components: a path as the content tree yields it, with no empty,
//! `.` or `..` component. On such paths these functions agree with
//! `Path::components`, `file_name`, `file_stem`, `extension` and
//! `set_extension`.
use vstd::prelude::*;
use crate::text::{
    chars_of, lemma_split_len, push_char, push_range, split, split_vec, string_of_range, sub_vec, views,
    Sep,
};

verus! {

/// The components of a relative path.
pub open spec fn components(p: Seq<char>) -> Seq<Seq<char>> {
    split(p, Sep::Slash)
}

/// `Path::file_name`: the last component.
pub open spec fn file_name(p: Seq<char>) -> Seq<char> {
    components(p).last()
}

/// The index of the last `.` in `s`, or -1.
pub open spec fn last_dot(s: Seq<char>) -> int
    decreases s.len(),
{
    if s.len() == 0 {
        -1
    } else if s.last() == '.' {
        s.len() - 1
    } else {
        last_dot(s.drop_last())
    }
}

/// `Path::file_stem` of a file name: the part before the last `.`, unless the
/// only `.` starts the name.
pub open spec fn stem_of(name: Seq<char>) -> Seq<char> {
    let i = last_dot(name);
    if i <= 0 {
        name
    } else {
        name.take(i)
    }
}

/// `Path::extension` of a file name.
pub open spec fn extension_of(name: Seq<char>) -> Option<Seq<char>> {
    let i = last_dot(name);
    if i <= 0 {
        None
    } else {
        Some(name.skip(i + 1))
    }
}

/// `Path::file_stem`.
pub open spec fn file_stem(p: Seq<char>) -> Seq<char> {
    stem_of(file_name(p))
}

/// `Path::extension`.
pub open spec fn extension(p: Seq<char>) -> Option<Seq<char>> {
    extension_of(file_name(p))
}

/// `PathBuf::set_extension(ext)` on a non-empty extension: the path up to the
/// end of its file stem, then `.` and `ext`.
pub open spec fn with_extension(p: Seq<char>, ext: Seq<char>) -> Seq<char> {
    p.take(p.len() - file_name(p).len()) + file_stem(p) + seq!['.'] + ext
}

pub proof fn lemma_last_dot_range(s: Seq<char>)
    ensures
        -1 <= last_dot(s) < s.len(),
        last_dot(s) >= 0 ==> s[last_dot(s)] == '.',
    decreases s.len(),
{
    if s.len() > 0 && s.last() != '.' {
        lemma_last_dot_range(s.drop_last());
    }
}

/// The components of `p`.
pub fn components_of(p: &str) -> (r: Vec<Vec<char>>)
    ensures
        views(r@) == components(p@),
        r@.len() >= 1,
{
    let v = chars_of(p);
    let r = split_vec(&v, Sep::Slash);
    proof {
        lemma_split_len(p@, Sep::Slash);
    }
    r
}

/// The index of the last `.` in `s`, if any.
pub fn last_dot_index(s: &Vec<char>) -> (r: Option<usize>)
    ensures
        match r {
            Some(i) => last_dot(s@) == i as int,
            None => last_dot(s@) < 0,
        },
{
    let mut j = s.len();
    assert(s@.take(j as int) =~= s@);
    while j > 0 && s[j - 1] != '.'
        invariant
            j <= s@.len(),
            last_dot(s@.take(j as int)) == last_dot(s@),
        decreases j,
    {
        assert(s@.take(j as int).drop_last() =~= s@.take(j - 1));
        j -= 1;
    }
    if j == 0 {
        None
    } else {
        Some(j - 1)
    }
}

/// The file stem of a file name.
pub fn stem_vec(name: &Vec<char>) -> (r: Vec<char>)
    ensures
        r@ == stem_of(name@),
{
    proof {
        lemma_last_dot_range(name@);
    }
    let d = last_dot_index(name);
    let i: usize = match d {
        Some(i) => i,
        None => 0,
    };
    if i > 0 {
        let r = sub_vec(name, 0, i);
        assert(r@ =~= name@.take(i as int));
        r
    } else {
        let r = sub_vec(name, 0, name.len());
        assert(name@.subrange(0, name@.len() as int) =~= name@);
        r
    }
}

/// The extension of a file name.
pub fn extension_vec(name: &Vec<char>) -> (r: Option<Vec<char>>)
    ensures
        match r {
            Some(e) => extension_of(name@) == Some(e@),
            None => extension_of(name@) is None,
        },
{
    proof {
        lemma_last_dot_range(name@);
    }
    let d = last_dot_index(name);
    let i: usize = match d {
        Some(i) => i,
        None => 0,
    };
    if i > 0 {
        assert(last_dot(name@) == i as int);
        let n = name.len();
        assert(i < n);
        let e = sub_vec(name, i + 1, n);
        assert(e@ =~= name@.skip(i + 1));
        Some(e)
    } else {
        None
    }
}

/// The file name of `p`.
pub fn file_name_of(p: &str) -> (r: Vec<char>)
    ensures
        r@ == file_name(p@),
{
    let mut parts = components_of(p);
    let n = parts.len();
    let last = parts.remove(n - 1);
    last
}

/// `p` with its extension set to `ext`.
pub fn with_extension_of(p: &str, ext: &str) -> (r: String)
    ensures
        r@ == with_extension(p@, ext@),
{
    let v = chars_of(p);
    let name = file_name_of(p);
    let stem = stem_vec(&name);
    proof {
        lemma_split_len(p@, Sep::Slash);
        lemma_file_name_len(p@);
    }
    let mut r = string_of_range(&v, 0, v.len() - name.len());
    push_range(&mut r, &stem, 0, stem.len());
    push_char(&mut r, '.');
    r.append(ext);
    assert(stem@.subrange(0, stem@.len() as int) =~= stem@);
    assert(r@ =~= with_extension(p@, ext@));
    r
}

/// The file name is a suffix of the path.
pub proof fn lemma_file_name_len(p: Seq<char>)
    ensures
        file_name(p).len() <= p.len(),
        p.skip(p.len() - file_name(p).len()) == file_name(p),
    decreases p.len(),
{
    lemma_split_len(p, Sep::Slash);
    if p.len() > 0 {
        lemma_split_len(p.drop_last(), Sep::Slash);
        lemma_file_name_len(p.drop_last());
        if p.last() != '/' {
            assert(file_name(p) == file_name(p.drop_last()).push(p.last()));
            assert(p.skip(p.len() - file_name(p).len()) =~= p.drop_last().skip(
                p.drop_last().len() - file_name(p.drop_last()).len(),
            ).push(p.last()));
        } else {
            assert(p.skip(p.len() as int) =~= Seq::<char>::empty());
        }
    } else {
        assert(p.skip(0) =~= p);
    }
}

} // verus!
