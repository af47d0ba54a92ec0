//! Character-level text primitives: the exact behaviour of the `str`
//! operations the site generator relies on (trimming, splitting, line
//! breaking, joining, replacing, decimal numbers), stated over `Seq<char>`.
use vstd::prelude::*;
use vstd::string::*;

verus! {

// ---------------------------------------------------------------------------
// Characters
// ---------------------------------------------------------------------------

/// The Unicode `White_Space` property, the predicate behind `str::trim`.
pub open spec fn is_whitespace(c: char) -> bool {
    let u = c as u32;
    (9 <= u <= 13) || u == 32 || u == 0x85 || u == 0xA0 || u == 0x1680 || (0x2000 <= u
        <= 0x200A) || u == 0x2028 || u == 0x2029 || u == 0x202F || u == 0x205F || u == 0x3000
}

pub fn char_is_whitespace(c: char) -> (b: bool)
    ensures
        b == is_whitespace(c),
{
    let u = c as u32;
    (9 <= u && u <= 13) || u == 32 || u == 0x85 || u == 0xA0 || u == 0x1680 || (0x2000 <= u && u
        <= 0x200A) || u == 0x2028 || u == 0x2029 || u == 0x202F || u == 0x205F || u == 0x3000
}

pub open spec fn is_ascii_digit(c: char) -> bool {
    '0' <= c <= '9'
}

pub open spec fn is_ascii_upper(c: char) -> bool {
    'A' <= c <= 'Z'
}

pub open spec fn is_ascii_lower(c: char) -> bool {
    'a' <= c <= 'z'
}

pub open spec fn is_ascii_alphanumeric(c: char) -> bool {
    is_ascii_digit(c) || is_ascii_upper(c) || is_ascii_lower(c)
}

pub fn char_is_ascii_alphanumeric(c: char) -> (b: bool)
    ensures
        b == is_ascii_alphanumeric(c),
{
    ('0' <= c && c <= '9') || ('A' <= c && c <= 'Z') || ('a' <= c && c <= 'z')
}

/// `char::to_ascii_lowercase`.
pub open spec fn ascii_lower(c: char) -> char {
    if is_ascii_upper(c) {
        ((c as u32) + 32) as char
    } else {
        c
    }
}

pub fn char_to_ascii_lowercase(c: char) -> (r: char)
    ensures
        r == ascii_lower(c),
{
    if 'A' <= c && c <= 'Z' {
        let b: u8 = c as u8;
        assert(b == c as u32);
        ((b + 32) as char)
    } else {
        c
    }
}

// ---------------------------------------------------------------------------
// Building strings
// ---------------------------------------------------------------------------

/// Appends one character. Calls `String::push`; its contract claims that the
/// string afterwards is the one before with `c` at its end.
#[verifier::external_body]
pub fn push_char(s: &mut String, c: char)
    ensures
        final(s)@ == old(s)@.push(c),
{
    s.push(c);
}

/// The characters of `s`, in order.
pub fn chars_of(s: &str) -> (v: Vec<char>)
    ensures
        v@ == s@,
{
    let mut v: Vec<char> = Vec::new();
    for c in iter: s.chars()
        invariant
            v@ == iter.seq().take(iter.index() as int),
    {
        v.push(c);
    }
    v
}

/// Appends `v[lo..hi]` to `s`.
pub fn push_range(s: &mut String, v: &Vec<char>, lo: usize, hi: usize)
    requires
        lo <= hi <= v@.len(),
    ensures
        final(s)@ == old(s)@ + v@.subrange(lo as int, hi as int),
{
    let ghost s0 = s@;
    let mut i = lo;
    while i < hi
        invariant
            lo <= i <= hi <= v@.len(),
            s@ == s0 + v@.subrange(lo as int, i as int),
        decreases hi - i,
    {
        push_char(s, v[i]);
        assert(v@.subrange(lo as int, i + 1) =~= v@.subrange(lo as int, i as int).push(v@[i as int]));
        i += 1;
    }
}

/// A string holding `v[lo..hi]`.
pub fn string_of_range(v: &Vec<char>, lo: usize, hi: usize) -> (s: String)
    requires
        lo <= hi <= v@.len(),
    ensures
        s@ == v@.subrange(lo as int, hi as int),
{
    let mut s = String::new();
    push_range(&mut s, v, lo, hi);
    assert(Seq::<char>::empty() + v@.subrange(lo as int, hi as int) =~= v@.subrange(lo as int, hi as int));
    s
}

/// A string holding the characters of `v`.
pub fn string_of(v: &Vec<char>) -> (s: String)
    ensures
        s@ == v@,
{
    let s = string_of_range(v, 0, v.len());
    assert(v@.subrange(0, v@.len() as int) =~= v@);
    s
}

/// A fresh copy of `s`.
pub fn owned(s: &str) -> (r: String)
    ensures
        r@ == s@,
{
    s.to_owned()
}

// ---------------------------------------------------------------------------
// Trimming
// ---------------------------------------------------------------------------

/// `str::trim_start`.
pub open spec fn trim_start(s: Seq<char>) -> Seq<char>
    decreases s.len(),
{
    if s.len() > 0 && is_whitespace(s[0]) {
        trim_start(s.drop_first())
    } else {
        s
    }
}

/// `str::trim_end`.
pub open spec fn trim_end(s: Seq<char>) -> Seq<char>
    decreases s.len(),
{
    if s.len() > 0 && is_whitespace(s.last()) {
        trim_end(s.drop_last())
    } else {
        s
    }
}

/// `str::trim`.
pub open spec fn trim(s: Seq<char>) -> Seq<char> {
    trim_end(trim_start(s))
}

/// The index of the first character of `v[lo..hi]` that is not white space
/// (or `hi`), so that `v[result..hi]` is `trim_start(v[lo..hi])`.
pub fn trim_start_index(v: &Vec<char>, lo: usize, hi: usize) -> (r: usize)
    requires
        lo <= hi <= v@.len(),
    ensures
        lo <= r <= hi,
        v@.subrange(r as int, hi as int) == trim_start(v@.subrange(lo as int, hi as int)),
{
    let mut i = lo;
    while i < hi && char_is_whitespace(v[i])
        invariant
            lo <= i <= hi <= v@.len(),
            trim_start(v@.subrange(i as int, hi as int)) == trim_start(
                v@.subrange(lo as int, hi as int),
            ),
        decreases hi - i,
    {
        assert(v@.subrange(i as int, hi as int).drop_first() =~= v@.subrange(i + 1, hi as int));
        i += 1;
    }
    i
}

/// The end of `trim_end(v[lo..hi])`: `v[lo..result]` is that string.
pub fn trim_end_index(v: &Vec<char>, lo: usize, hi: usize) -> (r: usize)
    requires
        lo <= hi <= v@.len(),
    ensures
        lo <= r <= hi,
        v@.subrange(lo as int, r as int) == trim_end(v@.subrange(lo as int, hi as int)),
{
    let mut j = hi;
    while j > lo && char_is_whitespace(v[j - 1])
        invariant
            lo <= j <= hi <= v@.len(),
            trim_end(v@.subrange(lo as int, j as int)) == trim_end(
                v@.subrange(lo as int, hi as int),
            ),
        decreases j - lo,
    {
        assert(v@.subrange(lo as int, j as int).drop_last() =~= v@.subrange(lo as int, j - 1));
        j -= 1;
    }
    j
}

/// The bounds of `trim(v[lo..hi])`.
pub fn trim_indices(v: &Vec<char>, lo: usize, hi: usize) -> (r: (usize, usize))
    requires
        lo <= hi <= v@.len(),
    ensures
        lo <= r.0 <= r.1 <= hi,
        v@.subrange(r.0 as int, r.1 as int) == trim(v@.subrange(lo as int, hi as int)),
{
    let a = trim_start_index(v, lo, hi);
    let b = trim_end_index(v, a, hi);
    (a, b)
}

/// A vector holding `v[lo..hi]`.
pub fn sub_vec(v: &Vec<char>, lo: usize, hi: usize) -> (r: Vec<char>)
    requires
        lo <= hi <= v@.len(),
    ensures
        r@ == v@.subrange(lo as int, hi as int),
{
    let mut r: Vec<char> = Vec::new();
    let mut i = lo;
    while i < hi
        invariant
            lo <= i <= hi <= v@.len(),
            r@ == v@.subrange(lo as int, i as int),
        decreases hi - i,
    {
        r.push(v[i]);
        assert(v@.subrange(lo as int, i + 1) =~= v@.subrange(lo as int, i as int).push(v@[i as int]));
        i += 1;
    }
    r
}

/// `str::trim` of the characters in `v`.
pub fn trim_vec(v: &Vec<char>) -> (r: Vec<char>)
    ensures
        r@ == trim(v@),
{
    let (a, b) = trim_indices(v, 0, v.len());
    assert(v@.subrange(0, v@.len() as int) =~= v@);
    sub_vec(v, a, b)
}

/// Whether `a` and `b` hold the same characters.
pub fn chars_eq(a: &Vec<char>, b: &Vec<char>) -> (r: bool)
    ensures
        r == (a@ == b@),
{
    if a.len() != b.len() {
        return false;
    }
    let mut i: usize = 0;
    while i < a.len()
        invariant
            a@.len() == b@.len(),
            i <= a@.len(),
            forall|k: int| 0 <= k < i ==> a@[k] == b@[k],
        decreases a@.len() - i,
    {
        if a[i] != b[i] {
            return false;
        }
        i += 1;
    }
    assert(a@ =~= b@);
    true
}

// ---------------------------------------------------------------------------
// Prefixes
// ---------------------------------------------------------------------------

/// `str::starts_with`.
pub open spec fn starts_with(s: Seq<char>, p: Seq<char>) -> bool {
    p.len() <= s.len() && s.take(p.len() as int) == p
}

/// Whether `v[lo..hi]` starts with `p`.
pub fn range_starts_with(v: &Vec<char>, lo: usize, hi: usize, p: &Vec<char>) -> (r: bool)
    requires
        lo <= hi <= v@.len(),
    ensures
        r == starts_with(v@.subrange(lo as int, hi as int), p@),
{
    if p.len() > hi - lo {
        return false;
    }
    let mut k: usize = 0;
    while k < p.len()
        invariant
            lo <= hi <= v@.len(),
            p@.len() <= hi - lo,
            k <= p@.len(),
            forall|j: int| 0 <= j < k ==> v@[lo + j] == p@[j],
        decreases p@.len() - k,
    {
        if v[lo + k] != p[k] {
            assert(v@.subrange(lo as int, hi as int).take(p@.len() as int)[k as int] != p@[k as int]);
            return false;
        }
        k += 1;
    }
    assert(v@.subrange(lo as int, hi as int).take(p@.len() as int) =~= p@);
    true
}

// ---------------------------------------------------------------------------
// Splitting and joining
// ---------------------------------------------------------------------------

/// The separators at which text is split.
#[derive(Clone, Copy, PartialEq, Eq, Debug)]
pub enum Sep {
    Comma,
    Newline,
    Slash,
    Dash,
    /// `-` and `_`.
    DashOrUnderscore,
    /// `-`, `_` and space.
    DashUnderscoreOrSpace,
}

impl Sep {
    pub open spec fn holds(self, c: char) -> bool {
        match self {
            Sep::Comma => c == ',',
            Sep::Newline => c == '\n',
            Sep::Slash => c == '/',
            Sep::Dash => c == '-',
            Sep::DashOrUnderscore => c == '-' || c == '_',
            Sep::DashUnderscoreOrSpace => c == '-' || c == '_' || c == ' ',
        }
    }

    pub fn matches(&self, c: char) -> (r: bool)
        ensures
            r == self.holds(c),
    {
        match self {
            Sep::Comma => c == ',',
            Sep::Newline => c == '\n',
            Sep::Slash => c == '/',
            Sep::Dash => c == '-',
            Sep::DashOrUnderscore => c == '-' || c == '_',
            Sep::DashUnderscoreOrSpace => c == '-' || c == '_' || c == ' ',
        }
    }
}

/// `str::split` at every separator character: always at least one piece.
pub open spec fn split(s: Seq<char>, sep: Sep) -> Seq<Seq<char>>
    decreases s.len(),
{
    if s.len() == 0 {
        seq![Seq::<char>::empty()]
    } else {
        let p = split(s.drop_last(), sep);
        if sep.holds(s.last()) {
            p.push(Seq::<char>::empty())
        } else {
            p.update(p.len() - 1, p.last().push(s.last()))
        }
    }
}

pub proof fn lemma_split_len(s: Seq<char>, sep: Sep)
    ensures
        split(s, sep).len() >= 1,
    decreases s.len(),
{
    if s.len() > 0 {
        lemma_split_len(s.drop_last(), sep);
    }
}

/// The views of a vector of character vectors.
pub open spec fn views(v: Seq<Vec<char>>) -> Seq<Seq<char>> {
    v.map_values(|x: Vec<char>| x@)
}

/// `str::split` of the characters in `v`.
pub fn split_vec(v: &Vec<char>, sep: Sep) -> (r: Vec<Vec<char>>)
    ensures
        views(r@) == split(v@, sep),
{
    let mut done: Vec<Vec<char>> = Vec::new();
    let mut cur: Vec<char> = Vec::new();
    let mut i: usize = 0;
    assert(v@.take(0) =~= Seq::<char>::empty());
    while i < v.len()
        invariant
            i <= v@.len(),
            views(done@).push(cur@) == split(v@.take(i as int), sep),
        decreases v@.len() - i,
    {
        let c = v[i];
        let ghost prev = split(v@.take(i as int), sep);
        assert(v@.take(i + 1).drop_last() =~= v@.take(i as int));
        if sep.matches(c) {
            let finished = cur;
            done.push(finished);
            cur = Vec::new();
            assert(views(done@) =~= prev);
            assert(views(done@).push(cur@) =~= prev.push(Seq::<char>::empty()));
        } else {
            cur.push(c);
            assert(views(done@).push(cur@) =~= prev.update(prev.len() - 1, prev.last().push(c)));
        }
        i += 1;
    }
    assert(v@.take(v@.len() as int) =~= v@);
    done.push(cur);
    assert(views(done@) =~= split(v@, sep));
    done
}

/// `[T]::join` of character sequences.
pub open spec fn join(parts: Seq<Seq<char>>, sep: Seq<char>) -> Seq<char>
    decreases parts.len(),
{
    if parts.len() == 0 {
        Seq::<char>::empty()
    } else if parts.len() == 1 {
        parts[0]
    } else {
        join(parts.drop_last(), sep) + sep + parts.last()
    }
}

/// Appends `join(parts[lo..], sep)` to `out`.
pub fn push_joined_from(out: &mut String, parts: &Vec<Vec<char>>, lo: usize, sep: &str)
    requires
        lo <= parts@.len(),
    ensures
        final(out)@ == old(out)@ + join(views(parts@).skip(lo as int), sep@),
{
    let ghost o = out@;
    let ghost all = views(parts@).skip(lo as int);
    if lo >= parts.len() {
        assert(all =~= Seq::<Seq<char>>::empty());
        assert(out@ =~= o + join(all, sep@));
        return;
    }
    let mut i: usize = lo;
    assert(all.take(0) =~= Seq::<Seq<char>>::empty());
    while i < parts.len()
        invariant
            lo <= i <= parts@.len(),
            all == views(parts@).skip(lo as int),
            out@ == o + join(all.take(i - lo), sep@),
        decreases parts@.len() - i,
    {
        let ghost k: int = i - lo;
        assert(all.take(k + 1).drop_last() =~= all.take(k));
        if i > lo {
            out.append(sep);
        }
        let part = &parts[i];
        assert(all[k] == part@);
        push_range(out, part, 0, part.len());
        assert(part@.subrange(0, part@.len() as int) =~= part@);
        if i == lo {
            assert(all.take(1) =~= seq![part@]);
        }
        assert(out@ =~= o + join(all.take(k + 1), sep@));
        i += 1;
    }
    assert(all.take(parts@.len() - lo) =~= all);
}

/// Appends `join(parts, sep)` to `out`.
pub fn push_joined(out: &mut String, parts: &Vec<Vec<char>>, sep: &str)
    ensures
        final(out)@ == old(out)@ + join(views(parts@), sep@),
{
    push_joined_from(out, parts, 0, sep);
    assert(views(parts@).skip(0) =~= views(parts@));
}

// ---------------------------------------------------------------------------
// Lines
// ---------------------------------------------------------------------------

/// Removes one trailing carriage return.
pub open spec fn strip_cr(s: Seq<char>) -> Seq<char> {
    if s.len() > 0 && s.last() == '\r' {
        s.drop_last()
    } else {
        s
    }
}

/// `str::lines`: the pieces between line feeds, a final empty piece dropped,
/// and a carriage return removed before each line feed.
pub open spec fn lines(s: Seq<char>) -> Seq<Seq<char>> {
    if s.len() == 0 {
        Seq::<Seq<char>>::empty()
    } else {
        let p = split(s, Sep::Newline);
        let n: int = if p.last().len() == 0 {
            p.len() - 1
        } else {
            p.len() as int
        };
        Seq::new(
            n as nat,
            |k: int|
                if k < p.len() - 1 {
                    strip_cr(p[k])
                } else {
                    p[k]
                },
        )
    }
}

/// `str::lines` of the characters in `v`.
pub fn lines_vec(v: &Vec<char>) -> (r: Vec<Vec<char>>)
    ensures
        views(r@) == lines(v@),
{
    let mut r: Vec<Vec<char>> = Vec::new();
    if v.len() == 0 {
        assert(views(r@) =~= lines(v@));
        return r;
    }
    let p = split_vec(v, Sep::Newline);
    proof {
        lemma_split_len(v@, Sep::Newline);
    }
    let np = p.len();
    let last_len = p[np - 1].len();
    let n = if last_len == 0 {
        np - 1
    } else {
        np
    };
    let ghost target = lines(v@);
    assert(target.len() == n);
    let mut k: usize = 0;
    while k < n
        invariant
            n <= np == p@.len(),
            views(p@) == split(v@, Sep::Newline),
            target == lines(v@),
            target.len() == n,
            v@.len() > 0,
            k <= n,
            views(r@) == target.take(k as int),
        decreases n - k,
    {
        let piece = &p[k];
        let len = piece.len();
        let keep = if k + 1 < np && len > 0 && piece[len - 1] == '\r' {
            len - 1
        } else {
            len
        };
        let line = sub_vec(piece, 0, keep);
        assert(piece@ == split(v@, Sep::Newline)[k as int]);
        if k + 1 < np && len > 0 && piece[len - 1] == '\r' {
            assert(line@ =~= strip_cr(piece@));
        } else {
            assert(line@ =~= piece@);
        }
        assert(target[k as int] == line@);
        let ghost before = views(r@);
        r.push(line);
        assert(views(r@) =~= before.push(line@));
        assert(views(r@) =~= target.take(k + 1));
        k += 1;
    }
    assert(views(r@) =~= target);
    r
}

/// `str::lines` of `s`.
pub fn lines_of(s: &str) -> (r: Vec<Vec<char>>)
    ensures
        views(r@) == lines(s@),
{
    let v = chars_of(s);
    lines_vec(&v)
}

// ---------------------------------------------------------------------------
// Replacing
// ---------------------------------------------------------------------------

/// `str::replace` of a non-empty pattern: every occurrence, found left to right
/// without overlap, is replaced by `val`.
pub open spec fn replace_all(s: Seq<char>, pat: Seq<char>, val: Seq<char>) -> Seq<char>
    decreases s.len(),
{
    if pat.len() == 0 || s.len() < pat.len() {
        s
    } else if s.take(pat.len() as int) == pat {
        val + replace_all(s.skip(pat.len() as int), pat, val)
    } else {
        seq![s[0]] + replace_all(s.drop_first(), pat, val)
    }
}

/// `str::replace` on characters.
pub fn replace_all_vec(s: &Vec<char>, pat: &Vec<char>, val: &Vec<char>) -> (r: Vec<char>)
    requires
        pat@.len() > 0,
    ensures
        r@ == replace_all(s@, pat@, val@),
{
    let mut out: Vec<char> = Vec::new();
    let n = s.len();
    let m = pat.len();
    let mut i: usize = 0;
    assert(s@.skip(0) =~= s@);
    while i < n
        invariant
            n == s@.len(),
            m == pat@.len(),
            m > 0,
            i <= n,
            replace_all(s@, pat@, val@) == out@ + replace_all(s@.skip(i as int), pat@, val@),
        decreases n - i,
    {
        let ghost rest = s@.skip(i as int);
        if m <= n - i && range_starts_with(s, i, n, pat) {
            assert(s@.subrange(i as int, n as int) =~= rest);
            assert(rest.skip(m as int) =~= s@.skip(i + m));
            let mut k: usize = 0;
            let ghost o = out@;
            while k < val.len()
                invariant
                    k <= val@.len(),
                    out@ == o + val@.take(k as int),
                decreases val@.len() - k,
            {
                out.push(val[k]);
                assert(val@.take(k + 1) =~= val@.take(k as int).push(val@[k as int]));
                k += 1;
            }
            assert(val@.take(val@.len() as int) =~= val@);
            assert(out@ + replace_all(s@.skip(i + m), pat@, val@) =~= o + (val@ + replace_all(
                rest.skip(m as int),
                pat@,
                val@,
            )));
            i += m;
        } else {
            if m <= n - i {
                assert(s@.subrange(i as int, n as int) =~= rest);
                assert(rest.drop_first() =~= s@.skip(i + 1));
                assert(out@.push(s@[i as int]) + replace_all(s@.skip(i + 1), pat@, val@) =~= out@
                    + (seq![rest[0]] + replace_all(rest.drop_first(), pat@, val@)));
                out.push(s[i]);
                i += 1;
            } else {
                let ghost o = out@;
                let mut k = i;
                while k < n
                    invariant
                        i <= k <= n == s@.len(),
                        out@ == o + s@.subrange(i as int, k as int),
                    decreases n - k,
                {
                    out.push(s[k]);
                    assert(s@.subrange(i as int, k + 1) =~= s@.subrange(i as int, k as int).push(
                        s@[k as int],
                    ));
                    k += 1;
                }
                assert(s@.subrange(i as int, n as int) =~= rest);
                assert(s@.skip(n as int) =~= Seq::<char>::empty());
                assert(out@ + replace_all(s@.skip(n as int), pat@, val@) =~= out@);
                i = n;
            }
        }
    }
    assert(s@.skip(n as int) =~= Seq::<char>::empty());
    assert(out@ + Seq::<char>::empty() =~= out@);
    out
}

/// Every `from` replaced by `to` (`str::replace` of one character by one).
pub open spec fn replace_char(s: Seq<char>, from: char, to: char) -> Seq<char> {
    s.map_values(|c: char| if c == from { to } else { c })
}

pub fn replace_char_vec(s: &Vec<char>, from: char, to: char) -> (r: Vec<char>)
    ensures
        r@ == replace_char(s@, from, to),
{
    let mut r: Vec<char> = Vec::new();
    let mut i: usize = 0;
    while i < s.len()
        invariant
            i <= s@.len(),
            r@ == replace_char(s@.take(i as int), from, to),
        decreases s@.len() - i,
    {
        let c = s[i];
        r.push(if c == from { to } else { c });
        assert(replace_char(s@.take(i + 1), from, to) =~= replace_char(s@.take(i as int), from, to).push(
            if c == from { to } else { c },
        ));
        i += 1;
    }
    assert(s@.take(s@.len() as int) =~= s@);
    r
}

/// `str::to_ascii_lowercase`.
pub open spec fn ascii_lowercase(s: Seq<char>) -> Seq<char> {
    s.map_values(|c: char| ascii_lower(c))
}

pub fn ascii_lowercase_vec(s: &Vec<char>) -> (r: Vec<char>)
    ensures
        r@ == ascii_lowercase(s@),
{
    let mut r: Vec<char> = Vec::new();
    let mut i: usize = 0;
    while i < s.len()
        invariant
            i <= s@.len(),
            r@ == ascii_lowercase(s@.take(i as int)),
        decreases s@.len() - i,
    {
        let c = char_to_ascii_lowercase(s[i]);
        r.push(c);
        assert(ascii_lowercase(s@.take(i + 1)) =~= ascii_lowercase(s@.take(i as int)).push(c));
        i += 1;
    }
    assert(s@.take(s@.len() as int) =~= s@);
    r
}

// ---------------------------------------------------------------------------
// Unicode case mapping
// ---------------------------------------------------------------------------

pub open spec fn is_ascii(c: char) -> bool {
    (c as u32) < 128
}

/// `char::to_ascii_uppercase`.
pub open spec fn ascii_upper(c: char) -> char {
    if is_ascii_lower(c) {
        ((c as u32) - 32) as char
    } else {
        c
    }
}

/// What `char::to_lowercase` yields for a character outside ASCII.
pub uninterp spec fn non_ascii_lowercase(c: char) -> Seq<char>;

/// What `char::to_uppercase` yields for a character outside ASCII.
pub uninterp spec fn non_ascii_uppercase(c: char) -> Seq<char>;

/// What `str::to_lowercase` returns for a string that is not all ASCII.
pub uninterp spec fn non_ascii_str_lowercase(s: Seq<char>) -> Seq<char>;

/// The characters `char::to_lowercase` yields.
pub open spec fn char_lowercase(c: char) -> Seq<char> {
    if is_ascii(c) {
        seq![ascii_lower(c)]
    } else {
        non_ascii_lowercase(c)
    }
}

/// The characters `char::to_uppercase` yields.
pub open spec fn char_uppercase(c: char) -> Seq<char> {
    if is_ascii(c) {
        seq![ascii_upper(c)]
    } else {
        non_ascii_uppercase(c)
    }
}

/// `str::to_lowercase`.
pub open spec fn str_lowercase(s: Seq<char>) -> Seq<char> {
    if forall|i: int| 0 <= i < s.len() ==> is_ascii(#[trigger] s[i]) {
        ascii_lowercase(s)
    } else {
        non_ascii_str_lowercase(s)
    }
}

/// The characters of the lower case of `c`. Calls `char::to_lowercase` and
/// collects what it yields. Its contract claims that an ASCII character yields
/// its ASCII lower case (itself unless it is a capital letter); for any other
/// character it only names what is yielded, which depends on `c` alone.
#[verifier::external_body]
pub fn char_to_lowercase(c: char) -> (r: Vec<char>)
    ensures
        is_ascii(c) ==> r@ == seq![ascii_lower(c)],
        !is_ascii(c) ==> r@ == non_ascii_lowercase(c),
{
    c.to_lowercase().collect()
}

/// The characters of the upper case of `c`. Calls `char::to_uppercase` and
/// collects what it yields. Its contract claims that an ASCII character yields
/// its ASCII upper case (itself unless it is a small letter); for any other
/// character it only names what is yielded, which depends on `c` alone.
#[verifier::external_body]
pub fn char_to_uppercase(c: char) -> (r: Vec<char>)
    ensures
        is_ascii(c) ==> r@ == seq![ascii_upper(c)],
        !is_ascii(c) ==> r@ == non_ascii_uppercase(c),
{
    c.to_uppercase().collect()
}

/// The lower case of `s`. Calls `str::to_lowercase`. Its contract claims that
/// an all-ASCII string maps to its ASCII lower case, character by character;
/// for any other string it only names the result, which depends on `s` alone.
#[verifier::external_body]
pub fn str_to_lowercase(s: &str) -> (r: String)
    ensures
        (forall|i: int| 0 <= i < s@.len() ==> is_ascii(#[trigger] s@[i])) ==> r@ == ascii_lowercase(
            s@,
        ),
        !(forall|i: int| 0 <= i < s@.len() ==> is_ascii(#[trigger] s@[i])) ==> r@
            == non_ascii_str_lowercase(s@),
{
    s.to_lowercase()
}

// ---------------------------------------------------------------------------
// Decimal numbers
// ---------------------------------------------------------------------------

pub open spec fn digit_char(d: nat) -> char {
    (d + 48) as char
}

/// The decimal digits of `n`, as `format!("{}", n)` writes them.
pub open spec fn decimal(n: nat) -> Seq<char>
    decreases n,
{
    if n < 10 {
        seq![digit_char(n)]
    } else {
        decimal(n / 10).push(digit_char(n % 10))
    }
}

/// Appends the decimal digits of `n`.
pub fn push_decimal(out: &mut String, n: usize)
    ensures
        final(out)@ == old(out)@ + decimal(n as nat),
    decreases n,
{
    if n < 10 {
        let d: u8 = n as u8;
        push_char(out, (d + 48) as char);
        assert(seq![digit_char(n as nat)] =~= seq![((d + 48) as char)]);
    } else {
        push_decimal(out, n / 10);
        let d: u8 = (n % 10) as u8;
        push_char(out, (d + 48) as char);
    }
}

pub open spec fn all_digits(s: Seq<char>) -> bool {
    forall|i: int| 0 <= i < s.len() ==> is_ascii_digit(#[trigger] s[i])
}

/// The number that a sequence of decimal digits spells.
pub open spec fn digits_value(s: Seq<char>) -> nat
    decreases s.len(),
{
    if s.len() == 0 {
        0
    } else {
        digits_value(s.drop_last()) * 10 + (((s.last() as int) - 48) as nat)
    }
}

/// The digits that `str::parse` reads for an unsigned type: one leading `+` is
/// allowed.
pub open spec fn unsigned_digits(s: Seq<char>) -> Seq<char> {
    if s.len() > 0 && s[0] == '+' {
        s.drop_first()
    } else {
        s
    }
}

/// `str::parse` for an unsigned integer type whose largest value is `max`.
pub open spec fn parse_unsigned(s: Seq<char>, max: nat) -> Option<nat> {
    let d = unsigned_digits(s);
    if d.len() > 0 && all_digits(d) && digits_value(d) <= max {
        Some(digits_value(d))
    } else {
        None
    }
}

pub proof fn lemma_digits_value_monotone(s: Seq<char>, k: int)
    requires
        0 <= k <= s.len(),
        all_digits(s),
    ensures
        digits_value(s.take(k)) <= digits_value(s),
    decreases s.len() - k,
{
    if k < s.len() {
        lemma_digits_value_monotone(s, k + 1);
        assert(s.take(k + 1).drop_last() =~= s.take(k));
    } else {
        assert(s.take(k) =~= s);
    }
}

/// `str::parse` of `v[lo..hi]` for an unsigned type whose largest value is `max`.
pub fn parse_unsigned_range(v: &Vec<char>, lo: usize, hi: usize, max: usize) -> (r: Option<usize>)
    requires
        lo <= hi <= v@.len(),
    ensures
        r == (match parse_unsigned(v@.subrange(lo as int, hi as int), max as nat) {
            Some(n) => Some(n as usize),
            None => None,
        }),
{
    let ghost s = v@.subrange(lo as int, hi as int);
    let mut start = lo;
    if start < hi && v[start] == '+' {
        start += 1;
    }
    let ghost d = v@.subrange(start as int, hi as int);
    assert(unsigned_digits(s) =~= d);
    if start == hi {
        return None;
    }
    let mut acc: usize = 0;
    let mut i = start;
    assert(d.take(0) =~= Seq::<char>::empty());
    while i < hi
        invariant
            lo <= start <= i <= hi <= v@.len(),
            start < hi,
            d == v@.subrange(start as int, hi as int),
            s == v@.subrange(lo as int, hi as int),
            unsigned_digits(s) == d,
            all_digits(d.take(i - start)),
            acc == digits_value(d.take(i - start)),
            acc <= max,
        decreases hi - i,
    {
        let c = v[i];
        if !('0' <= c && c <= '9') {
            assert(d[i - start] == c);
            assert(!is_ascii_digit(d[i - start]));
            assert(!all_digits(d));
            return None;
        }
        let dv: usize = ((c as u32) - 48) as usize;
        assert(d.take(i - start + 1).drop_last() =~= d.take(i - start));
        assert(d.take(i - start + 1).last() == c);
        assert(digits_value(d.take(i - start + 1)) == acc * 10 + dv);
        if dv > max || acc > (max - dv) / 10 {
            proof {
                assert(acc * 10 + dv > max) by (nonlinear_arith)
                    requires
                        dv > max || acc > (max - dv) / 10,
                        max >= 0,
                        acc >= 0,
                ;
                if all_digits(d) {
                    lemma_digits_value_monotone(d, i - start + 1);
                    assert(digits_value(d) > max);
                }
            }
            return None;
        }
        assert(acc * 10 + dv <= max) by (nonlinear_arith)
            requires
                dv <= max,
                acc <= (max - dv) / 10,
        ;
        acc = acc * 10 + dv;
        assert(all_digits(d.take(i - start + 1)));
        i += 1;
    }
    assert(d.take(hi - start) =~= d);
    Some(acc)
}

} // verus!
