//! Properties that hold of the library as a whole.
use vstd::prelude::*;
use crate::blog::{dashed, lowered, slug, strip_leading, strip_trailing};
use crate::listing::{
    is_newest_first, archive_pages, first_labels, insert_pos, lemma_add_label, lemma_insert_pos_range,
    lemma_newest_first_len, lemma_page_bounds, lists_map, newest_first, page_count, page_slice,
    slug_count, tag_archive, tag_archive_path, tag_archives, tag_entries, tag_entries_of,
    tag_listing, tagged_posts,
};
use crate::order::{lemma_lex_asymmetric, lemma_lex_total, lemma_lex_transitive, path_lt};
use crate::types::{PostView, Templates};
use crate::config::BuildConfig;
use crate::paths::{components, file_name, lemma_file_name_len, with_extension};
use crate::render::{non_empty, section_of};
use crate::site::{content_page, content_pages, SourceView};
use crate::blog::{tags_of_line, trimmed_all};
use crate::blog::{
    blog_page_path, excerpt_of, first_paragraph_line, front_matter, header, is_blog_post,
    pagination_html, parsed_post, post_placeholders,
};
use crate::render::{filled, markdown_html, placeholder_mark, under_base};
use crate::listing::listing_path;
use crate::site::content_html_of;
use crate::text::{lines, replace_all, starts_with};
use crate::text::{split, Sep, lemma_split_len};
use crate::render::{escaped, escaped_char, normalized_base_url, trim_end_slashes};
use crate::text::{
    all_digits, char_lowercase, decimal, digit_char, digits_value, is_ascii,
    is_ascii_alphanumeric, is_ascii_digit, is_ascii_upper, is_whitespace,
    parse_unsigned, trim, trim_end, trim_start, unsigned_digits,
};

verus! {

// ---------------------------------------------------------------------------
// Escaping
// ---------------------------------------------------------------------------

/// Whether a character may open or close markup or an attribute value.
pub open spec fn is_markup_char(c: char) -> bool {
    c == '<' || c == '>' || c == '"' || c == '\''
}

proof fn lemma_escaped_char_safe(c: char)
    ensures
        forall|i: int| 0 <= i < escaped_char(c).len() ==> !is_markup_char(#[trigger] escaped_char(c)[i]),
{
    reveal_strlit("&amp;");
    reveal_strlit("&lt;");
    reveal_strlit("&gt;");
    reveal_strlit("&quot;");
    reveal_strlit("&#39;");
}

/// Escaped text holds no `<`, `>`, `"` or `'`: it can neither open nor close
/// markup or an attribute value.
pub proof fn law_escaped_has_no_markup(s: Seq<char>)
    ensures
        forall|i: int| 0 <= i < escaped(s).len() ==> !is_markup_char(#[trigger] escaped(s)[i]),
    decreases s.len(),
{
    if s.len() > 0 {
        law_escaped_has_no_markup(s.drop_last());
        lemma_escaped_char_safe(s.last());
        let a = escaped(s.drop_last());
        let b = escaped_char(s.last());
        assert forall|i: int| 0 <= i < escaped(s).len() implies !is_markup_char(#[trigger] escaped(s)[i]) by {
            if i < a.len() {
                assert(escaped(s)[i] == a[i]);
            } else {
                assert(escaped(s)[i] == b[i - a.len()]);
            }
        }
    }
}

/// Text without `&`, `<`, `>`, `"` and `'` is escaped to itself.
pub proof fn law_escape_keeps_plain_text(s: Seq<char>)
    requires
        forall|i: int| 0 <= i < s.len() ==> !is_markup_char(#[trigger] s[i]) && s[i] != '&',
    ensures
        escaped(s) == s,
    decreases s.len(),
{
    if s.len() > 0 {
        law_escape_keeps_plain_text(s.drop_last());
        assert(s.drop_last().push(s.last()) =~= s);
    } else {
        assert(escaped(s) =~= s);
    }
}

/// HTML text with the five entities that escaping writes (`&amp;`, `&lt;`,
/// `&gt;`, `&quot;`, `&#39;`) read back as characters, left to right.
pub open spec fn unescaped(s: Seq<char>) -> Seq<char>
    decreases s.len(),
{
    if s.len() == 0 {
        Seq::<char>::empty()
    } else if s.len() >= 5 && s.take(5) == "&amp;"@ {
        seq!['&'] + unescaped(s.skip(5))
    } else if s.len() >= 4 && s.take(4) == "&lt;"@ {
        seq!['<'] + unescaped(s.skip(4))
    } else if s.len() >= 4 && s.take(4) == "&gt;"@ {
        seq!['>'] + unescaped(s.skip(4))
    } else if s.len() >= 6 && s.take(6) == "&quot;"@ {
        seq!['"'] + unescaped(s.skip(6))
    } else if s.len() >= 5 && s.take(5) == "&#39;"@ {
        seq!['\''] + unescaped(s.skip(5))
    } else {
        seq![s[0]] + unescaped(s.skip(1))
    }
}

proof fn lemma_escaped_append(a: Seq<char>, b: Seq<char>)
    ensures
        escaped(a + b) == escaped(a) + escaped(b),
    decreases b.len(),
{
    if b.len() == 0 {
        assert(a + b =~= a);
        assert(escaped(b) =~= Seq::<char>::empty());
        assert(escaped(a) + escaped(b) =~= escaped(a));
    } else {
        lemma_escaped_append(a, b.drop_last());
        assert((a + b).drop_last() =~= a + b.drop_last());
        assert((a + b).last() == b.last());
        assert(escaped(a + b) =~= escaped(a) + escaped(b));
    }
}

proof fn lemma_unescape_one(c: char, rest: Seq<char>)
    ensures
        unescaped(escaped_char(c) + rest) == seq![c] + unescaped(rest),
{
    reveal_strlit("&amp;");
    reveal_strlit("&lt;");
    reveal_strlit("&gt;");
    reveal_strlit("&quot;");
    reveal_strlit("&#39;");
    let e = escaped_char(c);
    let s = e + rest;
    assert(s.len() > 0);
    if c == '&' {
        assert(s.take(5) =~= "&amp;"@);
        assert(s.skip(5) =~= rest);
    } else if c == '<' {
        if s.len() >= 5 {
            assert(s.take(5)[1] == 'l');
        }
        assert(s.take(4) =~= "&lt;"@);
        assert(s.skip(4) =~= rest);
    } else if c == '>' {
        if s.len() >= 5 {
            assert(s.take(5)[1] == 'g');
        }
        assert(s.take(4)[1] == 'g');
        assert(s.take(4) =~= "&gt;"@);
        assert(s.skip(4) =~= rest);
    } else if c == '"' {
        if s.len() >= 5 {
            assert(s.take(5)[1] == 'q');
        }
        assert(s.take(4)[1] == 'q');
        assert(s.take(6) =~= "&quot;"@);
        assert(s.skip(6) =~= rest);
    } else if c == '\'' {
        assert(s.take(5)[1] == '#');
        assert(s.take(4)[1] == '#');
        if s.len() >= 6 {
            assert(s.take(6)[1] == '#');
        }
        assert(s.take(5) =~= "&#39;"@);
        assert(s.skip(5) =~= rest);
    } else {
        assert(s[0] == c);
        if s.len() >= 4 {
            assert(s.take(4)[0] == c);
        }
        if s.len() >= 5 {
            assert(s.take(5)[0] == c);
        }
        if s.len() >= 6 {
            assert(s.take(6)[0] == c);
        }
        assert(s.skip(1) =~= rest);
    }
}

/// Reading the entities of escaped text back gives the text itself: escaping
/// loses nothing.
pub proof fn law_unescape_undoes_escape(s: Seq<char>)
    ensures
        unescaped(escaped(s)) == s,
    decreases s.len(),
{
    if s.len() == 0 {
        assert(unescaped(escaped(s)) =~= s);
    } else {
        let rest = s.skip(1);
        assert(s =~= seq![s[0]] + rest);
        lemma_escaped_append(seq![s[0]], rest);
        assert(seq![s[0]].drop_last() =~= Seq::<char>::empty());
        assert(seq![s[0]].last() == s[0]);
        assert(escaped(Seq::<char>::empty()) =~= Seq::<char>::empty());
        assert(escaped(seq![s[0]]) == escaped(Seq::<char>::empty()) + escaped_char(s[0]));
        assert(escaped(seq![s[0]]) =~= escaped_char(s[0]));
        lemma_unescape_one(s[0], escaped(rest));
        law_unescape_undoes_escape(rest);
    }
}

// ---------------------------------------------------------------------------
// Tag slugs
// ---------------------------------------------------------------------------

/// ASCII letters, digits and single dashes, no dash at either end.
pub open spec fn is_slug_shaped(x: Seq<char>) -> bool {
    &&& forall|i: int| 0 <= i < x.len() ==> is_ascii_alphanumeric(#[trigger] x[i]) || x[i] == '-'
    &&& x.len() > 0 ==> x[0] != '-' && x.last() != '-'
    &&& forall|i: int| 0 <= i < x.len() - 1 ==> !(#[trigger] x[i] == '-' && x[i + 1] == '-')
}

/// Letters, digits and dashes without two dashes in a row.
pub open spec fn dash_runs_single(x: Seq<char>) -> bool {
    &&& forall|i: int| 0 <= i < x.len() ==> is_ascii_alphanumeric(#[trigger] x[i]) || x[i] == '-'
    &&& forall|i: int| 0 <= i < x.len() - 1 ==> !(#[trigger] x[i] == '-' && x[i + 1] == '-')
}

proof fn lemma_dashed_shape(s: Seq<char>)
    ensures
        dash_runs_single(dashed(s)),
        forall|i: int| 0 <= i < dashed(s).len() && #[trigger] dashed(s)[i] != '-' ==> s.contains(dashed(s)[i]),
    decreases s.len(),
{
    if s.len() > 0 {
        lemma_dashed_shape(s.drop_last());
        let r = dashed(s.drop_last());
        let d = dashed(s);
        assert forall|i: int| 0 <= i < d.len() && #[trigger] d[i] != '-' implies s.contains(d[i]) by {
            if i < r.len() {
                assert(d[i] == r[i]);
                let k = choose|k: int| 0 <= k < s.drop_last().len() && s.drop_last()[k] == r[i];
                assert(s[k] == d[i]);
            } else {
                assert(d[i] == s.last());
                assert(s[s.len() - 1] == d[i]);
            }
        }
        assert forall|i: int| 0 <= i < d.len() - 1 implies !(#[trigger] d[i] == '-' && d[i + 1] == '-') by {
            if i + 1 < r.len() {
                assert(d[i] == r[i] && d[i + 1] == r[i + 1]);
            }
        }
    }
}

proof fn lemma_strip_leading(s: Seq<char>, c: char)
    ensures
        strip_leading(s, c).len() <= s.len(),
        strip_leading(s, c) == s.skip(s.len() - strip_leading(s, c).len()),
        strip_leading(s, c).len() > 0 ==> strip_leading(s, c)[0] != c,
    decreases s.len(),
{
    if s.len() > 0 && s[0] == c {
        lemma_strip_leading(s.drop_first(), c);
        assert(s.drop_first().skip(s.drop_first().len() - strip_leading(s, c).len()) =~= s.skip(
            s.len() - strip_leading(s, c).len(),
        ));
    } else {
        assert(s.skip(0) =~= s);
    }
}

proof fn lemma_strip_trailing(s: Seq<char>, c: char)
    ensures
        strip_trailing(s, c).len() <= s.len(),
        strip_trailing(s, c) == s.take(strip_trailing(s, c).len() as int),
        strip_trailing(s, c).len() > 0 ==> strip_trailing(s, c).last() != c,
    decreases s.len(),
{
    if s.len() > 0 && s.last() == c {
        lemma_strip_trailing(s.drop_last(), c);
        assert(s.drop_last().take(strip_trailing(s, c).len() as int) =~= s.take(
            strip_trailing(s, c).len() as int,
        ));
    } else {
        assert(s.take(s.len() as int) =~= s);
    }
}

proof fn lemma_sub_single(x: Seq<char>, lo: int, hi: int)
    requires
        dash_runs_single(x),
        0 <= lo <= hi <= x.len(),
    ensures
        dash_runs_single(x.subrange(lo, hi)),
{
    let y = x.subrange(lo, hi);
    assert forall|i: int| 0 <= i < y.len() - 1 implies !(#[trigger] y[i] == '-' && y[i + 1] == '-') by {
        assert(y[i] == x[lo + i] && y[i + 1] == x[lo + i + 1]);
    }
    assert forall|i: int| 0 <= i < y.len() implies is_ascii_alphanumeric(#[trigger] y[i]) || y[i] == '-' by {
        assert(y[i] == x[lo + i]);
    }
}

/// A slug is made of ASCII letters, digits and single dashes, with no dash at
/// either end; every letter or digit in it comes from the lowered tag.
pub proof fn law_slug_shape(tag: Seq<char>)
    ensures
        is_slug_shaped(slug(tag)),
        forall|i: int| 0 <= i < slug(tag).len() && #[trigger] slug(tag)[i] != '-' ==> lowered(tag).contains(
            slug(tag)[i],
        ),
{
    let d = dashed(lowered(tag));
    lemma_dashed_shape(lowered(tag));
    let a = strip_leading(d, '-');
    lemma_strip_leading(d, '-');
    lemma_sub_single(d, d.len() - a.len(), d.len() as int);
    let b = strip_trailing(a, '-');
    lemma_strip_trailing(a, '-');
    lemma_sub_single(a, 0, b.len() as int);
    assert(b == slug(tag));
    if b.len() > 0 {
        assert(b[0] == a[0]);
    }
    assert forall|i: int| 0 <= i < b.len() && #[trigger] b[i] != '-' implies lowered(tag).contains(b[i]) by {
        assert(b[i] == a[i]);
        assert(a[i] == d[d.len() - a.len() + i]);
    }
}

proof fn lemma_lowered_of_lower_ascii(x: Seq<char>)
    requires
        forall|i: int| 0 <= i < x.len() ==> is_ascii(#[trigger] x[i]) && !is_ascii_upper(x[i]),
    ensures
        lowered(x) == x,
    decreases x.len(),
{
    if x.len() > 0 {
        lemma_lowered_of_lower_ascii(x.drop_last());
        assert(char_lowercase(x.last()) == seq![x.last()]);
        assert(x.drop_last().push(x.last()) =~= x);
    } else {
        assert(lowered(x) =~= x);
    }
}

proof fn lemma_dashed_of_slug(x: Seq<char>)
    requires
        dash_runs_single(x),
        x.len() > 0 ==> x[0] != '-',
    ensures
        dashed(x) == x,
    decreases x.len(),
{
    if x.len() > 0 {
        let y = x.drop_last();
        lemma_sub_single(x, 0, x.len() - 1);
        assert(y =~= x.subrange(0, x.len() - 1));
        if y.len() > 0 {
            assert(y[0] == x[0]);
        }
        lemma_dashed_of_slug(y);
        if x.last() == '-' {
            assert(y.len() > 0);
            assert(!(x[x.len() - 2] == '-' && x[x.len() - 1] == '-'));
        }
        assert(y.push(x.last()) =~= x);
    } else {
        assert(dashed(x) =~= x);
    }
}

/// Slugifying a slug changes nothing, for tags none of whose characters lower
/// case to an ASCII capital letter (every ASCII tag, for one).
pub proof fn law_slug_idempotent(tag: Seq<char>)
    requires
        forall|i: int| 0 <= i < lowered(tag).len() ==> !is_ascii_upper(#[trigger] lowered(tag)[i]),
    ensures
        slug(slug(tag)) == slug(tag),
{
    let x = slug(tag);
    law_slug_shape(tag);
    assert forall|i: int| 0 <= i < x.len() implies is_ascii(#[trigger] x[i]) && !is_ascii_upper(x[i]) by {
        if x[i] != '-' {
            let k = choose|k: int| 0 <= k < lowered(tag).len() && lowered(tag)[k] == x[i];
        }
    }
    lemma_lowered_of_lower_ascii(x);
    lemma_dashed_of_slug(x);
    if x.len() > 0 {
        assert(strip_leading(x, '-') == x);
        assert(strip_trailing(x, '-') == x);
    } else {
        assert(strip_leading(x, '-') == x);
        assert(strip_trailing(x, '-') == x);
    }
}

// ---------------------------------------------------------------------------
// Base URLs
// ---------------------------------------------------------------------------

proof fn lemma_trim_end_slashes(s: Seq<char>)
    ensures
        trim_end_slashes(s) == s.take(trim_end_slashes(s).len() as int),
        trim_end_slashes(s).len() <= s.len(),
        trim_end_slashes(s).len() > 0 ==> trim_end_slashes(s).last() != '/',
    decreases s.len(),
{
    if s.len() > 0 && s.last() == '/' {
        lemma_trim_end_slashes(s.drop_last());
        assert(s.drop_last().take(trim_end_slashes(s).len() as int) =~= s.take(
            trim_end_slashes(s).len() as int,
        ));
    } else {
        assert(s.take(s.len() as int) =~= s);
    }
}

proof fn lemma_trim_noop(s: Seq<char>)
    requires
        s.len() > 0,
        !is_whitespace(s[0]),
        !is_whitespace(s.last()),
    ensures
        trim(s) == s,
{
    assert(trim_start(s) == s);
    assert(trim_end(s) == s);
}

/// A base URL is empty, or starts with `/` and, unless it is `/` itself, does
/// not end with `/`.
pub proof fn law_base_url_shape(raw: Seq<char>)
    ensures
        ({
            let b = normalized_base_url(raw);
            b.len() == 0 || (b[0] == '/' && (b.len() > 1 ==> b.last() != '/'))
        }),
{
    let t = trim(raw);
    let w = trim_end_slashes(t);
    lemma_trim_end_slashes(t);
    if !(t.len() == 0 || t == seq!['/']) {
        if !(w.len() > 0 && w[0] == '/') {
            let b = seq!['/'] + w;
            if w.len() > 0 {
                assert(b.last() == w.last());
            }
        }
    }
}

/// Normalizing a base URL again changes nothing, unless the first result is
/// `/` or ends in white space kept before the slashes that were cut (as for
/// `//` or `a /`).
pub proof fn law_base_url_idempotent(raw: Seq<char>)
    requires
        normalized_base_url(raw) != seq!['/'],
        normalized_base_url(raw).len() > 0 ==> !is_whitespace(normalized_base_url(raw).last()),
    ensures
        normalized_base_url(normalized_base_url(raw)) == normalized_base_url(raw),
{
    let b = normalized_base_url(raw);
    law_base_url_shape(raw);
    if b.len() == 0 {
        assert(trim_start(b) == b);
        assert(trim(b) == b);
    } else {
        assert(b[0] == '/');
        lemma_trim_noop(b);
        if b.len() == 1 {
            assert(b =~= seq!['/']);
        }
        assert(b.len() > 1);
        assert(trim_end_slashes(b) == b);
    }
}

// ---------------------------------------------------------------------------
// Decimal numbers
// ---------------------------------------------------------------------------

proof fn lemma_digit_char(d: nat)
    requires
        d < 10,
    ensures
        digit_char(d) as int == d + 48,
        is_ascii_digit(digit_char(d)),
{
}

proof fn lemma_decimal_digits(n: nat)
    ensures
        decimal(n).len() > 0,
        all_digits(decimal(n)),
        digits_value(decimal(n)) == n,
    decreases n,
{
    if n < 10 {
        lemma_digit_char(n);
        let d = decimal(n);
        assert(d == seq![digit_char(n)]);
        assert(d.drop_last() =~= Seq::<char>::empty());
        assert(digits_value(d.drop_last()) == 0);
        assert(d.last() == digit_char(n));
        assert(digits_value(d) == n);
    } else {
        lemma_digit_char(n % 10);
        lemma_decimal_digits(n / 10);
        let d = decimal(n);
        assert(d.drop_last() == decimal(n / 10));
        assert(d.last() == digit_char(n % 10));
        assert(digits_value(d) == (n / 10) * 10 + n % 10);
        assert forall|i: int| 0 <= i < d.len() implies is_ascii_digit(#[trigger] d[i]) by {
            if i < d.len() - 1 {
                assert(d[i] == decimal(n / 10)[i]);
            }
        }
    }
}

/// Reading back the decimal digits of a number gives the number.
pub proof fn law_decimal_parses_back(n: nat, max: nat)
    requires
        n <= max,
    ensures
        parse_unsigned(decimal(n), max) == Some(n),
{
    lemma_decimal_digits(n);
    assert(is_ascii_digit(decimal(n)[0]));
    assert(unsigned_digits(decimal(n)) == decimal(n));
}

// ---------------------------------------------------------------------------
// Newest first
// ---------------------------------------------------------------------------

/// The listing order holds every post exactly as often as the posts do, and
/// no post in it comes after one whose path comes before its own.
pub proof fn law_newest_first(posts: Seq<PostView>)
    ensures
        newest_first(posts).to_multiset() == posts.to_multiset(),
        is_newest_first(newest_first(posts)),
    decreases posts.len(),
{
    broadcast use vstd::seq_lib::to_multiset_build, vstd::seq_lib::to_multiset_insert;
    if posts.len() == 0 {
        return;
    }
    let rest = posts.drop_last();
    let x = posts.last();
    law_newest_first(rest);
    let s = newest_first(rest);
    let p = insert_pos(s, x.rel_path);
    lemma_insert_pos_range(s, x.rel_path);
    let r = s.insert(p, x);
    assert(r == newest_first(posts));
    assert(rest.push(x) =~= posts);
    assert(r.to_multiset() == s.to_multiset().insert(x));
    assert forall|i: int, j: int| 0 <= i < j < r.len() implies !path_lt(#[trigger] r[i].rel_path, #[trigger] r[j].rel_path) by {
        if j < p {
            assert(r[i] == s[i] && r[j] == s[j]);
        } else if j == p {
            assert(r[i] == s[i] && r[j] == x);
        } else if i < p {
            assert(r[i] == s[i] && r[j] == s[j - 1]);
        } else if i == p {
            assert(r[i] == x && r[j] == s[j - 1]);
            // s[j - 1] does not come after s[p], which comes before x.
            assert(path_lt(s[p].rel_path, x.rel_path));
            if j - 1 > p {
                assert(!path_lt(s[p].rel_path, s[j - 1].rel_path));
                if s[j - 1].rel_path != s[p].rel_path {
                    lemma_lex_total(s[j - 1].rel_path, s[p].rel_path, true);
                    lemma_lex_transitive(s[j - 1].rel_path, s[p].rel_path, x.rel_path, true);
                }
            }
            lemma_lex_asymmetric(s[j - 1].rel_path, x.rel_path, true);
        } else {
            assert(r[i] == s[i - 1] && r[j] == s[j - 1]);
        }
    }
}

// ---------------------------------------------------------------------------
// Pagination
// ---------------------------------------------------------------------------

/// The posts of listing pages 1 to `m`, page after page.
pub open spec fn pages_concat(posts: Seq<PostView>, per_page: nat, m: nat) -> Seq<PostView>
    decreases m,
{
    if m == 0 {
        Seq::empty()
    } else {
        pages_concat(posts, per_page, (m - 1) as nat) + page_slice(posts, m, per_page)
    }
}

proof fn lemma_page_count_covers(n: nat, per_page: nat)
    requires
        per_page > 0,
    ensures
        page_count(n, per_page) >= 1,
        page_count(n, per_page) * per_page >= n,
{
    if n > 0 {
        let t: int = n + per_page - 1;
        let q: int = t / per_page as int;
        assert(q == page_count(n, per_page));
        assert(q * per_page > t - per_page) by (nonlinear_arith)
            requires
                q == t / per_page as int,
                per_page > 0,
        ;
        assert(q >= 1) by (nonlinear_arith)
            requires
                t >= per_page,
                q == t / per_page as int,
                per_page > 0,
        ;
    }
}

proof fn lemma_pages_concat_prefix(posts: Seq<PostView>, per_page: nat, m: nat)
    requires
        per_page > 0,
        m <= page_count(posts.len(), per_page),
    ensures
        m * per_page >= 0,
        pages_concat(posts, per_page, m) == posts.take(
            if m * per_page < posts.len() {
                (m * per_page) as int
            } else {
                posts.len() as int
            },
        ),
    decreases m,
{
    assert(m * per_page >= 0) by (nonlinear_arith);
    if m == 0 {
        assert(posts.take(0) =~= Seq::<PostView>::empty());
        assert(0 * per_page == 0) by (nonlinear_arith);
    } else {
        lemma_pages_concat_prefix(posts, per_page, (m - 1) as nat);
        lemma_page_bounds(posts.len(), per_page, m);
        let start = (m - 1) * per_page;
        assert(start + per_page == m * per_page) by (nonlinear_arith)
            requires
                start == (m - 1) * per_page,
                m >= 1,
        ;
        let end = if start + per_page < posts.len() {
            start + per_page
        } else {
            posts.len() as int
        };
        assert(posts.take(start) + posts.subrange(start, end) =~= posts.take(end));
    }
}

/// The listing pages hold every post once and in order, `per_page` to a page
/// and fewer only on the last page.
pub proof fn law_pages_cover_posts(posts: Seq<PostView>, per_page: nat)
    requires
        per_page > 0,
    ensures
        pages_concat(posts, per_page, page_count(posts.len(), per_page)) == posts,
        forall|k: nat|
            1 <= k < page_count(posts.len(), per_page) ==> #[trigger] page_slice(posts, k, per_page).len()
                == per_page,
        page_slice(posts, page_count(posts.len(), per_page), per_page).len() <= per_page,
{
    let n = posts.len();
    let c = page_count(n, per_page);
    lemma_page_count_covers(n, per_page);
    lemma_pages_concat_prefix(posts, per_page, c);
    assert(posts.take(n as int) =~= posts);
    assert forall|k: nat| 1 <= k < page_count(posts.len(), per_page) implies #[trigger] page_slice(
        posts,
        k,
        per_page,
    ).len() == per_page by {
        lemma_page_bounds(n, per_page, (k + 1) as nat);
        assert((k - 1) * per_page + per_page == ((k + 1) - 1) * per_page) by (nonlinear_arith)
            requires
                k >= 1,
        ;
    }
    lemma_page_bounds(n, per_page, c);
}

/// Every post is on one of the listing pages of the posts sorted newest
/// first.
pub proof fn law_every_post_is_listed(posts: Seq<PostView>, per_page: nat, i: int)
    requires
        per_page > 0,
        0 <= i < posts.len(),
    ensures
        exists|k: nat|
            1 <= k <= page_count(posts.len(), per_page) && #[trigger] page_slice(newest_first(posts), k, per_page).contains(
                posts[i],
            ),
{
    broadcast use vstd::seq_lib::to_multiset_contains;
    let sorted = newest_first(posts);
    law_newest_first(posts);
    lemma_newest_first_len(posts);
    assert(posts.contains(posts[i]));
    assert(sorted.to_multiset().count(posts[i]) > 0);
    assert(sorted.contains(posts[i]));
    let m = choose|m: int| 0 <= m < sorted.len() && sorted[m] == posts[i];
    let n = posts.len() as int;
    let p = per_page as int;
    let q: int = m / p;
    let k: nat = (q + 1) as nat;
    assert(q * p <= m < q * p + p) by (nonlinear_arith)
        requires
            q == m / p,
            p > 0,
            m >= 0,
    ;
    assert(q >= 0) by (nonlinear_arith)
        requires
            q == m / p,
            p > 0,
            m >= 0,
    ;
    assert((n + p - 1) / p >= q + 1) by (nonlinear_arith)
        requires
            q * p <= m,
            m < n,
            p > 0,
            q >= 0,
    ;
    assert(k <= page_count(posts.len(), per_page));
    assert((k - 1) * per_page == q * p);
    let start = q * p;
    let end = if start + p < n {
        start + p
    } else {
        n
    };
    let slice = page_slice(sorted, k, per_page);
    assert(slice == sorted.subrange(start, end));
    assert(slice[m - start] == posts[i]);
    assert(slice.contains(posts[i]));
}

// ---------------------------------------------------------------------------
// Tags
// ---------------------------------------------------------------------------

/// The tag listing names each slug once, in slug order, with the first tag
/// that has it.
pub proof fn law_tag_listing(entries: Seq<(Seq<char>, Seq<char>)>)
    ensures
        lists_map(tag_listing(entries), first_labels(entries)),
    decreases entries.len(),
{
    if entries.len() == 0 {
        assert(lists_map(tag_listing(entries), first_labels(entries)));
    } else {
        law_tag_listing(entries.drop_last());
        lemma_add_label(
            tag_listing(entries.drop_last()),
            first_labels(entries.drop_last()),
            entries.last(),
        );
    }
}

proof fn lemma_entries_of_contains(tags: Seq<Seq<char>>, j: int)
    requires
        0 <= j < tags.len(),
        slug(tags[j]).len() > 0,
    ensures
        tag_entries_of(tags).contains((slug(tags[j]), tags[j])),
        slug_count(tags, slug(tags[j])) >= 1,
    decreases tags.len(),
{
    if j < tags.len() - 1 {
        lemma_entries_of_contains(tags.drop_last(), j);
        assert(tags.drop_last()[j] == tags[j]);
        let prev = tag_entries_of(tags.drop_last());
        let k = choose|k: int| 0 <= k < prev.len() && prev[k] == (slug(tags[j]), tags[j]);
        assert(tag_entries_of(tags)[k] == prev[k]);
    } else {
        let prev = tag_entries_of(tags.drop_last());
        assert(tag_entries_of(tags)[prev.len() as int] == (slug(tags[j]), tags[j]));
    }
}

proof fn lemma_entries_contains(posts: Seq<PostView>, i: int, j: int)
    requires
        0 <= i < posts.len(),
        0 <= j < posts[i].tags.len(),
        slug(posts[i].tags[j]).len() > 0,
    ensures
        tag_entries(posts).contains((slug(posts[i].tags[j]), posts[i].tags[j])),
        tagged_posts(posts, slug(posts[i].tags[j])).contains(posts[i]),
    decreases posts.len(),
{
    let e = (slug(posts[i].tags[j]), posts[i].tags[j]);
    let s = e.0;
    let prev = tag_entries(posts.drop_last());
    let tp = tagged_posts(posts.drop_last(), s);
    if i < posts.len() - 1 {
        assert(posts.drop_last()[i] == posts[i]);
        lemma_entries_contains(posts.drop_last(), i, j);
        let k = choose|k: int| 0 <= k < prev.len() && prev[k] == e;
        assert(tag_entries(posts)[k] == prev[k]);
        let k2 = choose|k2: int| 0 <= k2 < tp.len() && tp[k2] == posts[i];
        assert(tagged_posts(posts, s)[k2] == tp[k2]);
    } else {
        lemma_entries_of_contains(posts[i].tags, j);
        let mine = tag_entries_of(posts.last().tags);
        let k = choose|k: int| 0 <= k < mine.len() && mine[k] == e;
        assert(tag_entries(posts)[prev.len() + k] == e);
        assert(tagged_posts(posts, s)[tp.len() as int] == posts[i]);
    }
}

proof fn lemma_first_labels_keys(entries: Seq<(Seq<char>, Seq<char>)>, k: int)
    requires
        0 <= k < entries.len(),
    ensures
        first_labels(entries).contains_key(entries[k].0),
    decreases entries.len(),
{
    if k < entries.len() - 1 {
        lemma_first_labels_keys(entries.drop_last(), k);
        assert(entries.drop_last()[k] == entries[k]);
    }
}

proof fn lemma_archives_have_first_pages(
    t: Templates,
    sections: Seq<(Seq<char>, Seq<char>)>,
    base_url: Seq<char>,
    robots_meta: Seq<char>,
    listing: Seq<(Seq<char>, Seq<char>)>,
    posts: Seq<PostView>,
    per_page: nat,
    tags: Seq<(Seq<char>, Seq<char>)>,
    k: int,
)
    requires
        per_page > 0,
        0 <= k < tags.len(),
    ensures
        exists|i: int|
            0 <= i < tag_archives(t, sections, base_url, robots_meta, listing, posts, per_page, tags).len()
                && #[trigger] tag_archives(t, sections, base_url, robots_meta, listing, posts, per_page, tags)[i].0
                == tag_archive_path(tags[k].0, 1),
    decreases tags.len(),
{
    let prev = tag_archives(t, sections, base_url, robots_meta, listing, posts, per_page, tags.drop_last());
    let all = tag_archives(t, sections, base_url, robots_meta, listing, posts, per_page, tags);
    if k < tags.len() - 1 {
        lemma_archives_have_first_pages(t, sections, base_url, robots_meta, listing, posts, per_page, tags.drop_last(), k);
        assert(tags.drop_last()[k] == tags[k]);
        let i = choose|i: int| 0 <= i < prev.len() && #[trigger] prev[i].0 == tag_archive_path(tags[k].0, 1);
        assert(all[i] == prev[i]);
        assert(all[i].0 == tag_archive_path(tags[k].0, 1));
    } else {
        let tagged = newest_first(tagged_posts(posts, tags.last().0));
        lemma_page_count_covers(tagged.len(), per_page);
        let mine = tag_archive(t, sections, base_url, robots_meta, listing, posts, per_page, tags.last());
        assert(mine.len() >= 1);
        assert(mine[0].0 == tag_archive_path(tags.last().0, 1));
        assert(all.len() == prev.len() + mine.len());
        assert(all[prev.len() as int] == mine[0]);
        assert(all[prev.len() as int].0 == tag_archive_path(tags[k].0, 1));
    }
}

/// Every tag of every post (with a non-empty slug) has an archive whose first
/// page is `blog/tags/<slug>/index.html`, and the post is among that
/// archive's posts.
pub proof fn law_every_tag_has_an_archive(
    t: Templates,
    sections: Seq<(Seq<char>, Seq<char>)>,
    base_url: Seq<char>,
    robots_meta: Seq<char>,
    posts: Seq<PostView>,
    per_page: nat,
    i: int,
    j: int,
)
    requires
        per_page > 0,
        0 <= i < posts.len(),
        0 <= j < posts[i].tags.len(),
        slug(posts[i].tags[j]).len() > 0,
    ensures
        exists|k: int|
            0 <= k < archive_pages(t, sections, base_url, robots_meta, posts, per_page).len()
                && #[trigger] archive_pages(t, sections, base_url, robots_meta, posts, per_page)[k].0
                == tag_archive_path(slug(posts[i].tags[j]), 1),
        tagged_posts(posts, slug(posts[i].tags[j])).contains(posts[i]),
{
    let s = slug(posts[i].tags[j]);
    let entries = tag_entries(posts);
    lemma_entries_contains(posts, i, j);
    let e = (s, posts[i].tags[j]);
    let q = choose|q: int| 0 <= q < entries.len() && entries[q] == e;
    lemma_first_labels_keys(entries, q);
    let listing = tag_listing(entries);
    law_tag_listing(entries);
    let k = choose|k: int| 0 <= k < listing.len() && listing[k].0 == s;
    lemma_archives_have_first_pages(t, sections, base_url, robots_meta, listing, posts, per_page, listing, k);
    let arch = tag_archives(t, sections, base_url, robots_meta, listing, posts, per_page, listing);
    let i2 = choose|i2: int| 0 <= i2 < arch.len() && #[trigger] arch[i2].0 == tag_archive_path(listing[k].0, 1);
    let all = archive_pages(t, sections, base_url, robots_meta, posts, per_page);
    assert(all[i2 + 1] == arch[i2]);
}

// ---------------------------------------------------------------------------
// Tags lines
// ---------------------------------------------------------------------------

proof fn lemma_split_pieces_avoid_sep(s: Seq<char>, sep: Sep)
    ensures
        forall|k: int, i: int|
            0 <= k < split(s, sep).len() && 0 <= i < split(s, sep)[k].len() ==> !sep.holds(
                #[trigger] split(s, sep)[k][i],
            ),
    decreases s.len(),
{
    if s.len() > 0 {
        lemma_split_pieces_avoid_sep(s.drop_last(), sep);
        lemma_split_len(s.drop_last(), sep);
        let p = split(s.drop_last(), sep);
        let q = split(s, sep);
        assert forall|k: int, i: int| 0 <= k < q.len() && 0 <= i < q[k].len() implies !sep.holds(
            #[trigger] q[k][i],
        ) by {
            if !sep.holds(s.last()) && k == p.len() - 1 {
                if i < p[k].len() {
                    assert(q[k][i] == p[k][i]);
                }
            } else if k < p.len() {
                assert(q[k] == p[k]);
            }
        }
    }
}

proof fn lemma_trim_is_inner(s: Seq<char>)
    ensures
        exists|a: int, b: int| 0 <= a <= b <= s.len() && trim(s) == s.subrange(a, b),
        trim(s).len() > 0 ==> !is_whitespace(trim(s)[0]) && !is_whitespace(trim(s).last()),
    decreases s.len(),
{
    lemma_trim_start_suffix(s);
    let t = trim_start(s);
    lemma_trim_end_prefix(t);
    let a = s.len() - t.len();
    let b = a + trim_end(t).len();
    assert(trim(s) =~= s.subrange(a, b));
    if trim(s).len() > 0 {
        assert(trim(s)[0] == t[0]);
    }
}

proof fn lemma_trim_start_suffix(s: Seq<char>)
    ensures
        trim_start(s).len() <= s.len(),
        trim_start(s) == s.skip(s.len() - trim_start(s).len()),
        trim_start(s).len() > 0 ==> !is_whitespace(trim_start(s)[0]),
    decreases s.len(),
{
    if s.len() > 0 && is_whitespace(s[0]) {
        lemma_trim_start_suffix(s.drop_first());
        assert(s.drop_first().skip(s.drop_first().len() - trim_start(s).len()) =~= s.skip(
            s.len() - trim_start(s).len(),
        ));
    } else {
        assert(s.skip(0) =~= s);
    }
}

proof fn lemma_trim_end_prefix(s: Seq<char>)
    ensures
        trim_end(s).len() <= s.len(),
        trim_end(s) == s.take(trim_end(s).len() as int),
        trim_end(s).len() > 0 ==> !is_whitespace(trim_end(s).last()),
    decreases s.len(),
{
    if s.len() > 0 && is_whitespace(s.last()) {
        lemma_trim_end_prefix(s.drop_last());
        assert(s.drop_last().take(trim_end(s).len() as int) =~= s.take(trim_end(s).len() as int));
    } else {
        assert(s.take(s.len() as int) =~= s);
    }
}

proof fn lemma_non_empty_members(parts: Seq<Seq<char>>)
    ensures
        forall|k: int| 0 <= k < non_empty(parts).len() ==> #[trigger] non_empty(parts)[k].len() > 0 && parts.contains(
            non_empty(parts)[k],
        ),
    decreases parts.len(),
{
    if parts.len() > 0 {
        lemma_non_empty_members(parts.drop_last());
        let prev = non_empty(parts.drop_last());
        assert forall|k: int| 0 <= k < non_empty(parts).len() implies #[trigger] non_empty(parts)[k].len() > 0
            && parts.contains(non_empty(parts)[k]) by {
            if k < prev.len() {
                assert(non_empty(parts)[k] == prev[k]);
                let j = choose|j: int| 0 <= j < parts.drop_last().len() && parts.drop_last()[j] == prev[k];
                assert(parts[j] == prev[k]);
            } else {
                assert(non_empty(parts)[k] == parts.last());
                assert(parts[parts.len() - 1] == parts.last());
            }
        }
    }
}

/// Every tag of a `tags:` line is non-empty, holds no comma, and neither
/// starts nor ends with white space.
pub proof fn law_tags_are_trimmed_pieces(line: Seq<char>)
    ensures
        forall|k: int|
            0 <= k < tags_of_line(line).len() ==> {
                let t = #[trigger] tags_of_line(line)[k];
                &&& t.len() > 0
                &&& forall|i: int| 0 <= i < t.len() ==> t[i] != ','
                &&& !is_whitespace(t[0]) && !is_whitespace(t.last())
            },
{
    if starts_with_tags(line) {
        let pieces = split(line.skip("tags:"@.len() as int), Sep::Comma);
        lemma_split_pieces_avoid_sep(line.skip("tags:"@.len() as int), Sep::Comma);
        let ts = trimmed_all(pieces);
        lemma_non_empty_members(ts);
        assert forall|k: int| 0 <= k < tags_of_line(line).len() implies {
            let t = #[trigger] tags_of_line(line)[k];
            &&& t.len() > 0
            &&& forall|i: int| 0 <= i < t.len() ==> t[i] != ','
            &&& !is_whitespace(t[0]) && !is_whitespace(t.last())
        } by {
            let t = tags_of_line(line)[k];
            let j = choose|j: int| 0 <= j < ts.len() && ts[j] == t;
            lemma_trim_is_inner(pieces[j]);
            let (a, b) = choose|a: int, b: int| 0 <= a <= b <= pieces[j].len() && trim(pieces[j]) == pieces[j].subrange(a, b);
            assert forall|i: int| 0 <= i < t.len() implies t[i] != ',' by {
                assert(t[i] == pieces[j][a + i]);
            }
        }
    }
}

spec fn starts_with_tags(line: Seq<char>) -> bool {
    crate::text::starts_with(line, "tags:"@)
}

// ---------------------------------------------------------------------------
// Site layout
// ---------------------------------------------------------------------------

/// Pages directly in the content directory belong to no section.
pub proof fn law_top_level_pages_have_no_section(rel_path: Seq<char>)
    requires
        components(rel_path).len() < 2,
    ensures
        section_of(rel_path) is None,
{
}

/// A page keeps its directory: its output path is its source path up to the
/// file name, then the file stem and `.html`.
pub proof fn law_pages_keep_their_directory(rel_path: Seq<char>)
    ensures
        with_extension(rel_path, "html"@).take(rel_path.len() - file_name(rel_path).len()) == rel_path.take(
            rel_path.len() - file_name(rel_path).len(),
        ),
{
    lemma_file_name_len(rel_path);
    let d = rel_path.len() - file_name(rel_path).len();
    assert(with_extension(rel_path, "html"@).take(d) =~= rel_path.take(d));
}

/// Every Markdown source but the blog introduction gets a page at its path
/// with the extension `html`.
pub proof fn law_every_source_has_a_page(
    config: BuildConfig,
    t: Templates,
    sections: Seq<(Seq<char>, Seq<char>)>,
    sources: Seq<SourceView>,
    i: int,
)
    requires
        0 <= i < sources.len(),
        !crate::blog::is_blog_index(sources[i].rel_path),
    ensures
        exists|k: int|
            0 <= k < content_pages(config, t, sections, sources).len() && #[trigger] content_pages(
                config,
                t,
                sections,
                sources,
            )[k] == content_page(config, t, sections, sources[i]),
        content_page(config, t, sections, sources[i]).0 == with_extension(sources[i].rel_path, "html"@),
    decreases sources.len(),
{
    let prev = content_pages(config, t, sections, sources.drop_last());
    let all = content_pages(config, t, sections, sources);
    if i < sources.len() - 1 {
        assert(sources.drop_last()[i] == sources[i]);
        law_every_source_has_a_page(config, t, sections, sources.drop_last(), i);
        let k = choose|k: int| 0 <= k < prev.len() && #[trigger] prev[k] == content_page(config, t, sections, sources[i]);
        assert(all[k] == prev[k]);
    } else {
        assert(all[prev.len() as int] == content_page(config, t, sections, sources[i]));
    }
}


// ---------------------------------------------------------------------------
// Blog posts
// ---------------------------------------------------------------------------

proof fn lemma_filled_untouched(tpl: Seq<char>, ph: Seq<(Seq<char>, Seq<char>)>, j: int)
    requires
        0 <= j <= ph.len(),
        forall|i: int| 0 <= i < j ==> placeholder_mark(#[trigger] ph[i].0).len() > tpl.len(),
    ensures
        filled(tpl, ph.take(j)) == tpl,
    decreases j,
{
    if j > 0 {
        lemma_filled_untouched(tpl, ph, j - 1);
        assert(ph.take(j).drop_last() =~= ph.take(j - 1));
        assert(ph.take(j).last() == ph[j - 1]);
    } else {
        assert(ph.take(0).len() == 0);
    }
}

/// The `{{post_body}}` of a post page is the rendered Markdown of the post's
/// body alone: what is left after the title, the subtitle and the metadata
/// lines, which are not rendered a second time.
pub proof fn law_post_body_is_the_rendered_body(t: Templates, src: SourceView)
    requires
        is_blog_post(src.rel_path),
        t.blog_post@ == "{{post_body}}"@,
    ensures
        content_html_of(t, src) == markdown_html(parsed_post(src.markdown).body),
{
    reveal_strlit("{{post_body}}");
    reveal_strlit("post_title");
    reveal_strlit("post_subheading_block");
    reveal_strlit("post_timestamps_block");
    reveal_strlit("post_tags_block");
    reveal_strlit("post_body");
    let tpl = t.blog_post@;
    let p = parsed_post(src.markdown);
    let ph = post_placeholders(
        crate::site::page_title_of(src),
        p.subtitle,
        p.tags,
        p.published,
        p.edited,
        markdown_html(p.body),
    );
    assert(ph.len() == 5);
    lemma_filled_untouched(tpl, ph, 4);
    assert(ph.drop_last() =~= ph.take(4));
    let mark = placeholder_mark(ph[4].0);
    assert(mark =~= tpl);
    assert(mark.take(mark.len() as int) =~= mark);
    assert(mark.skip(mark.len() as int) =~= Seq::<char>::empty());
    assert(replace_all(Seq::<char>::empty(), mark, ph[4].1) == Seq::<char>::empty());
    assert(ph[4].1 + Seq::<char>::empty() =~= ph[4].1);
    assert(filled(tpl, ph) == replace_all(tpl, mark, ph[4].1));
}

/// Whether `part` occurs in `s`.
pub open spec fn contains_text(s: Seq<char>, part: Seq<char>) -> bool {
    exists|i: int| 0 <= i && i + part.len() <= s.len() && #[trigger] s.subrange(i, i + part.len()) == part
}

proof fn lemma_page_path_is_listing_path(k: nat)
    ensures
        blog_page_path(k) == seq!['/'] + listing_path(k),
{
    reveal_strlit("/blog/index.html");
    reveal_strlit("blog/index.html");
    reveal_strlit("/blog/page/");
    reveal_strlit("blog/page/");
    if k == 1 {
        assert(blog_page_path(k) =~= seq!['/'] + listing_path(k));
    } else {
        assert(blog_page_path(k) =~= seq!['/'] + listing_path(k));
    }
}

/// On page `k` of `n` listing pages, the "Newer" link leads to the page that
/// is written as page `k - 1` and the "Older" link to page `k + 1`.
pub proof fn law_pager_links_neighbour_pages(k: nat, n: nat, base_url: Seq<char>)
    requires
        1 <= k <= n,
        n > 1,
    ensures
        k > 1 ==> contains_text(
            pagination_html(k, n, base_url),
            "<a class=\"page-link\" href=\""@ + under_base(base_url, seq!['/'] + listing_path((k - 1) as nat))
                + "\">← Newer</a>"@,
        ),
        k < n ==> contains_text(
            pagination_html(k, n, base_url),
            "<a class=\"page-link\" href=\""@ + under_base(base_url, seq!['/'] + listing_path(k + 1))
                + "\">Older →</a>"@,
        ),
{
    let s = pagination_html(k, n, base_url);
    let open = "<nav class=\"pagination\" aria-label=\"Blog pagination\">"@;
    if k > 1 {
        lemma_page_path_is_listing_path((k - 1) as nat);
        let link = "<a class=\"page-link\" href=\""@ + under_base(base_url, seq!['/'] + listing_path((k - 1) as nat))
            + "\">← Newer</a>"@;
        let rest = s.skip((open.len() + link.len()) as int);
        assert(s =~= open + link + rest);
        assert(s.subrange(open.len() as int, (open.len() + link.len()) as int) =~= link);
    }
    if k < n {
        lemma_page_path_is_listing_path(k + 1);
        let link = "<a class=\"page-link\" href=\""@ + under_base(base_url, seq!['/'] + listing_path(k + 1))
            + "\">Older →</a>"@;
        let i = s.len() - link.len() - "</nav>"@.len();
        assert(s =~= s.take(i) + link + "</nav>"@);
        assert(s.subrange(i, i + link.len()) =~= link);
    }
}

/// Whether a line may stand among a post's metadata lines: blank, or a
/// `tags:`, `published:` or `edited:` line.
pub open spec fn is_metadata_line(line: Seq<char>) -> bool {
    let t = crate::text::trim(line);
    t.len() == 0 || starts_with(t, "tags:"@) || starts_with(t, "published:"@) || starts_with(t, "edited:"@)
}

proof fn lemma_front_matter_keeps_edited(
    ls: Seq<Seq<char>>,
    i: int,
    tags: Seq<Seq<char>>,
    published: Option<Seq<char>>,
    edited: Option<Seq<char>>,
)
    requires
        0 <= i,
        forall|j: int| i <= j < ls.len() ==> !starts_with(crate::text::trim(#[trigger] ls[j]), "edited:"@),
    ensures
        front_matter(ls, i, tags, published, edited).2 == edited,
    decreases ls.len() - i,
{
    if i < ls.len() {
        let t = crate::text::trim(ls[i]);
        if t.len() == 0 {
            lemma_front_matter_keeps_edited(ls, i + 1, tags, published, edited);
        } else if starts_with(t, "tags:"@) {
            lemma_front_matter_keeps_edited(ls, i + 1, tags + tags_of_line(t), published, edited);
        } else if starts_with(t, "published:"@) {
            lemma_front_matter_keeps_edited(
                ls,
                i + 1,
                tags,
                crate::blog::field_value(t, "published:"@),
                edited,
            );
        }
    }
}

proof fn lemma_front_matter_reads_edited(
    ls: Seq<Seq<char>>,
    i: int,
    k: int,
    tags: Seq<Seq<char>>,
    published: Option<Seq<char>>,
    edited: Option<Seq<char>>,
)
    requires
        0 <= i <= k < ls.len(),
        forall|j: int| i <= j < k ==> is_metadata_line(#[trigger] ls[j]),
        starts_with(crate::text::trim(ls[k]), "edited:"@),
        forall|j: int| k < j < ls.len() ==> !starts_with(crate::text::trim(#[trigger] ls[j]), "edited:"@),
    ensures
        front_matter(ls, i, tags, published, edited).2 == crate::blog::field_value(
            crate::text::trim(ls[k]),
            "edited:"@,
        ),
    decreases k - i,
{
    reveal_strlit("tags:");
    reveal_strlit("published:");
    reveal_strlit("edited:");
    let t = crate::text::trim(ls[i]);
    if i == k {
        assert(t.take(7)[0] == 'e');
        assert(t.len() > 0);
        if t.len() >= 5 {
            assert(t.take(5)[0] == 'e');
        }
        if t.len() >= 10 {
            assert(t.take(10)[0] == 'e');
        }
        lemma_front_matter_keeps_edited(ls, i + 1, tags, published, crate::blog::field_value(t, "edited:"@));
    } else {
        assert(is_metadata_line(ls[i]));
        if t.len() == 0 {
            lemma_front_matter_reads_edited(ls, i + 1, k, tags, published, edited);
        } else if starts_with(t, "tags:"@) {
            lemma_front_matter_reads_edited(ls, i + 1, k, tags + tags_of_line(t), published, edited);
        } else if starts_with(t, "published:"@) {
            lemma_front_matter_reads_edited(
                ls,
                i + 1,
                k,
                tags,
                crate::blog::field_value(t, "published:"@),
                edited,
            );
        } else {
            lemma_front_matter_reads_edited(
                ls,
                i + 1,
                k,
                tags,
                published,
                crate::blog::field_value(t, "edited:"@),
            );
        }
    }
}

/// A post's edit date is the value of its last `edited:` line among the
/// metadata lines after its headings, trimmed, when that value is not empty.
pub proof fn law_edited_date_is_read(md: Seq<char>, k: int)
    requires
        header(lines(md)).2 <= k < lines(md).len(),
        forall|j: int| header(lines(md)).2 <= j < k ==> is_metadata_line(#[trigger] lines(md)[j]),
        starts_with(crate::text::trim(lines(md)[k]), "edited:"@),
        crate::text::trim(crate::text::trim(lines(md)[k]).skip(7)).len() > 0,
        forall|j: int|
            k < j < lines(md).len() ==> !starts_with(crate::text::trim(#[trigger] lines(md)[j]), "edited:"@),
    ensures
        parsed_post(md).edited == Some(crate::text::trim(crate::text::trim(lines(md)[k]).skip(7))),
{
    reveal_strlit("edited:");
    let ls = lines(md);
    let i2 = header(ls).2;
    assert(0 <= i2) by {
        lemma_skip_blank_from(ls, 0);
        let i0 = crate::blog::skip_blank(ls, 0);
        lemma_skip_blank_from(ls, i0 + 1);
        let i1 = crate::blog::skip_blank(ls, i0 + 1);
        lemma_skip_blank_from(ls, i1 + 1);
    }
    lemma_front_matter_reads_edited(ls, i2, k, Seq::empty(), None, None);
}

proof fn lemma_front_matter_keeps_published(
    ls: Seq<Seq<char>>,
    i: int,
    tags: Seq<Seq<char>>,
    published: Option<Seq<char>>,
    edited: Option<Seq<char>>,
)
    requires
        0 <= i,
        forall|j: int| i <= j < ls.len() ==> !starts_with(crate::text::trim(#[trigger] ls[j]), "published:"@),
    ensures
        front_matter(ls, i, tags, published, edited).1 == published,
    decreases ls.len() - i,
{
    if i < ls.len() {
        let t = crate::text::trim(ls[i]);
        if t.len() == 0 {
            lemma_front_matter_keeps_published(ls, i + 1, tags, published, edited);
        } else if starts_with(t, "tags:"@) {
            lemma_front_matter_keeps_published(ls, i + 1, tags + tags_of_line(t), published, edited);
        } else if starts_with(t, "edited:"@) {
            reveal_strlit("published:");
            reveal_strlit("edited:");
            assert(t.take(7)[0] == 'e');
            if t.len() >= 10 {
                assert(t.take(10)[0] == 'e');
            }
            lemma_front_matter_keeps_published(
                ls,
                i + 1,
                tags,
                published,
                crate::blog::field_value(t, "edited:"@),
            );
        }
    }
}

proof fn lemma_front_matter_reads_published(
    ls: Seq<Seq<char>>,
    i: int,
    k: int,
    tags: Seq<Seq<char>>,
    published: Option<Seq<char>>,
    edited: Option<Seq<char>>,
)
    requires
        0 <= i <= k < ls.len(),
        forall|j: int| i <= j < k ==> is_metadata_line(#[trigger] ls[j]),
        starts_with(crate::text::trim(ls[k]), "published:"@),
        forall|j: int| k < j < ls.len() ==> !starts_with(crate::text::trim(#[trigger] ls[j]), "published:"@),
    ensures
        front_matter(ls, i, tags, published, edited).1 == crate::blog::field_value(
            crate::text::trim(ls[k]),
            "published:"@,
        ),
    decreases k - i,
{
    reveal_strlit("tags:");
    reveal_strlit("published:");
    reveal_strlit("edited:");
    let t = crate::text::trim(ls[i]);
    if i == k {
        assert(t.take(10)[0] == 'p');
        assert(t.len() > 0);
        if t.len() >= 5 {
            assert(t.take(5)[0] == 'p');
        }
        if t.len() >= 7 {
            assert(t.take(7)[0] == 'p');
        }
        lemma_front_matter_keeps_published(ls, i + 1, tags, crate::blog::field_value(t, "published:"@), edited);
        assert(!starts_with(t, "tags:"@));
    } else {
        assert(is_metadata_line(ls[i]));
        if t.len() == 0 {
            lemma_front_matter_reads_published(ls, i + 1, k, tags, published, edited);
        } else if starts_with(t, "tags:"@) {
            lemma_front_matter_reads_published(ls, i + 1, k, tags + tags_of_line(t), published, edited);
        } else if starts_with(t, "edited:"@) {
            assert(t.take(7)[0] == 'e');
            if t.len() >= 10 {
                assert(t.take(10)[0] == 'e');
            }
            lemma_front_matter_reads_published(
                ls,
                i + 1,
                k,
                tags,
                published,
                crate::blog::field_value(t, "edited:"@),
            );
        } else {
            lemma_front_matter_reads_published(
                ls,
                i + 1,
                k,
                tags,
                crate::blog::field_value(t, "published:"@),
                edited,
            );
        }
    }
}

/// A post's publication date is the value of its last `published:` line among
/// the metadata lines after its headings, trimmed, when that value is not empty.
pub proof fn law_published_date_is_read(md: Seq<char>, k: int)
    requires
        header(lines(md)).2 <= k < lines(md).len(),
        forall|j: int| header(lines(md)).2 <= j < k ==> is_metadata_line(#[trigger] lines(md)[j]),
        starts_with(crate::text::trim(lines(md)[k]), "published:"@),
        crate::text::trim(crate::text::trim(lines(md)[k]).skip(10)).len() > 0,
        forall|j: int|
            k < j < lines(md).len() ==> !starts_with(crate::text::trim(#[trigger] lines(md)[j]), "published:"@),
    ensures
        parsed_post(md).published == Some(crate::text::trim(crate::text::trim(lines(md)[k]).skip(10))),
{
    reveal_strlit("published:");
    let ls = lines(md);
    let i2 = header(ls).2;
    assert(0 <= i2) by {
        lemma_skip_blank_from(ls, 0);
        let i0 = crate::blog::skip_blank(ls, 0);
        lemma_skip_blank_from(ls, i0 + 1);
        let i1 = crate::blog::skip_blank(ls, i0 + 1);
        lemma_skip_blank_from(ls, i1 + 1);
    }
    lemma_front_matter_reads_published(ls, i2, k, Seq::empty(), None, None);
}

proof fn lemma_skip_blank_from(ls: Seq<Seq<char>>, i: int)
    ensures
        crate::blog::skip_blank(ls, i) >= i,
    decreases ls.len() - i,
{
    if 0 <= i < ls.len() && crate::blog::is_blank(ls[i]) {
        lemma_skip_blank_from(ls, i + 1);
    }
}

proof fn lemma_first_paragraph_line_at(ls: Seq<Seq<char>>, k: int)
    requires
        0 <= k < ls.len(),
        crate::text::trim(ls[k]).len() > 0,
        crate::text::trim(ls[k])[0] != '#',
        forall|j: int|
            0 <= j < k ==> crate::text::trim(#[trigger] ls[j]).len() == 0 || crate::text::trim(ls[j])[0] == '#',
    ensures
        first_paragraph_line(ls) == Some(crate::text::trim(ls[k])),
    decreases k,
{
    if k > 0 {
        assert(crate::text::trim(ls[0]).len() == 0 || crate::text::trim(ls[0])[0] == '#');
        let rest = ls.drop_first();
        assert forall|j: int| 0 <= j < k - 1 implies crate::text::trim(#[trigger] rest[j]).len() == 0
            || crate::text::trim(rest[j])[0] == '#' by {
            assert(rest[j] == ls[j + 1]);
        }
        lemma_first_paragraph_line_at(rest, k - 1);
    }
}

proof fn lemma_no_paragraph_line(ls: Seq<Seq<char>>)
    requires
        forall|j: int|
            0 <= j < ls.len() ==> crate::text::trim(#[trigger] ls[j]).len() == 0 || crate::text::trim(ls[j])[0]
                == '#',
    ensures
        first_paragraph_line(ls) is None,
    decreases ls.len(),
{
    if ls.len() > 0 {
        let rest = ls.drop_first();
        assert forall|j: int| 0 <= j < rest.len() implies crate::text::trim(#[trigger] rest[j]).len() == 0
            || crate::text::trim(rest[j])[0] == '#' by {
            assert(rest[j] == ls[j + 1]);
        }
        lemma_no_paragraph_line(rest);
    }
}

/// A post's excerpt is the first line of its body that, trimmed, is neither
/// empty nor a heading; it is "Read more…" when there is no such line.
pub proof fn law_excerpt_is_first_text_line(md: Seq<char>, k: int)
    ensures
        (0 <= k < lines(parsed_post(md).body).len() && crate::text::trim(lines(parsed_post(md).body)[k]).len()
            > 0 && crate::text::trim(lines(parsed_post(md).body)[k])[0] != '#' && (forall|j: int|
            0 <= j < k ==> crate::text::trim(#[trigger] lines(parsed_post(md).body)[j]).len() == 0
                || crate::text::trim(lines(parsed_post(md).body)[j])[0] == '#')) ==> excerpt_of(md)
            == crate::text::trim(lines(parsed_post(md).body)[k]),
        (forall|j: int|
            0 <= j < lines(parsed_post(md).body).len() ==> crate::text::trim(
                #[trigger] lines(parsed_post(md).body)[j],
            ).len() == 0 || crate::text::trim(lines(parsed_post(md).body)[j])[0] == '#') ==> excerpt_of(md)
            == "Read more…"@,
{
    let ls = lines(parsed_post(md).body);
    if 0 <= k < ls.len() && crate::text::trim(ls[k]).len() > 0 && crate::text::trim(ls[k])[0] != '#' && (forall|
        j: int,
    |
        0 <= j < k ==> crate::text::trim(#[trigger] ls[j]).len() == 0 || crate::text::trim(ls[j])[0] == '#') {
        lemma_first_paragraph_line_at(ls, k);
    }
    if forall|j: int|
        0 <= j < ls.len() ==> crate::text::trim(#[trigger] ls[j]).len() == 0 || crate::text::trim(ls[j])[0]
            == '#' {
        lemma_no_paragraph_line(ls);
    }
}

// ---------------------------------------------------------------------------
// Tag archives
// ---------------------------------------------------------------------------

proof fn lemma_slug_count_witness(tags: Seq<Seq<char>>, s: Seq<char>)
    requires
        slug_count(tags, s) > 0,
    ensures
        exists|j: int| 0 <= j < tags.len() && slug(#[trigger] tags[j]) == s,
    decreases tags.len(),
{
    if slug(tags.last()) == s {
        assert(slug(tags[tags.len() - 1]) == s);
    } else {
        lemma_slug_count_witness(tags.drop_last(), s);
        let j = choose|j: int| 0 <= j < tags.drop_last().len() && slug(#[trigger] tags.drop_last()[j]) == s;
        assert(tags[j] == tags.drop_last()[j]);
    }
}

/// A post filed under a tag slug is one of the posts, and one of its own tags
/// has exactly that slug.
pub proof fn law_tagged_posts_carry_the_tag(posts: Seq<PostView>, s: Seq<char>, q: PostView)
    requires
        tagged_posts(posts, s).contains(q),
    ensures
        posts.contains(q),
        exists|j: int| 0 <= j < q.tags.len() && slug(#[trigger] q.tags[j]) == s,
    decreases posts.len(),
{
    let prev = posts.drop_last();
    let p = posts.last();
    let tp = tagged_posts(prev, s);
    let all = tagged_posts(posts, s);
    let k = choose|k: int| 0 <= k < all.len() && all[k] == q;
    if k < tp.len() {
        assert(all[k] == tp[k]);
        assert(tp.contains(q));
        law_tagged_posts_carry_the_tag(prev, s, q);
        let m = choose|m: int| 0 <= m < prev.len() && prev[m] == q;
        assert(posts[m] == q);
    } else {
        assert(all[k] == p);
        assert(slug_count(p.tags, s) > 0);
        lemma_slug_count_witness(p.tags, s);
        assert(posts[posts.len() - 1] == q);
    }
}

} // verus!
