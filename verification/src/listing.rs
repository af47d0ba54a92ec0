//! The blog listing and the tag archives: posts in newest-first order, the
//! tag map, and the pages that list them.
use vstd::prelude::*;
use crate::blog::{
    blog_breadcrumbs_html, cards_html, filter_links_html, index_content_html, pagination_html, slug,
    slugify_tag, string_pairs_view, render_blog_breadcrumbs, render_blog_filter_links,
    render_blog_index_cards, render_blog_index_content, render_blog_pagination,
    render_tag_breadcrumbs, render_tags_directory, tag_breadcrumbs_html, tag_counts_view,
    tags_directory_html, tags_index_breadcrumbs_html, render_tags_index_breadcrumbs,
};
use crate::render::{
    escaped, markdown_html, markdown_to_html, nav_html, page_html, push_escaped, render_nav,
    render_page,
};
use crate::text::{decimal, push_decimal};
use crate::types::{pages_view, GeneratedPage, SiteStructure, Templates};
use crate::order::{
    lemma_lex_asymmetric, lemma_lex_irreflexive, lemma_lex_total, lemma_lex_transitive, lex_less,
    path_lt, text_lt,
};
use crate::text::{chars_eq, chars_of};
use crate::types::{posts_view, BlogPostMeta, PostView};

verus! {

// ---------------------------------------------------------------------------
// Newest first
// ---------------------------------------------------------------------------

/// Where a post with path `key` goes in a list sorted newest first: before
/// the first post whose path comes before `key`.
pub open spec fn insert_pos(s: Seq<PostView>, key: Seq<char>) -> int
    decreases s.len(),
{
    if s.len() == 0 {
        0
    } else if path_lt(s[0].rel_path, key) {
        0
    } else {
        1 + insert_pos(s.drop_first(), key)
    }
}

/// The posts sorted by path, greatest first, posts with equal paths in their
/// given order (a stable sort on the reversed path order).
pub open spec fn newest_first(posts: Seq<PostView>) -> Seq<PostView>
    decreases posts.len(),
{
    if posts.len() == 0 {
        posts
    } else {
        let s = newest_first(posts.drop_last());
        s.insert(insert_pos(s, posts.last().rel_path), posts.last())
    }
}

pub proof fn lemma_insert_pos_range(s: Seq<PostView>, key: Seq<char>)
    ensures
        0 <= insert_pos(s, key) <= s.len(),
        forall|k: int| 0 <= k < insert_pos(s, key) ==> !path_lt(#[trigger] s[k].rel_path, key),
        insert_pos(s, key) < s.len() ==> path_lt(s[insert_pos(s, key)].rel_path, key),
    decreases s.len(),
{
    if s.len() > 0 && !path_lt(s[0].rel_path, key) {
        lemma_insert_pos_range(s.drop_first(), key);
        assert forall|k: int| 0 <= k < insert_pos(s, key) implies !path_lt(
            #[trigger] s[k].rel_path,
            key,
        ) by {
            if k > 0 {
                assert(s[k] == s.drop_first()[k - 1]);
            }
        }
    }
}

pub proof fn lemma_newest_first_len(posts: Seq<PostView>)
    ensures
        newest_first(posts).len() == posts.len(),
    decreases posts.len(),
{
    if posts.len() > 0 {
        lemma_newest_first_len(posts.drop_last());
        lemma_insert_pos_range(newest_first(posts.drop_last()), posts.last().rel_path);
    }
}

/// No post comes after one whose path comes before its own.
pub open spec fn is_newest_first(s: Seq<PostView>) -> bool {
    forall|i: int, j: int| 0 <= i < j < s.len() ==> !path_lt(#[trigger] s[i].rel_path, #[trigger] s[j].rel_path)
}

/// Sorts the posts newest first (by path, greatest first), keeping posts with
/// equal paths in their order.
pub fn sort_newest_first(posts: &mut Vec<BlogPostMeta>)
    ensures
        posts_view(final(posts)@) == newest_first(posts_view(old(posts)@)),
        posts_view(final(posts)@).to_multiset() == posts_view(old(posts)@).to_multiset(),
        is_newest_first(posts_view(final(posts)@)),
{
    proof {
        crate::laws::law_newest_first(posts_view(posts@));
    }
    let mut input: Vec<BlogPostMeta> = Vec::new();
    std::mem::swap(&mut input, posts);
    let ghost all = posts_view(input@);
    let mut out: Vec<BlogPostMeta> = Vec::new();
    let mut i: usize = 0;
    assert(all.take(0) =~= Seq::<PostView>::empty());
    while i < input.len()
        invariant
            all == posts_view(input@),
            i <= input@.len(),
            posts_view(out@) == newest_first(all.take(i as int)),
        decreases input@.len() - i,
    {
        let post = input[i].copy();
        let key = chars_of(post.rel_path.as_str());
        let ghost s = posts_view(out@);
        proof {
            lemma_insert_pos_range(s, key@);
        }
        let mut p: usize = 0;
        while p < out.len()
            invariant
                s == posts_view(out@),
                p <= out@.len(),
                p <= insert_pos(s, key@),
                0 <= insert_pos(s, key@) <= s.len(),
                insert_pos(s, key@) < s.len() ==> path_lt(s[insert_pos(s, key@)].rel_path, key@),
                forall|k: int| 0 <= k < insert_pos(s, key@) ==> !path_lt(#[trigger] s[k].rel_path, key@),
            ensures
                p == insert_pos(s, key@),
            decreases out@.len() - p,
        {
            let cur = chars_of(out[p].rel_path.as_str());
            if lex_less(&cur, &key, true) {
                assert(path_lt(s[p as int].rel_path, key@));
                break;
            }
            assert(!path_lt(s[p as int].rel_path, key@));
            p += 1;
        }
        assert(all.take(i + 1).drop_last() =~= all.take(i as int));
        assert(all.take(i + 1).last() == post@);
        out.insert(p, post);
        assert(posts_view(out@) =~= s.insert(p as int, post@));
        i += 1;
    }
    assert(all.take(input@.len() as int) =~= all);
    *posts = out;
}

// ---------------------------------------------------------------------------
// Tags of the blog
// ---------------------------------------------------------------------------

/// The (slug, tag) pairs of a list of tags, tags with an empty slug left out.
pub open spec fn tag_entries_of(tags: Seq<Seq<char>>) -> Seq<(Seq<char>, Seq<char>)>
    decreases tags.len(),
{
    if tags.len() == 0 {
        Seq::empty()
    } else {
        let prev = tag_entries_of(tags.drop_last());
        let t = tags.last();
        if slug(t).len() == 0 {
            prev
        } else {
            prev.push((slug(t), t))
        }
    }
}

/// The (slug, tag) pairs of all posts, post by post.
pub open spec fn tag_entries(posts: Seq<PostView>) -> Seq<(Seq<char>, Seq<char>)>
    decreases posts.len(),
{
    if posts.len() == 0 {
        Seq::empty()
    } else {
        tag_entries(posts.drop_last()) + tag_entries_of(posts.last().tags)
    }
}

/// Each slug with the first tag that has it.
pub open spec fn first_labels(entries: Seq<(Seq<char>, Seq<char>)>) -> Map<Seq<char>, Seq<char>>
    decreases entries.len(),
{
    if entries.len() == 0 {
        Map::empty()
    } else {
        let m = first_labels(entries.drop_last());
        let e = entries.last();
        if m.contains_key(e.0) {
            m
        } else {
            m.insert(e.0, e.1)
        }
    }
}

/// `r` lists the entries of `m`, one each, in slug order.
pub open spec fn lists_map(r: Seq<(Seq<char>, Seq<char>)>, m: Map<Seq<char>, Seq<char>>) -> bool {
    &&& forall|i: int, j: int| 0 <= i < j < r.len() ==> text_lt(#[trigger] r[i].0, #[trigger] r[j].0)
    &&& forall|k: int| 0 <= k < r.len() ==> #[trigger] m.contains_key(r[k].0) && m[r[k].0] == r[k].1
    &&& forall|key: Seq<char>| #[trigger] m.contains_key(key) ==> exists|k: int| 0 <= k < r.len() && r[k].0 == key
}

/// Where `key` goes in a list in slug order: the first entry whose slug does
/// not come before it.
pub open spec fn label_pos(r: Seq<(Seq<char>, Seq<char>)>, key: Seq<char>) -> int
    decreases r.len(),
{
    if r.len() == 0 {
        0
    } else if !text_lt(r[0].0, key) {
        0
    } else {
        1 + label_pos(r.drop_first(), key)
    }
}

pub proof fn lemma_label_pos_range(r: Seq<(Seq<char>, Seq<char>)>, key: Seq<char>)
    ensures
        0 <= label_pos(r, key) <= r.len(),
        forall|k: int| 0 <= k < label_pos(r, key) ==> text_lt(#[trigger] r[k].0, key),
        label_pos(r, key) < r.len() ==> !text_lt(r[label_pos(r, key)].0, key),
    decreases r.len(),
{
    if r.len() > 0 && text_lt(r[0].0, key) {
        lemma_label_pos_range(r.drop_first(), key);
        assert forall|k: int| 0 <= k < label_pos(r, key) implies text_lt(#[trigger] r[k].0, key) by {
            if k > 0 {
                assert(r[k] == r.drop_first()[k - 1]);
            }
        }
    }
}

/// The listing after adding an entry: a new slug goes in at its place, a known
/// slug keeps its first label.
pub open spec fn add_label(r: Seq<(Seq<char>, Seq<char>)>, e: (Seq<char>, Seq<char>)) -> Seq<(Seq<char>, Seq<char>)> {
    let p = label_pos(r, e.0);
    if p < r.len() && r[p].0 == e.0 {
        r
    } else {
        r.insert(p, e)
    }
}

/// The tag listing of a list of (slug, tag) entries: each slug once, in slug
/// order, with its first tag.
pub open spec fn tag_listing(entries: Seq<(Seq<char>, Seq<char>)>) -> Seq<(Seq<char>, Seq<char>)>
    decreases entries.len(),
{
    if entries.len() == 0 {
        Seq::empty()
    } else {
        add_label(tag_listing(entries.drop_last()), entries.last())
    }
}

/// Adding an entry to a listing of a map lists the map with that entry added
/// unless its slug is known.
pub proof fn lemma_add_label(v: Seq<(Seq<char>, Seq<char>)>, m: Map<Seq<char>, Seq<char>>, e: (Seq<char>, Seq<char>))
    requires
        lists_map(v, m),
    ensures
        lists_map(add_label(v, e), if m.contains_key(e.0) { m } else { m.insert(e.0, e.1) }),
        (add_label(v, e) == v) == m.contains_key(e.0),
{
    let key = e.0;
    let p = label_pos(v, key);
    lemma_label_pos_range(v, key);
    if p < v.len() && v[p].0 == key {
        assert(m.contains_key(v[p].0));
        return;
    }
    if p < v.len() {
        lemma_lex_total(v[p].0, key, false);
    }
    assert(!m.contains_key(key)) by {
        if m.contains_key(key) {
            let k = choose|k: int| 0 <= k < v.len() && v[k].0 == key;
            if k < p {
                lemma_lex_irreflexive(key, false);
            } else if k > p {
                assert(text_lt(v[p].0, v[k].0));
                lemma_lex_asymmetric(v[p].0, key, false);
            }
        }
    }
    let m2 = m.insert(key, e.1);
    let w = v.insert(p, e);
    assert(w.len() != v.len());
    assert forall|i: int, j: int| 0 <= i < j < w.len() implies text_lt(#[trigger] w[i].0, #[trigger] w[j].0) by {
        if j < p {
        } else if i < p && j == p {
        } else if i < p && j > p {
            assert(w[j] == v[j - 1]);
            if j - 1 == p {
                lemma_lex_transitive(v[i].0, key, v[p].0, false);
            } else {
                assert(text_lt(v[p].0, v[j - 1].0));
                lemma_lex_transitive(key, v[p].0, v[j - 1].0, false);
                lemma_lex_transitive(v[i].0, key, v[j - 1].0, false);
            }
        } else if i == p {
            assert(w[j] == v[j - 1]);
            if j - 1 > p {
                assert(text_lt(v[p].0, v[j - 1].0));
                lemma_lex_transitive(key, v[p].0, v[j - 1].0, false);
            }
        } else {
            assert(w[i] == v[i - 1] && w[j] == v[j - 1]);
        }
    }
    assert forall|k: int| 0 <= k < w.len() implies #[trigger] m2.contains_key(w[k].0) && m2[w[k].0] == w[k].1 by {
        if k < p {
            assert(w[k] == v[k]);
            assert(0 <= k < v.len());
            assert(m.contains_key(v[k].0));
            assert(m[v[k].0] == v[k].1);
            assert(v[k].0 != key) by {
                if v[k].0 == key {
                    lemma_lex_irreflexive(key, false);
                }
            }
        } else if k > p {
            assert(w[k] == v[k - 1]);
            assert(m.contains_key(v[k - 1].0) && m[v[k - 1].0] == v[k - 1].1);
            assert(v[k - 1].0 != key) by {
                if v[k - 1].0 == key {
                    if k - 1 > p {
                        assert(text_lt(v[p].0, v[k - 1].0));
                    }
                    lemma_lex_asymmetric(v[p].0, key, false);
                }
            }
        }
    }
    assert forall|kk: Seq<char>| #[trigger] m2.contains_key(kk) implies exists|k: int| 0 <= k < w.len() && w[k].0 == kk by {
        if kk == key {
            assert(w[p].0 == kk);
        } else {
            assert(m.contains_key(kk));
            let k = choose|k: int| 0 <= k < v.len() && v[k].0 == kk;
            if k < p {
                assert(w[k].0 == kk);
            } else {
                assert(w[k + 1].0 == kk);
            }
        }
    }
}

/// Adds `(slug, label)` unless the slug is listed already.
fn insert_first_label(r: &mut Vec<(String, String)>, tag_slug: String, label: String)
    ensures
        string_pairs_view(final(r)@) == add_label(string_pairs_view(old(r)@), (tag_slug@, label@)),
{
    let ghost v = string_pairs_view(r@);
    proof {
        lemma_label_pos_range(v, tag_slug@);
    }
    let key = chars_of(tag_slug.as_str());
    let n = r.len();
    let mut p: usize = 0;
    while p < n
        invariant
            n == r@.len(),
            v == string_pairs_view(r@),
            key@ == tag_slug@,
            p <= n,
            p <= label_pos(v, key@),
            0 <= label_pos(v, key@) <= v.len(),
            forall|k: int| 0 <= k < label_pos(v, key@) ==> text_lt(#[trigger] v[k].0, key@),
            label_pos(v, key@) < v.len() ==> !text_lt(v[label_pos(v, key@)].0, key@),
        ensures
            p == label_pos(v, key@),
        decreases n - p,
    {
        let cur = chars_of(r[p].0.as_str());
        if !lex_less(&cur, &key, false) {
            assert(!text_lt(v[p as int].0, key@));
            break;
        }
        p += 1;
    }
    if p < n {
        let cur = chars_of(r[p].0.as_str());
        if chars_eq(&cur, &key) {
            return;
        }
    }
    r.insert(p, (tag_slug, label));
    assert(string_pairs_view(r@) =~= v.insert(p as int, (tag_slug@, label@)));
}

/// The blog's tags: each slug once, in slug order, with the first tag (post by
/// post, tag by tag) that has that slug.
pub fn build_tag_filters(posts: &[BlogPostMeta]) -> (r: Vec<(String, String)>)
    ensures
        string_pairs_view(r@) == tag_listing(tag_entries(posts_view(posts@))),
        lists_map(string_pairs_view(r@), first_labels(tag_entries(posts_view(posts@)))),
{
    let ghost ps = posts_view(posts@);
    let mut r: Vec<(String, String)> = Vec::new();
    let mut i: usize = 0;
    assert(ps.take(0) =~= Seq::<PostView>::empty());
    assert(lists_map(string_pairs_view(r@), Map::empty()));
    assert(string_pairs_view(r@) =~= tag_listing(Seq::empty()));
    while i < posts.len()
        invariant
            ps == posts_view(posts@),
            i <= posts@.len(),
            lists_map(string_pairs_view(r@), first_labels(tag_entries(ps.take(i as int)))),
            string_pairs_view(r@) == tag_listing(tag_entries(ps.take(i as int))),
        decreases posts@.len() - i,
    {
        let post = &posts[i];
        let ghost base = tag_entries(ps.take(i as int));
        let ghost tags = post@.tags;
        let mut j: usize = 0;
        assert(tags.take(0) =~= Seq::<Seq<char>>::empty());
        assert(base + tag_entries_of(tags.take(0)) =~= base);
        while j < post.tags.len()
            invariant
                tags == post@.tags,
                j <= tags.len(),
                lists_map(string_pairs_view(r@), first_labels(base + tag_entries_of(tags.take(j as int)))),
                string_pairs_view(r@) == tag_listing(base + tag_entries_of(tags.take(j as int))),
            decreases tags.len() - j,
        {
            let tag = &post.tags[j];
            let tag_slug = slugify_tag(tag.as_str());
            let sv = chars_of(tag_slug.as_str());
            assert(tags.take(j + 1).drop_last() =~= tags.take(j as int));
            assert(tags.take(j + 1).last() == tag@);
            if sv.len() > 0 {
                let ghost prev = base + tag_entries_of(tags.take(j as int));
                assert(base + tag_entries_of(tags.take(j + 1)) =~= prev.push((slug(tag@), tag@)));
                assert((prev.push((slug(tag@), tag@))).drop_last() =~= prev);
                let label = tag.clone();
                proof {
                    lemma_add_label(string_pairs_view(r@), first_labels(prev), (slug(tag@), tag@));
                }
                insert_first_label(&mut r, tag_slug, label);
            } else {
                assert(base + tag_entries_of(tags.take(j + 1)) =~= base + tag_entries_of(tags.take(j as int)));
            }
            j += 1;
        }
        assert(tags.take(tags.len() as int) =~= tags);
        assert(ps.take(i + 1).drop_last() =~= ps.take(i as int));
        assert(ps.take(i + 1).last() == post@);
        i += 1;
    }
    assert(ps.take(posts@.len() as int) =~= ps);
    r
}

// ---------------------------------------------------------------------------
// Posts by tag
// ---------------------------------------------------------------------------

/// How many of the tags have slug `s`.
pub open spec fn slug_count(tags: Seq<Seq<char>>, s: Seq<char>) -> nat
    decreases tags.len(),
{
    if tags.len() == 0 {
        0
    } else {
        slug_count(tags.drop_last(), s) + (if slug(tags.last()) == s {
            1nat
        } else {
            0nat
        })
    }
}

/// The posts with a tag whose slug is `s`, in order, each once per such tag.
pub open spec fn tagged_posts(posts: Seq<PostView>, s: Seq<char>) -> Seq<PostView>
    decreases posts.len(),
{
    if posts.len() == 0 {
        Seq::empty()
    } else {
        let p = posts.last();
        tagged_posts(posts.drop_last(), s) + Seq::new(slug_count(p.tags, s), |i: int| p)
    }
}

/// The posts with a tag whose slug is `tag_slug`.
pub fn posts_with_tag(posts: &[BlogPostMeta], tag_slug: &Vec<char>) -> (r: Vec<BlogPostMeta>)
    ensures
        posts_view(r@) == tagged_posts(posts_view(posts@), tag_slug@),
{
    let ghost ps = posts_view(posts@);
    let ghost s = tag_slug@;
    let mut r: Vec<BlogPostMeta> = Vec::new();
    let mut i: usize = 0;
    assert(ps.take(0) =~= Seq::<PostView>::empty());
    while i < posts.len()
        invariant
            ps == posts_view(posts@),
            s == tag_slug@,
            i <= posts@.len(),
            posts_view(r@) == tagged_posts(ps.take(i as int), s),
        decreases posts@.len() - i,
    {
        let post = &posts[i];
        let ghost base = posts_view(r@);
        let ghost tags = post@.tags;
        let mut j: usize = 0;
        assert(base + Seq::new(slug_count(tags.take(0), s), |k: int| post@) =~= base);
        while j < post.tags.len()
            invariant
                tags == post@.tags,
                s == tag_slug@,
                j <= tags.len(),
                posts_view(r@) == base + Seq::new(slug_count(tags.take(j as int), s), |k: int| post@),
            decreases tags.len() - j,
        {
            let tag = &post.tags[j];
            let ts = slugify_tag(tag.as_str());
            let tv = chars_of(ts.as_str());
            assert(tags.take(j + 1).drop_last() =~= tags.take(j as int));
            assert(tags.take(j + 1).last() == tag@);
            let ghost before = posts_view(r@);
            if chars_eq(&tv, tag_slug) {
                let c = post.copy();
                r.push(c);
                assert(slug_count(tags.take(j + 1), s) == slug_count(tags.take(j as int), s) + 1);
                assert(posts_view(r@) =~= before.push(post@));
                assert(posts_view(r@) =~= base + Seq::new(slug_count(tags.take(j + 1), s), |k: int| post@));
            } else {
                assert(posts_view(r@) =~= base + Seq::new(slug_count(tags.take(j + 1), s), |k: int| post@));
            }
            j += 1;
        }
        assert(tags.take(tags.len() as int) =~= tags);
        assert(ps.take(i + 1).drop_last() =~= ps.take(i as int));
        assert(ps.take(i + 1).last() == post@);
        i += 1;
    }
    assert(ps.take(posts@.len() as int) =~= ps);
    r
}

// ---------------------------------------------------------------------------
// Listing pages
// ---------------------------------------------------------------------------

/// Whether the page count of `n` posts can be computed without overflow
/// (`n + per_page - 1`, added left to right, for `n > 0`).
pub open spec fn pages_fit(n: nat, per_page: nat) -> bool {
    n == 0 || n + per_page <= usize::MAX
}

/// The number of listing pages for `n` posts: one page even without posts.
pub open spec fn page_count(n: nat, per_page: nat) -> nat {
    if n == 0 {
        1
    } else {
        ((n + per_page - 1) as nat / per_page) as nat
    }
}

/// The posts on listing page `k` (counting from 1).
pub open spec fn page_slice(posts: Seq<PostView>, k: nat, per_page: nat) -> Seq<PostView> {
    let start = (k - 1) * per_page;
    let end = if start + per_page < posts.len() {
        start + per_page
    } else {
        posts.len() as int
    };
    posts.subrange(start, end)
}

pub proof fn lemma_page_bounds(n: nat, per_page: nat, k: nat)
    requires
        per_page > 0,
        1 <= k <= page_count(n, per_page),
    ensures
        0 <= (k - 1) * per_page <= n,
        n > 0 ==> (k - 1) * per_page < n,
{
    let m: int = k - 1;
    let p: int = per_page as int;
    assert(0 <= m * p) by (nonlinear_arith)
        requires
            m >= 0,
            p > 0,
    ;
    if n > 0 {
        let t: int = n + p - 1;
        let q: int = t / p;
        assert(q == page_count(n, per_page));
        assert(q * p <= t) by (nonlinear_arith)
            requires
                q == t / p,
                p > 0,
        ;
        assert(m * p <= (q - 1) * p) by (nonlinear_arith)
            requires
                0 <= m <= q - 1,
                p > 0,
        ;
        assert((q - 1) * p == q * p - p) by (nonlinear_arith);
        assert(m * p < n);
    } else {
        assert(k == 1);
        assert(m * p == 0) by (nonlinear_arith)
            requires
                m == 0,
        ;
    }
}

/// The path of listing page `k` under the output directory.
pub open spec fn listing_path(k: nat) -> Seq<char> {
    if k == 1 {
        "blog/index.html"@
    } else {
        "blog/page/"@ + decimal(k) + "/index.html"@
    }
}

/// The title of listing page `k`.
pub open spec fn listing_title(k: nat) -> Seq<char> {
    if k == 1 {
        "Blog"@
    } else {
        "Blog - Page "@ + decimal(k)
    }
}

/// The HTML of the blog's introduction.
pub open spec fn intro_html_of(intro_markdown: Option<Seq<char>>) -> Seq<char> {
    match intro_markdown {
        Some(m) => markdown_html(m),
        None => Seq::empty(),
    }
}

/// Listing page `k` of the (sorted) posts.
pub open spec fn listing_page(
    t: Templates,
    sections: Seq<(Seq<char>, Seq<char>)>,
    base_url: Seq<char>,
    robots_meta: Seq<char>,
    intro_html: Seq<char>,
    filters_html: Seq<char>,
    posts: Seq<PostView>,
    per_page: nat,
    k: nat,
) -> (Seq<char>, Seq<char>) {
    (
        listing_path(k),
        page_html(
            t.base@,
            listing_title(k),
            index_content_html(
                t.blog_index@,
                Seq::empty(),
                intro_html,
                filters_html,
                cards_html(page_slice(posts, k, per_page), base_url),
                pagination_html(k, page_count(posts.len(), per_page), base_url),
            ),
            nav_html(sections, Some("Blog"@), base_url),
            blog_breadcrumbs_html(k, base_url),
            robots_meta,
        ),
    )
}

/// The blog's listing pages: the posts newest first, `per_page` to a page,
/// each page with the introduction, the tag filters, the post cards and the
/// pager.
pub open spec fn listing_pages(
    t: Templates,
    sections: Seq<(Seq<char>, Seq<char>)>,
    base_url: Seq<char>,
    robots_meta: Seq<char>,
    intro_markdown: Option<Seq<char>>,
    posts: Seq<PostView>,
    per_page: nat,
) -> Seq<(Seq<char>, Seq<char>)> {
    let sorted = newest_first(posts);
    let filters = filter_links_html(tag_listing(tag_entries(sorted)), None, base_url);
    Seq::new(
        page_count(sorted.len(), per_page),
        |i: int|
            listing_page(
                t,
                sections,
                base_url,
                robots_meta,
                intro_html_of(intro_markdown),
                filters,
                sorted,
                per_page,
                (i + 1) as nat,
            ),
    )
}

/// The number of pages for `n` posts, `per_page` to a page.
fn total_pages(n: usize, per_page: usize) -> (r: usize)
    requires
        per_page > 0,
        n + per_page - 1 <= usize::MAX,
    ensures
        r == page_count(n as nat, per_page as nat),
        r >= 1,
{
    if n == 0 {
        1
    } else {
        let r = (n - 1 + per_page) / per_page;
        let ghost t: int = n + per_page - 1;
        assert(t >= per_page);
        assert(t / (per_page as int) >= 1) by (nonlinear_arith)
            requires
                t >= per_page,
                per_page > 0,
        ;
        r
    }
}

/// The bounds of the posts on page `k`.
fn page_range(n: usize, per_page: usize, k: usize) -> (r: (usize, usize))
    requires
        per_page > 0,
        n + per_page - 1 <= usize::MAX,
        1 <= k <= page_count(n as nat, per_page as nat),
    ensures
        r.0 == (k - 1) * per_page,
        r.1 == (if r.0 + per_page < n {
            r.0 + per_page
        } else {
            n as int
        }),
        r.0 <= r.1 <= n,
{
    proof {
        lemma_page_bounds(n as nat, per_page as nat, k as nat);
    }
    let start = (k - 1) * per_page;
    let end = if n - start > per_page {
        start + per_page
    } else {
        n
    };
    (start, end)
}

/// Listing page `k` of the posts (already newest first), with the given
/// introduction and tag filter bar.
pub fn render_listing_page(
    templates: &Templates,
    site_structure: &SiteStructure,
    base_url: &str,
    robots_meta: &str,
    intro_html: &str,
    filters_html: &str,
    posts: &[BlogPostMeta],
    per_page: usize,
    total: usize,
    k: usize,
) -> (r: GeneratedPage)
    requires
        per_page > 0,
        posts@.len() + per_page - 1 <= usize::MAX,
        total == page_count(posts@.len() as nat, per_page as nat),
        1 <= k <= total,
    ensures
        (r.path@, r.html@) == listing_page(
            *templates,
            site_structure@,
            base_url@,
            robots_meta@,
            intro_html@,
            filters_html@,
            posts_view(posts@),
            per_page as nat,
            k as nat,
        ),
{
    let mut page_title = String::new();
    page_title.append("Blog");
    if k != 1 {
        page_title.append(" - Page ");
        push_decimal(&mut page_title, k);
    }
    proof {
        reveal_strlit("Blog");
        reveal_strlit(" - Page ");
        reveal_strlit("Blog - Page ");
    }
    assert(page_title@ =~= listing_title(k as nat));
    let (start, end) = page_range(posts.len(), per_page, k);
    let slice = vstd::slice::slice_subrange(posts, start, end);
    assert(posts_view(slice@) =~= page_slice(posts_view(posts@), k as nat, per_page as nat));
    let cards_html = render_blog_index_cards(slice, base_url);
    let pagination_html = render_blog_pagination(k, total, base_url);
    let heading_html = String::new();
    let page_content = render_blog_index_content(
        templates.blog_index.as_str(),
        heading_html.as_str(),
        intro_html,
        filters_html,
        cards_html.as_str(),
        pagination_html.as_str(),
    );
    let blog_section = Some(crate::text::owned("Blog"));
    let nav_html = render_nav(site_structure, &blog_section, base_url);
    let breadcrumbs_html = render_blog_breadcrumbs(k, base_url);
    let html = render_page(
        templates.base.as_str(),
        page_title.as_str(),
        page_content.as_str(),
        nav_html.as_str(),
        breadcrumbs_html.as_str(),
        robots_meta,
    );
    let mut path = String::new();
    if k == 1 {
        path.append("blog/index.html");
    } else {
        path.append("blog/page/");
        push_decimal(&mut path, k);
        path.append("/index.html");
    }
    assert(path@ =~= listing_path(k as nat));
    GeneratedPage { path, html }
}

/// The blog's listing pages; sorts the posts newest first on the way.
pub fn generate_blog_listing_pages(
    templates: &Templates,
    site_structure: &SiteStructure,
    base_url: &str,
    robots_meta: &str,
    blog_intro_markdown: &Option<String>,
    blog_posts: &mut Vec<BlogPostMeta>,
    posts_per_page: usize,
) -> (r: Vec<GeneratedPage>)
    requires
        posts_per_page > 0,
        pages_fit(old(blog_posts)@.len(), posts_per_page as nat),
    ensures
        posts_view(final(blog_posts)@) == newest_first(posts_view(old(blog_posts)@)),
        pages_view(r@) == listing_pages(
            *templates,
            site_structure@,
            base_url@,
            robots_meta@,
            crate::types::opt_view(*blog_intro_markdown),
            posts_view(old(blog_posts)@),
            posts_per_page as nat,
        ),
{
    proof {
        lemma_newest_first_len(posts_view(blog_posts@));
    }
    sort_newest_first(blog_posts);
    let total = total_pages(blog_posts.len(), posts_per_page);
    let intro_html = match blog_intro_markdown {
        Some(markdown) => markdown_to_html(markdown.as_str()),
        None => String::new(),
    };
    assert(intro_html@ == intro_html_of(crate::types::opt_view(*blog_intro_markdown)));
    let tag_filters = build_tag_filters(blog_posts.as_slice());
    let tag_filters_html = render_blog_filter_links(tag_filters.as_slice(), None, base_url);
    let ghost target = listing_pages(
        *templates,
        site_structure@,
        base_url@,
        robots_meta@,
        crate::types::opt_view(*blog_intro_markdown),
        posts_view(old(blog_posts)@),
        posts_per_page as nat,
    );
    assert(target.len() == total);
    let mut pages: Vec<GeneratedPage> = Vec::new();
    let mut done: usize = 0;
    while done < total
        invariant
            done <= total,
            total == target.len(),
            total == page_count(posts_view(blog_posts@).len(), posts_per_page as nat),
            posts_per_page > 0,
            blog_posts@.len() + posts_per_page - 1 <= usize::MAX,
            forall|i: int|
                0 <= i < total ==> #[trigger] target[i] == listing_page(
                    *templates,
                    site_structure@,
                    base_url@,
                    robots_meta@,
                    intro_html@,
                    tag_filters_html@,
                    posts_view(blog_posts@),
                    posts_per_page as nat,
                    (i + 1) as nat,
                ),
            pages_view(pages@) == target.take(done as int),
        decreases total - done,
    {
        let k = done + 1;
        let page = render_listing_page(
            templates,
            site_structure,
            base_url,
            robots_meta,
            intro_html.as_str(),
            tag_filters_html.as_str(),
            blog_posts.as_slice(),
            posts_per_page,
            total,
            k,
        );
        let ghost before = pages_view(pages@);
        let ghost pv = (page.path@, page.html@);
        pages.push(page);
        assert(target[k - 1] == pv);
        assert(pages_view(pages@) =~= before.push(pv));
        assert(pages_view(pages@) =~= target.take(k as int));
        done = k;
    }
    assert(target.take(total as int) =~= target);
    pages
}

// ---------------------------------------------------------------------------
// Tag archives
// ---------------------------------------------------------------------------

/// Each listed tag with the number of its posts.
pub open spec fn directory_of(listing: Seq<(Seq<char>, Seq<char>)>, posts: Seq<PostView>) -> Seq<(Seq<char>, Seq<char>, nat)> {
    listing.map_values(|e: (Seq<char>, Seq<char>)| (e.0, e.1, tagged_posts(posts, e.0).len()))
}

/// The page that lists all tags.
pub open spec fn tags_index_page(
    t: Templates,
    sections: Seq<(Seq<char>, Seq<char>)>,
    base_url: Seq<char>,
    robots_meta: Seq<char>,
    posts: Seq<PostView>,
) -> (Seq<char>, Seq<char>) {
    let listing = tag_listing(tag_entries(posts));
    (
        "blog/tags/index.html"@,
        page_html(
            t.base@,
            "Blog - Tags"@,
            index_content_html(
                t.blog_index@,
                "<h1>All tags</h1>"@,
                "<p>Browse all tags used in the blog.</p>"@,
                ""@,
                tags_directory_html(directory_of(listing, posts), base_url),
                ""@,
            ),
            nav_html(sections, Some("Blog"@), base_url),
            tags_index_breadcrumbs_html(base_url),
            robots_meta,
        ),
    )
}

/// The path of page `k` of a tag's archive under the output directory.
pub open spec fn tag_archive_path(tag_slug: Seq<char>, k: nat) -> Seq<char> {
    if k == 1 {
        "blog/tags/"@ + tag_slug + "/index.html"@
    } else {
        "blog/tags/"@ + tag_slug + "/page/"@ + decimal(k) + "/index.html"@
    }
}

/// The title of page `k` of a tag's archive.
pub open spec fn tag_archive_title(label: Seq<char>, k: nat) -> Seq<char> {
    if k == 1 {
        "Blog - Tag: "@ + label
    } else {
        "Blog - Tag: "@ + label + " - Page "@ + decimal(k)
    }
}

/// Page `k` of the archive of the tag `(slug, label)`, whose posts (newest
/// first) are `tagged`, with the given tag filter bar.
pub open spec fn tag_archive_page(
    t: Templates,
    sections: Seq<(Seq<char>, Seq<char>)>,
    base_url: Seq<char>,
    robots_meta: Seq<char>,
    filters_html: Seq<char>,
    tag_slug: Seq<char>,
    label: Seq<char>,
    tagged: Seq<PostView>,
    per_page: nat,
    k: nat,
) -> (Seq<char>, Seq<char>) {
    (
        tag_archive_path(tag_slug, k),
        page_html(
            t.base@,
            tag_archive_title(label, k),
            index_content_html(
                t.blog_index@,
                "<h1>Blog Tag: "@ + escaped(label) + "</h1>"@,
                "<p>Posts tagged "@ + escaped(label) + "</p>"@,
                filters_html,
                cards_html(page_slice(tagged, k, per_page), base_url),
                pagination_html(k, page_count(tagged.len(), per_page), base_url),
            ),
            nav_html(sections, Some("Blog"@), base_url),
            tag_breadcrumbs_html(label, k, base_url),
            robots_meta,
        ),
    )
}

/// The archive pages of one tag: its posts newest first, `per_page` to a page.
pub open spec fn tag_archive(
    t: Templates,
    sections: Seq<(Seq<char>, Seq<char>)>,
    base_url: Seq<char>,
    robots_meta: Seq<char>,
    listing: Seq<(Seq<char>, Seq<char>)>,
    posts: Seq<PostView>,
    per_page: nat,
    tag: (Seq<char>, Seq<char>),
) -> Seq<(Seq<char>, Seq<char>)> {
    let tagged = newest_first(tagged_posts(posts, tag.0));
    Seq::new(
        page_count(tagged.len(), per_page),
        |i: int|
            tag_archive_page(
                t,
                sections,
                base_url,
                robots_meta,
                filter_links_html(listing, Some(tag.0), base_url),
                tag.0,
                tag.1,
                tagged,
                per_page,
                (i + 1) as nat,
            ),
    )
}

/// The archives of the given tags, tag by tag.
pub open spec fn tag_archives(
    t: Templates,
    sections: Seq<(Seq<char>, Seq<char>)>,
    base_url: Seq<char>,
    robots_meta: Seq<char>,
    listing: Seq<(Seq<char>, Seq<char>)>,
    posts: Seq<PostView>,
    per_page: nat,
    tags: Seq<(Seq<char>, Seq<char>)>,
) -> Seq<(Seq<char>, Seq<char>)>
    decreases tags.len(),
{
    if tags.len() == 0 {
        Seq::empty()
    } else {
        tag_archives(t, sections, base_url, robots_meta, listing, posts, per_page, tags.drop_last())
            + tag_archive(t, sections, base_url, robots_meta, listing, posts, per_page, tags.last())
    }
}

/// The tags page, then the archive of every tag in slug order.
pub open spec fn archive_pages(
    t: Templates,
    sections: Seq<(Seq<char>, Seq<char>)>,
    base_url: Seq<char>,
    robots_meta: Seq<char>,
    posts: Seq<PostView>,
    per_page: nat,
) -> Seq<(Seq<char>, Seq<char>)> {
    let listing = tag_listing(tag_entries(posts));
    seq![tags_index_page(t, sections, base_url, robots_meta, posts)] + tag_archives(
        t,
        sections,
        base_url,
        robots_meta,
        listing,
        posts,
        per_page,
        listing,
    )
}

/// The page that lists all tags, given the tag listing.
fn tags_index_page_of(
    templates: &Templates,
    site_structure: &SiteStructure,
    base_url: &str,
    robots_meta: &str,
    listing: &Vec<(String, String)>,
    posts: &[BlogPostMeta],
) -> (r: GeneratedPage)
    requires
        string_pairs_view(listing@) == tag_listing(tag_entries(posts_view(posts@))),
    ensures
        (r.path@, r.html@) == tags_index_page(
            *templates,
            site_structure@,
            base_url@,
            robots_meta@,
            posts_view(posts@),
        ),
{
    let ghost lv = string_pairs_view(listing@);
    let ghost ps = posts_view(posts@);
    let mut directory: Vec<(String, String, usize)> = Vec::new();
    let mut i: usize = 0;
    while i < listing.len()
        invariant
            lv == string_pairs_view(listing@),
            ps == posts_view(posts@),
            i <= listing@.len(),
            tag_counts_view(directory@) == directory_of(lv, ps).take(i as int),
        decreases listing@.len() - i,
    {
        let (tag_slug, label) = &listing[i];
        let sv = chars_of(tag_slug.as_str());
        let tagged = posts_with_tag(posts, &sv);
        let ghost before = tag_counts_view(directory@);
        directory.push((tag_slug.clone(), label.clone(), tagged.len()));
        assert(tag_counts_view(directory@) =~= before.push((tag_slug@, label@, tagged@.len() as nat)));
        assert(lv[i as int] == (tag_slug@, label@));
        assert(tag_counts_view(directory@) =~= directory_of(lv, ps).take(i + 1));
        i += 1;
    }
    assert(directory_of(lv, ps).take(listing@.len() as int) =~= directory_of(lv, ps));
    let tags_cards_html = render_tags_directory(directory.as_slice(), base_url);
    let tags_page_content = render_blog_index_content(
        templates.blog_index.as_str(),
        "<h1>All tags</h1>",
        "<p>Browse all tags used in the blog.</p>",
        "",
        tags_cards_html.as_str(),
        "",
    );
    let blog_section = Some(crate::text::owned("Blog"));
    let nav_html = render_nav(site_structure, &blog_section, base_url);
    let breadcrumbs_html = render_tags_index_breadcrumbs(base_url);
    let html = render_page(
        templates.base.as_str(),
        "Blog - Tags",
        tags_page_content.as_str(),
        nav_html.as_str(),
        breadcrumbs_html.as_str(),
        robots_meta,
    );
    GeneratedPage { path: crate::text::owned("blog/tags/index.html"), html }
}

/// Page `k` of the archive of one tag, whose posts (newest first) are
/// `tagged`; returns its path and its HTML.
pub fn render_tag_archive_page(
    templates: &Templates,
    site_structure: &SiteStructure,
    base_url: &str,
    robots_meta: &str,
    filters_html: &str,
    tag_slug: &str,
    label: &str,
    tagged: &[BlogPostMeta],
    per_page: usize,
    total: usize,
    k: usize,
) -> (r: (String, String))
    requires
        per_page > 0,
        tagged@.len() + per_page - 1 <= usize::MAX,
        total == page_count(tagged@.len() as nat, per_page as nat),
        1 <= k <= total,
    ensures
        (r.0@, r.1@) == tag_archive_page(
            *templates,
            site_structure@,
            base_url@,
            robots_meta@,
            filters_html@,
            tag_slug@,
            label@,
            posts_view(tagged@),
            per_page as nat,
            k as nat,
        ),
{
    let mut page_title = String::new();
    page_title.append("Blog - Tag: ");
    page_title.append(label);
    if k != 1 {
        page_title.append(" - Page ");
        push_decimal(&mut page_title, k);
    }
    assert(page_title@ =~= tag_archive_title(label@, k as nat));
    let mut heading_html = String::new();
    heading_html.append("<h1>Blog Tag: ");
    push_escaped(&mut heading_html, label);
    heading_html.append("</h1>");
    let mut intro_html = String::new();
    intro_html.append("<p>Posts tagged ");
    push_escaped(&mut intro_html, label);
    intro_html.append("</p>");
    let (start, end) = page_range(tagged.len(), per_page, k);
    let slice = vstd::slice::slice_subrange(tagged, start, end);
    assert(posts_view(slice@) =~= page_slice(posts_view(tagged@), k as nat, per_page as nat));
    let cards_html = render_blog_index_cards(slice, base_url);
    let pagination_html = render_blog_pagination(k, total, base_url);
    let page_content = render_blog_index_content(
        templates.blog_index.as_str(),
        heading_html.as_str(),
        intro_html.as_str(),
        filters_html,
        cards_html.as_str(),
        pagination_html.as_str(),
    );
    let blog_section = Some(crate::text::owned("Blog"));
    let nav_html = render_nav(site_structure, &blog_section, base_url);
    let breadcrumbs_html = render_tag_breadcrumbs(label, k, base_url);
    let html = render_page(
        templates.base.as_str(),
        page_title.as_str(),
        page_content.as_str(),
        nav_html.as_str(),
        breadcrumbs_html.as_str(),
        robots_meta,
    );
    let mut path = String::new();
    path.append("blog/tags/");
    path.append(tag_slug);
    if k == 1 {
        path.append("/index.html");
    } else {
        path.append("/page/");
        push_decimal(&mut path, k);
        path.append("/index.html");
    }
    assert(path@ =~= tag_archive_path(tag_slug@, k as nat));
    (path, html)
}

/// The archive pages of one tag.
fn tag_archive_of(
    templates: &Templates,
    site_structure: &SiteStructure,
    base_url: &str,
    robots_meta: &str,
    listing: &Vec<(String, String)>,
    posts: &[BlogPostMeta],
    per_page: usize,
    tag_slug: &String,
    label: &String,
) -> (r: Vec<GeneratedPage>)
    requires
        per_page > 0,
        pages_fit(tagged_posts(posts_view(posts@), tag_slug@).len(), per_page as nat),
    ensures
        pages_view(r@) == tag_archive(
            *templates,
            site_structure@,
            base_url@,
            robots_meta@,
            string_pairs_view(listing@),
            posts_view(posts@),
            per_page as nat,
            (tag_slug@, label@),
        ),
{
    let sv = chars_of(tag_slug.as_str());
    let mut tagged = posts_with_tag(posts, &sv);
    proof {
        lemma_newest_first_len(posts_view(tagged@));
    }
    sort_newest_first(&mut tagged);
    let total = total_pages(tagged.len(), per_page);
    let filters_html = render_blog_filter_links(listing.as_slice(), Some(tag_slug.as_str()), base_url);
    let ghost target = tag_archive(
        *templates,
        site_structure@,
        base_url@,
        robots_meta@,
        string_pairs_view(listing@),
        posts_view(posts@),
        per_page as nat,
        (tag_slug@, label@),
    );
    assert(target.len() == total);
    let mut pages: Vec<GeneratedPage> = Vec::new();
    let mut done: usize = 0;
    while done < total
        invariant
            done <= total,
            total == target.len(),
            total == page_count(posts_view(tagged@).len(), per_page as nat),
            per_page > 0,
            tagged@.len() + per_page - 1 <= usize::MAX,
            filters_html@ == filter_links_html(string_pairs_view(listing@), Some(tag_slug@), base_url@),
            forall|i: int|
                0 <= i < total ==> #[trigger] target[i] == tag_archive_page(
                    *templates,
                    site_structure@,
                    base_url@,
                    robots_meta@,
                    filters_html@,
                    tag_slug@,
                    label@,
                    posts_view(tagged@),
                    per_page as nat,
                    (i + 1) as nat,
                ),
            pages_view(pages@) == target.take(done as int),
        decreases total - done,
    {
        let k = done + 1;
        let (path, html) = render_tag_archive_page(
            templates,
            site_structure,
            base_url,
            robots_meta,
            filters_html.as_str(),
            tag_slug.as_str(),
            label.as_str(),
            tagged.as_slice(),
            per_page,
            total,
            k,
        );
        let ghost pv = (path@, html@);
        assert(pv == tag_archive_page(
            *templates,
            site_structure@,
            base_url@,
            robots_meta@,
            filters_html@,
            tag_slug@,
            label@,
            posts_view(tagged@),
            per_page as nat,
            k as nat,
        ));
        let ghost before = pages_view(pages@);
        pages.push(GeneratedPage { path, html });
        assert(target[k - 1] == pv);
        assert(pages_view(pages@) =~= before.push(pv));
        assert(pages_view(pages@) =~= target.take(k as int));
        done = k;
    }
    assert(target.take(total as int) =~= target);
    pages
}

/// Whether the page count of every tag's archive can be computed without
/// overflow.
pub open spec fn archives_fit(posts: Seq<PostView>, per_page: nat) -> bool {
    let listing = tag_listing(tag_entries(posts));
    forall|k: int| 0 <= k < listing.len() ==> pages_fit(#[trigger] tagged_posts(posts, listing[k].0).len(), per_page)
}

/// The tags page and the archive pages of every tag.
pub fn generate_blog_tag_archive_pages(
    templates: &Templates,
    site_structure: &SiteStructure,
    base_url: &str,
    robots_meta: &str,
    blog_posts: &[BlogPostMeta],
    posts_per_page: usize,
) -> (r: Vec<GeneratedPage>)
    requires
        posts_per_page > 0,
        archives_fit(posts_view(blog_posts@), posts_per_page as nat),
    ensures
        pages_view(r@) == archive_pages(
            *templates,
            site_structure@,
            base_url@,
            robots_meta@,
            posts_view(blog_posts@),
            posts_per_page as nat,
        ),
{
    let ghost ps = posts_view(blog_posts@);
    let listing = build_tag_filters(blog_posts);
    let ghost lv = string_pairs_view(listing@);
    let index_page = tags_index_page_of(
        templates,
        site_structure,
        base_url,
        robots_meta,
        &listing,
        blog_posts,
    );
    let mut pages: Vec<GeneratedPage> = Vec::new();
    pages.push(index_page);
    let ghost head = pages_view(pages@);
    assert(head =~= seq![tags_index_page(*templates, site_structure@, base_url@, robots_meta@, ps)]);
    let mut i: usize = 0;
    assert(lv.take(0) =~= Seq::<(Seq<char>, Seq<char>)>::empty());
    assert(head + tag_archives(*templates, site_structure@, base_url@, robots_meta@, lv, ps, posts_per_page as nat, lv.take(0)) =~= head);
    while i < listing.len()
        invariant
            ps == posts_view(blog_posts@),
            lv == string_pairs_view(listing@),
            lv == tag_listing(tag_entries(ps)),
            i <= listing@.len(),
            posts_per_page > 0,
            archives_fit(ps, posts_per_page as nat),
            pages_view(pages@) == head + tag_archives(
                *templates,
                site_structure@,
                base_url@,
                robots_meta@,
                lv,
                ps,
                posts_per_page as nat,
                lv.take(i as int),
            ),
        decreases listing@.len() - i,
    {
        let (tag_slug, label) = &listing[i];
        assert(lv[i as int].0 == tag_slug@);
        assert(pages_fit(tagged_posts(ps, lv[i as int].0).len(), posts_per_page as nat));
        let mut archive = tag_archive_of(
            templates,
            site_structure,
            base_url,
            robots_meta,
            &listing,
            blog_posts,
            posts_per_page,
            tag_slug,
            label,
        );
        let ghost before = pages_view(pages@);
        let ghost added = pages_view(archive@);
        pages.append(&mut archive);
        assert(pages_view(pages@) =~= before + added);
        assert(lv.take(i + 1).drop_last() =~= lv.take(i as int));
        assert(lv.take(i + 1).last() == (tag_slug@, label@));
        assert(pages_view(pages@) =~= head + tag_archives(
            *templates,
            site_structure@,
            base_url@,
            robots_meta@,
            lv,
            ps,
            posts_per_page as nat,
            lv.take(i + 1),
        ));
        i += 1;
    }
    assert(lv.take(listing@.len() as int) =~= lv);
    pages
}

} // verus!
