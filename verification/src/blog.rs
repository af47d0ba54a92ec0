//! The blog: post front matter, tags, dates, post pages, listing cards,
//! pagination, tag filters and tag archives.
use vstd::prelude::*;
use crate::render::{
    escaped, filled, pair_views, push_escaped,
    push_with_base_url, render_template, under_base, escape_html, non_empty,
};
use crate::text::{
    char_is_ascii_alphanumeric, char_lowercase, char_to_lowercase, chars_of, decimal,
    is_ascii_alphanumeric, push_char, push_decimal, push_range, range_starts_with, split, split_vec,
    starts_with, string_of, parse_unsigned, parse_unsigned_range, chars_eq, replace_char,
    replace_char_vec, join, lines, lines_of, push_joined_from, trim_indices, trim_start,
    trim_start_index, string_of_range, sub_vec, trim, trim_vec, views, Sep,
};
use crate::paths::{
    components, components_of, file_name, file_name_of, stem_of, stem_vec, with_extension,
    with_extension_of,
};
use crate::types::{opt_str_view, opt_view, strings_view, BlogPostMeta, PostView};

verus! {

// ---------------------------------------------------------------------------
// Tag slugs
// ---------------------------------------------------------------------------

/// `s` with every character replaced by its Unicode lower case.
pub open spec fn lowered(s: Seq<char>) -> Seq<char>
    decreases s.len(),
{
    if s.len() == 0 {
        Seq::<char>::empty()
    } else {
        lowered(s.drop_last()) + char_lowercase(s.last())
    }
}

/// ASCII letters and digits kept, every run of other characters made one `-`.
pub open spec fn dashed(s: Seq<char>) -> Seq<char>
    decreases s.len(),
{
    if s.len() == 0 {
        Seq::<char>::empty()
    } else {
        let r = dashed(s.drop_last());
        let c = s.last();
        if is_ascii_alphanumeric(c) {
            r.push(c)
        } else if r.len() > 0 && r.last() == '-' {
            r
        } else {
            r.push('-')
        }
    }
}

/// `str::trim_start_matches(c)`.
pub open spec fn strip_leading(s: Seq<char>, c: char) -> Seq<char>
    decreases s.len(),
{
    if s.len() > 0 && s[0] == c {
        strip_leading(s.drop_first(), c)
    } else {
        s
    }
}

/// `str::trim_end_matches(c)`.
pub open spec fn strip_trailing(s: Seq<char>, c: char) -> Seq<char>
    decreases s.len(),
{
    if s.len() > 0 && s.last() == c {
        strip_trailing(s.drop_last(), c)
    } else {
        s
    }
}

/// The slug of a tag: lower case, ASCII letters and digits, single `-`
/// between words, none at either end.
pub open spec fn slug(tag: Seq<char>) -> Seq<char> {
    strip_trailing(strip_leading(dashed(lowered(tag)), '-'), '-')
}

pub fn slugify_tag(tag: &str) -> (r: String)
    ensures
        r@ == slug(tag@),
{
    let t = chars_of(tag);
    let mut out: Vec<char> = Vec::new();
    let mut previous_dash = false;
    let mut i: usize = 0;
    assert(t@.take(0) =~= Seq::<char>::empty());
    while i < t.len()
        invariant
            t@ == tag@,
            i <= t@.len(),
            out@ == dashed(lowered(t@.take(i as int))),
            previous_dash == (out@.len() > 0 && out@.last() == '-'),
        decreases t@.len() - i,
    {
        let low = char_to_lowercase(t[i]);
        let ghost base = lowered(t@.take(i as int));
        let mut k: usize = 0;
        assert(base + low@.take(0) =~= base);
        while k < low.len()
            invariant
                k <= low@.len(),
                out@ == dashed(base + low@.take(k as int)),
                previous_dash == (out@.len() > 0 && out@.last() == '-'),
            decreases low@.len() - k,
        {
            let ch = low[k];
            assert((base + low@.take(k + 1)).drop_last() =~= base + low@.take(k as int));
            assert((base + low@.take(k + 1)).last() == ch);
            if char_is_ascii_alphanumeric(ch) {
                out.push(ch);
                previous_dash = false;
            } else if !previous_dash {
                out.push('-');
                previous_dash = true;
            }
            k += 1;
        }
        assert(low@.take(low@.len() as int) =~= low@);
        assert(t@.take(i + 1).drop_last() =~= t@.take(i as int));
        assert(low@ == char_lowercase(t@[i as int]));
        i += 1;
    }
    assert(t@.take(t@.len() as int) =~= t@);
    let ghost d = out@;
    // Trim the dashes at both ends.
    let mut a: usize = 0;
    let n = out.len();
    assert(out@.subrange(0, n as int) =~= d);
    while a < n && out[a] == '-'
        invariant
            a <= n == out@.len(),
            d == out@,
            strip_leading(out@.subrange(a as int, n as int), '-') == strip_leading(d, '-'),
        decreases n - a,
    {
        assert(out@.subrange(a as int, n as int).drop_first() =~= out@.subrange(a + 1, n as int));
        a += 1;
    }
    let ghost lead = out@.subrange(a as int, n as int);
    assert(strip_leading(lead, '-') == lead);
    let mut b: usize = n;
    assert(out@.subrange(a as int, b as int) == lead);
    while b > a && out[b - 1] == '-'
        invariant
            a <= b <= n == out@.len(),
            strip_trailing(out@.subrange(a as int, b as int), '-') == strip_trailing(lead, '-'),
        decreases b - a,
    {
        assert(out@.subrange(a as int, b as int).drop_last() =~= out@.subrange(a as int, b - 1));
        b -= 1;
    }
    string_of_range(&out, a, b)
}

// ---------------------------------------------------------------------------
// Tags lines
// ---------------------------------------------------------------------------

/// Each piece trimmed.
pub open spec fn trimmed_all(parts: Seq<Seq<char>>) -> Seq<Seq<char>> {
    parts.map_values(|p: Seq<char>| trim(p))
}

/// The tags a `tags:` line declares: comma-separated, trimmed, empty ones
/// dropped. A line without the `tags:` prefix declares none.
pub open spec fn tags_of_line(line: Seq<char>) -> Seq<Seq<char>> {
    if starts_with(line, "tags:"@) {
        non_empty(trimmed_all(split(line.skip("tags:"@.len() as int), Sep::Comma)))
    } else {
        Seq::<Seq<char>>::empty()
    }
}

/// Appends the tags of the `tags:` line `v[lo..hi]`.
pub fn push_tags_of_range(tags: &mut Vec<String>, v: &Vec<char>, lo: usize, hi: usize)
    requires
        lo <= hi <= v@.len(),
    ensures
        strings_view(final(tags)@) == strings_view(old(tags)@) + tags_of_line(
            v@.subrange(lo as int, hi as int),
        ),
{
    let ghost line = v@.subrange(lo as int, hi as int);
    let prefix = chars_of("tags:");
    if !range_starts_with(v, lo, hi, &prefix) {
        assert(strings_view(tags@) =~= strings_view(tags@) + Seq::<Seq<char>>::empty());
        return;
    }
    let rest = sub_vec(v, lo + prefix.len(), hi);
    assert(rest@ =~= line.skip("tags:"@.len() as int));
    let pieces = split_vec(&rest, Sep::Comma);
    let ghost ps = views(pieces@);
    let ghost t0 = strings_view(tags@);
    let mut i: usize = 0;
    assert(trimmed_all(ps).take(0) =~= Seq::<Seq<char>>::empty());
    while i < pieces.len()
        invariant
            ps == views(pieces@),
            i <= pieces@.len(),
            strings_view(tags@) == t0 + non_empty(trimmed_all(ps).take(i as int)),
        decreases pieces@.len() - i,
    {
        let t = trim_vec(&pieces[i]);
        assert(trimmed_all(ps).take(i + 1).drop_last() =~= trimmed_all(ps).take(i as int));
        assert(trimmed_all(ps).take(i + 1).last() == t@);
        if t.len() > 0 {
            let s = string_of(&t);
            let ghost before = strings_view(tags@);
            tags.push(s);
            assert(strings_view(tags@) =~= before.push(t@));
        }
        i += 1;
    }
    assert(trimmed_all(ps).take(pieces@.len() as int) =~= trimmed_all(ps));
}

pub fn parse_tags_line(line: &str) -> (r: Vec<String>)
    ensures
        strings_view(r@) == tags_of_line(line@),
{
    let v = chars_of(line);
    let mut r: Vec<String> = Vec::new();
    push_tags_of_range(&mut r, &v, 0, v.len());
    assert(v@.subrange(0, v@.len() as int) =~= line@);
    assert(strings_view(r@) =~= tags_of_line(line@));
    r
}

// ---------------------------------------------------------------------------
// Blog URLs
// ---------------------------------------------------------------------------

/// The path of listing page `n` of the blog.
pub open spec fn blog_page_path(page_num: nat) -> Seq<char> {
    if page_num == 1 {
        "/blog/index.html"@
    } else {
        "/blog/page/"@ + decimal(page_num) + "/index.html"@
    }
}

/// The URL of listing page `n` of the blog.
pub open spec fn blog_page_url(page_num: nat, base_url: Seq<char>) -> Seq<char> {
    under_base(base_url, blog_page_path(page_num))
}

pub fn blog_page_href(page_num: usize, base_url: &str) -> (r: String)
    ensures
        r@ == blog_page_url(page_num as nat, base_url@),
{
    let mut path = String::new();
    if page_num == 1 {
        path.append("/blog/index.html");
    } else {
        path.append("/blog/page/");
        push_decimal(&mut path, page_num);
        path.append("/index.html");
    }
    assert(path@ =~= blog_page_path(page_num as nat));
    let mut r = String::new();
    push_with_base_url(&mut r, base_url, path.as_str());
    assert(r@ =~= blog_page_url(page_num as nat, base_url@));
    r
}

/// The path of page `n` of a tag's archive.
pub open spec fn tag_page_path(tag_slug: Seq<char>, page_num: nat) -> Seq<char> {
    if page_num == 1 {
        "/blog/tags/"@ + tag_slug + "/index.html"@
    } else {
        "/blog/tags/"@ + tag_slug + "/page/"@ + decimal(page_num) + "/index.html"@
    }
}

/// The URL of page `n` of a tag's archive.
pub open spec fn tag_page_url(tag_slug: Seq<char>, page_num: nat, base_url: Seq<char>) -> Seq<char> {
    under_base(base_url, tag_page_path(tag_slug, page_num))
}

/// Appends the URL of page `n` of a tag's archive.
pub fn push_tag_page_href(out: &mut String, tag_slug: &str, page_num: usize, base_url: &str)
    ensures
        final(out)@ == old(out)@ + tag_page_url(tag_slug@, page_num as nat, base_url@),
{
    let mut path = String::new();
    path.append("/blog/tags/");
    path.append(tag_slug);
    if page_num == 1 {
        path.append("/index.html");
    } else {
        path.append("/page/");
        push_decimal(&mut path, page_num);
        path.append("/index.html");
    }
    assert(path@ =~= tag_page_path(tag_slug@, page_num as nat));
    push_with_base_url(out, base_url, path.as_str());
}

pub fn blog_tag_page_href(tag_slug: &str, page_num: usize, base_url: &str) -> (r: String)
    ensures
        r@ == tag_page_url(tag_slug@, page_num as nat, base_url@),
{
    let mut r = String::new();
    push_tag_page_href(&mut r, tag_slug, page_num, base_url);
    assert(r@ =~= tag_page_url(tag_slug@, page_num as nat, base_url@));
    r
}

// ---------------------------------------------------------------------------
// Pagination and breadcrumbs
// ---------------------------------------------------------------------------

/// The pager of a blog listing page: nothing when there is one page, else a
/// link to the newer page (if any), "Page i of n", and a link to the older
/// page (if any).
pub open spec fn pagination_html(current_page: nat, total_pages: nat, base_url: Seq<char>) -> Seq<char> {
    if total_pages <= 1 {
        Seq::<char>::empty()
    } else {
        "<nav class=\"pagination\" aria-label=\"Blog pagination\">"@ + (if current_page > 1 {
            "<a class=\"page-link\" href=\""@ + blog_page_url((current_page - 1) as nat, base_url)
                + "\">← Newer</a>"@
        } else {
            Seq::<char>::empty()
        }) + "<span class=\"page-current\">Page "@ + decimal(current_page) + " of "@ + decimal(
            total_pages,
        ) + "</span>"@ + (if current_page < total_pages {
            "<a class=\"page-link\" href=\""@ + blog_page_url(current_page + 1, base_url)
                + "\">Older →</a>"@
        } else {
            Seq::<char>::empty()
        }) + "</nav>"@
    }
}

pub fn render_blog_pagination(current_page: usize, total_pages: usize, base_url: &str) -> (r: String)
    ensures
        r@ == pagination_html(current_page as nat, total_pages as nat, base_url@),
{
    if total_pages <= 1 {
        return String::new();
    }
    let mut p = String::new();
    p.append("<nav class=\"pagination\" aria-label=\"Blog pagination\">");
    if current_page > 1 {
        p.append("<a class=\"page-link\" href=\"");
        let h = blog_page_href(current_page - 1, base_url);
        p.append(h.as_str());
        p.append("\">← Newer</a>");
    }
    p.append("<span class=\"page-current\">Page ");
    push_decimal(&mut p, current_page);
    p.append(" of ");
    push_decimal(&mut p, total_pages);
    p.append("</span>");
    if current_page < total_pages {
        p.append("<a class=\"page-link\" href=\"");
        let h = blog_page_href(current_page + 1, base_url);
        p.append(h.as_str());
        p.append("\">Older →</a>");
    }
    p.append("</nav>");
    assert(p@ =~= pagination_html(current_page as nat, total_pages as nat, base_url@));
    p
}

/// The breadcrumbs of blog listing page `n`.
pub open spec fn blog_breadcrumbs_html(page_num: nat, base_url: Seq<char>) -> Seq<char> {
    if page_num == 1 {
        "<div class=\"breadcrumbs\"><a href=\""@ + under_base(base_url, "/"@)
            + "\">Home</a> <span>Blog</span></div>"@
    } else {
        "<div class=\"breadcrumbs\"><a href=\""@ + under_base(base_url, "/"@) + "\">Home</a> <a href=\""@
            + blog_page_url(1, base_url) + "\">Blog</a> <span>Page "@ + decimal(page_num)
            + "</span></div>"@
    }
}

pub fn render_blog_breadcrumbs(page_num: usize, base_url: &str) -> (r: String)
    ensures
        r@ == blog_breadcrumbs_html(page_num as nat, base_url@),
{
    let mut r = String::new();
    r.append("<div class=\"breadcrumbs\"><a href=\"");
    push_with_base_url(&mut r, base_url, "/");
    if page_num == 1 {
        r.append("\">Home</a> <span>Blog</span></div>");
    } else {
        r.append("\">Home</a> <a href=\"");
        let b = blog_page_href(1, base_url);
        r.append(b.as_str());
        r.append("\">Blog</a> <span>Page ");
        push_decimal(&mut r, page_num);
        r.append("</span></div>");
    }
    assert(r@ =~= blog_breadcrumbs_html(page_num as nat, base_url@));
    r
}

/// The breadcrumbs of page `n` of a tag's archive.
pub open spec fn tag_breadcrumbs_html(tag_label: Seq<char>, page_num: nat, base_url: Seq<char>) -> Seq<char> {
    "<div class=\"breadcrumbs\"><a href=\""@ + under_base(base_url, "/"@) + "\">Home</a> <a href=\""@
        + blog_page_url(1, base_url) + "\">Blog</a> <span>Tag: "@ + escaped(tag_label) + "</span>"@
        + (if page_num == 1 {
        Seq::<char>::empty()
    } else {
        " <span>Page "@ + decimal(page_num) + "</span>"@
    }) + "</div>"@
}

pub fn render_tag_breadcrumbs(tag_label: &str, page_num: usize, base_url: &str) -> (r: String)
    ensures
        r@ == tag_breadcrumbs_html(tag_label@, page_num as nat, base_url@),
{
    let mut r = String::new();
    r.append("<div class=\"breadcrumbs\"><a href=\"");
    push_with_base_url(&mut r, base_url, "/");
    r.append("\">Home</a> <a href=\"");
    let b = blog_page_href(1, base_url);
    r.append(b.as_str());
    r.append("\">Blog</a> <span>Tag: ");
    push_escaped(&mut r, tag_label);
    r.append("</span>");
    if page_num != 1 {
        r.append(" <span>Page ");
        push_decimal(&mut r, page_num);
        r.append("</span>");
    }
    r.append("</div>");
    assert(r@ =~= tag_breadcrumbs_html(tag_label@, page_num as nat, base_url@));
    r
}

/// The breadcrumbs of the page that lists all tags.
pub open spec fn tags_index_breadcrumbs_html(base_url: Seq<char>) -> Seq<char> {
    "<div class=\"breadcrumbs\"><a href=\""@ + under_base(base_url, "/"@) + "\">Home</a> <a href=\""@
        + blog_page_url(1, base_url) + "\">Blog</a> <span>Tags</span></div>"@
}

pub fn render_tags_index_breadcrumbs(base_url: &str) -> (r: String)
    ensures
        r@ == tags_index_breadcrumbs_html(base_url@),
{
    let mut r = String::new();
    r.append("<div class=\"breadcrumbs\"><a href=\"");
    push_with_base_url(&mut r, base_url, "/");
    r.append("\">Home</a> <a href=\"");
    let b = blog_page_href(1, base_url);
    r.append(b.as_str());
    r.append("\">Blog</a> <span>Tags</span></div>");
    assert(r@ =~= tags_index_breadcrumbs_html(base_url@));
    r
}

// ---------------------------------------------------------------------------
// Tag links
// ---------------------------------------------------------------------------

/// The link to a tag's archive; nothing for a tag whose slug is empty.
pub open spec fn tag_pill(tag: Seq<char>, base_url: Seq<char>) -> Seq<char> {
    if slug(tag).len() == 0 {
        Seq::<char>::empty()
    } else {
        "<a class=\"tag-pill\" href=\""@ + tag_page_url(slug(tag), 1, base_url) + "\">"@ + escaped(tag)
            + "</a>"@
    }
}

pub open spec fn tag_pills(tags: Seq<Seq<char>>, base_url: Seq<char>) -> Seq<char>
    decreases tags.len(),
{
    if tags.len() == 0 {
        Seq::<char>::empty()
    } else {
        tag_pills(tags.drop_last(), base_url) + tag_pill(tags.last(), base_url)
    }
}

/// The tag links of a post: nothing without tags, else a labelled block of
/// links, one per tag with a non-empty slug.
pub open spec fn tag_links_html(tags: Seq<Seq<char>>, base_url: Seq<char>, class_name: Seq<char>) -> Seq<char> {
    if tags.len() == 0 {
        Seq::<char>::empty()
    } else {
        "<div class=\""@ + class_name + "\"><span class=\"tag-label\">tags:</span>"@ + tag_pills(tags, base_url)
            + "</div>"@
    }
}

pub fn render_tag_links(tags: &[String], base_url: &str, class_name: &str) -> (r: String)
    ensures
        r@ == tag_links_html(strings_view(tags@), base_url@, class_name@),
{
    let ghost ts = strings_view(tags@);
    if tags.len() == 0 {
        assert(ts.len() == 0);
        return String::new();
    }
    let mut out = String::new();
    out.append("<div class=\"");
    out.append(class_name);
    out.append("\"><span class=\"tag-label\">tags:</span>");
    let ghost head = out@;
    let mut i: usize = 0;
    assert(ts.take(0) =~= Seq::<Seq<char>>::empty());
    while i < tags.len()
        invariant
            ts == strings_view(tags@),
            i <= tags@.len(),
            out@ == head + tag_pills(ts.take(i as int), base_url@),
        decreases tags@.len() - i,
    {
        let tag = &tags[i];
        let tag_slug = slugify_tag(tag.as_str());
        let sv = chars_of(tag_slug.as_str());
        let ghost before = out@;
        if sv.len() > 0 {
            out.append("<a class=\"tag-pill\" href=\"");
            push_tag_page_href(&mut out, tag_slug.as_str(), 1, base_url);
            out.append("\">");
            push_escaped(&mut out, tag.as_str());
            out.append("</a>");
        }
        assert(ts.take(i + 1).drop_last() =~= ts.take(i as int));
        assert(ts[i as int] == tag@);
        assert(out@ =~= before + tag_pill(tag@, base_url@));
        i += 1;
    }
    assert(ts.take(tags@.len() as int) =~= ts);
    out.append("</div>");
    out
}

/// The views of (slug, label) pairs.
pub open spec fn string_pairs_view(p: Seq<(String, String)>) -> Seq<(Seq<char>, Seq<char>)> {
    p.map_values(|x: (String, String)| (x.0@, x.1@))
}

/// The class attribute of a filter link.
pub open spec fn pill_style(active: bool) -> Seq<char> {
    if active {
        " class=\"tag-pill is-active\""@
    } else {
        " class=\"tag-pill\""@
    }
}

fn push_pill_style(out: &mut String, active: bool)
    ensures
        final(out)@ == old(out)@ + pill_style(active),
{
    if active {
        out.append(" class=\"tag-pill is-active\"");
    } else {
        out.append(" class=\"tag-pill\"");
    }
}

/// The filter link of one tag.
pub open spec fn filter_pill(tag: (Seq<char>, Seq<char>), selected: Option<Seq<char>>, base_url: Seq<char>) -> Seq<char> {
    "<a"@ + pill_style(selected == Some(tag.0)) + " href=\""@ + under_base(
        base_url,
        "/blog/tags/"@ + tag.0 + "/index.html"@,
    ) + "\">"@ + escaped(tag.1) + "</a>"@
}

pub open spec fn filter_pills(tags: Seq<(Seq<char>, Seq<char>)>, selected: Option<Seq<char>>, base_url: Seq<char>) -> Seq<char>
    decreases tags.len(),
{
    if tags.len() == 0 {
        Seq::<char>::empty()
    } else {
        filter_pills(tags.drop_last(), selected, base_url) + filter_pill(tags.last(), selected, base_url)
    }
}

/// The tag filter bar of the blog listing: "All" (active when no tag is
/// selected), "All tags", then one link per tag, the selected one active.
pub open spec fn filter_links_html(tags: Seq<(Seq<char>, Seq<char>)>, selected: Option<Seq<char>>, base_url: Seq<char>) -> Seq<char> {
    "<div class=\"blog-tag-filters\"><span>Filter by tag</span>"@ + "<a"@ + pill_style(selected is None)
        + " href=\""@ + under_base(base_url, "/blog/index.html"@) + "\">All</a>"@
        + "<a class=\"tag-pill\" href=\""@ + under_base(base_url, "/blog/tags/index.html"@)
        + "\">All tags</a>"@ + filter_pills(tags, selected, base_url) + "</div>"@
}

pub fn render_blog_filter_links(tags: &[(String, String)], selected_slug: Option<&str>, base_url: &str) -> (r: String)
    ensures
        r@ == filter_links_html(string_pairs_view(tags@), opt_str_view(selected_slug), base_url@),
{
    let ghost ts = string_pairs_view(tags@);
    let ghost sel = opt_str_view(selected_slug);
    let mut f = String::new();
    f.append("<div class=\"blog-tag-filters\"><span>Filter by tag</span>");
    f.append("<a");
    push_pill_style(&mut f, selected_slug.is_none());
    f.append(" href=\"");
    push_with_base_url(&mut f, base_url, "/blog/index.html");
    f.append("\">All</a>");
    f.append("<a class=\"tag-pill\" href=\"");
    push_with_base_url(&mut f, base_url, "/blog/tags/index.html");
    f.append("\">All tags</a>");
    let ghost head = f@;
    let mut i: usize = 0;
    assert(ts.take(0) =~= Seq::<(Seq<char>, Seq<char>)>::empty());
    while i < tags.len()
        invariant
            ts == string_pairs_view(tags@),
            sel == opt_str_view(selected_slug),
            i <= tags@.len(),
            f@ == head + filter_pills(ts.take(i as int), sel, base_url@),
        decreases tags@.len() - i,
    {
        let (tag_slug, label) = &tags[i];
        let is_active = match selected_slug {
            Some(s) => {
                let a = chars_of(s);
                let b = chars_of(tag_slug.as_str());
                crate::text::chars_eq(&a, &b)
            },
            None => false,
        };
        assert(is_active == (sel == Some(tag_slug@)));
        let ghost before = f@;
        f.append("<a");
        push_pill_style(&mut f, is_active);
        f.append(" href=\"");
        let mut path = String::new();
        path.append("/blog/tags/");
        path.append(tag_slug.as_str());
        path.append("/index.html");
        push_with_base_url(&mut f, base_url, path.as_str());
        f.append("\">");
        push_escaped(&mut f, label.as_str());
        f.append("</a>");
        assert(ts.take(i + 1).drop_last() =~= ts.take(i as int));
        assert(ts[i as int] == (tag_slug@, label@));
        assert(f@ =~= before + filter_pill((tag_slug@, label@), sel, base_url@));
        i += 1;
    }
    assert(ts.take(tags@.len() as int) =~= ts);
    f.append("</div>");
    assert(f@ =~= filter_links_html(ts, sel, base_url@));
    f
}

/// The views of (slug, label, count) triples.
pub open spec fn tag_counts_view(p: Seq<(String, String, usize)>) -> Seq<(Seq<char>, Seq<char>, nat)> {
    p.map_values(|x: (String, String, usize)| (x.0@, x.1@, x.2 as nat))
}

/// One entry of the tags directory: a link to the tag's archive with its
/// label and the number of its posts.
pub open spec fn directory_entry(tag: (Seq<char>, Seq<char>, nat), base_url: Seq<char>) -> Seq<char> {
    "<a class=\"tag-pill\" href=\""@ + tag_page_url(tag.0, 1, base_url) + "\">"@ + escaped(tag.1) + " ("@
        + decimal(tag.2) + ")</a>"@
}

pub open spec fn directory_entries(tags: Seq<(Seq<char>, Seq<char>, nat)>, base_url: Seq<char>) -> Seq<char>
    decreases tags.len(),
{
    if tags.len() == 0 {
        Seq::<char>::empty()
    } else {
        directory_entries(tags.drop_last(), base_url) + directory_entry(tags.last(), base_url)
    }
}

/// The directory of all tags.
pub open spec fn tags_directory_html(tags: Seq<(Seq<char>, Seq<char>, nat)>, base_url: Seq<char>) -> Seq<char> {
    if tags.len() == 0 {
        "<section class=\"blog-list\"><p>No tags yet.</p></section>"@
    } else {
        "<section class=\"blog-list\"><article class=\"post-card\"><h2 class=\"card-title\">Browse by tag</h2><div class=\"card-tags\">"@
            + directory_entries(tags, base_url) + "</div></article></section>"@
    }
}

pub fn render_tags_directory(tags: &[(String, String, usize)], base_url: &str) -> (r: String)
    ensures
        r@ == tags_directory_html(tag_counts_view(tags@), base_url@),
{
    let ghost ts = tag_counts_view(tags@);
    if tags.len() == 0 {
        return crate::text::owned("<section class=\"blog-list\"><p>No tags yet.</p></section>");
    }
    let mut out = String::new();
    out.append(
        "<section class=\"blog-list\"><article class=\"post-card\"><h2 class=\"card-title\">Browse by tag</h2><div class=\"card-tags\">",
    );
    let ghost head = out@;
    let mut i: usize = 0;
    assert(ts.take(0) =~= Seq::<(Seq<char>, Seq<char>, nat)>::empty());
    while i < tags.len()
        invariant
            ts == tag_counts_view(tags@),
            i <= tags@.len(),
            out@ == head + directory_entries(ts.take(i as int), base_url@),
        decreases tags@.len() - i,
    {
        let (tag_slug, label, count) = &tags[i];
        let ghost before = out@;
        out.append("<a class=\"tag-pill\" href=\"");
        push_tag_page_href(&mut out, tag_slug.as_str(), 1, base_url);
        out.append("\">");
        push_escaped(&mut out, label.as_str());
        out.append(" (");
        push_decimal(&mut out, *count);
        out.append(")</a>");
        assert(ts.take(i + 1).drop_last() =~= ts.take(i as int));
        assert(ts[i as int] == (tag_slug@, label@, *count as nat));
        assert(out@ =~= before + directory_entry((tag_slug@, label@, *count as nat), base_url@));
        i += 1;
    }
    assert(ts.take(tags@.len() as int) =~= ts);
    out.append("</div></article></section>");
    out
}


// ---------------------------------------------------------------------------
// Page kinds
// ---------------------------------------------------------------------------

/// The Markdown file whose text introduces the blog listing.
pub open spec fn is_blog_index(rel_path: Seq<char>) -> bool {
    rel_path == "blog/index.md"@
}

pub fn is_blog_index_page(rel_path: &str) -> (r: bool)
    ensures
        r == is_blog_index(rel_path@),
{
    let a = chars_of(rel_path);
    let b = chars_of("blog/index.md");
    chars_eq(&a, &b)
}

/// A blog post: a file under `blog/` whose stem is not `index`.
pub open spec fn is_blog_post(rel_path: Seq<char>) -> bool {
    components(rel_path)[0] == "blog"@ && file_name(rel_path).len() > 0 && stem_of(file_name(rel_path))
        != "index"@
}

pub fn is_blog_post_page(rel_path: &str) -> (r: bool)
    ensures
        r == is_blog_post(rel_path@),
{
    let comps = components_of(rel_path);
    let blog = chars_of("blog");
    if !chars_eq(&comps[0], &blog) {
        return false;
    }
    let name = file_name_of(rel_path);
    if name.len() == 0 {
        return false;
    }
    let stem = stem_vec(&name);
    let index = chars_of("index");
    !chars_eq(&stem, &index)
}

// ---------------------------------------------------------------------------
// Dates
// ---------------------------------------------------------------------------

/// The index of the first `c` in `s`, or -1.
pub open spec fn first_index(s: Seq<char>, c: char) -> int
    decreases s.len(),
{
    if s.len() == 0 {
        -1
    } else if s[0] == c {
        0
    } else {
        let k = first_index(s.drop_first(), c);
        if k < 0 {
            -1
        } else {
            k + 1
        }
    }
}

pub proof fn lemma_first_index_range(s: Seq<char>, c: char)
    ensures
        -1 <= first_index(s, c) < s.len(),
        first_index(s, c) >= 0 ==> s[first_index(s, c)] == c,
    decreases s.len(),
{
    if s.len() > 0 && s[0] != c {
        lemma_first_index_range(s.drop_first(), c);
    }
}

/// The index of the first `c` in `v[lo..hi]`.
pub fn find_char(v: &Vec<char>, lo: usize, hi: usize, c: char) -> (r: Option<usize>)
    requires
        lo <= hi <= v@.len(),
    ensures
        match r {
            Some(i) => lo <= i < hi && first_index(v@.subrange(lo as int, hi as int), c) == i - lo,
            None => first_index(v@.subrange(lo as int, hi as int), c) < 0,
        },
{
    let mut i = lo;
    while i < hi
        invariant
            lo <= i <= hi <= v@.len(),
            first_index(v@.subrange(lo as int, hi as int), c) == (if first_index(
                v@.subrange(i as int, hi as int),
                c,
            ) < 0 {
                -1
            } else {
                first_index(v@.subrange(i as int, hi as int), c) + i - lo
            }),
        decreases hi - i,
    {
        if v[i] == c {
            return Some(i);
        }
        assert(v@.subrange(i as int, hi as int).drop_first() =~= v@.subrange(i + 1, hi as int));
        i += 1;
    }
    None
}

/// The three pieces of `str::splitn(3, '-')`, when there are three.
pub open spec fn date_parts(s: Seq<char>) -> Option<(Seq<char>, Seq<char>, Seq<char>)> {
    let i = first_index(s, '-');
    if i < 0 {
        None
    } else {
        let rest = s.skip(i + 1);
        let j = first_index(rest, '-');
        if j < 0 {
            None
        } else {
            Some((s.take(i), rest.take(j), rest.skip(j + 1)))
        }
    }
}

/// The English name of month `m` (1 to 12).
pub open spec fn month_name(m: nat) -> Seq<char> {
    if m == 1 {
        "January"@
    } else if m == 2 {
        "February"@
    } else if m == 3 {
        "March"@
    } else if m == 4 {
        "April"@
    } else if m == 5 {
        "May"@
    } else if m == 6 {
        "June"@
    } else if m == 7 {
        "July"@
    } else if m == 8 {
        "August"@
    } else if m == 9 {
        "September"@
    } else if m == 10 {
        "October"@
    } else if m == 11 {
        "November"@
    } else {
        "December"@
    }
}

fn month_str(m: usize) -> (r: &'static str)
    requires
        1 <= m <= 12,
    ensures
        r@ == month_name(m as nat),
{
    if m == 1 {
        "January"
    } else if m == 2 {
        "February"
    } else if m == 3 {
        "March"
    } else if m == 4 {
        "April"
    } else if m == 5 {
        "May"
    } else if m == 6 {
        "June"
    } else if m == 7 {
        "July"
    } else if m == 8 {
        "August"
    } else if m == 9 {
        "September"
    } else if m == 10 {
        "October"
    } else if m == 11 {
        "November"
    } else {
        "December"
    }
}

/// A `YYYY-MM-DD` date as "Month D, YYYY": the month must parse as a number
/// from 1 to 12 and the day as a `u32`; any other text is kept as it is.
pub open spec fn formatted_date(s: Seq<char>) -> Seq<char> {
    match date_parts(s) {
        Some((y, m, d)) => match (parse_unsigned(m, usize::MAX as nat), parse_unsigned(d, u32::MAX as nat)) {
            (Some(month), Some(day)) => if 1 <= month <= 12 {
                month_name(month) + seq![' '] + decimal(day) + seq![',', ' '] + y
            } else {
                s
            },
            _ => s,
        },
        None => s,
    }
}

pub fn format_date(date_str: &str) -> (r: String)
    ensures
        r@ == formatted_date(date_str@),
{
    let v = chars_of(date_str);
    let n = v.len();
    assert(v@.subrange(0, n as int) =~= v@);
    let i = match find_char(&v, 0, n, '-') {
        Some(i) => i,
        None => {
            return crate::text::owned(date_str);
        },
    };
    let ghost rest = v@.skip(i + 1);
    assert(v@.subrange(i + 1, n as int) =~= rest);
    let j = match find_char(&v, i + 1, n, '-') {
        Some(j) => j,
        None => {
            return crate::text::owned(date_str);
        },
    };
    assert(v@.subrange(0, i as int) =~= v@.take(i as int));
    assert(v@.subrange(i + 1, j as int) =~= rest.take(j - i - 1));
    assert(v@.subrange(j + 1, n as int) =~= rest.skip(j - i - 1 + 1));
    let month = parse_unsigned_range(&v, i + 1, j, usize::MAX);
    let day = parse_unsigned_range(&v, j + 1, n, 4294967295);
    match (month, day) {
        (Some(m), Some(d)) => {
            if 1 <= m && m <= 12 {
                let mut out = String::new();
                out.append(month_str(m));
                push_char(&mut out, ' ');
                push_decimal(&mut out, d);
                push_char(&mut out, ',');
                push_char(&mut out, ' ');
                push_range(&mut out, &v, 0, i);
                assert(out@ =~= formatted_date(date_str@));
                return out;
            }
        },
        _ => {},
    }
    crate::text::owned(date_str)
}

/// One dated line of a post's timestamps block.
pub open spec fn timestamp_html(label: Seq<char>, date: Seq<char>) -> Seq<char> {
    "<span class=\"post-date\">"@ + label + ": <time datetime=\""@ + escaped(date) + "\">"@ + escaped(
        formatted_date(date),
    ) + "</time></span>"@
}

/// The publication and edit dates of a post; nothing when it has neither.
pub open spec fn timestamps_html(published: Option<Seq<char>>, edited: Option<Seq<char>>) -> Seq<char> {
    if published is None && edited is None {
        Seq::<char>::empty()
    } else {
        "<div class=\"post-timestamps\">"@ + (match published {
            Some(d) => timestamp_html("Published"@, d),
            None => Seq::<char>::empty(),
        }) + (match edited {
            Some(d) => timestamp_html("Last edited"@, d),
            None => Seq::<char>::empty(),
        }) + "</div>"@
    }
}

fn push_timestamp(out: &mut String, label: &str, date: &str)
    ensures
        final(out)@ == old(out)@ + timestamp_html(label@, date@),
{
    let formatted = format_date(date);
    out.append("<span class=\"post-date\">");
    out.append(label);
    out.append(": <time datetime=\"");
    push_escaped(out, date);
    out.append("\">");
    push_escaped(out, formatted.as_str());
    out.append("</time></span>");
    assert(final(out)@ =~= old(out)@ + timestamp_html(label@, date@));
}

pub fn render_timestamps_block(published: Option<&str>, edited: Option<&str>) -> (r: String)
    ensures
        r@ == timestamps_html(opt_str_view(published), opt_str_view(edited)),
{
    if published.is_none() && edited.is_none() {
        return String::new();
    }
    let mut html = String::new();
    html.append("<div class=\"post-timestamps\">");
    if let Some(date) = published {
        push_timestamp(&mut html, "Published", date);
    }
    if let Some(date) = edited {
        push_timestamp(&mut html, "Last edited", date);
    }
    html.append("</div>");
    assert(html@ =~= timestamps_html(opt_str_view(published), opt_str_view(edited)));
    html
}

// ---------------------------------------------------------------------------
// Post pages and listing pages
// ---------------------------------------------------------------------------

/// The subheading paragraph of a post page.
pub open spec fn post_subheading_html(subtitle: Option<Seq<char>>) -> Seq<char> {
    match subtitle {
        Some(t) => "<p class=\"post-subheading\">"@ + escaped(t) + "</p>"@,
        None => Seq::<char>::empty(),
    }
}

/// The values that fill the post template.
pub open spec fn post_placeholders(
    title: Seq<char>,
    subtitle: Option<Seq<char>>,
    tags: Seq<Seq<char>>,
    published: Option<Seq<char>>,
    edited: Option<Seq<char>>,
    body_html: Seq<char>,
) -> Seq<(Seq<char>, Seq<char>)> {
    seq![
        ("post_title"@, escaped(title)),
        ("post_subheading_block"@, post_subheading_html(subtitle)),
        ("post_timestamps_block"@, timestamps_html(published, edited)),
        ("post_tags_block"@, tag_links_html(tags, ""@, "post-tags"@)),
        ("post_body"@, body_html),
    ]
}

/// The content of a post page: the post template filled.
pub open spec fn post_content_html(
    template: Seq<char>,
    title: Seq<char>,
    subtitle: Option<Seq<char>>,
    tags: Seq<Seq<char>>,
    published: Option<Seq<char>>,
    edited: Option<Seq<char>>,
    body_html: Seq<char>,
) -> Seq<char> {
    filled(template, post_placeholders(title, subtitle, tags, published, edited, body_html))
}

pub fn render_blog_post_content(
    template: &str,
    title: &str,
    subtitle: Option<&str>,
    tags: &[String],
    published: Option<&str>,
    edited: Option<&str>,
    body_html: &str,
) -> (r: String)
    ensures
        r@ == post_content_html(
            template@,
            title@,
            opt_str_view(subtitle),
            strings_view(tags@),
            opt_str_view(published),
            opt_str_view(edited),
            body_html@,
        ),
{
    let mut subtitle_html = String::new();
    if let Some(text) = subtitle {
        subtitle_html.append("<p class=\"post-subheading\">");
        push_escaped(&mut subtitle_html, text);
        subtitle_html.append("</p>");
    }
    assert(subtitle_html@ =~= post_subheading_html(opt_str_view(subtitle)));
    let timestamps_html = render_timestamps_block(published, edited);
    let tags_html = render_tag_links(tags, "", "post-tags");
    let title_html = escape_html(title);
    let placeholders = vec![
        ("post_title", title_html.as_str()),
        ("post_subheading_block", subtitle_html.as_str()),
        ("post_timestamps_block", timestamps_html.as_str()),
        ("post_tags_block", tags_html.as_str()),
        ("post_body", body_html),
    ];
    let r = render_template(template, placeholders.as_slice());
    assert(pair_views(placeholders@) =~= post_placeholders(
        title@,
        opt_str_view(subtitle),
        strings_view(tags@),
        opt_str_view(published),
        opt_str_view(edited),
        body_html@,
    ));
    r
}

/// The values that fill the blog listing template.
pub open spec fn index_placeholders(
    heading: Seq<char>,
    intro: Seq<char>,
    tag_filters: Seq<char>,
    cards: Seq<char>,
    pagination: Seq<char>,
) -> Seq<(Seq<char>, Seq<char>)> {
    seq![
        ("blog_heading"@, heading),
        ("blog_intro"@, intro),
        ("blog_tag_filters"@, tag_filters),
        ("blog_posts"@, cards),
        ("pagination"@, pagination),
    ]
}

/// The content of a listing page: the listing template filled.
pub open spec fn index_content_html(
    template: Seq<char>,
    heading: Seq<char>,
    intro: Seq<char>,
    tag_filters: Seq<char>,
    cards: Seq<char>,
    pagination: Seq<char>,
) -> Seq<char> {
    filled(template, index_placeholders(heading, intro, tag_filters, cards, pagination))
}

pub fn render_blog_index_content(
    template: &str,
    heading_html: &str,
    intro_html: &str,
    tag_filters_html: &str,
    cards_html: &str,
    pagination_html: &str,
) -> (r: String)
    ensures
        r@ == index_content_html(
            template@,
            heading_html@,
            intro_html@,
            tag_filters_html@,
            cards_html@,
            pagination_html@,
        ),
{
    let placeholders = vec![
        ("blog_heading", heading_html),
        ("blog_intro", intro_html),
        ("blog_tag_filters", tag_filters_html),
        ("blog_posts", cards_html),
        ("pagination", pagination_html),
    ];
    let r = render_template(template, placeholders.as_slice());
    assert(pair_views(placeholders@) =~= index_placeholders(
        heading_html@,
        intro_html@,
        tag_filters_html@,
        cards_html@,
        pagination_html@,
    ));
    r
}

/// The URL path of a post's page: its file with the extension `html`, under
/// the site root, `\\` written as `/`.
pub open spec fn post_page_path(rel_path: Seq<char>) -> Seq<char> {
    seq!['/'] + replace_char(with_extension(rel_path, "html"@), '\\', '/')
}

/// The date line of a post card.
pub open spec fn card_date_html(published: Option<Seq<char>>) -> Seq<char> {
    match published {
        Some(d) => "<p class=\"card-date\"><time datetime=\""@ + escaped(d) + "\">"@ + escaped(
            formatted_date(d),
        ) + "</time></p>"@,
        None => Seq::<char>::empty(),
    }
}

fn push_card_date(out: &mut String, published: &Option<String>)
    ensures
        final(out)@ == old(out)@ + card_date_html(opt_view(*published)),
{
    match published {
        Some(d) => {
            out.append("<p class=\"card-date\"><time datetime=\"");
            push_escaped(out, d.as_str());
            out.append("\">");
            let f = format_date(d.as_str());
            push_escaped(out, f.as_str());
            out.append("</time></p>");
            assert(final(out)@ =~= old(out)@ + card_date_html(opt_view(*published)));
        },
        None => {
            assert(final(out)@ =~= old(out)@ + card_date_html(opt_view(*published)));
        },
    }
}

/// The subheading line of a post card.
pub open spec fn card_subheading_html(subtitle: Option<Seq<char>>) -> Seq<char> {
    match subtitle {
        Some(t) => "<p class=\"card-subheading\">"@ + escaped(t) + "</p>"@,
        None => Seq::<char>::empty(),
    }
}

fn push_card_subheading(out: &mut String, subtitle: &Option<String>)
    ensures
        final(out)@ == old(out)@ + card_subheading_html(opt_view(*subtitle)),
{
    match subtitle {
        Some(t) => {
            out.append("<p class=\"card-subheading\">");
            push_escaped(out, t.as_str());
            out.append("</p>");
            assert(final(out)@ =~= old(out)@ + card_subheading_html(opt_view(*subtitle)));
        },
        None => {
            assert(final(out)@ =~= old(out)@ + card_subheading_html(opt_view(*subtitle)));
        },
    }
}

/// The title link that opens a post card.
pub open spec fn card_head_html(rel_path: Seq<char>, title: Seq<char>, base_url: Seq<char>) -> Seq<char> {
    "<article class=\"post-card\"><h2 class=\"card-title\"><a href=\""@ + under_base(
        base_url,
        post_page_path(rel_path),
    ) + "\">"@ + escaped(title) + "</a></h2>"@
}

fn push_card_head(out: &mut String, rel_path: &str, title: &str, base_url: &str)
    ensures
        final(out)@ == old(out)@ + card_head_html(rel_path@, title@, base_url@),
{
    let with_html = with_extension_of(rel_path, "html");
    let wv = chars_of(with_html.as_str());
    let slashed = replace_char_vec(&wv, '\\', '/');
    let mut href = String::new();
    push_char(&mut href, '/');
    push_range(&mut href, &slashed, 0, slashed.len());
    assert(slashed@.subrange(0, slashed@.len() as int) =~= slashed@);
    assert(href@ =~= post_page_path(rel_path@));
    out.append("<article class=\"post-card\"><h2 class=\"card-title\"><a href=\"");
    push_with_base_url(out, base_url, href.as_str());
    out.append("\">");
    push_escaped(out, title);
    out.append("</a></h2>");
    assert(final(out)@ =~= old(out)@ + card_head_html(rel_path@, title@, base_url@));
}

/// The excerpt that closes a post card.
pub open spec fn card_excerpt_html(excerpt: Seq<char>) -> Seq<char> {
    "<p class=\"card-excerpt\">"@ + escaped(excerpt) + "</p></article>"@
}

/// The card of one post on a listing page.
pub open spec fn card_html(post: PostView, base_url: Seq<char>) -> Seq<char> {
    card_head_html(post.rel_path, post.title, base_url) + card_date_html(post.published)
        + card_subheading_html(post.subtitle) + tag_links_html(post.tags, base_url, "card-tags"@)
        + card_excerpt_html(post.excerpt)
}

pub open spec fn cards(posts: Seq<PostView>, base_url: Seq<char>) -> Seq<char>
    decreases posts.len(),
{
    if posts.len() == 0 {
        Seq::<char>::empty()
    } else {
        cards(posts.drop_last(), base_url) + card_html(posts.last(), base_url)
    }
}

/// The list of post cards; a notice when there are no posts.
pub open spec fn cards_html(posts: Seq<PostView>, base_url: Seq<char>) -> Seq<char> {
    if posts.len() == 0 {
        "<section class=\"blog-list\"><p>No posts yet.</p></section>"@
    } else {
        "<section class=\"blog-list\">"@ + cards(posts, base_url) + "</section>"@
    }
}

fn push_card(out: &mut String, post: &BlogPostMeta, base_url: &str)
    ensures
        final(out)@ == old(out)@ + card_html(post@, base_url@),
{
    let ghost o = out@;
    push_card_head(out, post.rel_path.as_str(), post.title.as_str(), base_url);
    let ghost h = card_head_html(post.rel_path@, post.title@, base_url@);
    push_card_date(out, &post.published);
    let ghost d = card_date_html(opt_view(post.published));
    push_card_subheading(out, &post.subtitle);
    let ghost s = card_subheading_html(opt_view(post.subtitle));
    let tags_html = render_tag_links(post.tags.as_slice(), base_url, "card-tags");
    out.append(tags_html.as_str());
    let ghost t = tags_html@;
    out.append("<p class=\"card-excerpt\">");
    push_escaped(out, post.excerpt.as_str());
    out.append("</p></article>");
    let ghost e = card_excerpt_html(post.excerpt@);
    assert(out@ =~= o + h + d + s + t + e);
    assert(h + d + s + t + e =~= card_html(post@, base_url@));
    assert(o + h + d + s + t + e =~= o + (h + d + s + t + e));
}

pub fn render_blog_index_cards(posts: &[BlogPostMeta], base_url: &str) -> (r: String)
    ensures
        r@ == cards_html(crate::types::posts_view(posts@), base_url@),
{
    let ghost ps = crate::types::posts_view(posts@);
    if posts.len() == 0 {
        return crate::text::owned("<section class=\"blog-list\"><p>No posts yet.</p></section>");
    }
    let mut out = String::new();
    out.append("<section class=\"blog-list\">");
    let ghost head = out@;
    let mut i: usize = 0;
    assert(ps.take(0) =~= Seq::<PostView>::empty());
    while i < posts.len()
        invariant
            ps == crate::types::posts_view(posts@),
            i <= posts@.len(),
            out@ == head + cards(ps.take(i as int), base_url@),
        decreases posts@.len() - i,
    {
        let ghost before = out@;
        push_card(&mut out, &posts[i], base_url);
        assert(ps.take(i + 1).drop_last() =~= ps.take(i as int));
        assert(out@ =~= before + card_html(ps[i as int], base_url@));
        i += 1;
    }
    assert(ps.take(posts@.len() as int) =~= ps);
    out.append("</section>");
    out
}

// ---------------------------------------------------------------------------
// Post front matter
// ---------------------------------------------------------------------------

/// A line holding nothing but white space.
pub open spec fn is_blank(line: Seq<char>) -> bool {
    trim(line).len() == 0
}

/// The first line at or after `i` that is not blank (or the number of lines).
pub open spec fn skip_blank(ls: Seq<Seq<char>>, i: int) -> int
    decreases ls.len() - i,
{
    if 0 <= i < ls.len() && is_blank(ls[i]) {
        skip_blank(ls, i + 1)
    } else {
        i
    }
}

/// Whether a line, ignoring leading white space, starts with `mark`.
pub open spec fn is_heading(line: Seq<char>, mark: Seq<char>) -> bool {
    starts_with(trim_start(line), mark)
}

/// The text of a heading line after its mark, trimmed; `None` when empty.
pub open spec fn heading_text(line: Seq<char>, mark_len: int) -> Option<Seq<char>> {
    let v = trim(trim_start(line).skip(mark_len));
    if v.len() > 0 {
        Some(v)
    } else {
        None
    }
}

/// The title and subtitle headings that open a post, and the line after them.
/// Without a leading `# ` heading, neither is read and the post starts at its
/// first line.
pub open spec fn header(ls: Seq<Seq<char>>) -> (Option<Seq<char>>, Option<Seq<char>>, int) {
    let i0 = skip_blank(ls, 0);
    if i0 < ls.len() && is_heading(ls[i0], seq!['#', ' ']) {
        let title = heading_text(ls[i0], 2);
        let i1 = skip_blank(ls, i0 + 1);
        if i1 < ls.len() && is_heading(ls[i1], seq!['#', '#', ' ']) {
            (title, heading_text(ls[i1], 3), skip_blank(ls, i1 + 1))
        } else {
            (title, None, i1)
        }
    } else {
        (None, None, 0)
    }
}

/// The value of a `key:` line, trimmed; `None` when empty.
pub open spec fn field_value(t: Seq<char>, key: Seq<char>) -> Option<Seq<char>> {
    let v = trim(t.skip(key.len() as int));
    if v.len() > 0 {
        Some(v)
    } else {
        None
    }
}

/// The metadata lines from line `i` on: blank lines are skipped, `tags:` lines
/// add tags, `published:` and `edited:` lines set their dates (the last one
/// wins); the first other line ends the metadata.
pub open spec fn front_matter(
    ls: Seq<Seq<char>>,
    i: int,
    tags: Seq<Seq<char>>,
    published: Option<Seq<char>>,
    edited: Option<Seq<char>>,
) -> (Seq<Seq<char>>, Option<Seq<char>>, Option<Seq<char>>, int)
    decreases ls.len() - i,
{
    if i < 0 || i >= ls.len() {
        (tags, published, edited, i)
    } else {
        let t = trim(ls[i]);
        if t.len() == 0 {
            front_matter(ls, i + 1, tags, published, edited)
        } else if starts_with(t, "tags:"@) {
            front_matter(ls, i + 1, tags + tags_of_line(t), published, edited)
        } else if starts_with(t, "published:"@) {
            front_matter(ls, i + 1, tags, field_value(t, "published:"@), edited)
        } else if starts_with(t, "edited:"@) {
            front_matter(ls, i + 1, tags, published, field_value(t, "edited:"@))
        } else {
            (tags, published, edited, i)
        }
    }
}

/// A blog post's Markdown split into its parts.
pub struct BlogParsed {
    pub title: Option<String>,
    pub subtitle: Option<String>,
    pub tags: Vec<String>,
    pub published: Option<String>,
    pub edited: Option<String>,
    /// The Markdown after the headings and the metadata lines.
    pub body: String,
}

pub struct ParsedView {
    pub title: Option<Seq<char>>,
    pub subtitle: Option<Seq<char>>,
    pub tags: Seq<Seq<char>>,
    pub published: Option<Seq<char>>,
    pub edited: Option<Seq<char>>,
    pub body: Seq<char>,
}

impl View for BlogParsed {
    type V = ParsedView;

    open spec fn view(&self) -> ParsedView {
        ParsedView {
            title: opt_view(self.title),
            subtitle: opt_view(self.subtitle),
            tags: strings_view(self.tags@),
            published: opt_view(self.published),
            edited: opt_view(self.edited),
            body: self.body@,
        }
    }
}

/// A post's parts: the `# ` title and `## ` subtitle headings, the metadata
/// lines after them, and the remaining lines joined by line feeds.
pub open spec fn parsed_post(markdown: Seq<char>) -> ParsedView {
    let ls = lines(markdown);
    let (title, subtitle, i2) = header(ls);
    let (tags, published, edited, i3) = front_matter(ls, i2, Seq::empty(), None, None);
    let i4 = skip_blank(ls, i3);
    ParsedView { title, subtitle, tags, published, edited, body: join(ls.skip(i4), seq!['\n']) }
}

/// The index of the first line at or after `i` that is not blank.
fn skip_blank_lines(ls: &Vec<Vec<char>>, i: usize) -> (r: usize)
    requires
        i <= ls@.len(),
    ensures
        i <= r <= ls@.len(),
        r as int == skip_blank(views(ls@), i as int),
{
    let ghost l = views(ls@);
    let mut j = i;
    while j < ls.len()
        invariant
            l == views(ls@),
            i <= j <= ls@.len(),
            skip_blank(l, j as int) == skip_blank(l, i as int),
        ensures
            i <= j <= ls@.len(),
            skip_blank(l, j as int) == skip_blank(l, i as int),
            skip_blank(l, j as int) == j as int,
        decreases ls@.len() - j,
    {
        let line = &ls[j];
        let (a, b) = trim_indices(line, 0, line.len());
        assert(line@.subrange(0, line@.len() as int) =~= line@);
        assert(l[j as int] == line@);
        if a != b {
            assert(!is_blank(l[j as int]));
            break;
        }
        j += 1;
    }
    j
}

/// Whether `line`, ignoring leading white space, starts with `mark`, and its
/// text after the mark.
fn heading_of(line: &Vec<char>, mark: &Vec<char>) -> (r: (bool, Option<String>))
    ensures
        r.0 == is_heading(line@, mark@),
        r.0 ==> opt_view(r.1) == heading_text(line@, mark@.len() as int),
{
    let n = line.len();
    let a = trim_start_index(line, 0, n);
    assert(line@.subrange(0, n as int) =~= line@);
    if !range_starts_with(line, a, n, mark) {
        return (false, None);
    }
    let (c, d) = trim_indices(line, a + mark.len(), n);
    assert(line@.subrange(a as int, n as int).skip(mark@.len() as int) =~= line@.subrange(
        a + mark@.len(),
        n as int,
    ));
    if c == d {
        (true, None)
    } else {
        (true, Some(string_of_range(line, c, d)))
    }
}

/// The value of the `key:` line `line[a..b]`.
fn field_of(line: &Vec<char>, a: usize, b: usize, key: &Vec<char>) -> (r: Option<String>)
    requires
        a <= b <= line@.len(),
        starts_with(line@.subrange(a as int, b as int), key@),
    ensures
        opt_view(r) == field_value(line@.subrange(a as int, b as int), key@),
{
    let (c, d) = trim_indices(line, a + key.len(), b);
    assert(line@.subrange(a as int, b as int).skip(key@.len() as int) =~= line@.subrange(
        a + key@.len(),
        b as int,
    ));
    if c == d {
        None
    } else {
        Some(string_of_range(line, c, d))
    }
}

pub fn split_blog_post_markdown(markdown: &str) -> (r: BlogParsed)
    ensures
        r@ == parsed_post(markdown@),
{
    let lines = lines_of(markdown);
    let ghost l = views(lines@);
    let n = lines.len();
    let mut title: Option<String> = None;
    let mut subtitle: Option<String> = None;
    let mut idx = skip_blank_lines(&lines, 0);
    let hash1 = chars_of("# ");
    let hash2 = chars_of("## ");
    proof {
        reveal_strlit("# ");
        reveal_strlit("## ");
    }
    assert(hash1@ =~= seq!['#', ' ']);
    assert(hash2@ =~= seq!['#', '#', ' ']);
    let mut is_title = false;
    if idx < n {
        let (h, t) = heading_of(&lines[idx], &hash1);
        is_title = h;
        if h {
            title = t;
        }
    }
    if is_title {
        idx = skip_blank_lines(&lines, idx + 1);
        let mut is_sub = false;
        if idx < n {
            let (h, t) = heading_of(&lines[idx], &hash2);
            is_sub = h;
            if h {
                subtitle = t;
            }
        }
        if is_sub {
            idx = skip_blank_lines(&lines, idx + 1);
        }
    } else {
        idx = 0;
    }
    let ghost hd = header(l);
    assert(opt_view(title) == hd.0 && opt_view(subtitle) == hd.1 && idx as int == hd.2);
    let tags_key = chars_of("tags:");
    let published_key = chars_of("published:");
    let edited_key = chars_of("edited:");
    let mut tags: Vec<String> = Vec::new();
    let mut published: Option<String> = None;
    let mut edited: Option<String> = None;
    let ghost start = idx as int;
    let ghost fm = front_matter(l, start, Seq::empty(), None, None);
    assert(strings_view(tags@) =~= Seq::<Seq<char>>::empty());
    while idx < n
        invariant
            n == lines@.len(),
            l == views(lines@),
            idx <= n,
            tags_key@ == "tags:"@,
            published_key@ == "published:"@,
            edited_key@ == "edited:"@,
            fm == front_matter(l, start, Seq::empty(), None, None),
            front_matter(l, idx as int, strings_view(tags@), opt_view(published), opt_view(edited))
                == fm,
        ensures
            idx <= n,
            fm == (strings_view(tags@), opt_view(published), opt_view(edited), idx as int),
        decreases n - idx,
    {
        let line = &lines[idx];
        assert(l[idx as int] == line@);
        let (a, b) = trim_indices(line, 0, line.len());
        assert(line@.subrange(0, line@.len() as int) =~= line@);
        if a == b {
            idx += 1;
        } else if range_starts_with(line, a, b, &tags_key) {
            push_tags_of_range(&mut tags, line, a, b);
            idx += 1;
        } else if range_starts_with(line, a, b, &published_key) {
            published = field_of(line, a, b, &published_key);
            idx += 1;
        } else if range_starts_with(line, a, b, &edited_key) {
            edited = field_of(line, a, b, &edited_key);
            idx += 1;
        } else {
            assert(front_matter(l, idx as int, strings_view(tags@), opt_view(published), opt_view(edited))
                == (strings_view(tags@), opt_view(published), opt_view(edited), idx as int));
            break;
        }
    }
    let i4 = skip_blank_lines(&lines, idx);
    let mut body = String::new();
    push_joined_from(&mut body, &lines, i4, "\n");
    proof {
        reveal_strlit("\n");
    }
    assert("\n"@ =~= seq!['\n']);
    assert(body@ =~= join(l.skip(i4 as int), seq!['\n']));
    BlogParsed { title, subtitle, tags, published, edited, body }
}

/// The subheading of a post.
pub fn extract_subheading(markdown: &str) -> (r: Option<String>)
    ensures
        opt_view(r) == parsed_post(markdown@).subtitle,
{
    split_blog_post_markdown(markdown).subtitle
}

/// The first line, trimmed, that is neither blank nor a heading.
pub open spec fn first_paragraph_line(ls: Seq<Seq<char>>) -> Option<Seq<char>>
    decreases ls.len(),
{
    if ls.len() == 0 {
        None
    } else {
        let t = trim(ls[0]);
        if t.len() > 0 && t[0] != '#' {
            Some(t)
        } else {
            first_paragraph_line(ls.drop_first())
        }
    }
}

/// The excerpt of a post shown on its card: the first line of its body that
/// is neither blank nor a heading, or "Read more…".
pub open spec fn excerpt_of(markdown: Seq<char>) -> Seq<char> {
    match first_paragraph_line(lines(parsed_post(markdown).body)) {
        Some(t) => t,
        None => "Read more…"@,
    }
}

pub fn extract_excerpt(markdown: &str) -> (r: String)
    ensures
        r@ == excerpt_of(markdown@),
{
    let parsed = split_blog_post_markdown(markdown);
    let ls = lines_of(parsed.body.as_str());
    let ghost l = views(ls@);
    let mut i: usize = 0;
    assert(l.skip(0) =~= l);
    while i < ls.len()
        invariant
            l == views(ls@),
            l == lines(parsed_post(markdown@).body),
            i <= ls@.len(),
            first_paragraph_line(l.skip(i as int)) == first_paragraph_line(l),
        decreases ls@.len() - i,
    {
        let line = &ls[i];
        assert(l.skip(i as int)[0] == line@);
        let (a, b) = trim_indices(line, 0, line.len());
        assert(line@.subrange(0, line@.len() as int) =~= line@);
        if a < b && line[a] != '#' {
            return string_of_range(line, a, b);
        }
        assert(l.skip(i as int).drop_first() =~= l.skip(i + 1));
        i += 1;
    }
    crate::text::owned("Read more…")
}

} // verus!
