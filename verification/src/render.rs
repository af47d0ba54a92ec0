//! Page rendering: templates, HTML escaping, base URLs, titles, sections,
//! navigation and breadcrumbs.
use vstd::prelude::*;
use crate::paths::{components, components_of, file_name, file_name_of, stem_of, stem_vec};
use crate::types::{opt_view, SiteStructure};
use crate::text::{
    char_to_uppercase, char_uppercase, chars_eq, chars_of, replace_char, replace_char_vec,
    str_lowercase, str_to_lowercase, join, lines, lines_of,
    push_char, push_joined, push_range, range_starts_with, replace_all, replace_all_vec, split,
    split_vec, starts_with, string_of, string_of_range, sub_vec, trim, trim_indices, views, Sep,
};
use pulldown_cmark::{html, Options, Parser};

verus! {

// ---------------------------------------------------------------------------
// HTML escaping
// ---------------------------------------------------------------------------

/// The HTML entity written for one character.
pub open spec fn escaped_char(c: char) -> Seq<char> {
    if c == '&' {
        "&amp;"@
    } else if c == '<' {
        "&lt;"@
    } else if c == '>' {
        "&gt;"@
    } else if c == '"' {
        "&quot;"@
    } else if c == '\'' {
        "&#39;"@
    } else {
        seq![c]
    }
}

/// `s` with `&`, `<`, `>`, `"` and `'` written as entities.
pub open spec fn escaped(s: Seq<char>) -> Seq<char>
    decreases s.len(),
{
    if s.len() == 0 {
        Seq::<char>::empty()
    } else {
        escaped(s.drop_last()) + escaped_char(s.last())
    }
}

/// Appends `escaped(s)`.
pub fn push_escaped(out: &mut String, s: &str)
    ensures
        final(out)@ == old(out)@ + escaped(s@),
{
    let v = chars_of(s);
    let ghost o = out@;
    let mut i: usize = 0;
    assert(v@.take(0) =~= Seq::<char>::empty());
    while i < v.len()
        invariant
            i <= v@.len(),
            v@ == s@,
            out@ == o + escaped(v@.take(i as int)),
        decreases v@.len() - i,
    {
        let c = v[i];
        if c == '&' {
            out.append("&amp;");
        } else if c == '<' {
            out.append("&lt;");
        } else if c == '>' {
            out.append("&gt;");
        } else if c == '"' {
            out.append("&quot;");
        } else if c == '\'' {
            out.append("&#39;");
        } else {
            push_char(out, c);
        }
        assert(v@.take(i + 1).drop_last() =~= v@.take(i as int));
        assert(out@ =~= o + escaped(v@.take(i + 1)));
        i += 1;
    }
    assert(v@.take(v@.len() as int) =~= v@);
}

/// Escapes `&`, `<`, `>`, `"` and `'` for HTML.
pub fn escape_html(input: &str) -> (r: String)
    ensures
        r@ == escaped(input@),
{
    let mut r = String::new();
    push_escaped(&mut r, input);
    assert(Seq::<char>::empty() + escaped(input@) =~= escaped(input@));
    r
}

// ---------------------------------------------------------------------------
// Templates
// ---------------------------------------------------------------------------

/// The text `{{name}}` that marks a placeholder in a template.
pub open spec fn placeholder_mark(name: Seq<char>) -> Seq<char> {
    seq!['{', '{'] + name + seq!['}', '}']
}

/// `template` with each placeholder in turn replaced by its value: every
/// `{{name}}` in the text as it stands after the earlier replacements.
pub open spec fn filled(template: Seq<char>, placeholders: Seq<(Seq<char>, Seq<char>)>) -> Seq<char>
    decreases placeholders.len(),
{
    if placeholders.len() == 0 {
        template
    } else {
        replace_all(
            filled(template, placeholders.drop_last()),
            placeholder_mark(placeholders.last().0),
            placeholders.last().1,
        )
    }
}

/// The views of name/value pairs.
pub open spec fn pair_views(p: Seq<(&str, &str)>) -> Seq<(Seq<char>, Seq<char>)> {
    p.map_values(|x: (&str, &str)| (x.0@, x.1@))
}

/// Replaces each `{{name}}` of the template by its value, placeholder by
/// placeholder.
pub fn render_template(template: &str, placeholders: &[(&str, &str)]) -> (r: String)
    ensures
        r@ == filled(template@, pair_views(placeholders@)),
{
    let mut output = chars_of(template);
    let mut i: usize = 0;
    assert(pair_views(placeholders@).take(0) =~= Seq::<(Seq<char>, Seq<char>)>::empty());
    while i < placeholders.len()
        invariant
            i <= placeholders@.len(),
            output@ == filled(template@, pair_views(placeholders@).take(i as int)),
        decreases placeholders@.len() - i,
    {
        let (name, value) = placeholders[i];
        let mut mark: Vec<char> = Vec::new();
        mark.push('{');
        mark.push('{');
        let n = chars_of(name);
        let mut k: usize = 0;
        while k < n.len()
            invariant
                k <= n@.len(),
                mark@ == seq!['{', '{'] + n@.take(k as int),
            decreases n@.len() - k,
        {
            mark.push(n[k]);
            assert(n@.take(k + 1) =~= n@.take(k as int).push(n@[k as int]));
            k += 1;
        }
        mark.push('}');
        mark.push('}');
        assert(n@.take(n@.len() as int) =~= n@);
        assert(mark@ =~= placeholder_mark(name@));
        let val = chars_of(value);
        output = replace_all_vec(&output, &mark, &val);
        assert(pair_views(placeholders@).take(i + 1).drop_last() =~= pair_views(placeholders@).take(
            i as int,
        ));
        i += 1;
    }
    assert(pair_views(placeholders@).take(placeholders@.len() as int) =~= pair_views(
        placeholders@,
    ));
    string_of(&output)
}

/// The values that fill the shared page template.
pub open spec fn page_placeholders(
    title: Seq<char>,
    content: Seq<char>,
    nav: Seq<char>,
    breadcrumbs: Seq<char>,
    robots_meta: Seq<char>,
) -> Seq<(Seq<char>, Seq<char>)> {
    seq![
        ("title"@, escaped(title)),
        ("robots_meta"@, robots_meta),
        ("content"@, content),
        ("nav"@, nav),
        ("breadcrumbs"@, breadcrumbs),
    ]
}

/// A whole page: the shared template filled with the escaped title, the robots
/// meta tag, the content, the navigation and the breadcrumbs.
pub open spec fn page_html(
    template: Seq<char>,
    title: Seq<char>,
    content: Seq<char>,
    nav: Seq<char>,
    breadcrumbs: Seq<char>,
    robots_meta: Seq<char>,
) -> Seq<char> {
    filled(template, page_placeholders(title, content, nav, breadcrumbs, robots_meta))
}

/// Fills the shared page template.
pub fn render_page(
    template: &str,
    title: &str,
    content: &str,
    nav: &str,
    breadcrumbs: &str,
    robots_meta: &str,
) -> (r: String)
    ensures
        r@ == page_html(template@, title@, content@, nav@, breadcrumbs@, robots_meta@),
{
    let escaped_title = escape_html(title);
    let placeholders = vec![
        ("title", escaped_title.as_str()),
        ("robots_meta", robots_meta),
        ("content", content),
        ("nav", nav),
        ("breadcrumbs", breadcrumbs),
    ];
    let r = render_template(template, placeholders.as_slice());
    assert(pair_views(placeholders@) =~= page_placeholders(
        title@,
        content@,
        nav@,
        breadcrumbs@,
        robots_meta@,
    ));
    r
}

// ---------------------------------------------------------------------------
// Markdown
// ---------------------------------------------------------------------------

/// The HTML that pulldown-cmark renders for a Markdown text with every
/// extension enabled.
pub uninterp spec fn markdown_html(markdown: Seq<char>) -> Seq<char>;

/// Calls pulldown-cmark (`Parser::new_ext` with `Options::all()`, then
/// `html::push_html` into an empty string). Its contract claims only that the
/// result is a function of the Markdown text; what that function is, is not
/// stated.
#[verifier::external_body]
pub fn markdown_to_html(markdown: &str) -> (r: String)
    ensures
        r@ == markdown_html(markdown@),
{
    let options = Options::all();
    let parser = Parser::new_ext(markdown, options);
    let mut html_output = String::new();
    html::push_html(&mut html_output, parser);
    html_output
}

// ---------------------------------------------------------------------------
// Base URLs
// ---------------------------------------------------------------------------

/// `str::trim_end_matches('/')`.
pub open spec fn trim_end_slashes(s: Seq<char>) -> Seq<char>
    decreases s.len(),
{
    if s.len() > 0 && s.last() == '/' {
        trim_end_slashes(s.drop_last())
    } else {
        s
    }
}

/// The base URL as pages use it: empty for the site root, else one leading
/// `/` and no trailing `/`.
pub open spec fn normalized_base_url(raw: Seq<char>) -> Seq<char> {
    let t = trim(raw);
    if t.len() == 0 || t == seq!['/'] {
        Seq::<char>::empty()
    } else {
        let w = trim_end_slashes(t);
        if w.len() > 0 && w[0] == '/' {
            w
        } else {
            seq!['/'] + w
        }
    }
}

pub fn normalize_base_url(raw_base_url: &str) -> (r: String)
    ensures
        r@ == normalized_base_url(raw_base_url@),
{
    let v = chars_of(raw_base_url);
    let (a, b) = trim_indices(&v, 0, v.len());
    assert(v@.subrange(0, v@.len() as int) =~= v@);
    let ghost t = v@.subrange(a as int, b as int);
    if a == b || (b - a == 1 && v[a] == '/') {
        if b - a == 1 {
            assert(t =~= seq!['/']);
        }
        return String::new();
    }
    if b - a == 1 {
        assert(t != seq!['/']) by {
            assert(t[0] == v@[a as int]);
        }
    }
    let mut e = b;
    assert(v@.subrange(a as int, e as int) == t);
    while e > a && v[e - 1] == '/'
        invariant
            a <= e <= b <= v@.len(),
            trim_end_slashes(v@.subrange(a as int, e as int)) == trim_end_slashes(t),
        decreases e - a,
    {
        assert(v@.subrange(a as int, e as int).drop_last() =~= v@.subrange(a as int, e - 1));
        e -= 1;
    }
    let ghost w = v@.subrange(a as int, e as int);
    assert(trim_end_slashes(w) == w);
    if e > a && v[a] == '/' {
        string_of_range(&v, a, e)
    } else {
        let mut r = String::new();
        push_char(&mut r, '/');
        push_range(&mut r, &v, a, e);
        assert(r@ =~= seq!['/'] + w);
        r
    }
}

/// `path` under the base URL.
pub open spec fn under_base(base_url: Seq<char>, path: Seq<char>) -> Seq<char> {
    if base_url.len() == 0 {
        path
    } else if path == seq!['/'] {
        base_url.push('/')
    } else {
        base_url + path
    }
}

/// Appends `under_base(base_url, path)`.
pub fn push_with_base_url(out: &mut String, base_url: &str, path: &str)
    ensures
        final(out)@ == old(out)@ + under_base(base_url@, path@),
{
    let p = chars_of(path);
    let is_root = p.len() == 1 && p[0] == '/';
    if is_root {
        assert(p@ =~= seq!['/']);
    } else if p.len() == 1 {
        assert(p@ != seq!['/']) by {
            assert(p@[0] != '/');
        }
    }
    let b = chars_of(base_url);
    if b.len() == 0 {
        out.append(path);
    } else {
        out.append(base_url);
        if is_root {
            push_char(out, '/');
        } else {
            out.append(path);
        }
    }
}

pub fn with_base_url(base_url: &str, path: &str) -> (r: String)
    ensures
        r@ == under_base(base_url@, path@),
{
    let mut r = String::new();
    push_with_base_url(&mut r, base_url, path);
    assert(Seq::<char>::empty() + under_base(base_url@, path@) =~= under_base(base_url@, path@));
    r
}

// ---------------------------------------------------------------------------
// Titles and sections
// ---------------------------------------------------------------------------

/// The first line that starts with `# `, without that mark and trimmed.
pub open spec fn first_heading(ls: Seq<Seq<char>>) -> Option<Seq<char>>
    decreases ls.len(),
{
    if ls.len() == 0 {
        None
    } else if starts_with(ls[0], seq!['#', ' ']) {
        Some(trim(ls[0].skip(2)))
    } else {
        first_heading(ls.drop_first())
    }
}

/// The page title that a Markdown text declares: its first `# ` heading, when
/// that heading is not empty.
pub open spec fn markdown_title(markdown: Seq<char>) -> Option<Seq<char>> {
    match first_heading(lines(markdown)) {
        Some(t) => if t.len() > 0 {
            Some(t)
        } else {
            None
        },
        None => None,
    }
}

pub fn extract_title(markdown: &str) -> (r: Option<String>)
    ensures
        match r {
            Some(t) => markdown_title(markdown@) == Some(t@),
            None => markdown_title(markdown@) is None,
        },
{
    let ls = lines_of(markdown);
    let ghost all = views(ls@);
    let mut hash_space: Vec<char> = Vec::new();
    hash_space.push('#');
    hash_space.push(' ');
    let mut i: usize = 0;
    assert(all.skip(0) =~= all);
    while i < ls.len()
        invariant
            i <= ls@.len(),
            all == views(ls@),
            all == lines(markdown@),
            hash_space@ == seq!['#', ' '],
            first_heading(all.skip(i as int)) == first_heading(all),
        decreases ls@.len() - i,
    {
        let line = &ls[i];
        assert(all[i as int] == line@);
        assert(all.skip(i as int)[0] == line@);
        assert(line@.subrange(0, line@.len() as int) =~= line@);
        if range_starts_with(line, 0, line.len(), &hash_space) {
            let (a, b) = trim_indices(line, 2, line.len());
            assert(line@.subrange(2, line@.len() as int) =~= line@.skip(2));
            if a == b {
                return None;
            }
            return Some(string_of_range(line, a, b));
        }
        assert(all.skip(i as int).drop_first() =~= all.skip(i + 1));
        i += 1;
    }
    None
}

/// A word with its first character in upper case.
pub open spec fn capitalized(word: Seq<char>) -> Seq<char> {
    if word.len() == 0 {
        Seq::<char>::empty()
    } else {
        char_uppercase(word[0]) + word.drop_first()
    }
}

/// The first character of `word` in upper case, the rest unchanged.
pub fn capitalize_vec(word: &Vec<char>) -> (r: Vec<char>)
    ensures
        r@ == capitalized(word@),
{
    let mut r: Vec<char> = Vec::new();
    if word.len() == 0 {
        assert(r@ =~= capitalized(word@));
        return r;
    }
    let mut up = char_to_uppercase(word[0]);
    r.append(&mut up);
    let mut i: usize = 1;
    while i < word.len()
        invariant
            1 <= i <= word@.len(),
            r@ == char_uppercase(word@[0]) + word@.subrange(1, i as int),
        decreases word@.len() - i,
    {
        r.push(word[i]);
        assert(word@.subrange(1, i + 1) =~= word@.subrange(1, i as int).push(word@[i as int]));
        i += 1;
    }
    assert(word@.subrange(1, word@.len() as int) =~= word@.drop_first());
    r
}

pub fn capitalize(word: &str) -> (r: String)
    ensures
        r@ == capitalized(word@),
{
    let v = chars_of(word);
    let c = capitalize_vec(&v);
    string_of(&c)
}

/// Each word capitalized.
pub open spec fn capitalized_all(words: Seq<Seq<char>>) -> Seq<Seq<char>> {
    words.map_values(|w: Seq<char>| capitalized(w))
}

pub fn capitalize_all(words: &Vec<Vec<char>>) -> (r: Vec<Vec<char>>)
    ensures
        views(r@) == capitalized_all(views(words@)),
{
    let mut r: Vec<Vec<char>> = Vec::new();
    let mut i: usize = 0;
    while i < words.len()
        invariant
            i <= words@.len(),
            views(r@) == capitalized_all(views(words@).take(i as int)),
        decreases words@.len() - i,
    {
        let c = capitalize_vec(&words[i]);
        let ghost before = views(r@);
        r.push(c);
        assert(views(r@) =~= before.push(c@));
        assert(capitalized_all(views(words@).take(i + 1)) =~= capitalized_all(
            views(words@).take(i as int),
        ).push(capitalized(words@[i as int]@)));
        i += 1;
    }
    assert(views(words@).take(words@.len() as int) =~= views(words@));
    r
}

/// The non-empty pieces, in order.
pub open spec fn non_empty(parts: Seq<Seq<char>>) -> Seq<Seq<char>>
    decreases parts.len(),
{
    if parts.len() == 0 {
        parts
    } else if parts.last().len() == 0 {
        non_empty(parts.drop_last())
    } else {
        non_empty(parts.drop_last()).push(parts.last())
    }
}

pub fn non_empty_vec(parts: &Vec<Vec<char>>) -> (r: Vec<Vec<char>>)
    ensures
        views(r@) == non_empty(views(parts@)),
{
    let mut r: Vec<Vec<char>> = Vec::new();
    let ghost all = views(parts@);
    let mut i: usize = 0;
    while i < parts.len()
        invariant
            all == views(parts@),
            i <= parts@.len(),
            views(r@) == non_empty(all.take(i as int)),
        decreases parts@.len() - i,
    {
        let piece = &parts[i];
        assert(piece@ == all[i as int]);
        assert(all.take(i + 1).drop_last() =~= all.take(i as int));
        if piece.len() > 0 {
            let copy = sub_vec(piece, 0, piece.len());
            assert(piece@.subrange(0, piece@.len() as int) =~= piece@);
            let ghost before = views(r@);
            r.push(copy);
            assert(views(r@) =~= before.push(all[i as int]));
        }
        i += 1;
    }
    assert(all.take(parts@.len() as int) =~= all);
    r
}

/// The title made of a file stem: its words, split at `-`, `_` and spaces,
/// capitalized and joined by single spaces.
pub open spec fn stem_title(stem: Seq<char>) -> Seq<char> {
    join(capitalized_all(non_empty(split(stem, Sep::DashUnderscoreOrSpace))), seq![' '])
}

/// The title of a page without a `# ` heading, made from its file name.
pub open spec fn fallback_title_of(rel_path: Seq<char>) -> Seq<char> {
    let name = file_name(rel_path);
    stem_title(if name.len() == 0 { "Untitled"@ } else { stem_of(name) })
}

pub fn fallback_title(relative: &str) -> (r: String)
    ensures
        r@ == fallback_title_of(relative@),
{
    let name = file_name_of(relative);
    let stem = if name.len() == 0 {
        chars_of("Untitled")
    } else {
        stem_vec(&name)
    };
    let pieces = split_vec(&stem, Sep::DashUnderscoreOrSpace);
    let words = non_empty_vec(&pieces);
    let caps = capitalize_all(&words);
    let mut r = String::new();
    push_joined(&mut r, &caps, " ");
    proof {
        reveal_strlit(" ");
    }
    assert(" "@ =~= seq![' ']);
    assert(r@ =~= fallback_title_of(relative@));
    r
}

/// The section of a page: its first directory, words split at `-` and `_`,
/// capitalized and joined by spaces. Pages at the top level have none.
pub open spec fn section_of(rel_path: Seq<char>) -> Option<Seq<char>> {
    let c = components(rel_path);
    if c.len() < 2 {
        None
    } else {
        Some(join(capitalized_all(split(c[0], Sep::DashOrUnderscore)), seq![' ']))
    }
}

pub fn get_section(rel_path: &str) -> (r: Option<String>)
    ensures
        match r {
            Some(s) => section_of(rel_path@) == Some(s@),
            None => section_of(rel_path@) is None,
        },
{
    let comps = components_of(rel_path);
    if comps.len() < 2 {
        return None;
    }
    let words = split_vec(&comps[0], Sep::DashOrUnderscore);
    let caps = capitalize_all(&words);
    let mut r = String::new();
    push_joined(&mut r, &caps, " ");
    proof {
        reveal_strlit(" ");
    }
    assert(" "@ =~= seq![' ']);
    assert(r@ =~= join(capitalized_all(split(views(comps@)[0], Sep::DashOrUnderscore)), seq![' ']));
    Some(r)
}

// ---------------------------------------------------------------------------
// Navigation and breadcrumbs
// ---------------------------------------------------------------------------

/// The path made of a section's name: in lower case, spaces as `-`, then
/// `/index.html`.
pub open spec fn section_path(section: Seq<char>) -> Seq<char> {
    seq!['/'] + replace_char(str_lowercase(section), ' ', '-') + "/index.html"@
}

/// Appends the URL made of a section's name (`section_path`).
pub fn push_section_href(out: &mut String, base_url: &str, section: &str)
    ensures
        final(out)@ == old(out)@ + under_base(base_url@, section_path(section@)),
{
    let lower = str_to_lowercase(section);
    let lower_chars = chars_of(lower.as_str());
    let dashed = replace_char_vec(&lower_chars, ' ', '-');
    let mut path = String::new();
    push_char(&mut path, '/');
    push_range(&mut path, &dashed, 0, dashed.len());
    path.append("/index.html");
    assert(dashed@.subrange(0, dashed@.len() as int) =~= dashed@);
    assert(path@ =~= section_path(section@));
    push_with_base_url(out, base_url, path.as_str());
}

/// The path of the index page of a top-level directory.
pub open spec fn dir_index_path(dir: Seq<char>) -> Seq<char> {
    seq!['/'] + dir + "/index.html"@
}

/// Appends the URL of a top-level directory's index page.
pub fn push_dir_href(out: &mut String, base_url: &str, dir: &str)
    ensures
        final(out)@ == old(out)@ + under_base(base_url@, dir_index_path(dir@)),
{
    let mut path = String::new();
    push_char(&mut path, '/');
    path.append(dir);
    path.append("/index.html");
    assert(path@ =~= dir_index_path(dir@));
    push_with_base_url(out, base_url, path.as_str());
}

/// One section link of the navigation bar, to the index page of the
/// section's directory; the current section is bold.
pub open spec fn nav_link(
    entry: (Seq<char>, Seq<char>),
    current: Option<Seq<char>>,
    base_url: Seq<char>,
) -> Seq<char> {
    "<a href=\""@ + under_base(base_url, dir_index_path(entry.1)) + "\""@ + (if current == Some(entry.0) {
        " style=\"font-weight: bold;\""@
    } else {
        Seq::empty()
    }) + ">"@ + escaped(entry.0) + "</a>"@
}

/// The section links, in order.
pub open spec fn nav_links(
    sections: Seq<(Seq<char>, Seq<char>)>,
    current: Option<Seq<char>>,
    base_url: Seq<char>,
) -> Seq<char>
    decreases sections.len(),
{
    if sections.len() == 0 {
        Seq::<char>::empty()
    } else {
        nav_links(sections.drop_last(), current, base_url) + nav_link(sections.last(), current, base_url)
    }
}

/// The navigation bar: a link home, then one link per section.
pub open spec fn nav_html(
    sections: Seq<(Seq<char>, Seq<char>)>,
    current: Option<Seq<char>>,
    base_url: Seq<char>,
) -> Seq<char> {
    "<nav><a href=\""@ + under_base(base_url, "/"@) + "\">Home</a>"@ + nav_links(sections, current, base_url)
        + "</nav>"@
}

fn push_nav_link(
    out: &mut String,
    section: &String,
    dir: &String,
    current_section: &Option<String>,
    base_url: &str,
)
    ensures
        final(out)@ == old(out)@ + nav_link((section@, dir@), opt_view(*current_section), base_url@),
{
    let is_current = match current_section {
        Some(c) => *c == *section,
        None => false,
    };
    out.append("<a href=\"");
    push_dir_href(out, base_url, dir.as_str());
    out.append("\"");
    if is_current {
        out.append(" style=\"font-weight: bold;\"");
    }
    out.append(">");
    push_escaped(out, section.as_str());
    out.append("</a>");
    assert(final(out)@ =~= old(out)@ + nav_link((section@, dir@), opt_view(*current_section), base_url@));
}

pub fn render_nav(site_structure: &SiteStructure, current_section: &Option<String>, base_url: &str) -> (r: String)
    ensures
        r@ == nav_html(site_structure@, opt_view(*current_section), base_url@),
{
    let ghost cur = opt_view(*current_section);
    let ghost secs = site_structure@;
    let mut nav = String::new();
    nav.append("<nav><a href=\"");
    push_with_base_url(&mut nav, base_url, "/");
    nav.append("\">Home</a>");
    let ghost head = nav@;
    let n = site_structure.len();
    let mut i: usize = 0;
    assert(secs.take(0) =~= Seq::<(Seq<char>, Seq<char>)>::empty());
    assert(head =~= "<nav><a href=\""@ + under_base(base_url@, "/"@) + "\">Home</a>"@);
    while i < n
        invariant
            n == secs.len(),
            secs == site_structure@,
            cur == opt_view(*current_section),
            i <= n,
            nav@ == head + nav_links(secs.take(i as int), cur, base_url@),
        decreases n - i,
    {
        let section = site_structure.section(i);
        let dir = site_structure.dir(i);
        let ghost before = nav@;
        push_nav_link(&mut nav, section, dir, current_section, base_url);
        assert(secs.take(i + 1).drop_last() =~= secs.take(i as int));
        assert(secs[i as int] == (section@, dir@));
        assert(nav@ =~= before + nav_link((section@, dir@), cur, base_url@));
        i += 1;
    }
    assert(secs.take(n as int) =~= secs);
    nav.append("</nav>");
    nav
}

/// Whether a page is an index page: its file stem is `index`.
pub open spec fn is_index_stem(rel_path: Seq<char>) -> bool {
    file_name(rel_path).len() > 0 && stem_of(file_name(rel_path)) == "index"@
}

/// Where a page's section link in the breadcrumbs leads: the index page of
/// the page's top-level directory; a top-level page given a section links to
/// the path made of the section's name.
pub open spec fn section_href_path(rel_path: Seq<char>, section: Seq<char>) -> Seq<char> {
    let c = components(rel_path);
    if c.len() >= 2 {
        dir_index_path(c[0])
    } else {
        section_path(section)
    }
}

/// The breadcrumb trail of a page: a link home, a link to the page's
/// section, and the page's own title unless it is a top-level page or an
/// index page. The home page's trail is the link home alone.
pub open spec fn breadcrumbs_html(rel_path: Seq<char>, current: Option<Seq<char>>, base_url: Seq<char>) -> Seq<char> {
    "<div class=\"breadcrumbs\"><a href=\""@ + under_base(base_url, "/"@) + "\">Home</a>"@ + (match current {
        Some(s) => " <a href=\""@ + under_base(base_url, section_href_path(rel_path, s)) + "\">"@ + escaped(s)
            + "</a>"@,
        None => Seq::<char>::empty(),
    }) + (if components(rel_path).len() > 1 && !is_index_stem(rel_path) {
        " <span>"@ + escaped(fallback_title_of(rel_path)) + "</span>"@
    } else {
        Seq::<char>::empty()
    }) + "</div>"@
}

pub fn render_breadcrumbs(rel_path: &str, current_section: &Option<String>, base_url: &str) -> (r: String)
    ensures
        r@ == breadcrumbs_html(rel_path@, opt_view(*current_section), base_url@),
{
    let comps = components_of(rel_path);
    let mut out = String::new();
    out.append("<div class=\"breadcrumbs\"><a href=\"");
    push_with_base_url(&mut out, base_url, "/");
    out.append("\">Home</a>");
    match current_section {
        Some(section) => {
            out.append(" <a href=\"");
            if comps.len() >= 2 {
                let dir = string_of(&comps[0]);
                push_dir_href(&mut out, base_url, dir.as_str());
            } else {
                push_section_href(&mut out, base_url, section.as_str());
            }
            out.append("\">");
            push_escaped(&mut out, section.as_str());
            out.append("</a>");
        },
        None => {},
    }
    let name = file_name_of(rel_path);
    let is_index_page = if name.len() > 0 {
        let stem = stem_vec(&name);
        let index = chars_of("index");
        chars_eq(&stem, &index)
    } else {
        false
    };
    assert(is_index_page == is_index_stem(rel_path@));
    if comps.len() > 1 && !is_index_page {
        let title = fallback_title(rel_path);
        out.append(" <span>");
        push_escaped(&mut out, title.as_str());
        out.append("</span>");
    }
    out.append("</div>");
    assert(out@ =~= breadcrumbs_html(rel_path@, opt_view(*current_section), base_url@));
    out
}

} // verus!
