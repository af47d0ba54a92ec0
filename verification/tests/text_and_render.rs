use rust_personal_site::render::{
    capitalize, escape_html, extract_title, fallback_title, get_section, markdown_to_html,
    normalize_base_url, render_breadcrumbs, render_nav, render_page, render_template,
    with_base_url,
};
use rust_personal_site::types::SiteStructure;

#[test]
fn escape_html_replaces_the_five_characters() {
    assert_eq!(
        escape_html("<a href=\"x\">Tom & Jerry's</a>"),
        "&lt;a href=&quot;x&quot;&gt;Tom &amp; Jerry&#39;s&lt;/a&gt;"
    );
    assert_eq!(escape_html("plain text"), "plain text");
    assert_eq!(escape_html(""), "");
}

#[test]
fn escape_html_output_has_no_markup_characters() {
    let out = escape_html("<<\"'>>&&");
    assert!(!out.contains('<') && !out.contains('>') && !out.contains('"') && !out.contains('\''));
}

#[test]
fn normalize_base_url_cases() {
    assert_eq!(normalize_base_url("  /site/ "), "/site");
    assert_eq!(normalize_base_url("site//"), "/site");
    assert_eq!(normalize_base_url("/rust-personal-site"), "/rust-personal-site");
    assert_eq!(normalize_base_url("/"), "");
    assert_eq!(normalize_base_url("   "), "");
    assert_eq!(normalize_base_url(""), "");
    assert_eq!(normalize_base_url("//"), "/");
}

#[test]
fn normalize_base_url_twice_is_once() {
    for raw in ["  /site/ ", "site//", "a/b/", "/x"] {
        let once = normalize_base_url(raw);
        assert_eq!(normalize_base_url(&once), once);
    }
}

#[test]
fn with_base_url_cases() {
    assert_eq!(with_base_url("", "/blog/index.html"), "/blog/index.html");
    assert_eq!(with_base_url("/site", "/"), "/site/");
    assert_eq!(with_base_url("/site", "/blog/index.html"), "/site/blog/index.html");
}

#[test]
fn render_template_replaces_in_order() {
    assert_eq!(
        render_template("{{a}} {{b}} {{a}}", &[("a", "1"), ("b", "{{a}}")]),
        "1 {{a}} 1"
    );
    assert_eq!(render_template("no marks", &[("a", "1")]), "no marks");
    assert_eq!(render_template("{{a}}", &[]), "{{a}}");
    assert_eq!(render_template("{{{a}}}", &[("a", "x")]), "{x}");
}

#[test]
fn render_page_fills_the_shell() {
    let template = "<title>{{title}}</title>{{robots_meta}}{{nav}}{{breadcrumbs}}{{content}}";
    assert_eq!(
        render_page(template, "A<B", "<p>x</p>", "N", "B", "R"),
        "<title>A&lt;B</title>RNB<p>x</p>"
    );
}

#[test]
fn extract_title_cases() {
    assert_eq!(extract_title("intro\n# Hello  \n# Other"), Some("Hello".to_string()));
    assert_eq!(extract_title("#  \n# Two"), None);
    assert_eq!(extract_title("no title\n## Sub"), None);
    assert_eq!(extract_title("  # Indented"), None);
    assert_eq!(extract_title(""), None);
}

#[test]
fn fallback_title_cases() {
    assert_eq!(fallback_title("blog/my-first_post.md"), "My First Post");
    assert_eq!(fallback_title("notes/a--b.md"), "A B");
    assert_eq!(fallback_title("about us.md"), "About Us");
    assert_eq!(fallback_title(".hidden"), ".hidden");
    assert_eq!(fallback_title("archive.tar.gz"), "Archive.tar");
}

#[test]
fn capitalize_cases() {
    assert_eq!(capitalize("élan"), "Élan");
    assert_eq!(capitalize("ßeta"), "SSeta");
    assert_eq!(capitalize("rust"), "Rust");
    assert_eq!(capitalize(""), "");
}

#[test]
fn get_section_cases() {
    assert_eq!(get_section("blog/post.md"), Some("Blog".to_string()));
    assert_eq!(get_section("my-notes_x/a.md"), Some("My Notes X".to_string()));
    assert_eq!(get_section("a--b/c.md"), Some("A  B".to_string()));
    assert_eq!(get_section("index.md"), None);
}

#[test]
fn markdown_to_html_renders() {
    assert_eq!(markdown_to_html("# Hi"), "<h1>Hi</h1>\n");
    assert_eq!(markdown_to_html("Welcome"), "<p>Welcome</p>\n");
    assert_ne!(markdown_to_html("*x*"), "*x*");
}

fn site(sections: &[(&str, &str)]) -> SiteStructure {
    let mut s = SiteStructure::new();
    for (name, dir) in sections {
        s.add_section(&Some(name.to_string()), dir);
    }
    s
}

#[test]
fn site_structure_keeps_sections_sorted_and_distinct() {
    let s = site(&[("Blog", "blog"), ("About", "about"), ("Blog", "Blog"), ("Zed", "zed")]);
    assert_eq!(s.len(), 3);
    assert_eq!(s.section(0), "About");
    assert_eq!(s.section(1), "Blog");
    assert_eq!(s.dir(1), "blog");
    assert_eq!(s.section(2), "Zed");
    assert_eq!(s.dir(2), "zed");
    let mut t = SiteStructure::new();
    t.add_section(&None, "x");
    assert_eq!(t.len(), 0);
}

#[test]
fn render_nav_highlights_current_section() {
    let s = site(&[("Blog", "blog"), ("About", "about")]);
    assert_eq!(
        render_nav(&s, &Some("Blog".to_string()), ""),
        "<nav><a href=\"/\">Home</a><a href=\"/about/index.html\">About</a><a href=\"/blog/index.html\" style=\"font-weight: bold;\">Blog</a></nav>"
    );
    assert_eq!(
        render_nav(&site(&[("My Notes", "my_notes")]), &None, "/s"),
        "<nav><a href=\"/s/\">Home</a><a href=\"/s/my_notes/index.html\">My Notes</a></nav>"
    );
}

#[test]
fn breadcrumbs_follow_the_readme() {
    assert_eq!(
        render_breadcrumbs("index.md", &None, ""),
        "<div class=\"breadcrumbs\"><a href=\"/\">Home</a></div>"
    );
    assert_eq!(
        render_breadcrumbs("my_notes/a.md", &Some("My Notes".to_string()), "/s"),
        "<div class=\"breadcrumbs\"><a href=\"/s/\">Home</a> <a href=\"/s/my_notes/index.html\">My Notes</a> <span>A</span></div>"
    );
    assert_eq!(
        render_breadcrumbs("blog/index.md", &Some("Blog".to_string()), ""),
        "<div class=\"breadcrumbs\"><a href=\"/\">Home</a> <a href=\"/blog/index.html\">Blog</a></div>"
    );
    assert_eq!(
        render_breadcrumbs("blog/first-post.md", &Some("Blog".to_string()), ""),
        "<div class=\"breadcrumbs\"><a href=\"/\">Home</a> <a href=\"/blog/index.html\">Blog</a> <span>First Post</span></div>"
    );
    assert_eq!(
        render_breadcrumbs("contact.md", &None, "/s"),
        "<div class=\"breadcrumbs\"><a href=\"/s/\">Home</a></div>"
    );
}

#[test]
fn section_link_of_a_top_level_page_uses_unicode_lower_case() {
    assert_eq!(
        render_breadcrumbs("notes.md", &Some("Über Uns".to_string()), ""),
        "<div class=\"breadcrumbs\"><a href=\"/\">Home</a> <a href=\"/über-uns/index.html\">Über Uns</a></div>"
    );
    assert_eq!(
        render_nav(&site(&[("Über Uns", "über_uns")]), &None, ""),
        "<nav><a href=\"/\">Home</a><a href=\"/über_uns/index.html\">Über Uns</a></nav>"
    );
}

#[test]
fn unescaping_an_escaped_text_gives_it_back() {
    let input = "a & b < c > d \" e ' f &amp; &lt;";
    let out = escape_html(input);
    let back = out
        .replace("&#39;", "'")
        .replace("&quot;", "\"")
        .replace("&gt;", ">")
        .replace("&lt;", "<")
        .replace("&amp;", "&");
    assert_eq!(back, input);
}
