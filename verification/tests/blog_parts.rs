use rust_personal_site::blog::{
    blog_page_href, blog_tag_page_href, extract_excerpt, extract_subheading, format_date,
    is_blog_index_page, is_blog_post_page, parse_tags_line, render_blog_breadcrumbs,
    render_blog_filter_links, render_blog_index_cards, render_blog_index_content,
    render_blog_pagination, render_blog_post_content, render_tag_breadcrumbs, render_tag_links,
    render_tags_directory, render_tags_index_breadcrumbs, render_timestamps_block, slugify_tag,
    split_blog_post_markdown,
};
use rust_personal_site::types::BlogPostMeta;

#[test]
fn slugify_tag_cases() {
    assert_eq!(slugify_tag("Rust & Web!"), "rust-web");
    assert_eq!(slugify_tag("  --C++--  "), "c");
    assert_eq!(slugify_tag("Über"), "ber");
    assert_eq!(slugify_tag("\u{212A}elvin"), "kelvin");
    assert_eq!(slugify_tag("static site"), "static-site");
    assert_eq!(slugify_tag("!!"), "");
}

#[test]
fn slugify_tag_is_idempotent() {
    for tag in ["Rust & Web!", "  --C++--  ", "a  b--c", "Web Dev 2024"] {
        let once = slugify_tag(tag);
        assert_eq!(slugify_tag(&once), once);
    }
}

#[test]
fn parse_tags_line_cases() {
    assert_eq!(parse_tags_line("tags: rust, web , ,static site"), vec!["rust", "web", "static site"]);
    assert_eq!(parse_tags_line("tags:"), Vec::<String>::new());
    assert_eq!(parse_tags_line("tag: x"), Vec::<String>::new());
}

#[test]
fn blog_page_kinds() {
    assert!(is_blog_index_page("blog/index.md"));
    assert!(!is_blog_index_page("blog/post.md"));
    assert!(is_blog_post_page("blog/post.md"));
    assert!(is_blog_post_page("blog/sub/p.md"));
    assert!(!is_blog_post_page("blog/index.md"));
    assert!(!is_blog_post_page("blog/index.markdown"));
    assert!(!is_blog_post_page("about/x.md"));
}

#[test]
fn split_post_with_front_matter() {
    let md = "\n# Title\n\n## Sub\ntags: a, b\npublished: 2024-01-05\nedited:  \n\nBody line\n\nmore\n";
    let p = split_blog_post_markdown(md);
    assert_eq!(p.title, Some("Title".to_string()));
    assert_eq!(p.subtitle, Some("Sub".to_string()));
    assert_eq!(p.tags, vec!["a", "b"]);
    assert_eq!(p.published, Some("2024-01-05".to_string()));
    assert_eq!(p.edited, None);
    assert_eq!(p.body, "Body line\n\nmore");
}

#[test]
fn split_post_readme_example() {
    let md = "# Post Title\n## Post Subheading\ntags: rust, web, static site\n\nPost body starts here...\n";
    let p = split_blog_post_markdown(md);
    assert_eq!(p.title, Some("Post Title".to_string()));
    assert_eq!(p.subtitle, Some("Post Subheading".to_string()));
    assert_eq!(p.tags, vec!["rust", "web", "static site"]);
    assert_eq!(p.body, "Post body starts here...");
    assert_eq!(extract_subheading(md), Some("Post Subheading".to_string()));
    assert_eq!(extract_excerpt(md), "Post body starts here...");
}

#[test]
fn split_post_without_title_keeps_everything() {
    let p = split_blog_post_markdown("Just text\ntags: x");
    assert_eq!(p.title, None);
    assert_eq!(p.tags, Vec::<String>::new());
    assert_eq!(p.body, "Just text\ntags: x");
    let q = split_blog_post_markdown("## Sub first\nBody");
    assert_eq!(q.subtitle, None);
    assert_eq!(q.body, "## Sub first\nBody");
}

#[test]
fn split_post_later_dates_win_and_tags_add_up() {
    let p = split_blog_post_markdown("# T\ntags: a\npublished: 1\ntags: b\npublished: 2\r\nrest");
    assert_eq!(p.tags, vec!["a", "b"]);
    assert_eq!(p.published, Some("2".to_string()));
    assert_eq!(p.body, "rest");
}

#[test]
fn excerpt_cases() {
    assert_eq!(extract_excerpt("# T\n## S\n"), "Read more…");
    assert_eq!(extract_excerpt("# T\n\n### heading\n   text  "), "text");
}

#[test]
fn format_date_cases() {
    assert_eq!(format_date("2024-03-05"), "March 5, 2024");
    assert_eq!(format_date("2023-12-31"), "December 31, 2023");
    assert_eq!(format_date("2024-13-01"), "2024-13-01");
    assert_eq!(format_date("2024-00-10"), "2024-00-10");
    assert_eq!(format_date("2024-3"), "2024-3");
    assert_eq!(format_date("99-+2-007"), "February 7, 99");
    assert_eq!(format_date("x-2-007-z"), "x-2-007-z");
    assert_eq!(format_date("2024-01-99999999999"), "2024-01-99999999999");
}

#[test]
fn timestamps_block() {
    assert_eq!(render_timestamps_block(None, None), "");
    assert_eq!(
        render_timestamps_block(Some("2024-03-05"), None),
        "<div class=\"post-timestamps\"><span class=\"post-date\">Published: <time datetime=\"2024-03-05\">March 5, 2024</time></span></div>"
    );
    assert_eq!(
        render_timestamps_block(None, Some("soon")),
        "<div class=\"post-timestamps\"><span class=\"post-date\">Last edited: <time datetime=\"soon\">soon</time></span></div>"
    );
}

#[test]
fn hrefs() {
    assert_eq!(blog_page_href(1, ""), "/blog/index.html");
    assert_eq!(blog_page_href(3, "/site"), "/site/blog/page/3/index.html");
    assert_eq!(blog_tag_page_href("rust", 1, ""), "/blog/tags/rust/index.html");
    assert_eq!(blog_tag_page_href("rust", 2, "/s"), "/s/blog/tags/rust/page/2/index.html");
}

#[test]
fn pagination() {
    assert_eq!(render_blog_pagination(1, 1, ""), "");
    assert_eq!(
        render_blog_pagination(2, 3, ""),
        "<nav class=\"pagination\" aria-label=\"Blog pagination\"><a class=\"page-link\" href=\"/blog/index.html\">← Newer</a><span class=\"page-current\">Page 2 of 3</span><a class=\"page-link\" href=\"/blog/page/3/index.html\">Older →</a></nav>"
    );
    assert_eq!(
        render_blog_pagination(1, 2, ""),
        "<nav class=\"pagination\" aria-label=\"Blog pagination\"><span class=\"page-current\">Page 1 of 2</span><a class=\"page-link\" href=\"/blog/page/2/index.html\">Older →</a></nav>"
    );
}

#[test]
fn breadcrumbs_of_blog_pages() {
    assert_eq!(
        render_blog_breadcrumbs(1, ""),
        "<div class=\"breadcrumbs\"><a href=\"/\">Home</a> <span>Blog</span></div>"
    );
    assert_eq!(
        render_blog_breadcrumbs(2, "/s"),
        "<div class=\"breadcrumbs\"><a href=\"/s/\">Home</a> <a href=\"/s/blog/index.html\">Blog</a> <span>Page 2</span></div>"
    );
    assert_eq!(
        render_tag_breadcrumbs("C&C", 1, ""),
        "<div class=\"breadcrumbs\"><a href=\"/\">Home</a> <a href=\"/blog/index.html\">Blog</a> <span>Tag: C&amp;C</span></div>"
    );
    assert_eq!(
        render_tag_breadcrumbs("x", 3, ""),
        "<div class=\"breadcrumbs\"><a href=\"/\">Home</a> <a href=\"/blog/index.html\">Blog</a> <span>Tag: x</span> <span>Page 3</span></div>"
    );
    assert_eq!(
        render_tags_index_breadcrumbs(""),
        "<div class=\"breadcrumbs\"><a href=\"/\">Home</a> <a href=\"/blog/index.html\">Blog</a> <span>Tags</span></div>"
    );
}

#[test]
fn tag_links() {
    let tags = vec!["Rust".to_string(), "!!".to_string()];
    assert_eq!(
        render_tag_links(&tags, "", "post-tags"),
        "<div class=\"post-tags\"><span class=\"tag-label\">tags:</span><a class=\"tag-pill\" href=\"/blog/tags/rust/index.html\">Rust</a></div>"
    );
    assert_eq!(render_tag_links(&[], "", "post-tags"), "");
}

#[test]
fn filter_links() {
    let tags = vec![("rust".to_string(), "Rust".to_string())];
    assert_eq!(
        render_blog_filter_links(&tags, Some("rust"), ""),
        "<div class=\"blog-tag-filters\"><span>Filter by tag</span><a class=\"tag-pill\" href=\"/blog/index.html\">All</a><a class=\"tag-pill\" href=\"/blog/tags/index.html\">All tags</a><a class=\"tag-pill is-active\" href=\"/blog/tags/rust/index.html\">Rust</a></div>"
    );
    assert_eq!(
        render_blog_filter_links(&[], None, ""),
        "<div class=\"blog-tag-filters\"><span>Filter by tag</span><a class=\"tag-pill is-active\" href=\"/blog/index.html\">All</a><a class=\"tag-pill\" href=\"/blog/tags/index.html\">All tags</a></div>"
    );
}

#[test]
fn tags_directory() {
    let tags = vec![("rust".to_string(), "Rust".to_string(), 2usize)];
    assert_eq!(
        render_tags_directory(&tags, ""),
        "<section class=\"blog-list\"><article class=\"post-card\"><h2 class=\"card-title\">Browse by tag</h2><div class=\"card-tags\"><a class=\"tag-pill\" href=\"/blog/tags/rust/index.html\">Rust (2)</a></div></article></section>"
    );
    assert_eq!(render_tags_directory(&[], ""), "<section class=\"blog-list\"><p>No tags yet.</p></section>");
}

fn post(rel: &str, title: &str, tags: &[&str]) -> BlogPostMeta {
    BlogPostMeta {
        rel_path: rel.to_string(),
        title: title.to_string(),
        subtitle: None,
        tags: tags.iter().map(|t| t.to_string()).collect(),
        published: None,
        edited: None,
        excerpt: "Read more…".to_string(),
    }
}

#[test]
fn index_cards() {
    assert_eq!(render_blog_index_cards(&[], ""), "<section class=\"blog-list\"><p>No posts yet.</p></section>");
    let mut p = post("blog/first-post.md", "First <Post>", &["Rust"]);
    p.subtitle = Some("Sub".to_string());
    p.published = Some("2024-03-05".to_string());
    p.excerpt = "Hello & welcome".to_string();
    assert_eq!(
        render_blog_index_cards(&[p], "/s"),
        "<section class=\"blog-list\"><article class=\"post-card\"><h2 class=\"card-title\"><a href=\"/s/blog/first-post.html\">First &lt;Post&gt;</a></h2><p class=\"card-date\"><time datetime=\"2024-03-05\">March 5, 2024</time></p><p class=\"card-subheading\">Sub</p><div class=\"card-tags\"><span class=\"tag-label\">tags:</span><a class=\"tag-pill\" href=\"/s/blog/tags/rust/index.html\">Rust</a></div><p class=\"card-excerpt\">Hello &amp; welcome</p></article></section>"
    );
}

#[test]
fn post_and_index_content() {
    let tmpl = "{{post_title}}|{{post_subheading_block}}|{{post_timestamps_block}}|{{post_tags_block}}|{{post_body}}";
    assert_eq!(
        render_blog_post_content(tmpl, "A&B", Some("S"), &[], None, None, "<p>b</p>"),
        "A&amp;B|<p class=\"post-subheading\">S</p>|||<p>b</p>"
    );
    let itmpl = "{{blog_heading}}{{blog_intro}}{{blog_tag_filters}}{{blog_posts}}{{pagination}}";
    assert_eq!(render_blog_index_content(itmpl, "h", "i", "f", "c", "p"), "hifcp");
}
