use rust_personal_site::config::{
    blog_posts_per_page_from_env, load_config, noindex_from_env, robots_meta_tag,
};
use rust_personal_site::listing::{
    build_tag_filters, generate_blog_listing_pages, generate_blog_tag_archive_pages,
    render_listing_page, render_tag_archive_page, sort_newest_first,
};
use rust_personal_site::site::{
    build_site, page_counts_fit, is_asset_file, is_hidden_file, is_markdown_file,
    robots_txt_content, SourceFile,
};
use rust_personal_site::types::{BlogPostMeta, SiteStructure, Templates};

#[test]
fn config_defaults() {
    let c = load_config(None, None, None);
    assert_eq!(c.content_dir, "content");
    assert_eq!(c.output_dir, "public");
    assert_eq!(c.template_dir, "templates");
    assert_eq!(c.base_url, "");
    assert!(!c.noindex);
    assert_eq!(c.robots_meta, "");
    assert_eq!(c.blog_posts_per_page, 5);
}

#[test]
fn config_from_values() {
    let c = load_config(Some("/x/"), Some(" TRUE "), Some(" 10 "));
    assert_eq!(c.base_url, "/x");
    assert!(c.noindex);
    assert_eq!(c.robots_meta, "<meta name=\"robots\" content=\"noindex,nofollow,noarchive\">");
    assert_eq!(c.blog_posts_per_page, 10);
}

#[test]
fn noindex_values() {
    for v in ["1", "true", "Yes", " on "] {
        assert!(noindex_from_env(Some(v)));
    }
    for v in ["0", "no", "2", ""] {
        assert!(!noindex_from_env(Some(v)));
    }
    assert!(!noindex_from_env(None));
    assert_eq!(robots_meta_tag(false), "");
}

#[test]
fn posts_per_page_values() {
    assert_eq!(blog_posts_per_page_from_env(Some("0")), 5);
    assert_eq!(blog_posts_per_page_from_env(Some("abc")), 5);
    assert_eq!(blog_posts_per_page_from_env(Some("+7")), 7);
    assert_eq!(blog_posts_per_page_from_env(Some("-7")), 5);
    assert_eq!(blog_posts_per_page_from_env(Some("99999999999999999999999")), 5);
    assert_eq!(blog_posts_per_page_from_env(None), 5);
}

#[test]
fn file_kinds() {
    assert!(is_markdown_file("a/b.MD"));
    assert!(is_markdown_file("x.markdown"));
    assert!(!is_markdown_file("x.txt"));
    assert!(!is_markdown_file(".md"));
    assert!(is_hidden_file(".DS_Store"));
    assert!(!is_hidden_file("a/.git/x"));
    assert!(is_asset_file("assets/cv.pdf"));
    assert!(!is_asset_file("assets/.keep"));
    assert!(!is_asset_file("index.md"));
}

#[test]
fn robots_txt() {
    assert_eq!(robots_txt_content(true), "User-agent: *\nDisallow: /\n");
    assert_eq!(robots_txt_content(false), "User-agent: *\nAllow: /\n");
}

fn post(rel: &str, tags: &[&str]) -> BlogPostMeta {
    BlogPostMeta {
        rel_path: rel.to_string(),
        title: rel.to_string(),
        subtitle: None,
        tags: tags.iter().map(|t| t.to_string()).collect(),
        published: None,
        edited: None,
        excerpt: String::new(),
    }
}

#[test]
fn posts_sort_newest_first_by_path() {
    let mut posts = vec![post("blog/a.md", &[]), post("blog/c.md", &[]), post("blog/b.md", &[])];
    sort_newest_first(&mut posts);
    let order: Vec<&str> = posts.iter().map(|p| p.rel_path.as_str()).collect();
    assert_eq!(order, vec!["blog/c.md", "blog/b.md", "blog/a.md"]);
    let mut nested = vec![post("blog/a/x.md", &[]), post("blog/a-b.md", &[])];
    sort_newest_first(&mut nested);
    assert_eq!(nested[0].rel_path, "blog/a-b.md");
}

#[test]
fn tag_filters_keep_first_label_in_slug_order() {
    let posts = vec![post("blog/1.md", &["Web", "rust"]), post("blog/2.md", &["Rust", "web dev", "!!"])];
    let filters = build_tag_filters(&posts);
    assert_eq!(
        filters,
        vec![
            ("rust".to_string(), "rust".to_string()),
            ("web".to_string(), "Web".to_string()),
            ("web-dev".to_string(), "web dev".to_string()),
        ]
    );
}

fn templates() -> Templates {
    Templates {
        base: "<title>{{title}}</title>{{nav}}|{{breadcrumbs}}|{{content}}".to_string(),
        blog_index: "{{blog_heading}}{{blog_intro}}{{blog_tag_filters}}{{blog_posts}}{{pagination}}".to_string(),
        blog_post: "<h1>{{post_title}}</h1>{{post_subheading_block}}{{post_timestamps_block}}{{post_tags_block}}{{post_body}}".to_string(),
    }
}

#[test]
fn listing_pages_split_posts() {
    let mut posts: Vec<BlogPostMeta> =
        (1..=5).map(|i| post(&format!("blog/p{}.md", i), &[])).collect();
    let site = SiteStructure::new();
    let pages = generate_blog_listing_pages(&templates(), &site, "", "", &None, &mut posts, 2);
    let paths: Vec<&str> = pages.iter().map(|p| p.path.as_str()).collect();
    assert_eq!(paths, vec!["blog/index.html", "blog/page/2/index.html", "blog/page/3/index.html"]);
    assert!(pages[0].html.contains("blog/p5.html") && pages[0].html.contains("blog/p4.html"));
    assert!(pages[2].html.contains("blog/p1.html") && !pages[2].html.contains("blog/p2.html"));
    assert!(pages[1].html.contains("<title>Blog - Page 2</title>"));
    assert_eq!(posts[0].rel_path, "blog/p5.md");
}

#[test]
fn listing_without_posts_has_one_page() {
    let mut posts: Vec<BlogPostMeta> = Vec::new();
    let pages =
        generate_blog_listing_pages(&templates(), &SiteStructure::new(), "", "", &None, &mut posts, 5);
    assert_eq!(pages.len(), 1);
    assert!(pages[0].html.contains("No posts yet."));
}

fn source(rel: &str, md: &str) -> SourceFile {
    SourceFile { rel_path: rel.to_string(), markdown: md.to_string() }
}

#[test]
fn build_whole_site() {
    let config = load_config(None, None, None);
    let sources = vec![
        source("index.md", "# Home\nWelcome"),
        source("about/index.md", "# About me"),
        source("blog/index.md", "Intro text"),
        source(
            "blog/first-post.md",
            "# Post Title\n## Post Subheading\ntags: rust, web, static site\n\nPost body starts here...\n",
        ),
        source("blog/second.md", "# Second\ntags: Rust"),
    ];
    assert!(page_counts_fit(&config, &sources));
    let pages = build_site(&config, &templates(), &sources);
    let paths: Vec<&str> = pages.iter().map(|p| p.path.as_str()).collect();
    assert_eq!(
        paths,
        vec![
            "index.html",
            "about/index.html",
            "blog/first-post.html",
            "blog/second.html",
            "blog/index.html",
            "blog/tags/index.html",
            "blog/tags/rust/index.html",
            "blog/tags/static-site/index.html",
            "blog/tags/web/index.html",
        ]
    );
    assert_eq!(
        pages[0].html,
        "<title>Home</title><nav><a href=\"/\">Home</a><a href=\"/about/index.html\">About</a><a href=\"/blog/index.html\">Blog</a></nav>|<div class=\"breadcrumbs\"><a href=\"/\">Home</a></div>|<h1>Home</h1>\n<p>Welcome</p>\n"
    );
    assert!(pages[2].html.contains("<h1>Post Title</h1><p class=\"post-subheading\">Post Subheading</p>"));
    assert!(pages[2].html.contains("<p>Post body starts here…</p>"));
    assert!(pages[4].html.contains("<p>Intro text</p>"));
    assert!(pages[4].html.contains("Post body starts here..."));
    assert!(pages[5].html.contains("Rust (2)") || pages[5].html.contains("rust (2)"));
    assert!(pages[6].html.contains("blog/second.html") && pages[6].html.contains("blog/first-post.html"));
}

#[test]
fn section_links_lead_to_the_directory_index() {
    let config = load_config(None, None, None);
    let sources = vec![
        source("index.md", "# Home"),
        source("my_notes/index.md", "# Notes"),
        source("my_notes/first.md", "# First"),
    ];
    assert!(page_counts_fit(&config, &sources));
    let pages = build_site(&config, &templates(), &sources);
    assert_eq!(pages[1].path, "my_notes/index.html");
    assert!(pages[0].html.contains("<a href=\"/my_notes/index.html\">My Notes</a>"));
    assert!(pages[2].html.contains(
        "<div class=\"breadcrumbs\"><a href=\"/\">Home</a> <a href=\"/my_notes/index.html\">My Notes</a> <span>First</span></div>"
    ));
}

#[test]
fn page_counts_that_would_overflow_are_detected() {
    let mut config = load_config(None, None, None);
    config.blog_posts_per_page = usize::MAX;
    let sources = vec![source("blog/a.md", "# A")];
    assert!(!page_counts_fit(&config, &sources));
    let no_posts = vec![source("index.md", "# Home")];
    assert!(page_counts_fit(&config, &no_posts));
}

#[test]
fn listing_page_in_full() {
    let t = Templates {
        base: "[{{title}}]{{breadcrumbs}}{{content}}".to_string(),
        blog_index: "{{blog_intro}}|{{blog_posts}}|{{pagination}}".to_string(),
        blog_post: String::new(),
    };
    let posts = vec![post("blog/b.md", &[]), post("blog/a.md", &[])];
    let page = render_listing_page(&t, &SiteStructure::new(), "", "", "<p>I</p>", "", &posts, 1, 2, 2);
    assert_eq!(page.path, "blog/page/2/index.html");
    assert_eq!(
        page.html,
        "[Blog - Page 2]<div class=\"breadcrumbs\"><a href=\"/\">Home</a> <a href=\"/blog/index.html\">Blog</a> <span>Page 2</span></div><p>I</p>|<section class=\"blog-list\"><article class=\"post-card\"><h2 class=\"card-title\"><a href=\"/blog/a.html\">blog/a.md</a></h2><p class=\"card-excerpt\"></p></article></section>|<nav class=\"pagination\" aria-label=\"Blog pagination\"><a class=\"page-link\" href=\"/blog/index.html\">← Newer</a><span class=\"page-current\">Page 2 of 2</span></nav>"
    );
}

#[test]
fn tag_archive_page_in_full() {
    let t = Templates {
        base: "[{{title}}]{{content}}".to_string(),
        blog_index: "{{blog_heading}}{{blog_intro}}{{blog_tag_filters}}".to_string(),
        blog_post: String::new(),
    };
    let posts = vec![post("blog/a.md", &["C&C"])];
    let (path, html) =
        render_tag_archive_page(&t, &SiteStructure::new(), "", "", "F", "c-c", "C&C", &posts, 5, 1, 1);
    assert_eq!(path, "blog/tags/c-c/index.html");
    assert_eq!(html, "[Blog - Tag: C&amp;C]<h1>Blog Tag: C&amp;C</h1><p>Posts tagged C&amp;C</p>F");
}

#[test]
fn tag_archives_of_a_site() {
    let posts = vec![post("blog/b.md", &["Rust", "rust"]), post("blog/a.md", &["Go"])];
    let pages = generate_blog_tag_archive_pages(&templates(), &SiteStructure::new(), "", "", &posts, 1);
    let paths: Vec<&str> = pages.iter().map(|p| p.path.as_str()).collect();
    assert_eq!(
        paths,
        vec![
            "blog/tags/index.html",
            "blog/tags/go/index.html",
            "blog/tags/rust/index.html",
            "blog/tags/rust/page/2/index.html",
        ]
    );
    assert!(pages[0].html.contains("Rust (2)") && pages[0].html.contains("Go (1)"));
}

#[test]
fn templates_come_from_three_files() {
    use_templates();
}

fn use_templates() {
    let names = rust_personal_site::template_loader::template_file_names();
    assert_eq!(names, ("page.html", "blog_index.html", "blog_post.html"));
    let t = rust_personal_site::template_loader::load_templates("a".to_string(), "b".to_string(), "c".to_string());
    assert_eq!((t.base.as_str(), t.blog_index.as_str(), t.blog_post.as_str()), ("a", "b", "c"));
}
