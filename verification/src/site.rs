//! The whole site: which files are pages, what each page holds, and the
//! blog pages after them.
use vstd::prelude::*;
use crate::blog::{
    excerpt_of, extract_excerpt, is_blog_index, is_blog_index_page, is_blog_post,
    is_blog_post_page, parsed_post, post_content_html, render_blog_post_content,
    split_blog_post_markdown,
};
use crate::config::BuildConfig;
use crate::listing::{
    archive_pages, archives_fit, build_tag_filters, generate_blog_listing_pages,
    generate_blog_tag_archive_pages, listing_pages, newest_first,
    pages_fit, posts_with_tag, sort_newest_first, tag_entries, tag_listing, tagged_posts,
};
use crate::paths::{components, components_of, extension, extension_vec, file_name, file_name_of, with_extension,
    with_extension_of};
use crate::render::{
    breadcrumbs_html, extract_title, fallback_title, fallback_title_of, get_section,
    markdown_html, markdown_title, markdown_to_html, nav_html, page_html, render_breadcrumbs,
    render_nav, render_page, section_of,
};
use crate::text::{ascii_lowercase, ascii_lowercase_vec, chars_eq, chars_of, string_of};
use crate::types::{
    opt_view, pages_view, posts_view, with_section, section_entry, BlogPostMeta, GeneratedPage, PostView,
    SiteStructure, Templates,
};

verus! {

/// `md` or `markdown`, in any ASCII case, as the extension.
pub open spec fn is_markdown(path: Seq<char>) -> bool {
    match extension(path) {
        Some(e) => ascii_lowercase(e) == "md"@ || ascii_lowercase(e) == "markdown"@,
        None => false,
    }
}

pub fn is_markdown_file(path: &str) -> (r: bool)
    ensures
        r == is_markdown(path@),
{
    let name = file_name_of(path);
    match extension_vec(&name) {
        Some(e) => {
            let low = ascii_lowercase_vec(&e);
            chars_eq(&low, &chars_of("md")) || chars_eq(&low, &chars_of("markdown"))
        },
        None => false,
    }
}

/// A file whose name starts with `.`.
pub open spec fn is_hidden(path: Seq<char>) -> bool {
    file_name(path).len() > 0 && file_name(path)[0] == '.'
}

pub fn is_hidden_file(path: &str) -> (r: bool)
    ensures
        r == is_hidden(path@),
{
    let name = file_name_of(path);
    name.len() > 0 && name[0] == '.'
}

/// Whether a file of the content tree is copied to the output as it is.
pub open spec fn is_asset(path: Seq<char>) -> bool {
    !is_markdown(path) && !is_hidden(path)
}

pub fn is_asset_file(path: &str) -> (r: bool)
    ensures
        r == is_asset(path@),
{
    !is_markdown_file(path) && !is_hidden_file(path)
}

/// The robots.txt of the site: everything disallowed when indexing is off.
pub open spec fn robots_txt_of(noindex: bool) -> Seq<char> {
    if noindex {
        "User-agent: *\nDisallow: /\n"@
    } else {
        "User-agent: *\nAllow: /\n"@
    }
}

pub fn robots_txt_content(noindex: bool) -> (r: &'static str)
    ensures
        r@ == robots_txt_of(noindex),
{
    if noindex {
        "User-agent: *\nDisallow: /\n"
    } else {
        "User-agent: *\nAllow: /\n"
    }
}

/// A Markdown file of the content tree.
pub struct SourceFile {
    /// The path relative to the content directory.
    pub rel_path: String,
    pub markdown: String,
}

pub struct SourceView {
    pub rel_path: Seq<char>,
    pub markdown: Seq<char>,
}

impl View for SourceFile {
    type V = SourceView;

    open spec fn view(&self) -> SourceView {
        SourceView { rel_path: self.rel_path@, markdown: self.markdown@ }
    }
}

pub open spec fn sources_view(v: Seq<SourceFile>) -> Seq<SourceView> {
    v.map_values(|s: SourceFile| s@)
}

/// The title of a page: its `# ` heading, else one made from its file name.
pub open spec fn page_title_of(src: SourceView) -> Seq<char> {
    match markdown_title(src.markdown) {
        Some(t) => t,
        None => fallback_title_of(src.rel_path),
    }
}

/// The sections of the site's pages.
pub open spec fn site_sections(sources: Seq<SourceView>) -> Seq<(Seq<char>, Seq<char>)>
    decreases sources.len(),
{
    if sources.len() == 0 {
        Seq::empty()
    } else {
        with_section(
            site_sections(sources.drop_last()),
            section_entry(section_of(sources.last().rel_path), components(sources.last().rel_path)[0]),
        )
    }
}

/// The Markdown of the blog's introduction (`blog/index.md`), if there is one.
pub open spec fn blog_intro(sources: Seq<SourceView>) -> Option<Seq<char>>
    decreases sources.len(),
{
    if sources.len() == 0 {
        None
    } else if is_blog_index(sources.last().rel_path) {
        Some(sources.last().markdown)
    } else {
        blog_intro(sources.drop_last())
    }
}

/// What the listing knows of a blog post.
pub open spec fn post_of(src: SourceView) -> PostView {
    let parsed = parsed_post(src.markdown);
    PostView {
        rel_path: src.rel_path,
        title: page_title_of(src),
        subtitle: parsed.subtitle,
        tags: parsed.tags,
        published: parsed.published,
        edited: parsed.edited,
        excerpt: excerpt_of(src.markdown),
    }
}

/// The blog posts among the sources, in order.
pub open spec fn blog_posts_of(sources: Seq<SourceView>) -> Seq<PostView>
    decreases sources.len(),
{
    if sources.len() == 0 {
        Seq::empty()
    } else {
        let prev = blog_posts_of(sources.drop_last());
        if is_blog_post(sources.last().rel_path) {
            prev.push(post_of(sources.last()))
        } else {
            prev
        }
    }
}

/// The HTML content of a source's page: a blog post in the post template,
/// any other page its rendered Markdown.
pub open spec fn content_html_of(t: Templates, src: SourceView) -> Seq<char> {
    if is_blog_post(src.rel_path) {
        let p = parsed_post(src.markdown);
        post_content_html(
            t.blog_post@,
            page_title_of(src),
            p.subtitle,
            p.tags,
            p.published,
            p.edited,
            markdown_html(p.body),
        )
    } else {
        markdown_html(src.markdown)
    }
}

/// The page of a source: at its path with the extension `html`.
pub open spec fn content_page(
    config: BuildConfig,
    t: Templates,
    sections: Seq<(Seq<char>, Seq<char>)>,
    src: SourceView,
) -> (Seq<char>, Seq<char>) {
    let section = section_of(src.rel_path);
    (
        with_extension(src.rel_path, "html"@),
        page_html(
            t.base@,
            page_title_of(src),
            content_html_of(t, src),
            nav_html(sections, section, config.base_url@),
            breadcrumbs_html(src.rel_path, section, config.base_url@),
            config.robots_meta@,
        ),
    )
}

/// The pages of the sources, in order; the blog introduction has none of its
/// own.
pub open spec fn content_pages(
    config: BuildConfig,
    t: Templates,
    sections: Seq<(Seq<char>, Seq<char>)>,
    sources: Seq<SourceView>,
) -> Seq<(Seq<char>, Seq<char>)>
    decreases sources.len(),
{
    if sources.len() == 0 {
        Seq::empty()
    } else {
        let prev = content_pages(config, t, sections, sources.drop_last());
        if is_blog_index(sources.last().rel_path) {
            prev
        } else {
            prev.push(content_page(config, t, sections, sources.last()))
        }
    }
}

/// Whether every page count of the blog can be computed without overflow.
pub open spec fn site_fits(sources: Seq<SourceView>, per_page: nat) -> bool {
    let posts = blog_posts_of(sources);
    pages_fit(posts.len(), per_page) && archives_fit(newest_first(posts), per_page)
}

/// Every page of the site: the sources' pages, then the blog listing, then
/// the tags page and the tag archives.
pub open spec fn site_pages(config: BuildConfig, t: Templates, sources: Seq<SourceView>) -> Seq<(Seq<char>, Seq<char>)> {
    let sections = site_sections(sources);
    let posts = blog_posts_of(sources);
    content_pages(config, t, sections, sources) + listing_pages(
        t,
        sections,
        config.base_url@,
        config.robots_meta@,
        blog_intro(sources),
        posts,
        config.blog_posts_per_page as nat,
    ) + archive_pages(
        t,
        sections,
        config.base_url@,
        config.robots_meta@,
        newest_first(posts),
        config.blog_posts_per_page as nat,
    )
}

/// The title of a page.
fn page_title(src: &SourceFile) -> (r: String)
    ensures
        r@ == page_title_of(src@),
{
    match extract_title(src.markdown.as_str()) {
        Some(t) => t,
        None => fallback_title(src.rel_path.as_str()),
    }
}

/// The blog post of a source.
fn post_meta(src: &SourceFile) -> (r: BlogPostMeta)
    ensures
        r@ == post_of(src@),
{
    let parsed = split_blog_post_markdown(src.markdown.as_str());
    let title = page_title(src);
    let excerpt = extract_excerpt(src.markdown.as_str());
    BlogPostMeta {
        rel_path: src.rel_path.clone(),
        title,
        subtitle: parsed.subtitle,
        tags: parsed.tags,
        published: parsed.published,
        edited: parsed.edited,
        excerpt,
    }
}

/// The blog posts among the sources.
pub fn collect_blog_posts(sources: &[SourceFile]) -> (r: Vec<BlogPostMeta>)
    ensures
        posts_view(r@) == blog_posts_of(sources_view(sources@)),
{
    let ghost sv = sources_view(sources@);
    let mut posts: Vec<BlogPostMeta> = Vec::new();
    let mut i: usize = 0;
    assert(sv.take(0) =~= Seq::<SourceView>::empty());
    while i < sources.len()
        invariant
            sv == sources_view(sources@),
            i <= sources@.len(),
            posts_view(posts@) == blog_posts_of(sv.take(i as int)),
        decreases sources@.len() - i,
    {
        let src = &sources[i];
        assert(sv.take(i + 1).drop_last() =~= sv.take(i as int));
        assert(sv.take(i + 1).last() == src@);
        if is_blog_post_page(src.rel_path.as_str()) {
            let meta = post_meta(src);
            let ghost before = posts_view(posts@);
            posts.push(meta);
            assert(posts_view(posts@) =~= before.push(post_of(src@)));
        }
        i += 1;
    }
    assert(sv.take(sources@.len() as int) =~= sv);
    posts
}

/// The sections of the site's pages.
pub fn collect_sections(sources: &[SourceFile]) -> (r: SiteStructure)
    ensures
        r@ == site_sections(sources_view(sources@)),
{
    let ghost sv = sources_view(sources@);
    let mut site = SiteStructure::new();
    let mut i: usize = 0;
    assert(sv.take(0) =~= Seq::<SourceView>::empty());
    while i < sources.len()
        invariant
            sv == sources_view(sources@),
            i <= sources@.len(),
            site@ == site_sections(sv.take(i as int)),
        decreases sources@.len() - i,
    {
        let src = &sources[i];
        assert(sv.take(i + 1).drop_last() =~= sv.take(i as int));
        assert(sv.take(i + 1).last() == src@);
        let section = get_section(src.rel_path.as_str());
        assert(opt_view(section) == section_of(src.rel_path@));
        let comps = components_of(src.rel_path.as_str());
        let dir = string_of(&comps[0]);
        site.add_section(&section, dir.as_str());
        i += 1;
    }
    assert(sv.take(sources@.len() as int) =~= sv);
    site
}

/// The Markdown of the blog's introduction.
pub fn find_blog_intro(sources: &[SourceFile]) -> (r: Option<String>)
    ensures
        opt_view(r) == blog_intro(sources_view(sources@)),
{
    let ghost sv = sources_view(sources@);
    let mut intro: Option<String> = None;
    let mut i: usize = 0;
    assert(sv.take(0) =~= Seq::<SourceView>::empty());
    while i < sources.len()
        invariant
            sv == sources_view(sources@),
            i <= sources@.len(),
            opt_view(intro) == blog_intro(sv.take(i as int)),
        decreases sources@.len() - i,
    {
        let src = &sources[i];
        assert(sv.take(i + 1).drop_last() =~= sv.take(i as int));
        assert(sv.take(i + 1).last() == src@);
        if is_blog_index_page(src.rel_path.as_str()) {
            intro = Some(src.markdown.clone());
        }
        i += 1;
    }
    assert(sv.take(sources@.len() as int) =~= sv);
    intro
}

/// The page of one source.
fn content_page_of(
    config: &BuildConfig,
    templates: &Templates,
    site_structure: &SiteStructure,
    src: &SourceFile,
) -> (r: GeneratedPage)
    ensures
        (r.path@, r.html@) == content_page(*config, *templates, site_structure@, src@),
{
    let rel = src.rel_path.as_str();
    let markdown = src.markdown.as_str();
    let title = page_title(src);
    let section = get_section(rel);
    let html_content = if is_blog_post_page(rel) {
        let parsed = split_blog_post_markdown(markdown);
        let body_html = markdown_to_html(parsed.body.as_str());
        let subtitle = match &parsed.subtitle {
            Some(s) => Some(s.as_str()),
            None => None,
        };
        let published = match &parsed.published {
            Some(s) => Some(s.as_str()),
            None => None,
        };
        let edited = match &parsed.edited {
            Some(s) => Some(s.as_str()),
            None => None,
        };
        render_blog_post_content(
            templates.blog_post.as_str(),
            title.as_str(),
            subtitle,
            parsed.tags.as_slice(),
            published,
            edited,
            body_html.as_str(),
        )
    } else {
        markdown_to_html(markdown)
    };
    assert(html_content@ == content_html_of(*templates, src@));
    let nav_html = render_nav(site_structure, &section, config.base_url.as_str());
    let breadcrumbs_html = render_breadcrumbs(rel, &section, config.base_url.as_str());
    let html = render_page(
        templates.base.as_str(),
        title.as_str(),
        html_content.as_str(),
        nav_html.as_str(),
        breadcrumbs_html.as_str(),
        config.robots_meta.as_str(),
    );
    let path = with_extension_of(rel, "html");
    GeneratedPage { path, html }
}

fn fits(n: usize, per_page: usize) -> (r: bool)
    ensures
        r == pages_fit(n as nat, per_page as nat),
{
    n == 0 || n <= usize::MAX - per_page
}

/// Whether every page count of the blog can be computed without overflow.
pub fn page_counts_fit(config: &BuildConfig, sources: &[SourceFile]) -> (r: bool)
    ensures
        r == site_fits(sources_view(sources@), config.blog_posts_per_page as nat),
{
    let per = config.blog_posts_per_page;
    let mut posts = collect_blog_posts(sources);
    if !fits(posts.len(), per) {
        return false;
    }
    sort_newest_first(&mut posts);
    let ghost ps = posts_view(posts@);
    let listing = build_tag_filters(posts.as_slice());
    let ghost lv = crate::blog::string_pairs_view(listing@);
    let mut i: usize = 0;
    while i < listing.len()
        invariant
            ps == posts_view(posts@),
            lv == crate::blog::string_pairs_view(listing@),
            lv == tag_listing(tag_entries(ps)),
            ps == newest_first(blog_posts_of(sources_view(sources@))),
            per == config.blog_posts_per_page,
            pages_fit(blog_posts_of(sources_view(sources@)).len(), per as nat),
            i <= listing@.len(),
            forall|k: int| 0 <= k < i ==> pages_fit(#[trigger] tagged_posts(ps, lv[k].0).len(), per as nat),
        decreases listing@.len() - i,
    {
        let sv = chars_of(listing[i].0.as_str());
        let tagged = posts_with_tag(posts.as_slice(), &sv);
        assert(lv[i as int].0 == sv@);
        if !fits(tagged.len(), per) {
            assert(!pages_fit(tagged_posts(ps, lv[i as int].0).len(), per as nat));
            assert(!archives_fit(ps, per as nat));
            return false;
        }
        i += 1;
    }
    true
}

/// Every page of the site, from its Markdown sources (in the order the
/// content tree is walked) and its templates.
pub fn build_site(config: &BuildConfig, templates: &Templates, sources: &[SourceFile]) -> (r: Vec<GeneratedPage>)
    requires
        config.blog_posts_per_page > 0,
        site_fits(sources_view(sources@), config.blog_posts_per_page as nat),
    ensures
        pages_view(r@) == site_pages(*config, *templates, sources_view(sources@)),
{
    let ghost sv = sources_view(sources@);
    let site_structure = collect_sections(sources);
    let blog_intro_markdown = find_blog_intro(sources);
    let mut blog_posts = collect_blog_posts(sources);
    let mut pages: Vec<GeneratedPage> = Vec::new();
    let mut i: usize = 0;
    assert(sv.take(0) =~= Seq::<SourceView>::empty());
    while i < sources.len()
        invariant
            sv == sources_view(sources@),
            site_structure@ == site_sections(sv),
            i <= sources@.len(),
            pages_view(pages@) == content_pages(*config, *templates, site_structure@, sv.take(i as int)),
        decreases sources@.len() - i,
    {
        let src = &sources[i];
        assert(sv.take(i + 1).drop_last() =~= sv.take(i as int));
        assert(sv.take(i + 1).last() == src@);
        if !is_blog_index_page(src.rel_path.as_str()) {
            let page = content_page_of(config, templates, &site_structure, src);
            let ghost before = pages_view(pages@);
            let ghost pv = (page.path@, page.html@);
            pages.push(page);
            assert(pages_view(pages@) =~= before.push(pv));
        }
        i += 1;
    }
    assert(sv.take(sources@.len() as int) =~= sv);
    let ghost content = pages_view(pages@);
    let mut listing = generate_blog_listing_pages(
        templates,
        &site_structure,
        config.base_url.as_str(),
        config.robots_meta.as_str(),
        &blog_intro_markdown,
        &mut blog_posts,
        config.blog_posts_per_page,
    );
    let ghost listed = pages_view(listing@);
    pages.append(&mut listing);
    let mut archives = generate_blog_tag_archive_pages(
        templates,
        &site_structure,
        config.base_url.as_str(),
        config.robots_meta.as_str(),
        blog_posts.as_slice(),
        config.blog_posts_per_page,
    );
    let ghost archived = pages_view(archives@);
    pages.append(&mut archives);
    assert(pages_view(pages@) =~= content + listed + archived);
    pages
}

} // verus!
