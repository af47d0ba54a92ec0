//! Build settings: the fixed directories and what the environment sets.
use vstd::prelude::*;
use crate::render::{normalize_base_url, normalized_base_url};
use crate::text::{
    ascii_lowercase, ascii_lowercase_vec, chars_eq, chars_of, parse_unsigned, parse_unsigned_range,
    trim, trim_indices,
};
use crate::types::opt_str_view;

verus! {

/// The number of posts on a blog listing page when the environment sets none.
pub const BLOG_POSTS_PER_PAGE_DEFAULT: usize = 5;

/// How the site is built.
pub struct BuildConfig {
    pub content_dir: String,
    pub output_dir: String,
    pub template_dir: String,
    pub base_url: String,
    pub noindex: bool,
    pub robots_meta: String,
    pub blog_posts_per_page: usize,
}

/// The base URL from the value of `BASE_URL` (unset counts as empty).
pub open spec fn base_url_of(value: Option<Seq<char>>) -> Seq<char> {
    normalized_base_url(
        match value {
            Some(v) => v,
            None => Seq::empty(),
        },
    )
}

pub fn base_url_from_env(value: Option<&str>) -> (r: String)
    ensures
        r@ == base_url_of(opt_str_view(value)),
{
    match value {
        Some(v) => normalize_base_url(v),
        None => {
            let r = normalize_base_url("");
            proof {
                reveal_strlit("");
            }
            assert(""@ =~= Seq::<char>::empty());
            r
        },
    }
}

/// Whether a `NOINDEX` value turns indexing off: `1`, `true`, `yes` or `on`,
/// in any ASCII case, around white space.
pub open spec fn noindex_value(v: Seq<char>) -> bool {
    let t = ascii_lowercase(trim(v));
    t == "1"@ || t == "true"@ || t == "yes"@ || t == "on"@
}

/// Whether indexing is off, from the value of `NOINDEX` (unset counts as `0`).
pub open spec fn noindex_of(value: Option<Seq<char>>) -> bool {
    noindex_value(
        match value {
            Some(v) => v,
            None => "0"@,
        },
    )
}

pub fn noindex_from_env(value: Option<&str>) -> (r: bool)
    ensures
        r == noindex_of(opt_str_view(value)),
{
    let v = match value {
        Some(v) => chars_of(v),
        None => chars_of("0"),
    };
    let (a, b) = trim_indices(&v, 0, v.len());
    assert(v@.subrange(0, v@.len() as int) =~= v@);
    let t = crate::text::sub_vec(&v, a, b);
    let low = ascii_lowercase_vec(&t);
    chars_eq(&low, &chars_of("1")) || chars_eq(&low, &chars_of("true")) || chars_eq(
        &low,
        &chars_of("yes"),
    ) || chars_eq(&low, &chars_of("on"))
}

/// The robots meta tag: one that forbids indexing when indexing is off.
pub open spec fn robots_meta_of(noindex: bool) -> Seq<char> {
    if noindex {
        "<meta name=\"robots\" content=\"noindex,nofollow,noarchive\">"@
    } else {
        Seq::empty()
    }
}

pub fn robots_meta_tag(noindex: bool) -> (r: String)
    ensures
        r@ == robots_meta_of(noindex),
{
    if noindex {
        crate::text::owned("<meta name=\"robots\" content=\"noindex,nofollow,noarchive\">")
    } else {
        String::new()
    }
}

/// The posts per listing page, from the value of `BLOG_POSTS_PER_PAGE`: a
/// positive number, around white space, else the default.
pub open spec fn posts_per_page_of(value: Option<Seq<char>>) -> nat {
    match value {
        Some(v) => match parse_unsigned(trim(v), usize::MAX as nat) {
            Some(n) => if n > 0 {
                n
            } else {
                BLOG_POSTS_PER_PAGE_DEFAULT as nat
            },
            None => BLOG_POSTS_PER_PAGE_DEFAULT as nat,
        },
        None => BLOG_POSTS_PER_PAGE_DEFAULT as nat,
    }
}

pub fn blog_posts_per_page_from_env(value: Option<&str>) -> (r: usize)
    ensures
        r == posts_per_page_of(opt_str_view(value)),
        r > 0,
{
    match value {
        Some(s) => {
            let v = chars_of(s);
            let (a, b) = trim_indices(&v, 0, v.len());
            assert(v@.subrange(0, v@.len() as int) =~= v@);
            match parse_unsigned_range(&v, a, b, usize::MAX) {
                Some(n) => if n > 0 {
                    n
                } else {
                    BLOG_POSTS_PER_PAGE_DEFAULT
                },
                None => BLOG_POSTS_PER_PAGE_DEFAULT,
            }
        },
        None => BLOG_POSTS_PER_PAGE_DEFAULT,
    }
}

/// The configuration for the values of `BASE_URL`, `NOINDEX` and
/// `BLOG_POSTS_PER_PAGE`: content from `content`, output to `public`,
/// templates from `templates`.
pub fn load_config(base_url_var: Option<&str>, noindex_var: Option<&str>, posts_per_page_var: Option<&str>) -> (r: BuildConfig)
    ensures
        r.content_dir@ == "content"@,
        r.output_dir@ == "public"@,
        r.template_dir@ == "templates"@,
        r.base_url@ == base_url_of(opt_str_view(base_url_var)),
        r.noindex == noindex_of(opt_str_view(noindex_var)),
        r.robots_meta@ == robots_meta_of(r.noindex),
        r.blog_posts_per_page == posts_per_page_of(opt_str_view(posts_per_page_var)),
        r.blog_posts_per_page > 0,
{
    let content_dir = crate::text::owned("content");
    let output_dir = crate::text::owned("public");
    let template_dir = crate::text::owned("templates");
    let base_url = base_url_from_env(base_url_var);
    let noindex = noindex_from_env(noindex_var);
    let robots_meta = robots_meta_tag(noindex);
    let blog_posts_per_page = blog_posts_per_page_from_env(posts_per_page_var);
    BuildConfig {
        content_dir,
        output_dir,
        template_dir,
        base_url,
        noindex,
        robots_meta,
        blog_posts_per_page,
    }
}

} // verus!
