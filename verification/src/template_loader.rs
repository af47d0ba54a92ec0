//! The three template files a site needs.
use vstd::prelude::*;
use crate::types::Templates;

verus! {

/// The template files in the order they are read: the page shell, the blog
/// listing, the blog post.
pub fn template_file_names() -> (r: (&'static str, &'static str, &'static str))
    ensures
        r.0@ == "page.html"@,
        r.1@ == "blog_index.html"@,
        r.2@ == "blog_post.html"@,
{
    ("page.html", "blog_index.html", "blog_post.html")
}

/// The templates, from the texts of the files `template_file_names` gives,
/// in that order.
pub fn load_templates(base: String, blog_index: String, blog_post: String) -> (r: Templates)
    ensures
        r.base@ == base@,
        r.blog_index@ == blog_index@,
        r.blog_post@ == blog_post@,
{
    Templates { base, blog_index, blog_post }
}

} // verus!
