//! The data the site is built from.
use vstd::prelude::*;
use crate::order::{lemma_lex_irreflexive, lemma_lex_total,
    lemma_lex_transitive, lex_less, text_lt};
use crate::text::{chars_of, owned};

verus! {

/// The view of an optional string.
pub open spec fn opt_view(o: Option<String>) -> Option<Seq<char>> {
    match o {
        Some(s) => Some(s@),
        None => None,
    }
}

/// The view of an optional string slice.
pub open spec fn opt_str_view(o: Option<&str>) -> Option<Seq<char>> {
    match o {
        Some(s) => Some(s@),
        None => None,
    }
}

/// The views of a sequence of strings.
pub open spec fn strings_view(v: Seq<String>) -> Seq<Seq<char>> {
    v.map_values(|s: String| s@)
}

/// A copy of an optional string.
pub fn copy_opt(o: &Option<String>) -> (r: Option<String>)
    ensures
        opt_view(r) == opt_view(*o),
{
    match o {
        Some(s) => Some(s.clone()),
        None => None,
    }
}

/// A copy of a list of strings.
pub fn copy_strings(v: &Vec<String>) -> (r: Vec<String>)
    ensures
        strings_view(r@) == strings_view(v@),
{
    let mut r: Vec<String> = Vec::new();
    let mut i: usize = 0;
    while i < v.len()
        invariant
            i <= v@.len(),
            strings_view(r@) == strings_view(v@).take(i as int),
        decreases v@.len() - i,
    {
        let s = v[i].clone();
        let ghost before = strings_view(r@);
        r.push(s);
        assert(strings_view(r@) =~= before.push(v@[i as int]@));
        assert(strings_view(v@).take(i + 1) =~= strings_view(v@).take(i as int).push(v@[i as int]@));
        i += 1;
    }
    assert(strings_view(v@).take(v@.len() as int) =~= strings_view(v@));
    r
}

/// What the blog index and the tag archives know of a blog post.
pub struct BlogPostMeta {
    /// The post's Markdown file, relative to the content directory.
    pub rel_path: String,
    pub title: String,
    pub subtitle: Option<String>,
    pub tags: Vec<String>,
    pub published: Option<String>,
    pub edited: Option<String>,
    pub excerpt: String,
}

/// A blog post, as text.
pub struct PostView {
    pub rel_path: Seq<char>,
    pub title: Seq<char>,
    pub subtitle: Option<Seq<char>>,
    pub tags: Seq<Seq<char>>,
    pub published: Option<Seq<char>>,
    pub edited: Option<Seq<char>>,
    pub excerpt: Seq<char>,
}

impl View for BlogPostMeta {
    type V = PostView;

    open spec fn view(&self) -> PostView {
        PostView {
            rel_path: self.rel_path@,
            title: self.title@,
            subtitle: opt_view(self.subtitle),
            tags: strings_view(self.tags@),
            published: opt_view(self.published),
            edited: opt_view(self.edited),
            excerpt: self.excerpt@,
        }
    }
}

impl BlogPostMeta {
    /// A copy of this post.
    pub fn copy(&self) -> (r: Self)
        ensures
            r@ == self@,
    {
        BlogPostMeta {
            rel_path: self.rel_path.clone(),
            title: self.title.clone(),
            subtitle: copy_opt(&self.subtitle),
            tags: copy_strings(&self.tags),
            published: copy_opt(&self.published),
            edited: copy_opt(&self.edited),
            excerpt: self.excerpt.clone(),
        }
    }
}

/// The views of a list of posts.
pub open spec fn posts_view(v: Seq<BlogPostMeta>) -> Seq<PostView> {
    v.map_values(|p: BlogPostMeta| p@)
}

/// A page of the generated site: its path under the output directory and its
/// HTML.
pub struct GeneratedPage {
    pub path: String,
    pub html: String,
}

/// The (path, HTML) views of generated pages.
pub open spec fn pages_view(v: Seq<GeneratedPage>) -> Seq<(Seq<char>, Seq<char>)> {
    v.map_values(|p: GeneratedPage| (p.path@, p.html@))
}

/// The three templates a site is rendered with.
pub struct Templates {
    /// The outer shell of every page (`page.html`).
    pub base: String,
    /// The blog listing layout (`blog_index.html`).
    pub blog_index: String,
    /// The layout of one blog post (`blog_post.html`).
    pub blog_post: String,
}

/// Whether `s` is in strictly increasing `String` order.
pub open spec fn strictly_sorted(s: Seq<Seq<char>>) -> bool {
    forall|i: int, j: int| 0 <= i < j < s.len() ==> text_lt(#[trigger] s[i], #[trigger] s[j])
}

/// Where `key` goes in a list in `String` order: the first entry that does
/// not come before it.
pub open spec fn section_pos(v: Seq<Seq<char>>, key: Seq<char>) -> int
    decreases v.len(),
{
    if v.len() == 0 {
        0
    } else if !text_lt(v[0], key) {
        0
    } else {
        1 + section_pos(v.drop_first(), key)
    }
}

pub proof fn lemma_section_pos_range(v: Seq<Seq<char>>, key: Seq<char>)
    ensures
        0 <= section_pos(v, key) <= v.len(),
        forall|k: int| 0 <= k < section_pos(v, key) ==> text_lt(#[trigger] v[k], key),
        section_pos(v, key) < v.len() ==> !text_lt(v[section_pos(v, key)], key),
    decreases v.len(),
{
    if v.len() > 0 && text_lt(v[0], key) {
        lemma_section_pos_range(v.drop_first(), key);
        assert forall|k: int| 0 <= k < section_pos(v, key) implies text_lt(#[trigger] v[k], key) by {
            if k > 0 {
                assert(v[k] == v.drop_first()[k - 1]);
            }
        }
    }
}

/// The section names of a list of sections, in order.
pub open spec fn labels(v: Seq<(Seq<char>, Seq<char>)>) -> Seq<Seq<char>> {
    v.map_values(|e: (Seq<char>, Seq<char>)| e.0)
}

/// The entry of a page's section: its name and the directory it stands for.
pub open spec fn section_entry(section: Option<Seq<char>>, dir: Seq<char>) -> Option<(Seq<char>, Seq<char>)> {
    match section {
        Some(s) => Some((s, dir)),
        None => None,
    }
}

/// The sections after recording a page's section: a new name goes in at its
/// place in `String` order with its directory, a known one changes nothing
/// (the section keeps the directory it was first recorded with).
pub open spec fn with_section(
    v: Seq<(Seq<char>, Seq<char>)>,
    entry: Option<(Seq<char>, Seq<char>)>,
) -> Seq<(Seq<char>, Seq<char>)> {
    match entry {
        None => v,
        Some(e) => {
            let p = section_pos(labels(v), e.0);
            if p < v.len() && v[p].0 == e.0 {
                v
            } else {
                v.insert(p, e)
            }
        },
    }
}

/// The sections of a site: the distinct section names of its pages, in
/// `String` order (the named keys of a map from section to pages), each with
/// the directory whose index page its links lead to.
pub struct SiteStructure {
    sections: Vec<String>,
    dirs: Vec<String>,
}

impl View for SiteStructure {
    type V = Seq<(Seq<char>, Seq<char>)>;

    closed spec fn view(&self) -> Seq<(Seq<char>, Seq<char>)> {
        Seq::new(self.sections@.len(), |i: int| (self.sections@[i]@, self.dirs@[i]@))
    }
}

impl SiteStructure {
    #[verifier::type_invariant]
    spec fn sorted_sections(self) -> bool {
        &&& self.sections@.len() == self.dirs@.len()
        &&& strictly_sorted(strings_view(self.sections@))
    }

    /// A site without sections.
    pub fn new() -> (r: Self)
        ensures
            r@ == Seq::<(Seq<char>, Seq<char>)>::empty(),
    {
        let r = SiteStructure { sections: Vec::new(), dirs: Vec::new() };
        assert(r@ =~= Seq::<(Seq<char>, Seq<char>)>::empty());
        r
    }

    /// The number of sections (whose names are in strictly increasing order).
    pub fn len(&self) -> (r: usize)
        ensures
            r == self@.len(),
            strictly_sorted(labels(self@)),
    {
        proof {
            use_type_invariant(self);
            assert(labels(self@) =~= strings_view(self.sections@));
        }
        self.sections.len()
    }

    /// The name of the section at index `i`.
    pub fn section(&self, i: usize) -> (r: &String)
        requires
            i < self@.len(),
        ensures
            r@ == self@[i as int].0,
    {
        &self.sections[i]
    }

    /// The directory of the section at index `i`.
    pub fn dir(&self, i: usize) -> (r: &String)
        requires
            i < self@.len(),
        ensures
            r@ == self@[i as int].1,
    {
        proof {
            use_type_invariant(self);
        }
        &self.dirs[i]
    }

    /// Records the section of a page in directory `dir` (pages outside
    /// sections add none).
    pub fn add_section(&mut self, section: &Option<String>, dir: &str)
        ensures
            final(self)@ == with_section(old(self)@, section_entry(opt_view(*section), dir@)),
            strictly_sorted(labels(final(self)@)),
            forall|x: Seq<char>|
                labels(final(self)@).contains(x) <==> (labels(old(self)@).contains(x) || opt_view(
                    *section,
                ) == Some(x)),
    {
        proof {
            use_type_invariant(&*self);
            assert(labels(self@) =~= strings_view(self.sections@));
        }
        let ghost old_view = self@;
        let s = match section {
            Some(s) => s,
            None => {
                return;
            },
        };
        proof {
            lemma_section_pos_range(strings_view(self.sections@), s@);
        }
        let key = chars_of(s.as_str());
        let ghost v = strings_view(self.sections@);
        let n = self.sections.len();
        let mut p: usize = 0;
        while p < n
            invariant
                n == self.sections@.len(),
                v == strings_view(self.sections@),
                strictly_sorted(v),
                key@ == s@,
                p <= n,
                forall|k: int| 0 <= k < p ==> text_lt(#[trigger] v[k], s@),
                p <= section_pos(v, s@),
                0 <= section_pos(v, s@) <= v.len(),
                forall|k: int| 0 <= k < section_pos(v, s@) ==> text_lt(#[trigger] v[k], s@),
                section_pos(v, s@) < v.len() ==> !text_lt(v[section_pos(v, s@)], s@),
            ensures
                p == section_pos(v, s@),
                p <= n,
                forall|k: int| 0 <= k < p ==> text_lt(#[trigger] v[k], s@),
                p < n ==> !text_lt(v[p as int], s@),
            decreases n - p,
        {
            let cur = chars_of(self.sections[p].as_str());
            if !lex_less(&cur, &key, false) {
                assert(!text_lt(v[p as int], s@));
                break;
            }
            p += 1;
        }
        if p < n {
            let cur = chars_of(self.sections[p].as_str());
            if !lex_less(&cur, &key, false) && !lex_less(&key, &cur, false) {
                proof {
                    if v[p as int] != s@ {
                        lemma_lex_total(v[p as int], s@, false);
                    }
                }
                assert(v[p as int] == s@);
                return;
            }
        }
        proof {
            if p < n {
                assert(!text_lt(v[p as int], s@));
                if v[p as int] == s@ {
                    lemma_lex_irreflexive(s@, false);
                }
                lemma_lex_total(v[p as int], s@, false);
                assert(text_lt(s@, v[p as int]));
            }
        }
        let mut whole = SiteStructure::new();
        std::mem::swap(&mut whole, self);
        let SiteStructure { sections: mut secs, dirs: mut ds } = whole;
        secs.insert(p, s.clone());
        ds.insert(p, owned(dir));
        let ghost w = strings_view(secs@);
        assert(w =~= v.insert(p as int, s@));
        assert(strictly_sorted(w)) by {
            assert forall|i: int, j: int| 0 <= i < j < w.len() implies text_lt(
                #[trigger] w[i],
                #[trigger] w[j],
            ) by {
                if j < p {
                } else if i < p && j == p {
                } else if i < p && j > p {
                    assert(w[j] == v[j - 1]);
                    assert(text_lt(v[i], s@));
                    if j - 1 == p as int {
                        lemma_lex_transitive(v[i], s@, v[p as int], false);
                    } else {
                        assert(text_lt(v[p as int], v[j - 1]));
                        lemma_lex_transitive(s@, v[p as int], v[j - 1], false);
                        lemma_lex_transitive(v[i], s@, v[j - 1], false);
                    }
                } else if i == p {
                    assert(w[j] == v[j - 1]);
                    if j - 1 > p {
                        assert(text_lt(v[p as int], v[j - 1]));
                        lemma_lex_transitive(s@, v[p as int], v[j - 1], false);
                    }
                } else {
                    assert(w[i] == v[i - 1] && w[j] == v[j - 1]);
                }
            }
        }
        assert forall|x: Seq<char>| w.contains(x) <==> (v.contains(x) || s@ == x) by {
            if w.contains(x) {
                let k = choose|k: int| 0 <= k < w.len() && w[k] == x;
                if k < p {
                    assert(v[k] == x);
                } else if k > p {
                    assert(v[k - 1] == x);
                }
            }
            if v.contains(x) {
                let k = choose|k: int| 0 <= k < v.len() && v[k] == x;
                if k < p {
                    assert(w[k] == x);
                } else {
                    assert(w[k + 1] == x);
                }
            }
            if s@ == x {
                assert(w[p as int] == x);
            }
        }
        *self = SiteStructure { sections: secs, dirs: ds };
        assert(labels(self@) =~= w);
        assert(self@ =~= old_view.insert(p as int, (s@, dir@)));
    }
}

} // verus!
