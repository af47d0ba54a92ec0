# rust_personal_site

A static site generator whose logic is verified with Verus.

- `src/` is the verified library: text primitives with exact `str` semantics
  (`text.rs`), relative paths (`paths.rs`), string orders (`order.rs`),
  templates, escaping, titles, navigation and breadcrumbs (`render.rs`), blog
  front matter, tags, dates and listing fragments (`blog.rs`), newest-first
  sorting, tag maps, listing pages and tag archives (`listing.rs`), build
  settings (`config.rs`), the whole site from its Markdown sources (`site.rs`),
  and properties of the library as a whole (`laws.rs`).
- `app/main.rs` reads the environment, the templates and the content tree,
  and writes the pages the library returns, copies assets and writes
  `robots.txt`.
- `tests/` runs the library on concrete sites.

Markdown is rendered by pulldown-cmark; the library names what it returns
and proves everything around it.
