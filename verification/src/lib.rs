//! A static site generator's logic: Markdown pages, blog posts with front
//! matter, tags, listing pages with pagination, tag archives, navigation and
//! breadcrumbs, all rendered through text templates.

pub mod blog;
pub mod config;
pub mod laws;
pub mod listing;
pub mod order;
pub mod paths;
pub mod render;
pub mod site;
pub mod template_loader;
pub mod text;
pub mod types;
