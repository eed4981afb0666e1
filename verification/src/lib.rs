//! The build pipeline of a static-site generator, verified: front matter and
//! markdown of a page, the tree of all pages, the contexts that templates
//! are expanded with, the addresses and files of the output, robots.txt and
//! the sitemap. Reading and writing files, fetching URLs and expanding
//! templates are left to the caller, who hands in texts and gets back texts
//! and plans.

pub mod base;
pub mod cache;
pub mod create;
pub mod data;
pub mod dev;
pub mod front_matter;
pub mod helpers;
pub mod json;
pub mod logger;
pub mod merge_laws;
pub mod paths;
pub mod render;
pub mod resources;
pub mod seo;
pub mod settings;
pub mod site_directory;
pub mod site_order;
pub mod sorting;
pub mod text;
pub mod theme;
pub mod worker;
pub mod yaml;
