//! Verified core of a small blog back end: front matter files, post and page
//! records, site settings kept in a TOML document, and admin sessions.

pub mod text;
pub mod front_matter;
pub mod toml_doc;
pub mod names;
pub mod content;
pub mod render;
pub mod post_list;
pub mod config;
pub mod session;
pub mod auth;
pub mod project;
pub mod site_build;
pub mod readback;
