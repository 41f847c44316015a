//! Core of a static site generator: marker filtering, page planning,
//! markdown rendering with highlighted code, and the site-wide artifacts.

pub mod text;
pub mod tags;
pub mod meta;
pub mod pages;
pub mod site;
pub mod digest;
pub mod sitemap;
pub mod markdown;
pub mod templates;
pub mod render;
pub mod config;
