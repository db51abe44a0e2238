//! Export a GitHub discussion (metadata, comments, threaded replies) into a
//! self-contained Markdown document, optionally localizing embedded image
//! assets.
//!
//! The crate is organised around five components: the pagination fetcher that
//! reconstructs a complete, ordered discussion tree from a cursor-paged
//! GraphQL API; the asset reference scanner that finds first-party asset URLs
//! embedded in HTML or Markdown text; the downloader planning logic that
//! classifies transfer outcomes; the text transformer that rewrites asset
//! references to local paths without touching unrelated content; and the
//! document assembler that renders the tree as Markdown.

pub mod assets;
pub mod cli;
pub mod client;
pub mod error;
pub mod fetch;
pub mod graphql;
pub mod json;
pub mod models;
pub mod output;
pub mod progress;
pub mod text;
pub mod transform;
