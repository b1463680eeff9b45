//! Content indexing and manifest-serving library.
//!
//! The library builds a manifest of a content tree (documents and images),
//! extracts frontmatter metadata, cross-references inline image embeds,
//! encodes compact perceptual image summaries and exact bitmap previews,
//! and serves the manifest through a caching query client.

pub mod bitmap;
pub mod client;
pub mod codec;
pub mod dates;
pub mod error;
pub mod frontmatter;
pub mod github;
pub mod images;
pub mod indexer;
pub mod models;
pub mod render;
pub mod text;
