//! A verified markdown rendering pipeline for a static-site generator.
//!
//! The library covers the content transformation core: abbreviation
//! extraction and substitution, anchor slug generation, table-of-contents
//! assembly, content-addressed caching of rendered output and highlighted
//! code fragments, and the HTML-producing render pass over a parsed
//! document tree.  Parsing, disk I/O and the highlighter channel live
//! outside; the library states exactly what it does with their results.

pub mod abbr;
pub mod cache;
pub mod error;
pub mod digest;
pub mod highlight;
pub mod pipeline;
pub mod render;
pub mod slug;
pub mod toc;
pub mod text;
pub mod view;
