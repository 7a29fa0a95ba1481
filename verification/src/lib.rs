//! A verified core for a crate-documentation query service: a documentation
//! index built from an interface-description document, fuzzy search over the
//! indexed items, registry metadata resolution (versions, features, download
//! locators), and the TTL/LRU cache shared by those components.

pub mod cache;
pub mod config;
pub mod docmodel;
pub mod errors;
pub mod graph;
pub mod itemdoc;
pub mod pipeline;
pub mod registry;
pub mod search;
pub mod strutil;
