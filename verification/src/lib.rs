//! A documentation-site generator's verified core: it reads structured
//! API-definition files (a software registry, entities, attributes,
//! endpoint descriptions), normalizes their permissive union-typed schema
//! into one canonical shape, merges the files into globally ordered
//! collections, validates every software reference against the registry,
//! and plans the title, path and navigation placement of every page.

pub mod collect;
pub mod laws;
pub mod model;
pub mod pages;
pub mod parse;
pub mod paths;
pub mod strutil;
pub mod toml_tree;
pub mod validate;
