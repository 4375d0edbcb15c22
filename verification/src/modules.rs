//! Module definitions: named collections of articles defined by categories
//! (with depth) and explicit titles.

pub mod spec;
pub mod resolver;
pub mod store;
