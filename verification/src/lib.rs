//! Offline Wikipedia reader core: request governance, dump parsing, module
//! specs and the decisions of the service layer.

pub mod ai;
pub mod api;
pub mod config;
pub mod dump;
pub mod error;
pub mod modules;
pub mod search;
pub mod services;
pub mod text;
pub mod tier;
pub mod title;
