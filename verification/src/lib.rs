//! Plans the build of a cargo workspace: works out, for each crate that the workspace depends
//! on, what its build file has to say.
#![allow(unused_imports)]

pub mod contents;
pub mod context;
pub mod contexts;
pub mod dependencies;
pub mod error;
pub mod fetcher;
pub mod graph;
pub mod laws;
pub mod license;
pub mod metadata;
pub mod order;
pub mod planner;
pub mod platform;
pub mod requests;
pub mod settings;
pub mod string_map;
pub mod targets;
pub mod text;
pub mod vendor;
