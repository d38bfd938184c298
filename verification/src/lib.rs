pub mod bridge;
pub mod context_tree;
pub mod error;
pub mod pattern;
pub mod query;
pub mod registry;
pub mod selector;
pub mod service;
pub mod text;
