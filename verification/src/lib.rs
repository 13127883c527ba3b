//! A caching gateway that composes package repositories on demand: the
//! meaning of request paths, the layout of the caches, and the order of the
//! steps that bring a cache entry into being.

pub mod action;
pub mod canonical;
pub mod cmdline;
pub mod composite;
pub mod config;
pub mod digest;
pub mod endpoint;
pub mod error;
pub mod fetch;
pub mod layout;
pub mod logging;
pub mod making;
pub mod pattern;
pub mod plan;
pub mod quote;
pub mod request;
pub mod shell;
pub mod text;
pub mod world;
