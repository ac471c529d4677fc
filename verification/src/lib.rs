//! farthinder: a speed bump in front of package managers.

pub mod cert;
pub mod config;
pub mod headers;
pub mod install;
pub mod instant;
pub mod interceptor;
pub mod json;
pub mod laws;
pub mod listing;
pub mod number;
pub mod order;
pub mod paths;
pub mod printer;
pub mod proxy;
pub mod registry;
pub mod rule;
pub mod sandbox;
pub mod target;
pub mod text;
