//! A web application firewall for GraphQL: what it inspects in a request, what it decides, and what
//! it takes out of a response.
pub mod config;
pub mod cost;
pub mod document;
pub mod graphql_security;
pub mod inlining;
pub mod introspection;
pub mod json;
pub mod limits;
pub mod probe;
pub mod proxy;
pub mod request;
pub mod suggestions;
pub mod text;
pub mod upstream;
pub mod variables;

pub use proxy::{resolve_worker_threads, WafMode};
