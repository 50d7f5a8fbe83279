//! Verified core of an OpenSearch connector.

pub mod catalog;
pub mod conduct;
pub mod config;
pub mod http;
pub mod json;
pub mod laws;
pub mod output;
pub mod request;
pub mod secrecy;
pub mod server;
pub mod session;
pub mod text;
