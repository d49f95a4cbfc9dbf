//! A programmable reverse proxy.

pub mod text;
pub mod strmap;
pub mod base64;
pub mod digest;
pub mod uuid;
pub mod json;
pub mod http;
pub mod config;
pub mod upstream;
pub mod lua;
pub mod handler;
pub mod admin;
pub mod watcher;
pub mod tls;
