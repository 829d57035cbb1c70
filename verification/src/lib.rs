//! A proxy server core: binding registry, HTTP header handling and upstream planning.
pub mod api;
pub mod config;
pub mod connection;
pub mod error;
pub mod headers;
pub mod health;
pub mod request;
pub mod scan;
pub mod text;
pub mod upstream;
