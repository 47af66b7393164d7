//! A caching proxy core: route matching, a TTL cache over `moka`, ETag
//! handling and the request-processing decisions of the server.

pub mod text;
pub mod cache;
pub mod route;
pub mod config;
pub mod server;
pub mod etag;
pub mod origin;
pub mod cdn_service;
pub mod cache_service;
pub mod admin;
pub mod cli;
pub mod http;
