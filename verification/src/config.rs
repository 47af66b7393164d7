//! The server's configuration and its defaults.

use vstd::prelude::*;
use crate::text::copy_str;

verus! {

/// Where the admin socket is created when the configuration names none.
pub const DEFAULT_SOCKET_PATH: &'static str = "/tmp/fastcache.sock";

pub struct Config {
    pub server: ServerConfig,
    pub cache: CacheConfig,
    pub origins: Vec<OriginConfig>,
    pub rate_limit: RateLimitConfig,
    pub tls: Option<TlsConfig>,
}

pub struct ServerConfig {
    pub host: String,
    pub port: u16,
    pub admin_port: u16,
    pub socket: String,
}

pub struct CacheConfig {
    pub max_capacity: u64,
    pub default_ttl: u64,
}

pub struct RateLimitConfig {
    pub requests_per_second: u64,
    pub burst_size: u32,
}

pub struct TlsConfig {
    pub cert_path: String,
    pub key_path: String,
}

/// An origin: a local directory or a remote server, for the requests under
/// `path`, with the TTL its responses are cached for (0: not cached).
pub enum OriginConfig {
    Local { path: String, root: String, cache_ttl: u64 },
    Remote { path: String, url: String, cache_ttl: u64 },
}

/// The path prefix that an origin serves.
pub open spec fn origin_path(c: OriginConfig) -> Seq<char> {
    match c {
        OriginConfig::Local { path, .. } => path@,
        OriginConfig::Remote { path, .. } => path@,
    }
}

/// The TTL of an origin's responses.
pub open spec fn origin_ttl(c: OriginConfig) -> u64 {
    match c {
        OriginConfig::Local { cache_ttl, .. } => cache_ttl,
        OriginConfig::Remote { cache_ttl, .. } => cache_ttl,
    }
}

impl OriginConfig {
    pub fn path(&self) -> (r: &str)
        ensures
            r@ == origin_path(*self),
    {
        match self {
            OriginConfig::Local { path, .. } => path.as_str(),
            OriginConfig::Remote { path, .. } => path.as_str(),
        }
    }

    pub fn cache_ttl(&self) -> (r: u64)
        ensures
            r == origin_ttl(*self),
    {
        match self {
            OriginConfig::Local { cache_ttl, .. } => *cache_ttl,
            OriginConfig::Remote { cache_ttl, .. } => *cache_ttl,
        }
    }
}

pub fn default_admin_port() -> (r: u16)
    ensures
        r == 9090,
{
    9090
}

pub fn default_socket_path() -> (r: String)
    ensures
        r@ == DEFAULT_SOCKET_PATH@,
{
    copy_str(DEFAULT_SOCKET_PATH)
}

pub fn default_requests_per_second() -> (r: u64)
    ensures
        r == 100,
{
    100
}

pub fn default_burst_size() -> (r: u32)
    ensures
        r == 50,
{
    50
}

impl Default for RateLimitConfig {
    fn default() -> (r: Self)
        ensures
            r.requests_per_second == 100,
            r.burst_size == 50,
    {
        RateLimitConfig {
            requests_per_second: default_requests_per_second(),
            burst_size: default_burst_size(),
        }
    }
}

impl Default for Config {
    /// Serves `./public` for every path on `0.0.0.0:8080`.
    fn default() -> (r: Self)
        ensures
            r.server.host@ == "0.0.0.0"@,
            r.server.port == 8080,
            r.server.admin_port == 9090,
            r.server.socket@ == DEFAULT_SOCKET_PATH@,
            r.cache.max_capacity == 10000,
            r.cache.default_ttl == 3600,
            r.origins@.len() == 1,
            r.origins@[0] matches OriginConfig::Local { path, root, cache_ttl }
                && path@ == "/"@ && root@ == "./public"@ && cache_ttl == 3600,
            r.rate_limit.requests_per_second == 100,
            r.rate_limit.burst_size == 50,
            r.tls is None,
    {
        let mut origins: Vec<OriginConfig> = Vec::new();
        origins.push(OriginConfig::Local { path: copy_str("/"), root: copy_str("./public"), cache_ttl: 3600 });
        Config {
            server: ServerConfig {
                host: copy_str("0.0.0.0"),
                port: 8080,
                admin_port: default_admin_port(),
                socket: default_socket_path(),
            },
            cache: CacheConfig { max_capacity: 10000, default_ttl: 3600 },
            origins,
            rate_limit: RateLimitConfig::default(),
            tls: None,
        }
    }
}

} // verus!
