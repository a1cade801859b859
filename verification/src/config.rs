//! Application configuration, as the request pipeline consumes it.
//!
//! Loading, validation and defaulting from files, flags and environment
//! happen outside the library; the pipeline only reads these values.

use vstd::prelude::*;
use vstd::string::StringExecFns;

verus! {

/// Server-side behaviour switches.
#[derive(Debug, Clone)]
pub struct ServerConfig {
    /// Custom Via header value.
    pub via_header: String,
    /// Preserve all headers from upstream.
    pub preserve_upstream_headers: bool,
    /// Accept a `format` query parameter as the format signal, for CDNs
    /// that cannot vary cached responses by request header.
    pub behind_cdn_query_override: bool,
}

/// Upstream server settings.
#[derive(Debug, Clone)]
pub struct UpstreamConfig {
    /// Upstream server URL.
    pub url: String,
    /// Timeout for upstream requests in seconds.
    pub timeout: u64,
}

/// Cache settings.
#[derive(Debug, Clone)]
pub struct CacheConfig {
    /// Maximum weighted (byte) capacity of the cache.
    pub max_capacity: u64,
    /// Time to live for cached items in seconds.
    pub ttl: u64,
    /// Maximum size of a cached item in bytes.
    pub max_item_size: u64,
}

/// Image processing settings.
#[derive(Debug, Clone)]
pub struct ImageConfig {
    /// Enable AVIF conversion.
    pub enable_avif: bool,
    /// Enable WebP conversion.
    pub enable_webp: bool,
    /// Encoding quality for conversions (1-100).
    pub quality: u8,
    /// Maximum image dimension for processing.
    pub max_dimension: u32,
}

/// Application configuration.
#[derive(Debug, Clone)]
pub struct Config {
    pub server: ServerConfig,
    pub upstream: UpstreamConfig,
    pub cache: CacheConfig,
    pub image: ImageConfig,
}

/// The configuration invariant on encoding quality: between one and a
/// hundred, inclusive.
pub fn valid_quality(quality: u8) -> (r: bool)
    ensures
        r == (1 <= quality <= 100),
{
    1 <= quality && quality <= 100
}

pub fn default_via_header() -> (r: String)
    ensures
        r@ == "akkoproxy/0.1.0"@,
{
    String::from_str("akkoproxy/0.1.0")
}

pub fn default_timeout() -> (r: u64)
    ensures
        r == 30,
{
    30
}

pub fn default_max_capacity() -> (r: u64)
    ensures
        r == 10000,
{
    10000
}

pub fn default_ttl() -> (r: u64)
    ensures
        r == 3600,
{
    3600
}

pub fn default_max_item_size() -> (r: u64)
    ensures
        r == 10485760,
{
    10485760
}

pub fn default_true() -> (r: bool)
    ensures
        r == true,
{
    true
}

pub fn default_quality() -> (r: u8)
    ensures
        r == 85,
{
    85
}

pub fn default_max_dimension() -> (r: u32)
    ensures
        r == 4096,
{
    4096
}

impl Default for ServerConfig {
    fn default() -> (r: Self)
        ensures
            r.via_header@ == "akkoproxy/0.1.0"@,
            r.preserve_upstream_headers == false,
            r.behind_cdn_query_override == false,
    {
        Self {
            via_header: default_via_header(),
            preserve_upstream_headers: false,
            behind_cdn_query_override: false,
        }
    }
}

impl Default for CacheConfig {
    fn default() -> (r: Self)
        ensures
            r.max_capacity == 10000,
            r.ttl == 3600,
            r.max_item_size == 10485760,
    {
        Self {
            max_capacity: default_max_capacity(),
            ttl: default_ttl(),
            max_item_size: default_max_item_size(),
        }
    }
}

impl Default for ImageConfig {
    fn default() -> (r: Self)
        ensures
            r.enable_avif == true,
            r.enable_webp == true,
            r.quality == 85,
            r.max_dimension == 4096,
    {
        Self {
            enable_avif: default_true(),
            enable_webp: default_true(),
            quality: default_quality(),
            max_dimension: default_max_dimension(),
        }
    }
}

impl Config {
    /// A default configuration pointed at the given upstream URL.
    pub fn with_upstream(upstream_url: String) -> (r: Self)
        ensures
            r.upstream.url@ == upstream_url@,
            r.upstream.timeout == 30,
            r.server.via_header@ == "akkoproxy/0.1.0"@,
            r.server.preserve_upstream_headers == false,
            r.server.behind_cdn_query_override == false,
            r.cache.max_capacity == 10000,
            r.cache.ttl == 3600,
            r.cache.max_item_size == 10485760,
            r.image.enable_avif == true,
            r.image.enable_webp == true,
            r.image.quality == 85,
            r.image.max_dimension == 4096,
    {
        Self {
            server: ServerConfig::default(),
            upstream: UpstreamConfig { url: upstream_url, timeout: default_timeout() },
            cache: CacheConfig::default(),
            image: ImageConfig::default(),
        }
    }
}

} // verus!
