//! A caching, format-transcoding reverse proxy for media assets.
//!
//! The library holds the request-handling pipeline: content negotiation,
//! the bounded response cache, the image conversion engine, and the
//! orchestration rules that tie fetch, conversion, caching and response
//! assembly together.  Server binding, configuration loading and the
//! HTTP client live outside the library.

pub mod chars;
pub mod cache;
pub mod config;
pub mod image;
pub mod proxy;
