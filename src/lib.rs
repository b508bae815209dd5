//! Resilience core of a media dashboard: a time-aware response cache, a
//! per-client token-bucket rate limiter and a retry-with-backoff policy.
use vstd::prelude::*;
use vstd::string::StringExecFns;

pub mod error;
pub mod retry;
pub mod status;
pub mod rate_limiter;
pub mod eviction;
pub mod tmdb;
pub mod omdb;
pub mod store;
pub mod cache;
pub mod laws;
pub mod timestamp;
pub mod headers;
pub mod config;
pub mod media;
pub mod order;

pub use cache::{CacheFile, CacheManager, CacheType, CachedItem};
pub use config::{RateLimitConfig, ServerConfig};
pub use error::Error;
pub use headers::{SecurityHeaders, SecurityHeadersLayer};
pub use media::MediaRequest;
pub use omdb::{OMDBResponse, Rating};
pub use rate_limiter::{RateLimiter, TokenBucket};
pub use retry::{RetryConfig, RetryStep};
pub use tmdb::TVShowDetails;

verus! {

/// Where the page templates live: beside the sources in a debug build, under
/// `dist` in a release build.
pub fn get_template_path(debug_build: bool) -> (r: String)
    ensures
        r@ == (if debug_build {
            "templates"@
        } else {
            "dist/templates"@
        }),
{
    if debug_build {
        String::from_str("templates")
    } else {
        String::from_str("dist/templates")
    }
}

} // verus!
