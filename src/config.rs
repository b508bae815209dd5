//! Settings of the service that carry rules of their own.
use vstd::prelude::*;
use vstd::string::StringExecFns;

verus! {

/// Where the server listens.
#[derive(Clone, Debug)]
pub struct ServerConfig {
    pub host: String,
    pub port: u16,
}

/// The rate limit of inbound requests, per client.
#[derive(Clone, Copy, Debug, PartialEq, Eq, Structural)]
pub struct RateLimitConfig {
    pub requests_per_second: u32,
    pub burst_size: u32,
}

/// The settings are usable only with both API keys: the TMDB key is checked
/// first.
pub fn validate_api_keys(tmdb_api_key: &str, jellyseerr_api_key: &str) -> (r: Result<(), String>)
    ensures
        tmdb_api_key@.len() == 0 ==> (r matches Err(m) && m@ == "TMDB API key is required"@),
        tmdb_api_key@.len() != 0 && jellyseerr_api_key@.len() == 0 ==> (r matches Err(m) && m@
            == "Jellyseerr API key is required"@),
        tmdb_api_key@.len() != 0 && jellyseerr_api_key@.len() != 0 ==> r is Ok,
{
    if tmdb_api_key.is_empty() {
        return Err(String::from_str("TMDB API key is required"));
    }
    if jellyseerr_api_key.is_empty() {
        return Err(String::from_str("Jellyseerr API key is required"));
    }
    Ok(())
}

/// The service runs in development mode unless a run mode other than
/// `development` is set.
pub fn is_development_mode(run_mode: Option<&str>) -> (r: bool)
    ensures
        r == (match run_mode {
            Some(m) => m@ == "development"@,
            None => true,
        }),
{
    match run_mode {
        Some(m) => String::from_str(m) == String::from_str("development"),
        None => true,
    }
}

} // verus!
