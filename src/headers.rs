//! The security headers that every response carries.
use vstd::prelude::*;

verus! {

/// The (name, value) pairs set on every response, in the order they are set.
pub open spec fn security_header_pairs() -> Seq<(Seq<char>, Seq<char>)> {
    seq![
        ("X-Content-Type-Options"@, "nosniff"@),
        ("X-Frame-Options"@, "SAMEORIGIN"@),
        ("X-XSS-Protection"@, "1; mode=block"@),
        ("Content-Security-Policy"@, CONTENT_SECURITY_POLICY@),
        ("Referrer-Policy"@, "strict-origin-when-cross-origin"@),
        ("Cache-Control"@, "no-store, max-age=0"@),
    ]
}

/// Where the page may load its resources from.
pub const CONTENT_SECURITY_POLICY: &'static str =
    "default-src 'self'; script-src 'self' 'unsafe-inline'; style-src 'self' 'unsafe-inline'; img-src 'self' https://image.tmdb.org https:; connect-src 'self' https:;";

/// Adds the security headers to the responses of the service it wraps.
#[derive(Clone, Copy, Debug)]
pub struct SecurityHeadersLayer;

/// A service whose responses get the security headers.
#[derive(Clone, Debug)]
pub struct SecurityHeaders<S> {
    pub inner: S,
}

impl SecurityHeadersLayer {
    pub fn new() -> (r: Self) {
        SecurityHeadersLayer
    }

    /// Wraps `service`.
    pub fn layer<S>(&self, service: S) -> (r: SecurityHeaders<S>)
        ensures
            r.inner == service,
    {
        SecurityHeaders { inner: service }
    }
}

impl<S> SecurityHeaders<S> {
    /// The headers to set on each response, as (name, value).
    pub fn headers() -> (r: Vec<(&'static str, &'static str)>)
        ensures
            r@.len() == security_header_pairs().len(),
            forall|i: int|
                0 <= i < r@.len() ==> (#[trigger] r@[i]).0@ == security_header_pairs()[i].0
                    && r@[i].1@ == security_header_pairs()[i].1,
    {
        let mut r: Vec<(&'static str, &'static str)> = Vec::new();
        r.push(("X-Content-Type-Options", "nosniff"));
        r.push(("X-Frame-Options", "SAMEORIGIN"));
        r.push(("X-XSS-Protection", "1; mode=block"));
        r.push(("Content-Security-Policy", CONTENT_SECURITY_POLICY));
        r.push(("Referrer-Policy", "strict-origin-when-cross-origin"));
        r.push(("Cache-Control", "no-store, max-age=0"));
        r
    }
}

} // verus!
