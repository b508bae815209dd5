use vstd::prelude::*;
use vstd::string::StringExecFns;

verus! {

/// Errors that the library reports; each carries a human-readable message.
#[derive(Debug)]
pub enum Error {
    Cache(String),
    Config(String),
    CSRF(String),
    Request(String),
    Parse(String),
    Api(String),
    Jellyseerr(String),
}

/// The message of an error: what kind it is, then its own words.
pub open spec fn error_message(e: Error) -> Seq<char> {
    match e {
        Error::Cache(m) => "Cache error: "@ + m@,
        Error::Config(m) => "Configuration error: "@ + m@,
        Error::CSRF(m) => "CSRF error: "@ + m@,
        Error::Request(m) => "Request error: "@ + m@,
        Error::Parse(m) => "Parse error: "@ + m@,
        Error::Api(m) => "API error: "@ + m@,
        Error::Jellyseerr(m) => "Jellyseerr error: "@ + m@,
    }
}

impl Error {
    /// The text shown for the error.
    pub fn message(&self) -> (r: String)
        ensures
            r@ == error_message(*self),
    {
        match self {
            Error::Cache(m) => String::from_str("Cache error: ").concat(m.as_str()),
            Error::Config(m) => String::from_str("Configuration error: ").concat(m.as_str()),
            Error::CSRF(m) => String::from_str("CSRF error: ").concat(m.as_str()),
            Error::Request(m) => String::from_str("Request error: ").concat(m.as_str()),
            Error::Parse(m) => String::from_str("Parse error: ").concat(m.as_str()),
            Error::Api(m) => String::from_str("API error: ").concat(m.as_str()),
            Error::Jellyseerr(m) => String::from_str("Jellyseerr error: ").concat(m.as_str()),
        }
    }
}

/// A request must carry a non-empty CSRF token header.
pub fn validate_csrf_token(token: Option<&[u8]>) -> (r: Result<(), Error>)
    ensures
        token is None ==> (r matches Err(Error::CSRF(m)) && m@ == "Missing CSRF token"@),
        token matches Some(t) && t@.len() == 0 ==> (r matches Err(Error::CSRF(m)) && m@
            == "Empty CSRF token received"@),
        token matches Some(t) && t@.len() > 0 ==> r is Ok,
{
    match token {
        Some(t) => if t.len() == 0 {
            Err(Error::CSRF(String::from_str("Empty CSRF token received")))
        } else {
            Ok(())
        },
        None => Err(Error::CSRF(String::from_str("Missing CSRF token"))),
    }
}

} // verus!
