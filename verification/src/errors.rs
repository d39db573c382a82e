//! The library's error type.

use vstd::prelude::*;

verus! {

/// What can go wrong in the daemon, its importers and its rule handling.
/// Each variant carries a human-readable message.
#[derive(Debug)]
pub enum GiantError {
    ConfigError(String),
    CertError(String),
    ProxyError(String),
    RuleError(String),
    IoError(String),
    ApiError(String),
}

/// The text shown for an error: a prefix naming its kind, then its message.
pub open spec fn error_text(e: GiantError) -> Seq<char> {
    match e {
        GiantError::ConfigError(m) => "config error: "@ + m@,
        GiantError::CertError(m) => "cert error: "@ + m@,
        GiantError::ProxyError(m) => "proxy error: "@ + m@,
        GiantError::RuleError(m) => "rule error: "@ + m@,
        GiantError::IoError(m) => "io error: "@ + m@,
        GiantError::ApiError(m) => "api error: "@ + m@,
    }
}

impl GiantError {
    /// The error as text, as it is shown to the user.
    pub fn to_string(&self) -> (s: String)
        ensures
            s@ == error_text(*self),
    {
        let (prefix, msg) = match self {
            GiantError::ConfigError(m) => ("config error: ", m),
            GiantError::CertError(m) => ("cert error: ", m),
            GiantError::ProxyError(m) => ("proxy error: ", m),
            GiantError::RuleError(m) => ("rule error: ", m),
            GiantError::IoError(m) => ("io error: ", m),
            GiantError::ApiError(m) => ("api error: ", m),
        };
        let mut s = String::new();
        s.append(prefix);
        s.append(msg.as_str());
        s
    }
}

} // verus!
