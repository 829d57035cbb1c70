//! The server's configuration.
use vstd::prelude::*;
use crate::error::ProxyError;

verus! {

/// Where the API server listens.
pub struct Config {
    /// The address to bind to, as `host:port`.
    pub bind: String,
}

impl Default for Config {
    /// Binds to `127.0.0.1:8000`.
    fn default() -> (c: Config)
        ensures
            c.bind@ == "127.0.0.1:8000"@,
    {
        Config { bind: "127.0.0.1:8000".to_owned() }
    }
}

impl ProxyError {
    /// The error for a bind address that does not parse, given the reason
    /// the address parser gave.
    pub fn invalid_bind_address(bind: &str, reason: &str) -> (e: ProxyError)
        ensures
            e matches ProxyError::Custom(m) && m@ == "Invalid bind address format ("@ + bind@
                + "): "@ + reason@,
    {
        ProxyError::Custom(
            "Invalid bind address format (".to_owned().concat(bind).concat("): ").concat(reason),
        )
    }
}

} // verus!
