use vstd::prelude::*;

verus! {

/// The API port used when none is configured.
pub const DEFAULT_API_PORT: u16 = 8080;

/// The port allowed by CORS when none is configured.
pub const DEFAULT_CORS_ALLOW_PORT: u16 = 3000;

/// Where the HTTP API listens and which local port it lets call it.
#[derive(Debug, Clone, Copy, PartialEq, Eq)]
pub struct Config {
    pub api_port: u16,
    pub cors_allow_port: u16,
}

impl Config {
    /// The configuration from the configured ports, each falling back to
    /// its default when it is not configured.
    pub fn from_ports(api_port: Option<u16>, cors_allow_port: Option<u16>) -> (res: Self)
        ensures
            res.api_port == (match api_port {
                Some(p) => p,
                None => DEFAULT_API_PORT,
            }),
            res.cors_allow_port == (match cors_allow_port {
                Some(p) => p,
                None => DEFAULT_CORS_ALLOW_PORT,
            }),
    {
        let api_port = match api_port {
            Some(p) => p,
            None => DEFAULT_API_PORT,
        };
        let cors_allow_port = match cors_allow_port {
            Some(p) => p,
            None => DEFAULT_CORS_ALLOW_PORT,
        };
        Config { api_port, cors_allow_port }
    }
}

} // verus!
