use vstd::prelude::*;

verus! {

/// Settings of the service: where its HTTP API and its HTTP proxy listen,
/// and how DNS lookups are bounded.
#[derive(Debug, Clone)]
pub struct Config {
    pub bind_address: String,
    pub dns_timeout_seconds: u64,
    pub max_concurrent_resolutions: usize,
    pub proxy_enabled: bool,
    pub proxy_bind_address: String,
}

impl Default for Config {
    /// API on 0.0.0.0:9700, proxy on 0.0.0.0:9701 and enabled, ten-second
    /// lookups, at most 100 at once.
    fn default() -> (r: Self)
        ensures
            r.bind_address@ == "0.0.0.0:9700"@,
            r.dns_timeout_seconds == 10,
            r.max_concurrent_resolutions == 100,
            r.proxy_enabled,
            r.proxy_bind_address@ == "0.0.0.0:9701"@,
    {
        Config {
            bind_address: String::from_str("0.0.0.0:9700"),
            dns_timeout_seconds: 10,
            max_concurrent_resolutions: 100,
            proxy_enabled: true,
            proxy_bind_address: String::from_str("0.0.0.0:9701"),
        }
    }
}

} // verus!
