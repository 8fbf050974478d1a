//! A rule-driven traffic-routing gateway: hostname patterns decide whether a
//! connection goes direct or through an upstream proxy, and the SOCKS5 and
//! DNS wire formats that the gateway speaks are handled here as plain data.

pub mod pattern;
pub mod text;
pub mod registry;
pub mod dns;
pub mod intercept;
pub mod socks5;
pub mod routing;
pub mod config;
pub mod resolver;
pub mod monitor;
pub mod gateway;

pub use config::Config;
pub use intercept::{InterceptedConnection, InterceptionLog, InterceptionStatus};
pub use monitor::{ConnectionEvent, LowLevelNetworkMonitor, NetworkConnection};
pub use registry::{ProxyConfig, ProxyManager, ProxyRule, ProxyType};
pub use resolver::{DnsRequest, DnsResponse, DnsResult};
pub use socks5::{Socks5Client, Socks5ServerSession};
