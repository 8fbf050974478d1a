use vstd::prelude::*;

use crate::pattern::same_text;

verus! {

/// The port a CONNECT request goes to when its authority names none.
pub open spec fn default_connect_port() -> Seq<char> {
    "443"@
}

/// The `host:port` that a CONNECT request asks for; the port is 443 when
/// the authority names none.
pub fn connect_target(host: &str, port: Option<&str>) -> (r: String)
    ensures
        r@ == host@ + ":"@ + match port {
            Some(p) => p@,
            None => default_connect_port(),
        },
{
    let s = String::from_str(host).concat(":");
    match port {
        Some(p) => s.concat(p),
        None => s.concat("443"),
    }
}

/// The status a CONNECT request is answered with: 200 once the target is
/// connected, 502 when it could not be reached, 400 when the request names
/// no target.
pub fn connect_status(has_target: bool, connected: bool) -> (r: u16)
    ensures
        !has_target ==> r == 400,
        has_target && connected ==> r == 200,
        has_target && !connected ==> r == 502,
{
    if !has_target {
        400
    } else if connected {
        200
    } else {
        502
    }
}

/// Whether a header is one that belongs to this proxy hop and is removed
/// before a request is forwarded.
pub fn is_proxy_header(name: &str) -> (r: bool)
    ensures
        r == (name@ == "proxy-connection"@ || name@ == "proxy-authorization"@),
{
    same_text(name, "proxy-connection") || same_text(name, "proxy-authorization")
}

} // verus!
