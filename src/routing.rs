use vstd::prelude::*;

use crate::dns::{extract_domain_from_dns_packet, packet_domain};
use crate::intercept::InterceptionStatus;
use crate::registry::{resolve_spec, ProxyConfig, ProxyManager};
use crate::socks5::{IpAddress, SocketAddress};
use crate::text::{decimal, push_char, push_decimal};

verus! {

/// An IPv4 address in dotted decimal.
pub open spec fn dotted(o: Seq<u8>) -> Seq<char> {
    decimal(o[0] as nat) + seq!['.'] + decimal(o[1] as nat) + seq!['.'] + decimal(o[2] as nat)
        + seq!['.'] + decimal(o[3] as nat)
}

/// 10.0.0.0/8, 172.16.0.0/12 or 192.168.0.0/16.
pub open spec fn is_private_v4(o: Seq<u8>) -> bool {
    o[0] == 10u8 || (o[0] == 172u8 && 16u8 <= o[1] && o[1] <= 31u8) || (o[0] == 192u8 && o[1]
        == 168u8)
}

/// 100.64.0.0/10, the carrier-grade NAT range.
pub open spec fn is_shared_v4(o: Seq<u8>) -> bool {
    o[0] == 100u8 && 64u8 <= o[1] && o[1] <= 127u8
}

/// `::1`.
pub open spec fn is_loopback_v6(o: Seq<u8>) -> bool {
    forall|i: int| 0 <= i < 16 ==> o[i] == (if i == 15 { 1u8 } else { 0u8 })
}

/// The name under which a destination address is matched against the
/// rules, when the address alone decides it: loopback is `localhost`, a
/// private IPv4 address is `private-a.b.c.d`, a carrier-grade NAT address is
/// written as is. Any other address needs a reverse lookup.
pub open spec fn synthetic_name(ip: IpAddress) -> Option<Seq<char>> {
    match ip {
        IpAddress::V4(o) => if o@[0] == 127u8 {
            Some("localhost"@)
        } else if is_private_v4(o@) {
            Some("private-"@ + dotted(o@))
        } else if is_shared_v4(o@) {
            Some(dotted(o@))
        } else {
            None
        },
        IpAddress::V6(o) => if is_loopback_v6(o@) {
            Some("localhost"@)
        } else {
            None
        },
    }
}

/// The name under which a destination is matched: the synthetic name if
/// there is one, else the reverse-lookup result, else the address as text
/// (`ipv6_text` gives it for IPv6).
pub open spec fn routing_name(ip: IpAddress, reverse: Option<String>, ipv6_text: Seq<char>) -> Seq<
    char,
> {
    match synthetic_name(ip) {
        Some(n) => n,
        None => match reverse {
            Some(r) => r@,
            None => match ip {
                IpAddress::V4(o) => dotted(o@),
                IpAddress::V6(_) => ipv6_text,
            },
        },
    }
}

/// An IPv4 address in dotted decimal.
pub fn dotted_text(o: &[u8; 4]) -> (r: String)
    ensures
        r@ == dotted(o@),
{
    let mut s = String::new();
    push_decimal(&mut s, o[0]);
    push_char(&mut s, '.');
    push_decimal(&mut s, o[1]);
    push_char(&mut s, '.');
    push_decimal(&mut s, o[2]);
    push_char(&mut s, '.');
    push_decimal(&mut s, o[3]);
    assert(s@ =~= dotted(o@));
    s
}

fn is_loopback_octets_v6(o: &[u8; 16]) -> (r: bool)
    ensures
        r == is_loopback_v6(o@),
{
    let mut i: usize = 0;
    while i < 15
        invariant
            i <= 15,
            forall|j: int| 0 <= j < i ==> o@[j] == 0u8,
        decreases 15 - i,
    {
        if o[i] != 0 {
            return false;
        }
        i += 1;
    }
    o[15] == 1
}

/// The name under which the address alone routes, if it does.
pub fn synthetic_hostname(ip: &IpAddress) -> (r: Option<String>)
    ensures
        r matches Some(s) ==> synthetic_name(*ip) == Some(s@),
        r is None ==> synthetic_name(*ip) is None,
{
    match ip {
        IpAddress::V4(o) => {
            if o[0] == 127 {
                Some(String::from_str("localhost"))
            } else if o[0] == 10 || (o[0] == 172 && 16 <= o[1] && o[1] <= 31) || (o[0] == 192 && o[1]
                == 168) {
                let s = String::from_str("private-");
                let t = dotted_text(o);
                Some(s.concat(t.as_str()))
            } else if o[0] == 100 && 64 <= o[1] && o[1] <= 127 {
                Some(dotted_text(o))
            } else {
                None
            }
        },
        IpAddress::V6(o) => {
            if is_loopback_octets_v6(o) {
                Some(String::from_str("localhost"))
            } else {
                None
            }
        },
    }
}

/// Whether routing this address needs a reverse lookup.
pub fn needs_reverse_lookup(ip: &IpAddress) -> (r: bool)
    ensures
        r == synthetic_name(*ip).is_none(),
{
    synthetic_hostname(ip).is_none()
}

/// The name under which a connection to `ip` is matched against the rules:
/// `localhost` for loopback, `private-a.b.c.d` for private IPv4 ranges, the
/// dotted address for carrier-grade NAT; otherwise the reverse-lookup
/// result, or failing that the address as text (`ipv6_text` for IPv6).
pub fn routing_hostname(ip: &IpAddress, reverse: Option<String>, ipv6_text: &str) -> (r: String)
    ensures
        r@ == routing_name(*ip, reverse, ipv6_text@),
{
    match synthetic_hostname(ip) {
        Some(n) => n,
        None => match reverse {
            Some(r) => r,
            None => match ip {
                IpAddress::V4(o) => dotted_text(o),
                IpAddress::V6(_) => String::from_str(ipv6_text),
            },
        },
    }
}

impl ProxyManager {
    /// The proxy for a connection to `ip`, matched under its routing name
    /// (see `routing_hostname`).
    pub fn get_proxy_for_connection(
        &self,
        ip: &IpAddress,
        reverse: Option<String>,
        ipv6_text: &str,
    ) -> (r: Option<ProxyConfig>)
        ensures
            r == resolve_spec(*self, routing_name(*ip, reverse, ipv6_text@)),
    {
        let name = routing_hostname(ip, reverse, ipv6_text);
        self.resolve(name.as_str())
    }
}

/// The upstream resolver that DNS queries are sent to: 8.8.8.8, port 53.
pub fn upstream_dns_server() -> (r: SocketAddress)
    ensures
        r.ip == IpAddress::V4([8u8, 8u8, 8u8, 8u8]),
        r.port == 53,
{
    SocketAddress { ip: IpAddress::V4([8u8, 8u8, 8u8, 8u8]), port: 53 }
}

/// What to do with one intercepted DNS query.
#[derive(Debug)]
pub enum DnsPlan {
    /// No domain could be read: the datagram is dropped.
    Ignore,
    /// Send the query upstream through this proxy.
    ViaProxy { domain: String, proxy: ProxyConfig },
    /// Send the query upstream directly.
    Direct { domain: String },
}

/// Decides the route of an intercepted DNS query: the queried domain is read
/// from the packet and resolved against the rules.
pub fn plan_dns_query(m: &ProxyManager, packet: &[u8]) -> (r: DnsPlan)
    ensures
        packet_domain(packet@) is None ==> r is Ignore,
        packet_domain(packet@) matches Some(d) ==> match resolve_spec(*m, d) {
            Some(p) => (r matches DnsPlan::ViaProxy { domain, proxy } && domain@ == d && proxy == p),
            None => (r matches DnsPlan::Direct { domain } && domain@ == d),
        },
{
    match extract_domain_from_dns_packet(packet) {
        None => DnsPlan::Ignore,
        Some(domain) => match m.resolve(domain.as_str()) {
            Some(proxy) => DnsPlan::ViaProxy { domain, proxy },
            None => DnsPlan::Direct { domain },
        },
    }
}

/// The status recorded for a DNS query once its plan has been carried out:
/// proxied or direct on success, failed otherwise.
pub fn dns_query_status(plan: &DnsPlan, succeeded: bool) -> (r: InterceptionStatus)
    ensures
        !succeeded ==> r == InterceptionStatus::Failed,
        succeeded && plan is ViaProxy ==> r == InterceptionStatus::Proxied,
        succeeded && plan is Direct ==> r == InterceptionStatus::Direct,
        succeeded && plan is Ignore ==> r == InterceptionStatus::Failed,
{
    if !succeeded {
        return InterceptionStatus::Failed;
    }
    match plan {
        DnsPlan::ViaProxy { .. } => InterceptionStatus::Proxied,
        DnsPlan::Direct { .. } => InterceptionStatus::Direct,
        DnsPlan::Ignore => InterceptionStatus::Failed,
    }
}

} // verus!
