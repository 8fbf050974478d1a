use wdns::pattern::{matches_pattern, rule_matches};
use wdns::routing::{routing_hostname, synthetic_hostname};
use wdns::socks5::IpAddress;
use wdns::{ProxyManager, ProxyType};

fn manager_with_two_rules() -> (ProxyManager, u32, u32) {
    let mut m = ProxyManager::default();
    m.global_enabled = true;
    let a = m.add_proxy("A".to_string(), "10.1.1.1".to_string(), 1080, ProxyType::Socks5);
    let b = m.add_proxy("B".to_string(), "10.2.2.2".to_string(), 1081, ProxyType::Socks5);
    m.add_rule("rule1".to_string(), "10.0.0.*".to_string(), a);
    m.add_rule("rule2".to_string(), "*".to_string(), b);
    (m, a, b)
}

#[test]
fn pattern_examples() {
    assert!(matches_pattern("*.x.com", "a.x.com"));
    assert!(matches_pattern("10.0.0.*", "10.0.0.5"));
    assert!(matches_pattern("a*b", "aXXb"));
    assert!(!matches_pattern("a*b", "aXXc"));
    assert!(matches_pattern("example.com", "example.com"));
    assert!(!matches_pattern("example.com", "example.org"));
    assert!(!matches_pattern("a*b*c", "abc"));
}

#[test]
fn wildcard_suffix_also_matches_the_bare_domain() {
    // The suffix after `*.` is compared as is, so the bare domain ends with it.
    assert!(matches_pattern("*.x.com", "x.com"));
    assert!(!matches_pattern("*.x.com", "y.com"));
}

#[test]
fn pattern_is_case_sensitive() {
    assert!(!matches_pattern("*.X.com", "a.x.com"));
}

#[test]
fn multi_pattern_matches_either_piece() {
    assert!(rule_matches("*.x.com;10.0.0.*", "a.x.com"));
    assert!(rule_matches("*.x.com;10.0.0.*", "10.0.0.7"));
    assert!(!rule_matches("*.x.com;10.0.0.*", "8.8.8.8"));
    assert!(rule_matches(" *.x.com ; 10.0.0.* ", "10.0.0.7"));
    assert!(!rule_matches(";;", ""));
    assert!(rule_matches("\u{3000}a.b\t", "a.b"));
}

#[test]
fn disabled_routing_resolves_nothing() {
    let (mut m, _, _) = manager_with_two_rules();
    m.set_global_enabled(false);
    assert!(m.resolve("10.0.0.5").is_none());
    assert!(m.resolve("8.8.8.8").is_none());
}

#[test]
fn first_matching_rule_wins() {
    let (m, a, b) = manager_with_two_rules();
    assert_eq!(m.resolve("10.0.0.5").unwrap().id, a);
    assert_eq!(m.resolve("8.8.8.8").unwrap().id, b);
    assert_eq!(m.resolve("8.8.8.8").unwrap().name, "B");
}

#[test]
fn removing_a_proxy_removes_its_rules() {
    let mut m = ProxyManager::default();
    m.global_enabled = true;
    let a = m.add_proxy("A".to_string(), "10.1.1.1".to_string(), 1080, ProxyType::Socks5);
    m.add_rule("rule1".to_string(), "10.0.0.*".to_string(), a);
    assert!(m.resolve("10.0.0.5").is_some());
    assert!(m.remove_proxy(a));
    assert!(m.rules.is_empty());
    assert!(m.resolve("10.0.0.5").is_none());
    assert!(!m.remove_proxy(a));
}

#[test]
fn disabled_proxy_stops_resolution() {
    let (mut m, a, _) = manager_with_two_rules();
    for p in m.proxies.iter_mut() {
        if p.id == a {
            p.enabled = false;
        }
    }
    assert!(m.resolve("10.0.0.5").is_none());
    assert!(m.resolve("8.8.8.8").is_some());
}

#[test]
fn missing_proxy_stops_resolution() {
    let mut m = ProxyManager::default();
    m.global_enabled = true;
    let b = m.add_proxy("B".to_string(), "h".to_string(), 1, ProxyType::Socks5);
    m.add_rule("dangling".to_string(), "*.x.com".to_string(), 99);
    m.add_rule("all".to_string(), "*".to_string(), b);
    assert!(m.resolve("a.x.com").is_none());
    assert_eq!(m.resolve("b.y.com").unwrap().id, b);
}

#[test]
fn ids_are_never_reused() {
    let mut m = ProxyManager::default();
    let a = m.add_proxy("A".to_string(), "h".to_string(), 1, ProxyType::Http);
    assert!(m.remove_proxy(a));
    let b = m.add_proxy("B".to_string(), "h".to_string(), 1, ProxyType::Socks4);
    assert_eq!(a, 1);
    assert_eq!(b, 2);
    let r1 = m.add_rule("r".to_string(), "*".to_string(), b);
    let r2 = m.add_rule("s".to_string(), "*".to_string(), b);
    assert_eq!((r1, r2), (1, 2));
    assert!(m.remove_rule(r1));
    assert!(!m.remove_rule(r1));
    assert_eq!(m.rules.len(), 1);
    assert_eq!(m.rules[0].id, r2);
}

#[test]
fn disabled_rule_is_skipped() {
    let (mut m, _, b) = manager_with_two_rules();
    m.rules[0].enabled = false;
    assert_eq!(m.resolve("10.0.0.5").unwrap().id, b);
}

#[test]
fn empty_registry_resolves_nothing() {
    let mut m = ProxyManager::default();
    m.global_enabled = true;
    assert!(m.resolve("anything").is_none());
}

#[test]
fn proxy_type_names() {
    assert_eq!(ProxyType::Socks5.name(), "SOCKS5");
    assert_eq!(ProxyType::Http.name(), "HTTP");
    assert_eq!(ProxyType::Socks4.name(), "SOCKS4");
    assert_eq!(ProxyType::default(), ProxyType::Socks5);
}

#[test]
fn routing_names_of_addresses() {
    assert_eq!(synthetic_hostname(&IpAddress::V4([127, 0, 0, 1])).unwrap(), "localhost");
    assert_eq!(synthetic_hostname(&IpAddress::V4([10, 0, 0, 5])).unwrap(), "private-10.0.0.5");
    assert_eq!(synthetic_hostname(&IpAddress::V4([172, 16, 3, 4])).unwrap(), "private-172.16.3.4");
    assert_eq!(synthetic_hostname(&IpAddress::V4([192, 168, 0, 136])).unwrap(), "private-192.168.0.136");
    assert_eq!(synthetic_hostname(&IpAddress::V4([100, 64, 1, 2])).unwrap(), "100.64.1.2");
    assert!(synthetic_hostname(&IpAddress::V4([172, 32, 0, 1])).is_none());
    let mut v6 = [0u8; 16];
    v6[15] = 1;
    assert_eq!(synthetic_hostname(&IpAddress::V6(v6)).unwrap(), "localhost");
    assert_eq!(routing_hostname(&IpAddress::V4([8, 8, 8, 8]), None, ""), "8.8.8.8");
    assert_eq!(
        routing_hostname(&IpAddress::V4([8, 8, 4, 4]), Some("dns.google".to_string()), ""),
        "dns.google"
    );
    v6[0] = 0x20;
    v6[1] = 0x01;
    assert_eq!(routing_hostname(&IpAddress::V6(v6), None, "2001::1"), "2001::1");
}

#[test]
fn connection_routing_uses_the_routing_name() {
    let mut m = ProxyManager::default();
    m.global_enabled = true;
    let a = m.add_proxy("A".to_string(), "h".to_string(), 1, ProxyType::Socks5);
    m.add_rule("private".to_string(), "private-10.*".to_string(), a);
    let hit = m.get_proxy_for_connection(&IpAddress::V4([10, 1, 2, 3]), None, "");
    assert_eq!(hit.unwrap().id, a);
    assert!(m.get_proxy_for_connection(&IpAddress::V4([11, 1, 2, 3]), None, "").is_none());
}
