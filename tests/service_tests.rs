use wdns::gateway::{connect_status, connect_target, is_proxy_header};
use wdns::resolver::{request_error, summarize_results};
use wdns::{Config, DnsRequest, DnsResult, LowLevelNetworkMonitor};

#[test]
fn test_default_config() {
    let config = Config::default();
    assert_eq!(config.bind_address, "0.0.0.0:9700");
    assert_eq!(config.dns_timeout_seconds, 10);
    assert_eq!(config.max_concurrent_resolutions, 100);
    assert_eq!(config.proxy_enabled, true);
    assert_eq!(config.proxy_bind_address, "0.0.0.0:9701");
}

#[test]
fn summary_counts_successes() {
    let results = vec![
        DnsResult::success("google.com".to_string(), vec!["1.2.3.4".to_string()]),
        DnsResult::failure("bad.example".to_string(), "no record".to_string()),
        DnsResult::timeout("slow.example".to_string()),
    ];
    let r = summarize_results(results);
    assert_eq!(r.total_resolved, 1);
    assert_eq!(r.total_errors, 2);
    assert_eq!(r.results[0].status, "success");
    assert_eq!(r.results[1].status, "error");
    assert_eq!(r.results[2].status, "timeout");
    assert_eq!(r.results[2].error.as_deref(), Some("DNS resolution timeout"));
}

#[test]
fn empty_request_is_refused() {
    let empty = DnsRequest { hosts: vec![] };
    assert_eq!(request_error(&empty).unwrap(), "No hosts provided");
    let one = DnsRequest { hosts: vec!["google.com".to_string()] };
    assert!(request_error(&one).is_none());
    let none = summarize_results(vec![]);
    assert_eq!((none.total_resolved, none.total_errors), (0, 0));
}

#[test]
fn connect_targets_and_statuses() {
    assert_eq!(connect_target("example.com", Some("8443")), "example.com:8443");
    assert_eq!(connect_target("example.com", None), "example.com:443");
    assert_eq!(connect_status(true, true), 200);
    assert_eq!(connect_status(true, false), 502);
    assert_eq!(connect_status(false, false), 400);
    assert!(is_proxy_header("proxy-connection"));
    assert!(is_proxy_header("proxy-authorization"));
    assert!(!is_proxy_header("host"));
}

#[test]
fn process_names_come_from_the_cache() {
    let mut m = LowLevelNetworkMonitor::new();
    assert_eq!(m.get_process_name(1), "Unknown");
    assert!(!m.cache_is_stale(5000));
    assert!(m.cache_is_stale(5001));
    m.update_process_cache(vec![(1, "launchd".to_string()), (42, "curl".to_string())], 7000);
    assert_eq!(m.get_process_name(42), "curl");
    assert_eq!(m.get_process_name(7), "Unknown");
    assert!(!m.cache_is_stale(9000));
    m.update_process_cache(vec![(5, "old".to_string()), (5, "new".to_string())], 9000);
    assert_eq!(m.get_process_name(5), "new");
    assert_eq!(m.get_process_name(42), "Unknown");
}
