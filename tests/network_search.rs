use lanshare::netinfo::{
    categorize_ipv4, categorize_ipv6, is_vpn_name, looks_like_vpn, push_endpoint, AddressCategory,
    ProxyEndpoint, ProxyProtocol,
};
use lanshare::search::{
    check_time_ranges, effective_limit, into_hit, normalize_path, parse_additional_locations,
    HitMetadata, SearchRangeError,
};

#[test]
fn ipv4_categories() {
    assert_eq!(categorize_ipv4(&[127, 0, 0, 1]), AddressCategory::Loopback);
    assert_eq!(categorize_ipv4(&[10, 1, 2, 3]), AddressCategory::Private);
    assert_eq!(categorize_ipv4(&[172, 16, 0, 1]), AddressCategory::Private);
    assert_eq!(categorize_ipv4(&[172, 31, 255, 1]), AddressCategory::Private);
    assert_eq!(categorize_ipv4(&[172, 32, 0, 1]), AddressCategory::Global);
    assert_eq!(categorize_ipv4(&[192, 168, 1, 1]), AddressCategory::Private);
    assert_eq!(categorize_ipv4(&[169, 254, 3, 4]), AddressCategory::LinkLocal);
    assert_eq!(categorize_ipv4(&[8, 8, 8, 8]), AddressCategory::Global);
}

#[test]
fn ipv6_categories() {
    assert_eq!(categorize_ipv6(&[0, 0, 0, 0, 0, 0, 0, 1]), AddressCategory::Loopback);
    assert_eq!(categorize_ipv6(&[0, 0, 0, 0, 0, 0, 0, 0]), AddressCategory::Loopback);
    assert_eq!(categorize_ipv6(&[0xfd12, 0, 0, 0, 0, 0, 0, 1]), AddressCategory::Private);
    assert_eq!(categorize_ipv6(&[0xfe80, 0, 0, 0, 0, 0, 0, 1]), AddressCategory::LinkLocal);
    assert_eq!(categorize_ipv6(&[0x2001, 0xdb8, 0, 0, 0, 0, 0, 1]), AddressCategory::Global);
}

#[test]
fn vpn_names() {
    assert!(looks_like_vpn("utun3"));
    assert!(looks_like_vpn("Tailscale0"));
    assert!(looks_like_vpn("WG-home"));
    assert!(!looks_like_vpn("eth0"));
    assert!(!looks_like_vpn("en0"));
    assert!(is_vpn_name("my-proxy"));
    assert!(!is_vpn_name("WG"));
}

#[test]
fn proxy_schemes() {
    assert_eq!(ProxyProtocol::Http.scheme(), "http");
    assert_eq!(ProxyProtocol::Https.scheme(), "http");
    assert_eq!(ProxyProtocol::Socks5.scheme(), "socks5h");
}

#[test]
fn endpoints_are_deduplicated() {
    let mut endpoints: Vec<ProxyEndpoint> = Vec::new();
    push_endpoint(&mut endpoints, ProxyProtocol::Http, "127.0.0.1".to_string(), 7890, "env:HTTP_PROXY");
    push_endpoint(&mut endpoints, ProxyProtocol::Http, "127.0.0.1".to_string(), 7890, "env:http_proxy");
    push_endpoint(&mut endpoints, ProxyProtocol::Https, "127.0.0.1".to_string(), 7890, "env:HTTPS_PROXY");
    push_endpoint(&mut endpoints, ProxyProtocol::Http, "127.0.0.1".to_string(), 7891, "mac:scutil");
    assert_eq!(endpoints.len(), 3);
    assert_eq!(endpoints[0].source, "env:HTTP_PROXY");
    assert_eq!(endpoints[1].protocol, ProxyProtocol::Https);
    assert_eq!(endpoints[2].port, 7891);
}

#[test]
fn limits_are_clamped() {
    assert_eq!(effective_limit(None), 200);
    assert_eq!(effective_limit(Some(0)), 1);
    assert_eq!(effective_limit(Some(50)), 50);
    assert_eq!(effective_limit(Some(5000)), 2000);
}

#[test]
fn time_ranges_are_checked() {
    assert_eq!(check_time_ranges(None, None, None, None), Ok(()));
    assert_eq!(check_time_ranges(Some(5), Some(3), None, None), Err(SearchRangeError::CreatedRange));
    assert_eq!(check_time_ranges(Some(3), Some(5), Some(9), Some(1)), Err(SearchRangeError::ModifiedRange));
    assert_eq!(check_time_ranges(Some(3), Some(3), Some(1), Some(9)), Ok(()));
}

#[test]
fn locations_are_trimmed_and_deduplicated() {
    assert_eq!(normalize_path("  /tmp/x  ").as_deref(), Some("/tmp/x"));
    assert_eq!(normalize_path("   "), None);
    let typed = vec![
        " /data ".to_string(),
        "/home/me".to_string(),
        "".to_string(),
        "/data/".to_string(),
        "/srv".to_string(),
    ];
    let extra = parse_additional_locations(&typed, "/home/me");
    assert_eq!(extra, vec!["/data".to_string(), "/srv".to_string()]);
}

#[test]
fn hits_fall_back_to_path() {
    let hit = into_hit(
        "/tmp/a.txt".to_string(),
        Some("a.txt".to_string()),
        Some("/tmp".to_string()),
        Some(HitMetadata { is_dir: false, is_file: true, len: 42, modified: Some(7) }),
    );
    assert_eq!(hit.file_name, "a.txt");
    assert_eq!(hit.parent_dir, "/tmp");
    assert_eq!(hit.size, Some(42));
    assert_eq!(hit.modified, Some(7));
    let bare = into_hit("/".to_string(), None, None, None);
    assert_eq!(bare.file_name, "/");
    assert_eq!(bare.parent_dir, "/");
    assert!(!bare.is_dir);
    assert_eq!(bare.size, None);
}
