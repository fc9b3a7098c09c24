use lanshare::clock::{current_timestamp_millis, timestamp_from_reading};
use lanshare::env::{display_path, parse_env_file, strip_inline_comment};
use lanshare::hosts::{is_valid_ip, is_valid_ipv4, is_valid_ipv6, parse_host_line, parse_hosts_file};

#[test]
fn host_line_basic() {
    let e = parse_host_line("127.0.0.1 localhost loopback # local names").unwrap();
    assert_eq!(e.ip, "127.0.0.1");
    assert_eq!(e.domains, vec!["localhost".to_string(), "loopback".to_string()]);
    assert_eq!(e.comment.as_deref(), Some("local names"));
    assert!(e.enabled);
    assert_eq!(e.raw, "127.0.0.1 localhost loopback # local names");
}

#[test]
fn host_line_disabled() {
    let e = parse_host_line("  ## 10.0.0.1\tintranet.example  ").unwrap();
    assert!(!e.enabled);
    assert_eq!(e.ip, "10.0.0.1");
    assert_eq!(e.domains, vec!["intranet.example".to_string()]);
    assert_eq!(e.comment, None);
}

#[test]
fn host_line_rejects() {
    assert!(parse_host_line("").is_none());
    assert!(parse_host_line("   ").is_none());
    assert!(parse_host_line("# just a comment").is_none());
    assert!(parse_host_line("#").is_none());
    assert!(parse_host_line("127.0.0.1").is_none());
    assert!(parse_host_line("300.1.1.1 bad.example").is_none());
    assert!(parse_host_line("# comment only #").is_none());
}

#[test]
fn hosts_file_lines() {
    let content = "# hosts\r\n127.0.0.1 localhost\r\n\r\n::1 localhost ip6-localhost\n#192.168.1.2 nas\nnot-an-ip name\n";
    let entries = parse_hosts_file(content);
    assert_eq!(entries.len(), 3);
    assert_eq!(entries[0].raw, "127.0.0.1 localhost");
    assert_eq!(entries[1].ip, "::1");
    assert_eq!(entries[1].domains.len(), 2);
    assert_eq!(entries[2].ip, "192.168.1.2");
    assert!(!entries[2].enabled);
}

#[test]
fn ip_validation() {
    assert!(is_valid_ipv4("192.168.0.1"));
    assert!(is_valid_ipv4("+1.02.003.255"));
    assert!(!is_valid_ipv4("256.1.1.1"));
    assert!(!is_valid_ipv4("1.1.1"));
    assert!(!is_valid_ipv4("1..1.1"));
    assert!(!is_valid_ipv4("1.1.1.+"));
    assert!(is_valid_ipv6("::1"));
    assert!(is_valid_ipv6("fe80::1ff:fe23:4567:890a"));
    assert!(!is_valid_ipv6("1::2::3"));
    assert!(!is_valid_ipv6(":::"));
    assert!(!is_valid_ipv6("12345::1"));
    assert!(!is_valid_ipv6("fe80::g"));
    assert!(is_valid_ip("10.0.0.1"));
    assert!(!is_valid_ip("example.com"));
}

#[test]
fn env_file_entries() {
    let content = "# profile\nexport PATH=\"/usr/bin:/bin\"\nEDITOR=vim # editor\n\nNAME='a # b'\n=novalue\nFLAG\n  export   \n";
    let entries = parse_env_file(content);
    assert_eq!(entries.len(), 5);
    assert_eq!(entries[0].key, "PATH");
    assert_eq!(entries[0].value, "/usr/bin:/bin");
    assert_eq!(entries[1].key, "EDITOR");
    assert_eq!(entries[1].value, "vim");
    assert_eq!(entries[2].key, "NAME");
    assert_eq!(entries[2].value, "a # b");
    assert_eq!(entries[3].key, "FLAG");
    assert_eq!(entries[3].value, "");
    assert_eq!(entries[4].key, "export");
}

#[test]
fn inline_comment_respects_quotes() {
    assert_eq!(strip_inline_comment("A=1 # c"), "A=1");
    assert_eq!(strip_inline_comment("A=\"x#y\" # c"), "A=\"x#y\"");
    assert_eq!(strip_inline_comment("A='it\"s' #"), "A='it\"s'");
    assert_eq!(strip_inline_comment("# all"), "");
}

#[test]
fn display_path_uses_tilde() {
    assert_eq!(display_path("/home/ann/.zshrc", "/home/ann"), "~/.zshrc");
    assert_eq!(display_path("/etc/environment", "/home/ann"), "/etc/environment");
    assert_eq!(display_path("/home/annex/.zshrc", "/home/ann"), "/home/annex/.zshrc");
    assert_eq!(display_path("/home/ann/.zshrc", ""), "/home/ann/.zshrc");
}

#[test]
fn timestamp_readings() {
    assert_eq!(timestamp_from_reading(Some(1_700_000_000_000)), 1_700_000_000_000);
    assert_eq!(timestamp_from_reading(None), 0);
    assert!(current_timestamp_millis() > 1_600_000_000_000);
}
