//! Classifying this machine's network addresses and interfaces, and
//! collecting proxy endpoints.
use vstd::prelude::*;
use crate::text::{chars_of, contains_str, has_infix, str_eq};

verus! {

/// What kind of network an address belongs to.
#[derive(Clone, Copy, Debug, PartialEq, Eq, Structural)]
pub enum AddressCategory {
    Loopback,
    Private,
    LinkLocal,
    Global,
}

/// The category of an IPv4 address, by its octets: loopback is 127/8,
/// private is 10/8, 172.16/12 and 192.168/16, link-local is 169.254/16.
pub open spec fn ipv4_category(o: Seq<u8>) -> AddressCategory {
    let a = o[0];
    let b = o[1];
    if a == 127 {
        AddressCategory::Loopback
    } else if a == 10 || (a == 172 && 16 <= b <= 31) || (a == 192 && b == 168) {
        AddressCategory::Private
    } else if a == 169 && b == 254 {
        AddressCategory::LinkLocal
    } else {
        AddressCategory::Global
    }
}

/// The category of the IPv4 address with octets `o`.
pub fn categorize_ipv4(o: &[u8; 4]) -> (r: AddressCategory)
    ensures
        r == ipv4_category(o@),
{
    let a = o[0];
    let b = o[1];
    if a == 127 {
        AddressCategory::Loopback
    } else if a == 10 || (a == 172 && 16 <= b && b <= 31) || (a == 192 && b == 168) {
        AddressCategory::Private
    } else if a == 169 && b == 254 {
        AddressCategory::LinkLocal
    } else {
        AddressCategory::Global
    }
}

/// The category of an IPv6 address, by its eight segments: `::1` and `::`
/// count as loopback, `fc00::/7` is private, `fe80::/10` is link-local.
pub open spec fn ipv6_category(s: Seq<u16>) -> AddressCategory {
    let zero_head = s[0] == 0 && s[1] == 0 && s[2] == 0 && s[3] == 0 && s[4] == 0 && s[5] == 0 && s[6] == 0;
    if zero_head && (s[7] == 1 || s[7] == 0) {
        AddressCategory::Loopback
    } else if s[0] & 0xfe00u16 == 0xfc00u16 {
        AddressCategory::Private
    } else if s[0] & 0xffc0u16 == 0xfe80u16 {
        AddressCategory::LinkLocal
    } else {
        AddressCategory::Global
    }
}

/// The category of the IPv6 address with segments `s`.
pub fn categorize_ipv6(s: &[u16; 8]) -> (r: AddressCategory)
    ensures
        r == ipv6_category(s@),
{
    let zero_head = s[0] == 0 && s[1] == 0 && s[2] == 0 && s[3] == 0 && s[4] == 0 && s[5] == 0 && s[6] == 0;
    if zero_head && (s[7] == 1 || s[7] == 0) {
        AddressCategory::Loopback
    } else if s[0] & 0xfe00u16 == 0xfc00u16 {
        AddressCategory::Private
    } else if s[0] & 0xffc0u16 == 0xfe80u16 {
        AddressCategory::LinkLocal
    } else {
        AddressCategory::Global
    }
}

/// What `str::to_lowercase` makes of a string.
pub uninterp spec fn lowercase_of(s: Seq<char>) -> Seq<char>;

/// Relies on `str::to_lowercase`: the Unicode lowercase mapping of each
/// character, which depends on the characters alone.
#[verifier::external_body]
fn lowercase(s: &str) -> (r: String)
    ensures
        r@ == lowercase_of(s@),
{
    s.to_lowercase()
}

/// The name fragments that mark a tunnel or proxy interface.
pub open spec fn vpn_markers() -> Seq<Seq<char>> {
    seq![
        "tun"@, "tap"@, "ppp"@, "vpn"@, "utun"@, "wg"@, "tailscale"@, "zerotier"@, "nebula"@,
        "clash"@, "proxy"@, "warp"@, "surge"@, "v2ray"@, "trojan"@, "shadow"@,
    ]
}

/// `name` holds one of the markers.
pub open spec fn has_vpn_marker(name: Seq<char>) -> bool {
    exists|i: int| 0 <= i < vpn_markers().len() && has_infix(name, #[trigger] vpn_markers()[i])
}

/// Whether an interface name, already lowercased, holds a VPN marker.
pub fn is_vpn_name(lower: &str) -> (r: bool)
    ensures
        r == has_vpn_marker(lower@),
{
    let name = chars_of(lower);
    let markers: [&str; 16] = [
        "tun", "tap", "ppp", "vpn", "utun", "wg", "tailscale", "zerotier", "nebula", "clash", "proxy",
        "warp", "surge", "v2ray", "trojan", "shadow",
    ];
    assert(markers@.map_values(|m: &str| m@) =~= vpn_markers());
    let mut i: usize = 0;
    while i < 16
        invariant
            i <= 16,
            name@ == lower@,
            markers@.map_values(|m: &str| m@) == vpn_markers(),
            forall|k: int| 0 <= k < i ==> !has_infix(lower@, #[trigger] vpn_markers()[k]),
        decreases 16 - i,
    {
        assert(markers@.map_values(|m: &str| m@)[i as int] == markers@[i as int]@);
        if contains_str(&name, markers[i]) {
            return true;
        }
        i += 1;
    }
    false
}

/// Whether an interface name looks like a tunnel or proxy interface: its
/// lowercase form holds one of the markers.
pub fn looks_like_vpn(name: &str) -> (r: bool)
    ensures
        r == has_vpn_marker(lowercase_of(name@)),
{
    let lower = lowercase(name);
    is_vpn_name(lower.as_str())
}

/// The protocol a proxy speaks.
#[derive(Clone, Copy, Debug, PartialEq, Eq, Structural)]
pub enum ProxyProtocol {
    Http,
    Https,
    Socks5,
}

impl ProxyProtocol {
    /// The URL scheme under which the proxy is reached.
    pub open spec fn scheme_text(self) -> Seq<char> {
        match self {
            ProxyProtocol::Http | ProxyProtocol::Https => "http"@,
            ProxyProtocol::Socks5 => "socks5h"@,
        }
    }

    /// The URL scheme under which the proxy is reached.
    pub fn scheme(self) -> (r: &'static str)
        ensures
            r@ == self.scheme_text(),
    {
        match self {
            ProxyProtocol::Http | ProxyProtocol::Https => "http",
            ProxyProtocol::Socks5 => "socks5h",
        }
    }
}

/// A proxy found in the environment or the system settings.
#[derive(Clone, Debug)]
pub struct ProxyEndpoint {
    pub protocol: ProxyProtocol,
    pub host: String,
    pub port: u16,
    /// Where it was found.
    pub source: String,
}

/// `e` is the endpoint `protocol://host:port`, wherever it was found.
pub open spec fn same_endpoint(e: ProxyEndpoint, protocol: ProxyProtocol, host: Seq<char>, port: u16) -> bool {
    e.protocol == protocol && e.host@ == host && e.port == port
}

/// Adds an endpoint, unless one with the same protocol, host and port is
/// already listed.
pub fn push_endpoint(endpoints: &mut Vec<ProxyEndpoint>, protocol: ProxyProtocol, host: String, port: u16, source: &str)
    ensures
        (exists|k: int| 0 <= k < old(endpoints)@.len() && same_endpoint(#[trigger] old(endpoints)@[k], protocol, host@, port))
            ==> final(endpoints)@ == old(endpoints)@,
        !(exists|k: int| 0 <= k < old(endpoints)@.len() && same_endpoint(#[trigger] old(endpoints)@[k], protocol, host@, port))
            ==> final(endpoints)@.len() == old(endpoints)@.len() + 1
            && final(endpoints)@.subrange(0, old(endpoints)@.len() as int) == old(endpoints)@
            && same_endpoint(final(endpoints)@.last(), protocol, host@, port)
            && final(endpoints)@.last().source@ == source@,
{
    let mut i: usize = 0;
    while i < endpoints.len()
        invariant
            endpoints@ == old(endpoints)@,
            i <= endpoints@.len(),
            forall|k: int| 0 <= k < i ==> !same_endpoint(#[trigger] endpoints@[k], protocol, host@, port),
        decreases endpoints@.len() - i,
    {
        let e = &endpoints[i];
        if e.protocol == protocol && str_eq(e.host.as_str(), host.as_str()) && e.port == port {
            return;
        }
        i += 1;
    }
    let mut src = String::new();
    src.append(source);
    endpoints.push(ProxyEndpoint { protocol, host, port, source: src });
    assert(endpoints@.subrange(0, old(endpoints)@.len() as int) =~= old(endpoints)@);
}

} // verus!
