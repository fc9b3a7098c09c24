//! Address resolution: which URLs the share can be reached at, and which of
//! them to show first.
use vstd::prelude::*;
use crate::text::{
    chars_of, contains_str, decimal, has_infix, has_prefix, lemma_lex_total, lex_less, lex_lt, chars_eq,
    push_decimal, push_str, starts_with, starts_with_chars, string_from_chars,
};

verus! {

/// A network address of this machine, as the interface list reports it.
#[derive(Clone, Debug)]
pub enum HostAddress {
    /// An IPv4 address, by its four octets.
    V4(u8, u8, u8, u8),
    /// An IPv6 address, in its textual form (without brackets).
    V6(String),
}

/// One address of one network interface.
#[derive(Clone, Debug)]
pub struct InterfaceAddress {
    pub host: HostAddress,
    pub loopback: bool,
}

/// How a host is written inside a URL.
pub open spec fn host_text(h: HostAddress) -> Seq<char> {
    match h {
        HostAddress::V4(a, b, c, d) => decimal(a as nat) + "."@ + decimal(b as nat) + "."@
            + decimal(c as nat) + "."@ + decimal(d as nat),
        HostAddress::V6(t) => "["@ + t@ + "]"@,
    }
}

/// `http://<host>:<port>`.
pub open spec fn url_of(host: Seq<char>, port: u16) -> Seq<char> {
    "http://"@ + host + ":"@ + decimal(port as nat)
}

/// The URL by host name of the local machine.
pub open spec fn localhost_url(port: u16) -> Seq<char> {
    url_of("localhost"@, port)
}

/// The URL by loopback address of the local machine.
pub open spec fn loopback_url(port: u16) -> Seq<char> {
    url_of("127.0.0.1"@, port)
}

/// The URL that interface address `a` contributes, if any: loopback
/// addresses contribute none.
pub open spec fn contributes(a: InterfaceAddress, u: Seq<char>, port: u16) -> bool {
    !a.loopback && u == url_of(host_text(a.host), port)
}

/// `u` is one of the URLs the share is reachable at.
pub open spec fn is_candidate(ifaces: Seq<InterfaceAddress>, port: u16, u: Seq<char>) -> bool {
    u == localhost_url(port) || u == loopback_url(port)
        || exists|i: int| 0 <= i < ifaces.len() && contributes(#[trigger] ifaces[i], u, port)
}

/// Each element sorts strictly before the next one.
pub open spec fn strictly_sorted(s: Seq<Seq<char>>) -> bool {
    forall|i: int| 0 <= i < s.len() - 1 ==> lex_lt(#[trigger] s[i], s[i + 1])
}

/// No element occurs twice.
pub open spec fn distinct(s: Seq<Seq<char>>) -> bool {
    forall|i: int, j: int| 0 <= i < j < s.len() ==> s[i] != s[j]
}

/// The character sequences held by a list of character vectors.
pub open spec fn views_of_chars(v: Seq<Vec<char>>) -> Seq<Seq<char>> {
    v.map_values(|c: Vec<char>| c@)
}

/// The character sequences held by a list of strings.
pub open spec fn views_of_strings(v: Seq<String>) -> Seq<Seq<char>> {
    v.map_values(|s: String| s@)
}

/// Appends the URL text for `host` and `port` to `out`.
fn push_url(out: &mut Vec<char>, host: &HostAddress, port: u16)
    ensures
        final(out)@ == old(out)@ + url_of(host_text(*host), port),
{
    push_str(out, "http://");
    match host {
        HostAddress::V4(a, b, c, d) => {
            push_decimal(out, *a as u128);
            push_str(out, ".");
            push_decimal(out, *b as u128);
            push_str(out, ".");
            push_decimal(out, *c as u128);
            push_str(out, ".");
            push_decimal(out, *d as u128);
        },
        HostAddress::V6(t) => {
            push_str(out, "[");
            push_str(out, t.as_str());
            push_str(out, "]");
        },
    }
    push_str(out, ":");
    push_decimal(out, port as u128);
    assert(out@ =~= old(out)@ + url_of(host_text(*host), port));
}

fn named_url(name: &str, port: u16) -> (r: Vec<char>)
    ensures
        r@ == url_of(name@, port),
{
    let mut out: Vec<char> = Vec::new();
    push_str(&mut out, "http://");
    push_str(&mut out, name);
    push_str(&mut out, ":");
    push_decimal(&mut out, port as u128);
    assert(out@ =~= url_of(name@, port));
    out
}

/// Adds `x` to a strictly sorted list, keeping it strictly sorted; a value
/// already present is not added again.
fn insert_sorted(list: &mut Vec<Vec<char>>, x: Vec<char>)
    requires
        strictly_sorted(views_of_chars(old(list)@)),
        distinct(views_of_chars(old(list)@)),
    ensures
        strictly_sorted(views_of_chars(final(list)@)),
        distinct(views_of_chars(final(list)@)),
        forall|u: Seq<char>| #[trigger] views_of_chars(final(list)@).contains(u)
            <==> (views_of_chars(old(list)@).contains(u) || u == x@),
{
    let ghost old_v = views_of_chars(list@);
    let mut j: usize = 0;
    while j < list.len()
        invariant
            list@ == old(list)@,
            old_v == views_of_chars(list@),
            strictly_sorted(old_v),
            distinct(old_v),
            j <= list@.len(),
            forall|k: int| 0 <= k < j ==> list@[k]@ != x@,
        decreases list@.len() - j,
    {
        if chars_eq(&list[j], &x) {
            assert(old_v[j as int] == x@);
            assert(old_v.contains(x@));
            return;
        }
        j += 1;
    }
    let mut i: usize = 0;
    while i < list.len() && !lex_less(&x, &list[i])
        invariant
            list@ == old(list)@,
            old_v == views_of_chars(list@),
            i <= list@.len(),
            forall|k: int| 0 <= k < list@.len() ==> list@[k]@ != x@,
            forall|k: int| 0 <= k < i ==> lex_lt(list@[k]@, x@),
        decreases list@.len() - i,
    {
        proof {
            lemma_lex_total(list@[i as int]@, x@);
        }
        i += 1;
    }
    list.insert(i, x);
    let ghost new_v = views_of_chars(list@);
    assert(new_v =~= old_v.insert(i as int, x@));
    assert forall|k: int| 0 <= k < new_v.len() - 1 implies lex_lt(#[trigger] new_v[k], new_v[k + 1]) by {
        if k < i - 1 {
            assert(new_v[k] == old_v[k] && new_v[k + 1] == old_v[k + 1]);
        } else if k == i - 1 {
        } else if k == i {
        } else {
            assert(new_v[k] == old_v[k - 1] && new_v[k + 1] == old_v[k]);
        }
    }
    assert forall|u: Seq<char>| #[trigger] new_v.contains(u) <==> (old_v.contains(u) || u == x@) by {
        if new_v.contains(u) {
            let k = choose|k: int| 0 <= k < new_v.len() && new_v[k] == u;
            if k < i {
                assert(old_v[k] == u);
            } else if k > i {
                assert(old_v[k - 1] == u);
            }
        }
        if old_v.contains(u) {
            let k = choose|k: int| 0 <= k < old_v.len() && old_v[k] == u;
            if k < i {
                assert(new_v[k] == u);
            } else {
                assert(new_v[k + 1] == u);
            }
        }
        if u == x@ {
            assert(new_v[i as int] == u);
        }
    }
}

/// The URLs at which a server on `port` can be reached: the two loopback
/// forms, plus one per non-loopback interface address, deduplicated and in
/// sorted order. An empty interface list (enumeration failed or found
/// nothing) leaves the two loopback forms.
pub fn resolve_addresses(port: u16, interfaces: &Vec<InterfaceAddress>) -> (r: Vec<String>)
    ensures
        strictly_sorted(views_of_strings(r@)),
        distinct(views_of_strings(r@)),
        forall|u: Seq<char>| #[trigger] views_of_strings(r@).contains(u)
            <==> is_candidate(interfaces@, port, u),
{
    let mut list: Vec<Vec<char>> = Vec::new();
    assert(views_of_chars(list@) =~= Seq::<Seq<char>>::empty());
    insert_sorted(&mut list, named_url("localhost", port));
    insert_sorted(&mut list, named_url("127.0.0.1", port));
    let mut i: usize = 0;
    while i < interfaces.len()
        invariant
            i <= interfaces@.len(),
            strictly_sorted(views_of_chars(list@)),
            distinct(views_of_chars(list@)),
            forall|u: Seq<char>| #[trigger] views_of_chars(list@).contains(u)
                <==> (u == localhost_url(port) || u == loopback_url(port)
                    || exists|k: int| 0 <= k < i && contributes(#[trigger] interfaces@[k], u, port)),
        decreases interfaces@.len() - i,
    {
        let iface = &interfaces[i];
        if !iface.loopback {
            let mut url: Vec<char> = Vec::new();
            push_url(&mut url, &iface.host, port);
            insert_sorted(&mut list, url);
        }
        proof {
            assert forall|u: Seq<char>| #[trigger] views_of_chars(list@).contains(u)
                <==> (u == localhost_url(port) || u == loopback_url(port)
                    || exists|k: int| 0 <= k < i + 1 && contributes(#[trigger] interfaces@[k], u, port)) by {
                if exists|k: int| 0 <= k < i + 1 && contributes(#[trigger] interfaces@[k], u, port) {
                    let k = choose|k: int| 0 <= k < i + 1 && contributes(#[trigger] interfaces@[k], u, port);
                    if k < i {
                        assert(exists|k: int| 0 <= k < i && contributes(#[trigger] interfaces@[k], u, port));
                    }
                }
            }
        }
        i += 1;
    }
    let mut out: Vec<String> = Vec::new();
    let mut j: usize = 0;
    while j < list.len()
        invariant
            j <= list@.len(),
            out@.len() == j,
            forall|k: int| 0 <= k < j ==> #[trigger] out@[k]@ == list@[k]@,
        decreases list@.len() - j,
    {
        out.push(string_from_chars(&list[j]));
        j += 1;
    }
    assert(views_of_strings(out@) =~= views_of_chars(list@));
    out
}

/// `u` names a private-range IPv4 host (10/8, 172.16/12, 192.168/16).
pub open spec fn is_private_v4_url(u: Seq<char>) -> bool {
    has_prefix(u, "http://10."@) || has_prefix(u, "http://192.168."@)
        || exists|d: nat| 16 <= d <= 31 && #[trigger] has_prefix(u, "http://172."@ + decimal(d) + "."@)
}

/// `u` names the local machine through a loopback form.
pub open spec fn is_loopback_url(u: Seq<char>) -> bool {
    has_infix(u, "127.0.0.1"@) || has_infix(u, "localhost"@)
}

/// Whether `u` names a private-range IPv4 host.
pub fn is_private_url(u: &Vec<char>) -> (r: bool)
    ensures
        r == is_private_v4_url(u@),
{
    if starts_with(u, "http://10.") || starts_with(u, "http://192.168.") {
        return true;
    }
    let mut d: u128 = 16;
    while d <= 31
        invariant
            16 <= d <= 32,
            forall|e: nat| 16 <= e < d ==> !#[trigger] has_prefix(u@, "http://172."@ + decimal(e) + "."@),
        decreases 32 - d,
    {
        let mut pre: Vec<char> = Vec::new();
        push_str(&mut pre, "http://172.");
        push_decimal(&mut pre, d);
        push_str(&mut pre, ".");
        if starts_with_chars(u, &pre) {
            assert(pre@ =~= "http://172."@ + decimal(d as nat) + "."@);
            return true;
        }
        assert(pre@ =~= "http://172."@ + decimal(d as nat) + "."@);
        d += 1;
    }
    false
}

/// `r` is the URL to show first among `a`: the first private-range IPv4
/// URL; failing that, the first URL that is not a loopback form; failing
/// that, the loopback URL.
pub open spec fn is_primary_choice(a: Seq<Seq<char>>, port: u16, r: Seq<char>) -> bool {
    &&& (exists|i: int| 0 <= i < a.len() && is_private_v4_url(#[trigger] a[i]))
        ==> (exists|i: int| 0 <= i < a.len() && r == a[i] && is_private_v4_url(#[trigger] a[i])
            && forall|j: int| 0 <= j < i ==> !is_private_v4_url(#[trigger] a[j]))
    &&& (forall|i: int| 0 <= i < a.len() ==> !is_private_v4_url(#[trigger] a[i]))
        && (exists|i: int| 0 <= i < a.len() && !is_loopback_url(#[trigger] a[i]))
        ==> (exists|i: int| 0 <= i < a.len() && r == a[i] && !is_loopback_url(#[trigger] a[i])
            && forall|j: int| 0 <= j < i ==> is_loopback_url(#[trigger] a[j]))
    &&& (forall|i: int| 0 <= i < a.len() ==> !is_private_v4_url(#[trigger] a[i]) && is_loopback_url(a[i]))
        ==> r == loopback_url(port)
}

/// The URL to show first among `addresses`, as `is_primary_choice` states.
pub fn choose_primary(addresses: &Vec<String>, port: u16) -> (r: String)
    ensures
        is_primary_choice(views_of_strings(addresses@), port, r@),
{
    let ghost a = views_of_strings(addresses@);
    let mut i: usize = 0;
    while i < addresses.len()
        invariant
            a == views_of_strings(addresses@),
            i <= addresses@.len(),
            forall|j: int| 0 <= j < i ==> !is_private_v4_url(#[trigger] a[j]),
        decreases addresses@.len() - i,
    {
        let u = chars_of(addresses[i].as_str());
        assert(a[i as int] == u@);
        if is_private_url(&u) {
            return addresses[i].clone();
        }
        i += 1;
    }
    let mut i: usize = 0;
    while i < addresses.len()
        invariant
            a == views_of_strings(addresses@),
            i <= addresses@.len(),
            forall|j: int| 0 <= j < a.len() ==> !is_private_v4_url(#[trigger] a[j]),
            forall|j: int| 0 <= j < i ==> is_loopback_url(#[trigger] a[j]),
        decreases addresses@.len() - i,
    {
        let u = chars_of(addresses[i].as_str());
        assert(a[i as int] == u@);
        if !contains_str(&u, "127.0.0.1") && !contains_str(&u, "localhost") {
            return addresses[i].clone();
        }
        i += 1;
    }
    let fallback = named_url("127.0.0.1", port);
    string_from_chars(&fallback)
}

/// Whatever the interfaces report, the loopback URL is among the resolved
/// addresses.
pub proof fn lemma_loopback_always_listed(port: u16, interfaces: Seq<InterfaceAddress>, r: Seq<String>)
    requires
        forall|u: Seq<char>| #[trigger] views_of_strings(r).contains(u)
            <==> is_candidate(interfaces, port, u),
    ensures
        views_of_strings(r).contains(loopback_url(port)),
{
    assert(is_candidate(interfaces, port, loopback_url(port)));
}

} // verus!
