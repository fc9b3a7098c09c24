//! Reading the system hosts file into entries.
use vstd::prelude::*;
use crate::address::views_of_strings;
use crate::manifest::opt_view;
use crate::text::{
    chars_of, find_char, first_index_of, split_lines, split_words, strip_leading, strip_leading_chars,
    slice_chars, string_from_chars, trim, trim_chars, trim_start, trim_start_chars, words, lines,
};

verus! {

/// One mapping line of a hosts file.
#[derive(Clone, Debug)]
pub struct HostEntryPayload {
    pub ip: String,
    pub domains: Vec<String>,
    pub comment: Option<String>,
    /// False where the line is commented out.
    pub enabled: bool,
    /// The line as it stands in the file.
    pub raw: String,
}

/// A hosts file: where it was read from, and its mapping lines.
#[derive(Clone, Debug)]
pub struct HostFilePayload {
    pub source: String,
    pub entries: Vec<HostEntryPayload>,
}

pub open spec fn is_digit(c: char) -> bool {
    '0' <= c && c <= '9'
}

pub open spec fn is_hex(c: char) -> bool {
    is_digit(c) || ('a' <= c && c <= 'f') || ('A' <= c && c <= 'F')
}

pub open spec fn digit_value(c: char) -> nat {
    if c == '1' { 1 }
    else if c == '2' { 2 }
    else if c == '3' { 3 }
    else if c == '4' { 4 }
    else if c == '5' { 5 }
    else if c == '6' { 6 }
    else if c == '7' { 7 }
    else if c == '8' { 8 }
    else if c == '9' { 9 }
    else { 0 }
}

/// The number that a run of decimal digits writes.
pub open spec fn digits_value(s: Seq<char>) -> nat
    decreases s.len(),
{
    if s.len() == 0 {
        0
    } else {
        10 * digits_value(s.drop_last()) + digit_value(s.last())
    }
}

/// `p` is the text of a `u8` as `str::parse` reads it: an optional `+`,
/// then at least one decimal digit, worth at most 255.
pub open spec fn is_u8_text(p: Seq<char>) -> bool {
    let d = unsigned_part(p);
    &&& d.len() > 0
    &&& all_digits(d)
    &&& digits_value(d) <= 255
}

/// `p` without a leading `+`.
pub open spec fn unsigned_part(p: Seq<char>) -> Seq<char> {
    if p.len() > 0 && p[0] == '+' { p.drop_first() } else { p }
}

pub open spec fn all_digits(d: Seq<char>) -> bool {
    forall|i: int| 0 <= i < d.len() ==> is_digit(#[trigger] d[i])
}

pub open spec fn all_u8_texts(parts: Seq<Seq<char>>) -> bool {
    forall|i: int| 0 <= i < parts.len() ==> is_u8_text(#[trigger] parts[i])
}

/// The state of a split of `s` at each `sep`: finished pieces, current piece.
pub open spec fn split_state(s: Seq<char>, sep: char) -> (Seq<Seq<char>>, Seq<char>)
    decreases s.len(),
{
    if s.len() == 0 {
        (Seq::empty(), Seq::empty())
    } else {
        let (done, cur) = split_state(s.drop_last(), sep);
        if s.last() == sep { (done.push(cur), Seq::empty()) } else { (done, cur.push(s.last())) }
    }
}

/// The pieces of `s` between the `sep`s, empty ones included, as
/// `str::split` gives them.
pub open spec fn split_on(s: Seq<char>, sep: char) -> Seq<Seq<char>> {
    let (done, cur) = split_state(s, sep);
    done.push(cur)
}

/// Four dot-separated `u8`s.
pub open spec fn valid_ipv4(s: Seq<char>) -> bool {
    let parts = split_on(s, '.');
    parts.len() == 4 && all_u8_texts(parts)
}

/// How many non-overlapping `::` occur in `s`, counted from the left.
pub open spec fn double_colons(s: Seq<char>) -> nat
    decreases s.len(),
{
    if s.len() < 2 {
        0
    } else if s[0] == ':' && s[1] == ':' {
        1 + double_colons(s.subrange(2, s.len() as int))
    } else {
        double_colons(s.drop_first())
    }
}

/// Whether every group between colons is so far made of at most four hex
/// digits, and the length of the group being read.
pub open spec fn groups_state(s: Seq<char>) -> (bool, nat)
    decreases s.len(),
{
    if s.len() == 0 {
        (true, 0)
    } else {
        let (ok, run) = groups_state(s.drop_last());
        if s.last() == ':' { (ok, 0) } else { (ok && is_hex(s.last()) && run + 1 <= 4, run + 1) }
    }
}

/// Colon-separated groups of at most four hex digits, with at most one
/// `::`, and something besides colons.
pub open spec fn valid_ipv6(s: Seq<char>) -> bool {
    &&& double_colons(s) <= 1
    &&& exists|i: int| 0 <= i < s.len() && #[trigger] s[i] != ':'
    &&& groups_state(s).0
}

pub open spec fn valid_ip(s: Seq<char>) -> bool {
    valid_ipv4(s) || valid_ipv6(s)
}

fn is_digit_char(c: char) -> (r: bool)
    ensures
        r == is_digit(c),
{
    '0' <= c && c <= '9'
}

fn digit_val(c: char) -> (r: u64)
    ensures
        r as nat == digit_value(c),
        r <= 9,
{
    if c == '1' { 1 }
    else if c == '2' { 2 }
    else if c == '3' { 3 }
    else if c == '4' { 4 }
    else if c == '5' { 5 }
    else if c == '6' { 6 }
    else if c == '7' { 7 }
    else if c == '8' { 8 }
    else if c == '9' { 9 }
    else { 0 }
}

fn u8_text(p: &Vec<char>) -> (r: bool)
    ensures
        r == is_u8_text(p@),
{
    let start: usize = if p.len() > 0 && p[0] == '+' { 1 } else { 0 };
    let ghost d = unsigned_part(p@);
    assert(d =~= p@.subrange(start as int, p@.len() as int));
    if start == p.len() {
        return false;
    }
    let mut capped: u64 = 0;
    let mut i: usize = start;
    while i < p.len()
        invariant
            start <= i <= p@.len(),
            d == unsigned_part(p@),
            d == p@.subrange(start as int, p@.len() as int),
            forall|k: int| start <= k < i ==> is_digit(#[trigger] p@[k]),
            capped as nat == if digits_value(p@.subrange(start as int, i as int)) > 256 { 256 } else { digits_value(p@.subrange(start as int, i as int)) },
        decreases p@.len() - i,
    {
        if !is_digit_char(p[i]) {
            let ghost at = i as int - start as int;
            assert(d[at] == p@[i as int]);
            assert(!is_digit(d[at]));
            return false;
        }
        assert(p@.subrange(start as int, i + 1).drop_last() =~= p@.subrange(start as int, i as int));
        let v = capped * 10 + digit_val(p[i]);
        capped = if v > 256 { 256 } else { v };
        i += 1;
    }
    assert(p@.subrange(start as int, i as int) =~= d);
    capped <= 255
}

fn ipv4_chars(ip: &Vec<char>) -> (r: bool)
    ensures
        r == valid_ipv4(ip@),
{
    let mut done: Vec<Vec<char>> = Vec::new();
    let mut cur: Vec<char> = Vec::new();
    let mut i: usize = 0;
    while i < ip.len()
        invariant
            i <= ip@.len(),
            done@.len() == split_state(ip@.subrange(0, i as int), '.').0.len(),
            forall|k: int| 0 <= k < done@.len() ==> #[trigger] done@[k]@ == split_state(ip@.subrange(0, i as int), '.').0[k],
            cur@ == split_state(ip@.subrange(0, i as int), '.').1,
        decreases ip@.len() - i,
    {
        assert(ip@.subrange(0, i + 1).drop_last() =~= ip@.subrange(0, i as int));
        if ip[i] == '.' {
            done.push(cur);
            cur = Vec::new();
        } else {
            cur.push(ip[i]);
        }
        i += 1;
    }
    assert(ip@.subrange(0, ip@.len() as int) =~= ip@);
    done.push(cur);
    let ghost parts = split_on(ip@, '.');
    if done.len() != 4 {
        return false;
    }
    let mut j: usize = 0;
    while j < 4
        invariant
            j <= 4,
            done@.len() == 4,
            parts == split_on(ip@, '.'),
            parts.len() == 4,
            forall|k: int| 0 <= k < 4 ==> #[trigger] done@[k]@ == parts[k],
            forall|k: int| 0 <= k < j ==> is_u8_text(#[trigger] parts[k]),
        decreases 4 - j,
    {
        if !u8_text(&done[j]) {
            assert(done@[j as int]@ == parts[j as int]);
            assert(!is_u8_text(parts[j as int]));
            return false;
        }
        j += 1;
    }
    true
}

fn is_hex_char(c: char) -> (r: bool)
    ensures
        r == is_hex(c),
{
    ('0' <= c && c <= '9') || ('a' <= c && c <= 'f') || ('A' <= c && c <= 'F')
}

fn ipv6_chars(ip: &Vec<char>) -> (r: bool)
    ensures
        r == valid_ipv6(ip@),
{
    let n = ip.len();
    let mut count: usize = 0;
    let mut i: usize = 0;
    assert(ip@.subrange(0, n as int) =~= ip@);
    while i < n
        invariant
            n == ip@.len(),
            i <= n,
            count <= i,
            double_colons(ip@) == count + double_colons(ip@.subrange(i as int, n as int)),
        decreases n - i,
    {
        let ghost rest = ip@.subrange(i as int, n as int);
        if i + 1 < n && ip[i] == ':' && ip[i + 1] == ':' {
            assert(rest.subrange(2, rest.len() as int) =~= ip@.subrange(i + 2, n as int));
            count += 1;
            i += 2;
        } else {
            if i + 1 < n {
                assert(rest.drop_first() =~= ip@.subrange(i + 1, n as int));
            } else {
                assert(rest.len() < 2);
                assert(ip@.subrange(i + 1, n as int).len() == 0);
            }
            i += 1;
        }
    }
    assert(ip@.subrange(i as int, n as int).len() == 0);
    if count > 1 {
        return false;
    }
    let mut other = false;
    let mut ok = true;
    let mut run: usize = 0;
    let mut j: usize = 0;
    while j < n
        invariant
            n == ip@.len(),
            j <= n,
            run <= j,
            other <==> exists|k: int| 0 <= k < j && #[trigger] ip@[k] != ':',
            (ok, run as nat) == groups_state(ip@.subrange(0, j as int)),
        decreases n - j,
    {
        assert(ip@.subrange(0, j + 1).drop_last() =~= ip@.subrange(0, j as int));
        let c = ip[j];
        if c == ':' {
            run = 0;
        } else {
            other = true;
            ok = ok && is_hex_char(c) && run + 1 <= 4;
            run = run + 1;
        }
        j += 1;
    }
    assert(ip@.subrange(0, n as int) =~= ip@);
    other && ok
}

fn ip_chars(ip: &Vec<char>) -> (r: bool)
    ensures
        r == valid_ip(ip@),
{
    ipv4_chars(ip) || ipv6_chars(ip)
}

/// Whether `ip` is a dotted IPv4 address.
pub fn is_valid_ipv4(ip: &str) -> (r: bool)
    ensures
        r == valid_ipv4(ip@),
{
    ipv4_chars(&chars_of(ip))
}

/// Whether `ip` is a colon-separated IPv6 address, as `valid_ipv6` states.
pub fn is_valid_ipv6(ip: &str) -> (r: bool)
    ensures
        r == valid_ipv6(ip@),
{
    ipv6_chars(&chars_of(ip))
}

/// Whether `ip` is an IPv4 or IPv6 address.
pub fn is_valid_ip(ip: &str) -> (r: bool)
    ensures
        r == valid_ip(ip@),
{
    ip_chars(&chars_of(ip))
}

/// What a hosts line holds: address, names, comment, and whether it is
/// enabled.
pub type HostModel = (Seq<char>, Seq<Seq<char>>, Option<Seq<char>>, bool);

/// The mapping a hosts line holds, if any. A line may be commented out by
/// leading `#`s; a `#` after the names starts a comment; the first word must
/// be an address and at least one name must follow.
pub open spec fn host_line(line: Seq<char>) -> Option<HostModel> {
    let t = trim(line);
    if t.len() == 0 {
        None
    } else {
        let enabled = t[0] != '#';
        let rem = if enabled { t } else { trim_start(strip_leading(t, '#')) };
        let k = first_index_of(rem, '#') as int;
        let body = trim(rem.subrange(0, k));
        let comment = if k < rem.len() {
            let c = trim(rem.subrange(k + 1, rem.len() as int));
            if c.len() > 0 { Some(c) } else { None }
        } else {
            None
        };
        let toks = words(body);
        if rem.len() == 0 || body.len() == 0 || toks.len() == 0 {
            None
        } else if !valid_ip(toks[0]) || toks.len() < 2 {
            None
        } else {
            Some((toks[0], toks.subrange(1, toks.len() as int), comment, enabled))
        }
    }
}

/// `e` is the entry for `line`, whose mapping is `m`.
pub open spec fn entry_is(e: HostEntryPayload, m: HostModel, line: Seq<char>) -> bool {
    &&& e.ip@ == m.0
    &&& views_of_strings(e.domains@) == m.1
    &&& opt_view(e.comment) == m.2
    &&& e.enabled == m.3
    &&& e.raw@ == line
}

/// The entry of one hosts line, or none where it holds no mapping.
pub fn parse_host_line(line: &str) -> (r: Option<HostEntryPayload>)
    ensures
        r is None <==> host_line(line@) is None,
        r matches Some(e) ==> entry_is(e, host_line(line@).unwrap(), line@),
{
    let cs = chars_of(line);
    entry_of_chars(&cs)
}

fn entry_of_chars(cs: &Vec<char>) -> (r: Option<HostEntryPayload>)
    ensures
        r is None <==> host_line(cs@) is None,
        r matches Some(e) ==> entry_is(e, host_line(cs@).unwrap(), cs@),
{
    let t = trim_chars(cs);
    if t.len() == 0 {
        return None;
    }
    let enabled = t[0] != '#';
    let rem = if enabled { t } else { trim_start_chars(&strip_leading_chars(&t, '#')) };
    if rem.len() == 0 {
        return None;
    }
    let k = find_char(&rem, '#');
    let body = trim_chars(&slice_chars(&rem, 0, k));
    if body.len() == 0 {
        return None;
    }
    let comment = if k < rem.len() {
        let c = trim_chars(&slice_chars(&rem, k + 1, rem.len()));
        if c.len() > 0 { Some(string_from_chars(&c)) } else { None }
    } else {
        None
    };
    let toks = split_words(&body);
    if toks.len() == 0 {
        return None;
    }
    if !ip_chars(&toks[0]) || toks.len() < 2 {
        return None;
    }
    let ghost ws = words(body@);
    let mut domains: Vec<String> = Vec::new();
    let mut i: usize = 1;
    while i < toks.len()
        invariant
            1 <= i <= toks@.len(),
            toks@.len() == ws.len(),
            forall|k: int| 0 <= k < toks@.len() ==> #[trigger] toks@[k]@ == ws[k],
            domains@.len() == i - 1,
            forall|k: int| 0 <= k < i - 1 ==> #[trigger] domains@[k]@ == ws[k + 1],
        decreases toks@.len() - i,
    {
        domains.push(string_from_chars(&toks[i]));
        i += 1;
    }
    assert(views_of_strings(domains@) =~= ws.subrange(1, ws.len() as int));
    Some(HostEntryPayload {
        ip: string_from_chars(&toks[0]),
        domains,
        comment,
        enabled,
        raw: string_from_chars(cs),
    })
}

/// The mappings of a run of lines, each with its line.
pub open spec fn host_entries(ls: Seq<Seq<char>>) -> Seq<(HostModel, Seq<char>)>
    decreases ls.len(),
{
    if ls.len() == 0 {
        Seq::empty()
    } else {
        let before = host_entries(ls.drop_last());
        match host_line(ls.last()) {
            Some(m) => before.push((m, ls.last())),
            None => before,
        }
    }
}

/// The entries of a hosts file, one per line that holds a mapping, in order.
pub fn parse_hosts_file(content: &str) -> (r: Vec<HostEntryPayload>)
    ensures
        r@.len() == host_entries(lines(content@)).len(),
        forall|k: int| 0 <= k < r@.len() ==> entry_is(#[trigger] r@[k], host_entries(lines(content@))[k].0,
            host_entries(lines(content@))[k].1),
{
    let ls = split_lines(content);
    let ghost lv = lines(content@);
    let mut out: Vec<HostEntryPayload> = Vec::new();
    let mut i: usize = 0;
    while i < ls.len()
        invariant
            i <= ls@.len(),
            ls@.len() == lv.len(),
            forall|k: int| 0 <= k < ls@.len() ==> #[trigger] ls@[k]@ == lv[k],
            out@.len() == host_entries(lv.subrange(0, i as int)).len(),
            forall|k: int| 0 <= k < out@.len() ==> entry_is(#[trigger] out@[k], host_entries(lv.subrange(0, i as int))[k].0,
                host_entries(lv.subrange(0, i as int))[k].1),
        decreases ls@.len() - i,
    {
        assert(lv.subrange(0, i + 1).drop_last() =~= lv.subrange(0, i as int));
        assert(lv.subrange(0, i + 1).last() == ls@[i as int]@);
        match entry_of_chars(&ls[i]) {
            Some(e) => {
                out.push(e);
            },
            None => {},
        }
        i += 1;
    }
    assert(lv.subrange(0, lv.len() as int) =~= lv);
    out
}

} // verus!
