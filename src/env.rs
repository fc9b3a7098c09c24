//! Reading shell profile and environment files into key/value entries.
use vstd::prelude::*;
use crate::text::{
    chars_of, find_char, first_index_of, has_prefix, lines, push_chars, push_str, slice_chars,
    split_lines, starts_with, starts_with_chars, string_from_chars, trim, trim_chars,
};

verus! {

/// One variable assignment.
#[derive(Clone, Debug)]
pub struct EnvEntryPayload {
    pub key: String,
    pub value: String,
}

/// The assignments read from one source.
#[derive(Clone, Debug)]
pub struct EnvSourcePayload {
    pub source: String,
    pub entries: Vec<EnvEntryPayload>,
}

/// The state of a scan for an inline comment: the characters kept, whether
/// a single or a double quote is open, and whether a comment has begun.
pub open spec fn comment_state(s: Seq<char>) -> (Seq<char>, bool, bool, bool)
    decreases s.len(),
{
    if s.len() == 0 {
        (Seq::empty(), false, false, false)
    } else {
        let (kept, single, double, stopped) = comment_state(s.drop_last());
        let c = s.last();
        if stopped {
            (kept, single, double, stopped)
        } else if c == '\'' && !double {
            (kept.push(c), !single, double, false)
        } else if c == '"' && !single {
            (kept.push(c), single, !double, false)
        } else if c == '#' && !single && !double {
            (kept, single, double, true)
        } else {
            (kept.push(c), single, double, false)
        }
    }
}

/// `s` up to the first `#` outside quotes, trimmed.
pub open spec fn without_comment(s: Seq<char>) -> Seq<char> {
    trim(comment_state(s).0)
}

fn strip_comment_chars(s: &Vec<char>) -> (r: Vec<char>)
    ensures
        r@ == without_comment(s@),
{
    let mut kept: Vec<char> = Vec::new();
    let mut single = false;
    let mut double = false;
    let mut stopped = false;
    let mut i: usize = 0;
    while i < s.len()
        invariant
            i <= s@.len(),
            (kept@, single, double, stopped) == comment_state(s@.subrange(0, i as int)),
        decreases s@.len() - i,
    {
        assert(s@.subrange(0, i + 1).drop_last() =~= s@.subrange(0, i as int));
        let c = s[i];
        if !stopped {
            if c == '\'' && !double {
                single = !single;
                kept.push(c);
            } else if c == '"' && !single {
                double = !double;
                kept.push(c);
            } else if c == '#' && !single && !double {
                stopped = true;
            } else {
                kept.push(c);
            }
        }
        i += 1;
    }
    assert(s@.subrange(0, s@.len() as int) =~= s@);
    trim_chars(&kept)
}

/// `input` up to the first `#` that stands outside quotes, trimmed.
pub fn strip_inline_comment(input: &str) -> (r: String)
    ensures
        r@ == without_comment(input@),
{
    let cs = chars_of(input);
    string_from_chars(&strip_comment_chars(&cs))
}

pub open spec fn is_quote(c: char) -> bool {
    c == '"' || c == '\''
}

/// `s` without leading quote characters.
pub open spec fn unquote_start(s: Seq<char>) -> Seq<char>
    decreases s.len(),
{
    if s.len() > 0 && is_quote(s[0]) { unquote_start(s.drop_first()) } else { s }
}

/// `s` without trailing quote characters.
pub open spec fn unquote_end(s: Seq<char>) -> Seq<char>
    decreases s.len(),
{
    if s.len() > 0 && is_quote(s.last()) { unquote_end(s.drop_last()) } else { s }
}

fn unquote_chars(s: &Vec<char>) -> (r: Vec<char>)
    ensures
        r@ == unquote_end(unquote_start(s@)),
{
    let mut i: usize = 0;
    assert(s@.subrange(0, s@.len() as int) =~= s@);
    while i < s.len() && (s[i] == '"' || s[i] == '\'')
        invariant
            i <= s@.len(),
            unquote_start(s@) == unquote_start(s@.subrange(i as int, s@.len() as int)),
        decreases s@.len() - i,
    {
        assert(s@.subrange(i as int, s@.len() as int).drop_first() =~= s@.subrange(i + 1, s@.len() as int));
        i += 1;
    }
    let a = slice_chars(s, i, s.len());
    let mut j: usize = a.len();
    assert(a@.subrange(0, a@.len() as int) =~= a@);
    while j > 0 && (a[j - 1] == '"' || a[j - 1] == '\'')
        invariant
            j <= a@.len(),
            unquote_end(a@) == unquote_end(a@.subrange(0, j as int)),
        decreases j,
    {
        assert(a@.subrange(0, j as int).drop_last() =~= a@.subrange(0, j - 1));
        j -= 1;
    }
    slice_chars(&a, 0, j)
}

/// The assignment an environment-file line holds, if any: comments and
/// blank lines hold none; an `export ` prefix is dropped; the key is what
/// precedes the first `=`, the value what follows, trimmed and without
/// surrounding quotes.
pub open spec fn env_line(raw: Seq<char>) -> Option<(Seq<char>, Seq<char>)> {
    let t = trim(raw);
    let l = trim(if has_prefix(t, "export "@) { t.subrange("export "@.len() as int, t.len() as int) } else { t });
    let s = without_comment(l);
    let k = first_index_of(s, '=') as int;
    let key = trim(s.subrange(0, k));
    let value = if k < s.len() { trim(s.subrange(k + 1, s.len() as int)) } else { Seq::empty() };
    if t.len() == 0 || t[0] == '#' || l.len() == 0 || key.len() == 0 {
        None
    } else {
        Some((key, unquote_end(unquote_start(value))))
    }
}

fn entry_of_line(raw: &Vec<char>) -> (r: Option<EnvEntryPayload>)
    ensures
        r is None <==> env_line(raw@) is None,
        r matches Some(e) ==> (e.key@, e.value@) == env_line(raw@).unwrap(),
{
    let t = trim_chars(raw);
    if t.len() == 0 || t[0] == '#' {
        return None;
    }
    let l = if starts_with(&t, "export ") {
        let n = chars_of("export ").len();
        trim_chars(&slice_chars(&t, n, t.len()))
    } else {
        trim_chars(&t)
    };
    if l.len() == 0 {
        return None;
    }
    let s = strip_comment_chars(&l);
    let k = find_char(&s, '=');
    let key = trim_chars(&slice_chars(&s, 0, k));
    if key.len() == 0 {
        return None;
    }
    let value = if k < s.len() { trim_chars(&slice_chars(&s, k + 1, s.len())) } else { Vec::new() };
    let value = unquote_chars(&value);
    Some(EnvEntryPayload { key: string_from_chars(&key), value: string_from_chars(&value) })
}

/// The assignments of a run of lines, in order.
pub open spec fn env_entries(ls: Seq<Seq<char>>) -> Seq<(Seq<char>, Seq<char>)>
    decreases ls.len(),
{
    if ls.len() == 0 {
        Seq::empty()
    } else {
        let before = env_entries(ls.drop_last());
        match env_line(ls.last()) {
            Some(kv) => before.push(kv),
            None => before,
        }
    }
}

/// The assignments of an environment file, one per line that holds one, in
/// order.
pub fn parse_env_file(content: &str) -> (r: Vec<EnvEntryPayload>)
    ensures
        r@.len() == env_entries(lines(content@)).len(),
        forall|k: int| 0 <= k < r@.len() ==> (#[trigger] r@[k].key@, r@[k].value@) == env_entries(lines(content@))[k],
{
    let ls = split_lines(content);
    let ghost lv = lines(content@);
    let mut out: Vec<EnvEntryPayload> = Vec::new();
    let mut i: usize = 0;
    while i < ls.len()
        invariant
            i <= ls@.len(),
            ls@.len() == lv.len(),
            forall|k: int| 0 <= k < ls@.len() ==> #[trigger] ls@[k]@ == lv[k],
            out@.len() == env_entries(lv.subrange(0, i as int)).len(),
            forall|k: int| 0 <= k < out@.len() ==> (#[trigger] out@[k].key@, out@[k].value@) == env_entries(lv.subrange(0, i as int))[k],
        decreases ls@.len() - i,
    {
        assert(lv.subrange(0, i + 1).drop_last() =~= lv.subrange(0, i as int));
        assert(lv.subrange(0, i + 1).last() == ls@[i as int]@);
        match entry_of_line(&ls[i]) {
            Some(e) => {
                out.push(e);
            },
            None => {},
        }
        i += 1;
    }
    assert(lv.subrange(0, lv.len() as int) =~= lv);
    out
}

/// How a path is shown: under the home directory as `~/...`.
pub open spec fn shown_path(path: Seq<char>, home: Seq<char>) -> Seq<char> {
    let prefix = home + "/"@;
    if home.len() > 0 && has_prefix(path, prefix) {
        "~/"@ + path.subrange(prefix.len() as int, path.len() as int)
    } else {
        path
    }
}

/// `path`, with the home directory `home` written as `~`.
pub fn display_path(path: &str, home: &str) -> (r: String)
    ensures
        r@ == shown_path(path@, home@),
{
    let p = chars_of(path);
    if home.unicode_len() == 0 {
        return path.to_string();
    }
    let mut prefix = chars_of(home);
    push_str(&mut prefix, "/");
    let n = prefix.len();
    if !starts_with_chars(&p, &prefix) {
        return path.to_string();
    }
    assert(p@.subrange(0, n as int) =~= prefix@);
    let mut out: Vec<char> = Vec::new();
    push_str(&mut out, "~/");
    push_chars(&mut out, &slice_chars(&p, n, p.len()));
    string_from_chars(&out)
}

} // verus!
