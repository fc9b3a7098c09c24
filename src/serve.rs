//! What the HTTP server answers: the index page, and the headers of a
//! download, for a given manifest.
use vstd::prelude::*;
use crate::manifest::{opt_view, ServerFile};
use crate::text::{
    chars_of, decimal, digit, digit_char, push_chars, push_decimal, push_str, str_eq, string_from_chars,
};

verus! {

/// The manifest entry that `id` names: the first with that id. Requests are
/// resolved through ids only, never through a path given by a client.
pub fn find_file(files: &Vec<ServerFile>, id: &str) -> (r: Option<usize>)
    ensures
        r matches Some(k) ==> k < files@.len() && files@[k as int].id@ == id@
            && forall|j: int| 0 <= j < k ==> #[trigger] files@[j].id@ != id@,
        r is None ==> forall|j: int| 0 <= j < files@.len() ==> #[trigger] files@[j].id@ != id@,
{
    let mut i: usize = 0;
    while i < files.len()
        invariant
            i <= files@.len(),
            forall|j: int| 0 <= j < i ==> #[trigger] files@[j].id@ != id@,
        decreases files@.len() - i,
    {
        if str_eq(files[i].id.as_str(), id) {
            return Some(i);
        }
        i += 1;
    }
    None
}

/// How one character is written in HTML text.
pub open spec fn escape_char(c: char) -> Seq<char> {
    if c == '<' {
        "&lt;"@
    } else if c == '>' {
        "&gt;"@
    } else if c == '"' {
        "&quot;"@
    } else if c == '\'' {
        "&#39;"@
    } else if c == '&' {
        "&amp;"@
    } else {
        seq![c]
    }
}

/// `s` with each markup character replaced by its entity.
pub open spec fn escaped(s: Seq<char>) -> Seq<char>
    decreases s.len(),
{
    if s.len() == 0 {
        Seq::empty()
    } else {
        escaped(s.drop_last()) + escape_char(s.last())
    }
}

fn push_escaped(out: &mut Vec<char>, s: &str)
    ensures
        final(out)@ == old(out)@ + escaped(s@),
{
    let cs = chars_of(s);
    let mut i: usize = 0;
    while i < cs.len()
        invariant
            cs@ == s@,
            i <= cs@.len(),
            out@ == old(out)@ + escaped(s@.subrange(0, i as int)),
        decreases cs@.len() - i,
    {
        let c = cs[i];
        let ghost before = out@;
        if c == '<' {
            push_str(out, "&lt;");
        } else if c == '>' {
            push_str(out, "&gt;");
        } else if c == '"' {
            push_str(out, "&quot;");
        } else if c == '\'' {
            push_str(out, "&#39;");
        } else if c == '&' {
            push_str(out, "&amp;");
        } else {
            out.push(c);
        }
        assert(out@ =~= before + escape_char(c));
        assert(s@.subrange(0, i + 1).drop_last() =~= s@.subrange(0, i as int));
        i += 1;
    }
    assert(s@.subrange(0, cs@.len() as int) =~= s@);
}

/// `input` made safe to place in HTML text or an attribute.
pub fn escape_html(input: &str) -> (r: String)
    ensures
        r@ == escaped(input@),
{
    let mut out: Vec<char> = Vec::new();
    push_escaped(&mut out, input);
    assert(out@ =~= escaped(input@));
    string_from_chars(&out)
}

/// Whether `c` may not stand in a download file name.
pub open spec fn unsafe_in_filename(c: char) -> bool {
    c == '"' || c == '\\' || c == '/' || c == ':' || c == '*' || c == '?' || c == '<' || c == '>'
        || c == '|'
}

/// `s` with each path- or header-unsafe character replaced by `_`.
pub open spec fn sanitized(s: Seq<char>) -> Seq<char> {
    s.map_values(|c: char| if unsafe_in_filename(c) { '_' } else { c })
}

fn push_sanitized(out: &mut Vec<char>, s: &str)
    ensures
        final(out)@ == old(out)@ + sanitized(s@),
{
    let cs = chars_of(s);
    let mut i: usize = 0;
    while i < cs.len()
        invariant
            cs@ == s@,
            i <= cs@.len(),
            out@ == old(out)@ + sanitized(s@.subrange(0, i as int)),
        decreases cs@.len() - i,
    {
        let c = cs[i];
        let bad = c == '"' || c == '\\' || c == '/' || c == ':' || c == '*' || c == '?' || c == '<'
            || c == '>' || c == '|';
        out.push(if bad { '_' } else { c });
        i += 1;
        assert(out@ =~= old(out)@ + sanitized(s@.subrange(0, i as int)));
    }
    assert(s@.subrange(0, cs@.len() as int) =~= s@);
}

/// A download name with the characters that are unsafe in a path or a
/// header replaced by `_`.
pub fn sanitize_filename(input: &str) -> (r: String)
    ensures
        r@ == sanitized(input@),
{
    let mut out: Vec<char> = Vec::new();
    push_sanitized(&mut out, input);
    assert(out@ =~= sanitized(input@));
    string_from_chars(&out)
}

/// The `Content-Disposition` value of a download.
pub open spec fn disposition_of(name: Seq<char>) -> Seq<char> {
    "attachment; filename=\""@ + sanitized(name) + "\""@
}

/// The `Content-Disposition` header value for a file offered as `download_name`.
pub fn content_disposition(download_name: &str) -> (r: String)
    ensures
        r@ == disposition_of(download_name@),
{
    let mut out: Vec<char> = Vec::new();
    push_str(&mut out, "attachment; filename=\"");
    push_sanitized(&mut out, download_name);
    push_str(&mut out, "\"");
    assert(out@ =~= disposition_of(download_name@));
    string_from_chars(&out)
}

/// The `Content-Type` of a download: the guessed MIME type, or the generic
/// binary type where nothing was guessed.
pub fn content_type(mime: &Option<String>) -> (r: String)
    ensures
        r@ == match opt_view(*mime) {
            Some(m) => m,
            None => "application/octet-stream"@,
        },
{
    match mime {
        Some(m) => m.clone(),
        None => {
            let mut out: Vec<char> = Vec::new();
            push_str(&mut out, "application/octet-stream");
            string_from_chars(&out)
        },
    }
}

/// 1024 to the power `k`, for the units in use.
pub open spec fn unit_divisor(k: nat) -> nat {
    if k == 0 {
        1
    } else if k == 1 {
        1024
    } else if k == 2 {
        1048576
    } else if k == 3 {
        1073741824
    } else {
        1099511627776
    }
}

pub open spec fn unit_name(k: nat) -> Seq<char> {
    if k == 0 {
        "B"@
    } else if k == 1 {
        "KB"@
    } else if k == 2 {
        "MB"@
    } else if k == 3 {
        "GB"@
    } else {
        "TB"@
    }
}

/// The largest unit, starting the search at `k`, that `size` reaches.
pub open spec fn unit_from(size: nat, k: nat) -> nat
    decreases 4 - k,
{
    if k < 4 && size >= unit_divisor(k + 1) {
        unit_from(size, k + 1)
    } else {
        k
    }
}

/// `n / d` rounded to the nearest integer, ties to the even one.
pub open spec fn div_round_even(n: nat, d: nat) -> nat
    recommends
        d > 0,
{
    let q = n / d;
    let r = n % d;
    if 2 * r > d || (2 * r == d && q % 2 == 1) {
        q + 1
    } else {
        q
    }
}

/// A size for people: whole bytes below one KB, else the largest unit it
/// reaches (up to TB) with one decimal, rounded to nearest, ties to even.
pub open spec fn size_text(size: nat) -> Seq<char> {
    let k = unit_from(size, 0);
    if k == 0 {
        decimal(size) + " B"@
    } else {
        let t = div_round_even(size * 10, unit_divisor(k));
        decimal(t / 10) + "."@ + seq![digit_char(t % 10)] + " "@ + unit_name(k)
    }
}

/// A unit of file size.
#[derive(Clone, Copy, Debug)]
pub enum SizeUnit {
    B,
    KB,
    MB,
    GB,
    TB,
}

impl SizeUnit {
    /// The position of the unit, from bytes up.
    pub open spec fn rank(self) -> nat {
        match self {
            SizeUnit::B => 0,
            SizeUnit::KB => 1,
            SizeUnit::MB => 2,
            SizeUnit::GB => 3,
            SizeUnit::TB => 4,
        }
    }

    /// How many bytes one of this unit holds.
    pub fn multiplier(&self) -> (r: u64)
        ensures
            r as nat == unit_divisor(self.rank()),
    {
        match self {
            SizeUnit::B => 1,
            SizeUnit::KB => 1024,
            SizeUnit::MB => 1048576,
            SizeUnit::GB => 1073741824,
            SizeUnit::TB => 1099511627776,
        }
    }
}

fn divisor(k: u128) -> (r: u128)
    requires
        k <= 4,
    ensures
        r as nat == unit_divisor(k as nat),
{
    if k == 0 {
        1
    } else if k == 1 {
        1024
    } else if k == 2 {
        1048576
    } else if k == 3 {
        1073741824
    } else {
        1099511627776
    }
}

fn push_unit(out: &mut Vec<char>, k: u128)
    ensures
        final(out)@ == old(out)@ + unit_name(k as nat),
{
    if k == 0 {
        push_str(out, "B");
    } else if k == 1 {
        push_str(out, "KB");
    } else if k == 2 {
        push_str(out, "MB");
    } else if k == 3 {
        push_str(out, "GB");
    } else {
        push_str(out, "TB");
    }
}

fn push_size(out: &mut Vec<char>, size: u64)
    ensures
        final(out)@ == old(out)@ + size_text(size as nat),
{
    let s = size as u128;
    let mut k: u128 = 0;
    while k < 4 && s >= divisor(k + 1)
        invariant
            k <= 4,
            s == size as u128,
            unit_from(size as nat, k as nat) == unit_from(size as nat, 0),
        decreases 4 - k,
    {
        k += 1;
    }
    if k == 0 {
        push_decimal(out, s);
        push_str(out, " B");
        assert(out@ =~= old(out)@ + size_text(size as nat));
    } else {
        let d = divisor(k);
        let n = s * 10;
        let q = n / d;
        let rem = n % d;
        let t = if 2 * rem > d || (2 * rem == d && q % 2 == 1) { q + 1 } else { q };
        assert(t as nat == div_round_even(size as nat * 10, unit_divisor(k as nat)));
        push_decimal(out, t / 10);
        push_str(out, ".");
        out.push(digit(t % 10));
        push_str(out, " ");
        push_unit(out, k);
        assert(out@ =~= old(out)@ + size_text(size as nat));
    }
}

/// A byte count for people, such as `0 B`, `512 B`, `1.5 KB` or `3.0 GB`.
pub fn format_size(size: u64) -> (r: String)
    ensures
        r@ == size_text(size as nat),
{
    let mut out: Vec<char> = Vec::new();
    push_size(&mut out, size);
    assert(out@ =~= size_text(size as nat));
    string_from_chars(&out)
}

/// The sum of the sizes, capped at the largest `u64`.
pub open spec fn total_size(files: Seq<ServerFile>) -> nat
    decreases files.len(),
{
    if files.len() == 0 {
        0
    } else {
        let t: nat = total_size(files.drop_last()) + files.last().size as nat;
        if t > u64::MAX { u64::MAX as nat } else { t }
    }
}

/// The listing line of one file.
pub open spec fn card_html(f: ServerFile) -> Seq<char> {
    "<li class=\"file\"><a href=\"/files/"@ + f.id@ + "\" download>"@ + escaped(f.display_name@)
        + "</a> <span class=\"meta\">"@ + match opt_view(f.extension) {
            Some(e) => escaped(e) + " · "@,
            None => Seq::empty(),
        } + size_text(f.size as nat) + "</span></li>"@
}

/// The listing lines of all files, in order.
pub open spec fn cards_html(files: Seq<ServerFile>) -> Seq<char>
    decreases files.len(),
{
    if files.len() == 0 {
        Seq::empty()
    } else {
        cards_html(files.drop_last()) + card_html(files.last())
    }
}

/// The index page: file count, total size, and one download link per file.
pub open spec fn index_html(files: Seq<ServerFile>) -> Seq<char> {
    "<!DOCTYPE html><html><head><meta charset=\"utf-8\"><title>Shared files</title></head><body><h1>Shared files</h1><p>"@
        + decimal(files.len()) + " files, "@ + size_text(total_size(files)) + "</p><ul>"@
        + cards_html(files) + "</ul></body></html>"@
}

fn push_card(out: &mut Vec<char>, f: &ServerFile)
    ensures
        final(out)@ == old(out)@ + card_html(*f),
{
    push_str(out, "<li class=\"file\"><a href=\"/files/");
    push_str(out, f.id.as_str());
    push_str(out, "\" download>");
    push_escaped(out, f.display_name.as_str());
    push_str(out, "</a> <span class=\"meta\">");
    match &f.extension {
        Some(e) => {
            push_escaped(out, e.as_str());
            push_str(out, " · ");
        },
        None => {},
    }
    push_size(out, f.size);
    push_str(out, "</span></li>");
    assert(out@ =~= old(out)@ + card_html(*f));
}

/// The HTML of the index page for a manifest.
pub fn render_index(files: &Vec<ServerFile>) -> (r: String)
    ensures
        r@ == index_html(files@),
{
    let mut cards: Vec<char> = Vec::new();
    let mut total: u64 = 0;
    let mut i: usize = 0;
    while i < files.len()
        invariant
            i <= files@.len(),
            cards@ == cards_html(files@.subrange(0, i as int)),
            total as nat == total_size(files@.subrange(0, i as int)),
        decreases files@.len() - i,
    {
        assert(files@.subrange(0, i + 1).drop_last() =~= files@.subrange(0, i as int));
        push_card(&mut cards, &files[i]);
        total = total.saturating_add(files[i].size);
        i += 1;
    }
    assert(files@.subrange(0, files@.len() as int) =~= files@);
    let mut out: Vec<char> = Vec::new();
    push_str(&mut out, "<!DOCTYPE html><html><head><meta charset=\"utf-8\"><title>Shared files</title></head><body><h1>Shared files</h1><p>");
    push_decimal(&mut out, files.len() as u128);
    push_str(&mut out, " files, ");
    push_size(&mut out, total);
    push_str(&mut out, "</p><ul>");
    push_chars(&mut out, &cards);
    push_str(&mut out, "</ul></body></html>");
    assert(out@ =~= index_html(files@));
    string_from_chars(&out)
}

} // verus!
