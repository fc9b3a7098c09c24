//! Character-level helpers shared by the rest of the library.
//!
//! Strings are processed as `Vec<char>` and turned back into `String` once,
//! so that every step can be stated over `Seq<char>`.
use vstd::prelude::*;
use vstd::string::*;

verus! {

/// The characters of `s`, in order.
pub fn chars_of(s: &str) -> (r: Vec<char>)
    ensures
        r@ == s@,
{
    let n = s.unicode_len();
    let mut out: Vec<char> = Vec::new();
    let mut i: usize = 0;
    while i < n
        invariant
            n == s@.len(),
            i <= n,
            out@ == s@.subrange(0, i as int),
        decreases n - i,
    {
        out.push(s.get_char(i));
        i += 1;
        assert(out@ =~= s@.subrange(0, i as int));
    }
    assert(out@ =~= s@);
    out
}

/// Relies on `FromIterator<char>` for `String`: the string holds exactly the
/// given characters, in order.
#[verifier::external_body]
pub(crate) fn string_from_chars(v: &Vec<char>) -> (r: String)
    ensures
        r@ == v@,
{
    v.iter().collect()
}

/// Appends the characters of `s` to `out`.
pub fn push_str(out: &mut Vec<char>, s: &str)
    ensures
        final(out)@ == old(out)@ + s@,
{
    let n = s.unicode_len();
    let mut i: usize = 0;
    while i < n
        invariant
            n == s@.len(),
            i <= n,
            out@ == old(out)@ + s@.subrange(0, i as int),
        decreases n - i,
    {
        out.push(s.get_char(i));
        i += 1;
        assert(out@ =~= old(out)@ + s@.subrange(0, i as int));
    }
    assert(s@.subrange(0, n as int) =~= s@);
}

/// Appends the characters of `s` to `out`.
pub fn push_chars(out: &mut Vec<char>, s: &Vec<char>)
    ensures
        final(out)@ == old(out)@ + s@,
{
    let mut i: usize = 0;
    while i < s.len()
        invariant
            i <= s@.len(),
            out@ == old(out)@ + s@.subrange(0, i as int),
        decreases s@.len() - i,
    {
        out.push(s[i]);
        i += 1;
        assert(out@ =~= old(out)@ + s@.subrange(0, i as int));
    }
    assert(s@.subrange(0, s@.len() as int) =~= s@);
}

/// The ASCII digit for `d`, which is below ten.
pub open spec fn digit_char(d: nat) -> char {
    if d == 0 { '0' }
    else if d == 1 { '1' }
    else if d == 2 { '2' }
    else if d == 3 { '3' }
    else if d == 4 { '4' }
    else if d == 5 { '5' }
    else if d == 6 { '6' }
    else if d == 7 { '7' }
    else if d == 8 { '8' }
    else { '9' }
}

/// The decimal notation of `n`, without leading zeros.
pub open spec fn decimal(n: nat) -> Seq<char>
    decreases n,
{
    if n < 10 {
        seq![digit_char(n)]
    } else {
        decimal(n / 10).push(digit_char(n % 10))
    }
}

/// The ASCII digit for `d`.
pub fn digit(d: u128) -> (c: char)
    requires
        d < 10,
    ensures
        c == digit_char(d as nat),
{
    if d == 0 { '0' }
    else if d == 1 { '1' }
    else if d == 2 { '2' }
    else if d == 3 { '3' }
    else if d == 4 { '4' }
    else if d == 5 { '5' }
    else if d == 6 { '6' }
    else if d == 7 { '7' }
    else if d == 8 { '8' }
    else { '9' }
}

/// Appends the decimal notation of `n` to `out`.
pub fn push_decimal(out: &mut Vec<char>, n: u128)
    ensures
        final(out)@ == old(out)@ + decimal(n as nat),
    decreases n,
{
    if n >= 10 {
        push_decimal(out, n / 10);
    }
    out.push(digit(n % 10));
    assert(out@ =~= old(out)@ + decimal(n as nat));
}

/// `pre` is a prefix of `s`.
pub open spec fn has_prefix(s: Seq<char>, pre: Seq<char>) -> bool {
    pre.len() <= s.len() && s.subrange(0, pre.len() as int) == pre
}

/// `pat` occurs somewhere in `s`.
pub open spec fn has_infix(s: Seq<char>, pat: Seq<char>) -> bool {
    exists|i: int| 0 <= i <= s.len() - pat.len() && #[trigger] s.subrange(i, i + pat.len()) == pat
}

/// Whether `pre` is a prefix of `s` starting at `at`.
fn matches_at(s: &Vec<char>, pre: &Vec<char>, at: usize) -> (r: bool)
    requires
        at <= s@.len(),
    ensures
        r == (at + pre@.len() <= s@.len() && s@.subrange(at as int, at + pre@.len()) == pre@),
{
    if pre.len() > s.len() - at {
        return false;
    }
    let mut i: usize = 0;
    while i < pre.len()
        invariant
            at + pre@.len() <= s@.len(),
            s@.len() <= usize::MAX,
            i <= pre@.len(),
            forall|k: int| 0 <= k < i ==> s@[at + k] == pre@[k],
        decreases pre@.len() - i,
    {
        if s[at + i] != pre[i] {
            assert(s@.subrange(at as int, at + pre@.len())[i as int] != pre@[i as int]);
            return false;
        }
        i += 1;
    }
    assert(s@.subrange(at as int, at + pre@.len()) =~= pre@);
    true
}

/// Whether `pre` is a prefix of `s`.
pub fn starts_with_chars(s: &Vec<char>, pre: &Vec<char>) -> (r: bool)
    ensures
        r == has_prefix(s@, pre@),
{
    matches_at(s, pre, 0)
}

/// Whether `pre` is a prefix of `s`.
pub fn starts_with(s: &Vec<char>, pre: &str) -> (r: bool)
    ensures
        r == has_prefix(s@, pre@),
{
    let p = chars_of(pre);
    matches_at(s, &p, 0)
}

/// Whether `pat` occurs in `s`.
pub fn contains_str(s: &Vec<char>, pat: &str) -> (r: bool)
    ensures
        r == has_infix(s@, pat@),
{
    let p = chars_of(pat);
    if p.len() == 0 {
        assert(s@.subrange(0, 0 + pat@.len() as int) =~= pat@);
        return true;
    }
    if p.len() > s.len() {
        return false;
    }
    let last = s.len() - p.len();
    let mut i: usize = 0;
    while i <= last
        invariant
            last == s@.len() - p@.len(),
            p@ == pat@,
            p@.len() > 0,
            s@.len() <= usize::MAX,
            i <= last + 1,
            forall|k: int| 0 <= k < i ==> #[trigger] s@.subrange(k, k + p@.len()) != p@,
        decreases last + 1 - i,
    {
        if matches_at(s, &p, i) {
            return true;
        }
        i += 1;
    }
    false
}

/// Strict lexicographic order on character sequences, comparing code points:
/// the order in which `String`s sort.
pub open spec fn lex_lt(a: Seq<char>, b: Seq<char>) -> bool
    decreases a.len(),
{
    if a.len() == 0 {
        b.len() > 0
    } else if b.len() == 0 {
        false
    } else if a[0] != b[0] {
        a[0] < b[0]
    } else {
        lex_lt(a.drop_first(), b.drop_first())
    }
}

/// Two different sequences are ordered one way or the other.
pub proof fn lemma_lex_total(a: Seq<char>, b: Seq<char>)
    requires
        a != b,
    ensures
        lex_lt(a, b) || lex_lt(b, a),
    decreases a.len(),
{
    if a.len() > 0 && b.len() > 0 && a[0] == b[0] {
        if a.drop_first() == b.drop_first() {
            assert(a =~= seq![a[0]] + a.drop_first());
            assert(b =~= seq![b[0]] + b.drop_first());
        }
        lemma_lex_total(a.drop_first(), b.drop_first());
    } else if a.len() == 0 && b.len() == 0 {
        assert(a =~= b);
    }
}

/// Whether `a` sorts strictly before `b`.
pub fn lex_less(a: &Vec<char>, b: &Vec<char>) -> (r: bool)
    ensures
        r == lex_lt(a@, b@),
{
    let mut i: usize = 0;
    assert(a@.subrange(0, a@.len() as int) =~= a@);
    assert(b@.subrange(0, b@.len() as int) =~= b@);
    while i < a.len() && i < b.len() && a[i] == b[i]
        invariant
            i <= a@.len(),
            i <= b@.len(),
            lex_lt(a@, b@) == lex_lt(a@.subrange(i as int, a@.len() as int), b@.subrange(i as int, b@.len() as int)),
        decreases a@.len() - i,
    {
        let ghost sa = a@.subrange(i as int, a@.len() as int);
        let ghost sb = b@.subrange(i as int, b@.len() as int);
        assert(sa.drop_first() =~= a@.subrange(i + 1, a@.len() as int));
        assert(sb.drop_first() =~= b@.subrange(i + 1, b@.len() as int));
        i += 1;
    }
    let ghost sa = a@.subrange(i as int, a@.len() as int);
    let ghost sb = b@.subrange(i as int, b@.len() as int);
    if i == a.len() {
        i < b.len()
    } else if i == b.len() {
        false
    } else {
        assert(sa[0] == a@[i as int] && sb[0] == b@[i as int]);
        a[i] < b[i]
    }
}

/// Whether `a` and `b` hold the same characters.
pub fn chars_eq(a: &Vec<char>, b: &Vec<char>) -> (r: bool)
    ensures
        r == (a@ == b@),
{
    if a.len() != b.len() {
        return false;
    }
    let mut i: usize = 0;
    while i < a.len()
        invariant
            a@.len() == b@.len(),
            i <= a@.len(),
            forall|k: int| 0 <= k < i ==> a@[k] == b@[k],
        decreases a@.len() - i,
    {
        if a[i] != b[i] {
            return false;
        }
        i += 1;
    }
    assert(a@ =~= b@);
    true
}

/// Whether `a` and `b` hold the same characters.
pub fn str_eq(a: &str, b: &str) -> (r: bool)
    ensures
        r == (a@ == b@),
{
    let x = chars_of(a);
    let y = chars_of(b);
    chars_eq(&x, &y)
}

/// Unicode `White_Space`, the set that `str::trim` and
/// `str::split_whitespace` use.
pub open spec fn is_ws(c: char) -> bool {
    ('\u{9}' <= c && c <= '\u{d}') || c == ' ' || c == '\u{85}' || c == '\u{a0}' || c == '\u{1680}'
        || ('\u{2000}' <= c && c <= '\u{200a}') || c == '\u{2028}' || c == '\u{2029}'
        || c == '\u{202f}' || c == '\u{205f}' || c == '\u{3000}'
}

/// Whether `c` is white space.
pub fn is_whitespace(c: char) -> (r: bool)
    ensures
        r == is_ws(c),
{
    ('\u{9}' <= c && c <= '\u{d}') || c == ' ' || c == '\u{85}' || c == '\u{a0}' || c == '\u{1680}'
        || ('\u{2000}' <= c && c <= '\u{200a}') || c == '\u{2028}' || c == '\u{2029}'
        || c == '\u{202f}' || c == '\u{205f}' || c == '\u{3000}'
}

/// `s` without its leading white space.
pub open spec fn trim_start(s: Seq<char>) -> Seq<char>
    decreases s.len(),
{
    if s.len() > 0 && is_ws(s[0]) {
        trim_start(s.drop_first())
    } else {
        s
    }
}

/// `s` without its trailing white space.
pub open spec fn trim_end(s: Seq<char>) -> Seq<char>
    decreases s.len(),
{
    if s.len() > 0 && is_ws(s.last()) {
        trim_end(s.drop_last())
    } else {
        s
    }
}

/// `s` without white space at either end.
pub open spec fn trim(s: Seq<char>) -> Seq<char> {
    trim_end(trim_start(s))
}

/// `s` without the leading run of `c`.
pub open spec fn strip_leading(s: Seq<char>, c: char) -> Seq<char>
    decreases s.len(),
{
    if s.len() > 0 && s[0] == c {
        strip_leading(s.drop_first(), c)
    } else {
        s
    }
}

/// Where the leading white space of `s` ends.
fn start_of_text(s: &Vec<char>) -> (i: usize)
    ensures
        i <= s@.len(),
        trim_start(s@) == s@.subrange(i as int, s@.len() as int),
{
    let mut i: usize = 0;
    assert(s@.subrange(0, s@.len() as int) =~= s@);
    while i < s.len() && is_whitespace(s[i])
        invariant
            i <= s@.len(),
            trim_start(s@) == trim_start(s@.subrange(i as int, s@.len() as int)),
        decreases s@.len() - i,
    {
        assert(s@.subrange(i as int, s@.len() as int).drop_first() =~= s@.subrange(i + 1, s@.len() as int));
        i += 1;
    }
    i
}

/// Where the trailing white space of `s` starts.
fn end_of_text(s: &Vec<char>) -> (j: usize)
    ensures
        j <= s@.len(),
        trim_end(s@) == s@.subrange(0, j as int),
{
    let mut j: usize = s.len();
    assert(s@.subrange(0, s@.len() as int) =~= s@);
    while j > 0 && is_whitespace(s[j - 1])
        invariant
            j <= s@.len(),
            trim_end(s@) == trim_end(s@.subrange(0, j as int)),
        decreases j,
    {
        assert(s@.subrange(0, j as int).drop_last() =~= s@.subrange(0, j - 1));
        j -= 1;
    }
    j
}

/// The characters from `from` to `to`.
pub fn slice_chars(s: &Vec<char>, from: usize, to: usize) -> (r: Vec<char>)
    requires
        from <= to <= s@.len(),
    ensures
        r@ == s@.subrange(from as int, to as int),
{
    let mut out: Vec<char> = Vec::new();
    let mut i: usize = from;
    while i < to
        invariant
            from <= i <= to,
            to <= s@.len(),
            out@ == s@.subrange(from as int, i as int),
        decreases to - i,
    {
        out.push(s[i]);
        i += 1;
        assert(out@ =~= s@.subrange(from as int, i as int));
    }
    out
}

/// `s` without leading white space.
pub fn trim_start_chars(s: &Vec<char>) -> (r: Vec<char>)
    ensures
        r@ == trim_start(s@),
{
    let i = start_of_text(s);
    slice_chars(s, i, s.len())
}

/// `s` without white space at either end.
pub fn trim_chars(s: &Vec<char>) -> (r: Vec<char>)
    ensures
        r@ == trim(s@),
{
    let a = trim_start_chars(s);
    let j = end_of_text(&a);
    slice_chars(&a, 0, j)
}

/// `s` without the leading run of `c`.
pub fn strip_leading_chars(s: &Vec<char>, c: char) -> (r: Vec<char>)
    ensures
        r@ == strip_leading(s@, c),
{
    let mut i: usize = 0;
    assert(s@.subrange(0, s@.len() as int) =~= s@);
    while i < s.len() && s[i] == c
        invariant
            i <= s@.len(),
            strip_leading(s@, c) == strip_leading(s@.subrange(i as int, s@.len() as int), c),
        decreases s@.len() - i,
    {
        assert(s@.subrange(i as int, s@.len() as int).drop_first() =~= s@.subrange(i + 1, s@.len() as int));
        i += 1;
    }
    slice_chars(s, i, s.len())
}

/// Index of the first `c` in `s`, or its length.
pub open spec fn first_index_of(s: Seq<char>, c: char) -> nat
    decreases s.len(),
{
    if s.len() == 0 || s[0] == c {
        0
    } else {
        1 + first_index_of(s.drop_first(), c)
    }
}

/// Index of the first `c` in `s`, or its length.
pub fn find_char(s: &Vec<char>, c: char) -> (k: usize)
    ensures
        k as nat == first_index_of(s@, c),
        k <= s@.len(),
{
    let mut i: usize = 0;
    assert(s@.subrange(0, s@.len() as int) =~= s@);
    while i < s.len() && s[i] != c
        invariant
            i <= s@.len(),
            first_index_of(s@, c) == i + first_index_of(s@.subrange(i as int, s@.len() as int), c),
        decreases s@.len() - i,
    {
        assert(s@.subrange(i as int, s@.len() as int).drop_first() =~= s@.subrange(i + 1, s@.len() as int));
        i += 1;
    }
    i
}

/// The state of a split into runs of non-white-space characters: the
/// finished words, and the word being read.
pub open spec fn words_state(s: Seq<char>) -> (Seq<Seq<char>>, Seq<char>)
    decreases s.len(),
{
    if s.len() == 0 {
        (Seq::empty(), Seq::empty())
    } else {
        let (done, cur) = words_state(s.drop_last());
        let c = s.last();
        if is_ws(c) {
            if cur.len() > 0 { (done.push(cur), Seq::empty()) } else { (done, cur) }
        } else {
            (done, cur.push(c))
        }
    }
}

/// The runs of non-white-space characters of `s`, in order.
pub open spec fn words(s: Seq<char>) -> Seq<Seq<char>> {
    let (done, cur) = words_state(s);
    if cur.len() > 0 { done.push(cur) } else { done }
}

/// The runs of non-white-space characters of `s`, in order.
pub fn split_words(s: &Vec<char>) -> (r: Vec<Vec<char>>)
    ensures
        r@.len() == words(s@).len(),
        forall|k: int| 0 <= k < r@.len() ==> #[trigger] r@[k]@ == words(s@)[k],
{
    let mut done: Vec<Vec<char>> = Vec::new();
    let mut cur: Vec<char> = Vec::new();
    let mut i: usize = 0;
    while i < s.len()
        invariant
            i <= s@.len(),
            done@.len() == words_state(s@.subrange(0, i as int)).0.len(),
            forall|k: int| 0 <= k < done@.len() ==> #[trigger] done@[k]@ == words_state(s@.subrange(0, i as int)).0[k],
            cur@ == words_state(s@.subrange(0, i as int)).1,
        decreases s@.len() - i,
    {
        assert(s@.subrange(0, i + 1).drop_last() =~= s@.subrange(0, i as int));
        let c = s[i];
        if is_whitespace(c) {
            if cur.len() > 0 {
                done.push(cur);
                cur = Vec::new();
            }
        } else {
            cur.push(c);
        }
        i += 1;
    }
    assert(s@.subrange(0, s@.len() as int) =~= s@);
    if cur.len() > 0 {
        done.push(cur);
    }
    done
}

/// `s` without a final carriage return.
pub open spec fn strip_cr(s: Seq<char>) -> Seq<char> {
    if s.len() > 0 && s.last() == '\r' { s.drop_last() } else { s }
}

/// The state of a split into lines: the finished lines, and the line being
/// read.
pub open spec fn lines_state(s: Seq<char>) -> (Seq<Seq<char>>, Seq<char>)
    decreases s.len(),
{
    if s.len() == 0 {
        (Seq::empty(), Seq::empty())
    } else {
        let (done, cur) = lines_state(s.drop_last());
        let c = s.last();
        if c == '\n' { (done.push(strip_cr(cur)), Seq::empty()) } else { (done, cur.push(c)) }
    }
}

/// The lines of `s`, as `str::lines` gives them: split at each `\n`, with a
/// `\r` before it dropped, and no empty line after a final `\n`.
pub open spec fn lines(s: Seq<char>) -> Seq<Seq<char>> {
    let (done, cur) = lines_state(s);
    if cur.len() > 0 { done.push(cur) } else { done }
}

/// The lines of `s`, as `lines` describes them.
pub fn split_lines(s: &str) -> (r: Vec<Vec<char>>)
    ensures
        r@.len() == lines(s@).len(),
        forall|k: int| 0 <= k < r@.len() ==> #[trigger] r@[k]@ == lines(s@)[k],
{
    let cs = chars_of(s);
    let mut done: Vec<Vec<char>> = Vec::new();
    let mut cur: Vec<char> = Vec::new();
    let mut i: usize = 0;
    while i < cs.len()
        invariant
            cs@ == s@,
            i <= s@.len(),
            done@.len() == lines_state(s@.subrange(0, i as int)).0.len(),
            forall|k: int| 0 <= k < done@.len() ==> #[trigger] done@[k]@ == lines_state(s@.subrange(0, i as int)).0[k],
            cur@ == lines_state(s@.subrange(0, i as int)).1,
        decreases s@.len() - i,
    {
        assert(s@.subrange(0, i + 1).drop_last() =~= s@.subrange(0, i as int));
        let c = cs[i];
        if c == '\n' {
            if cur.len() > 0 && cur[cur.len() - 1] == '\r' {
                cur.pop();
            }
            done.push(cur);
            cur = Vec::new();
        } else {
            cur.push(c);
        }
        i += 1;
    }
    assert(s@.subrange(0, s@.len() as int) =~= s@);
    if cur.len() > 0 {
        done.push(cur);
    }
    done
}

} // verus!
