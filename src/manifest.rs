//! The manifest: the flat list of files a session shares, each under an
//! opaque identifier.
use vstd::prelude::*;
use crate::address::views_of_strings;
use crate::text::{chars_of, push_chars, push_str, str_eq, string_from_chars};
use vstd::string::StrSliceExecFns;

verus! {

/// A file as the server holds it. `path` never leaves the process.
#[derive(Clone, Debug)]
pub struct ServerFile {
    pub id: String,
    pub display_name: String,
    pub download_name: String,
    pub size: u64,
    pub extension: Option<String>,
    pub path: String,
    pub mime: Option<String>,
}

/// What a caller learns of a shared file: everything but its location.
#[derive(Clone, Debug)]
pub struct SharedFileMeta {
    pub id: String,
    pub display_name: String,
    pub download_name: String,
    pub size: u64,
    pub extension: Option<String>,
}

/// One entry met while walking a selected directory.
#[derive(Clone, Debug)]
pub struct WalkedEntry {
    /// Where the entry is on disk.
    pub path: String,
    /// Its path below the selected directory, with the host's separators.
    pub relative: String,
    /// Its own leaf name.
    pub name: String,
    pub size: u64,
    /// Whether it is a regular file; other entries are not shared.
    pub is_file: bool,
}

/// One path of a selection, as read from disk.
#[derive(Clone, Debug)]
pub enum SelectedPath {
    /// A regular file, by its canonical path and leaf name.
    File { path: String, name: String, size: u64 },
    /// A directory, by its label and everything found below it.
    Directory { label: String, entries: Vec<WalkedEntry> },
}

/// Why sharing could not start.
#[derive(Clone, Debug)]
pub enum ShareError {
    /// The selection named no path at all.
    InvalidSelection,
    /// The selection held no regular file.
    EmptySelection,
    /// A path could not be read.
    FileSystemError(String),
    /// The listening socket could not be bound.
    BindError(String),
}

/// The characters of an optional string.
pub open spec fn opt_view(o: Option<String>) -> Option<Seq<char>> {
    match o {
        Some(s) => Some(s@),
        None => None,
    }
}

/// The MIME type that the guesser assigns to a path, if any.
pub uninterp spec fn mime_of_path(path: Seq<char>) -> Option<Seq<char>>;

/// Relies on `mime_guess::from_path(..).first_raw()`: the first MIME type
/// registered for the path's extension, looked up without touching the disk.
#[verifier::external_body]
fn guess_mime(path: &str) -> (r: Option<String>)
    ensures
        opt_view(r) == mime_of_path(path@),
{
    mime_guess::from_path(path).first_raw().map(|m| m.to_string())
}

/// Relies on `uuid::Uuid::new_v4` and its `Display`: a random identifier.
/// Nothing is known of its value.
#[verifier::external_body]
fn random_id() -> (r: String) {
    uuid::Uuid::new_v4().to_string()
}

/// Index of the last `c` in `s`, or -1.
pub open spec fn last_index_of(s: Seq<char>, c: char) -> int
    decreases s.len(),
{
    if s.len() == 0 {
        -1
    } else if s.last() == c {
        s.len() - 1
    } else {
        last_index_of(s.drop_last(), c)
    }
}

/// The extension of a leaf name: what follows its last dot, unless that dot
/// opens the name (a hidden file has no extension).
pub open spec fn extension_of(name: Seq<char>) -> Option<Seq<char>> {
    let k = last_index_of(name, '.');
    if k <= 0 {
        None
    } else {
        Some(name.subrange(k + 1, name.len() as int))
    }
}

/// A relative path with every backslash turned into a forward slash.
pub open spec fn normalize_separators(s: Seq<char>) -> Seq<char> {
    s.map_values(|c: char| if c == '\\' { '/' } else { c })
}

/// What a manifest entry is made of: display name, download name, size,
/// source path.
pub type Planned = (Seq<char>, Seq<char>, u64, Seq<char>);

/// The entries contributed by the walk of a directory labelled `label`.
pub open spec fn dir_plan(label: Seq<char>, es: Seq<WalkedEntry>) -> Seq<Planned>
    decreases es.len(),
{
    if es.len() == 0 {
        Seq::empty()
    } else {
        let e = es.last();
        dir_plan(label, es.drop_last()) + if e.is_file {
            seq![(label + "/"@ + normalize_separators(e.relative@), e.name@, e.size, e.path@)]
        } else {
            Seq::empty()
        }
    }
}

/// The entries contributed by one selected path.
pub open spec fn item_plan(it: SelectedPath) -> Seq<Planned> {
    match it {
        SelectedPath::File { path, name, size } => seq![(name@, name@, size, path@)],
        SelectedPath::Directory { label, entries } => dir_plan(label@, entries@),
    }
}

/// The entries of the manifest for a whole selection, in order.
pub open spec fn manifest_plan(items: Seq<SelectedPath>) -> Seq<Planned>
    decreases items.len(),
{
    if items.len() == 0 {
        Seq::empty()
    } else {
        manifest_plan(items.drop_last()) + item_plan(items.last())
    }
}

/// How many regular files a walk found.
pub open spec fn dir_file_count(es: Seq<WalkedEntry>) -> nat
    decreases es.len(),
{
    if es.len() == 0 {
        0
    } else {
        dir_file_count(es.drop_last()) + if es.last().is_file { 1nat } else { 0nat }
    }
}

/// How many regular files a selection holds: one per selected file, and the
/// recursive count of each selected directory.
pub open spec fn file_count(items: Seq<SelectedPath>) -> nat
    decreases items.len(),
{
    if items.len() == 0 {
        0
    } else {
        file_count(items.drop_last()) + match items.last() {
            SelectedPath::File { .. } => 1nat,
            SelectedPath::Directory { entries, .. } => dir_file_count(entries@),
        }
    }
}

/// `f` is the entry planned as `p`, with its extension and MIME type derived
/// from the names.
pub open spec fn entry_follows(f: ServerFile, p: Planned) -> bool {
    &&& f.display_name@ == p.0
    &&& f.download_name@ == p.1
    &&& f.size == p.2
    &&& f.path@ == p.3
    &&& opt_view(f.extension) == extension_of(p.1)
    &&& opt_view(f.mime) == mime_of_path(p.3)
}

/// No two entries share an id, and none uses an id of `taken`.
pub open spec fn ids_fresh(files: Seq<ServerFile>, taken: Seq<String>) -> bool {
    &&& forall|a: int, b: int| 0 <= a < b < files.len() ==> files[a].id@ != files[b].id@
    &&& forall|a: int, t: int| 0 <= a < files.len() && 0 <= t < taken.len() ==> files[a].id@ != taken[t]@
}

/// The extension of a leaf name, as `extension_of` describes it.
pub fn file_extension(name: &str) -> (r: Option<String>)
    ensures
        opt_view(r) == extension_of(name@),
{
    let cs = chars_of(name);
    let mut k: usize = cs.len();
    assert(name@.subrange(0, k as int) =~= name@);
    while k > 0 && cs[k - 1] != '.'
        invariant
            k <= cs@.len(),
            cs@ == name@,
            last_index_of(name@, '.') == last_index_of(name@.subrange(0, k as int), '.'),
        decreases k,
    {
        assert(name@.subrange(0, k as int).drop_last() =~= name@.subrange(0, k - 1));
        k -= 1;
    }
    proof {
        if k > 0 {
            assert(name@.subrange(0, k as int).last() == '.');
        }
    }
    if k <= 1 {
        return None;
    }
    let mut ext: Vec<char> = Vec::new();
    let mut i: usize = k;
    while i < cs.len()
        invariant
            k <= i <= cs@.len(),
            ext@ == cs@.subrange(k as int, i as int),
        decreases cs@.len() - i,
    {
        ext.push(cs[i]);
        i += 1;
        assert(ext@ =~= cs@.subrange(k as int, i as int));
    }
    Some(string_from_chars(&ext))
}

/// A relative path with forward slashes only.
pub fn forward_slashes(s: &str) -> (r: Vec<char>)
    ensures
        r@ == normalize_separators(s@),
{
    let cs = chars_of(s);
    let mut out: Vec<char> = Vec::new();
    let mut i: usize = 0;
    while i < cs.len()
        invariant
            cs@ == s@,
            i <= cs@.len(),
            out@ == normalize_separators(s@.subrange(0, i as int)),
        decreases cs@.len() - i,
    {
        let c = cs[i];
        out.push(if c == '\\' { '/' } else { c });
        i += 1;
        assert(out@ =~= normalize_separators(s@.subrange(0, i as int)));
    }
    assert(s@.subrange(0, cs@.len() as int) =~= s@);
    out
}

/// An id that `taken` does not hold: `drawn` itself where it is free, else
/// the longest taken id with a dash appended, which is longer than them all.
pub fn unique_id(drawn: String, taken: &Vec<String>) -> (r: String)
    ensures
        !views_of_strings(taken@).contains(r@),
        !views_of_strings(taken@).contains(drawn@) ==> r@ == drawn@,
{
    let ghost tv = views_of_strings(taken@);
    let mut clash = false;
    let mut longest: usize = 0;
    let mut i: usize = 0;
    while i < taken.len()
        invariant
            tv == views_of_strings(taken@),
            i <= taken@.len(),
            clash <==> exists|k: int| 0 <= k < i && tv[k] == drawn@,
            longest == 0 || longest < taken@.len(),
            forall|k: int| 0 <= k < i ==> tv[k].len() <= taken@[longest as int]@.len() || longest == 0 && i == 0,
            i > 0 ==> forall|k: int| 0 <= k < i ==> tv[k].len() <= taken@[longest as int]@.len(),
        decreases taken@.len() - i,
    {
        assert(tv[i as int] == taken@[i as int]@);
        if str_eq(taken[i].as_str(), drawn.as_str()) {
            clash = true;
        }
        if i == 0 || taken[i].unicode_len() > taken[longest].unicode_len() {
            longest = i;
        }
        i += 1;
    }
    if !clash {
        proof {
            if tv.contains(drawn@) {
                let k = choose|k: int| 0 <= k < tv.len() && tv[k] == drawn@;
                assert(tv[k] == drawn@);
            }
        }
        return drawn;
    }
    let mut out = chars_of(taken[longest].as_str());
    out.push('-');
    let r = string_from_chars(&out);
    assert(r@.len() == taken@[longest as int]@.len() + 1);
    proof {
        if tv.contains(r@) {
            let k = choose|k: int| 0 <= k < tv.len() && tv[k] == r@;
            assert(tv[k].len() <= taken@[longest as int]@.len());
        }
    }
    r
}

fn clone_opt(o: &Option<String>) -> (r: Option<String>)
    ensures
        opt_view(r) == opt_view(*o),
{
    match o {
        Some(s) => Some(s.clone()),
        None => None,
    }
}

/// Adds the entry planned as `(display, download, size, path)` under a fresh
/// id, recording that id in `ids`.
fn push_file_entry(
    files: &mut Vec<ServerFile>,
    ids: &mut Vec<String>,
    taken: &Vec<String>,
    display: String,
    download: String,
    size: u64,
    path: String,
)
    requires
        old(ids)@.len() == taken@.len() + old(files)@.len(),
        forall|t: int| 0 <= t < taken@.len() ==> #[trigger] old(ids)@[t]@ == taken@[t]@,
        forall|a: int| 0 <= a < old(files)@.len() ==> #[trigger] old(ids)@[taken@.len() + a]@ == old(files)@[a].id@,
        ids_fresh(old(files)@, taken@),
    ensures
        final(files)@.len() == old(files)@.len() + 1,
        forall|a: int| 0 <= a < old(files)@.len() ==> #[trigger] final(files)@[a] == old(files)@[a],
        entry_follows(final(files)@[old(files)@.len() as int], (display@, download@, size, path@)),
        final(ids)@.len() == taken@.len() + final(files)@.len(),
        forall|t: int| 0 <= t < taken@.len() ==> #[trigger] final(ids)@[t]@ == taken@[t]@,
        forall|a: int| 0 <= a < final(files)@.len() ==> #[trigger] final(ids)@[taken@.len() + a]@ == final(files)@[a].id@,
        ids_fresh(final(files)@, taken@),
{
    let ghost iv = views_of_strings(ids@);
    let id = unique_id(random_id(), ids);
    let extension = file_extension(download.as_str());
    let mime = guess_mime(path.as_str());
    let id_copy = id.clone();
    proof {
        assert forall|t: int| 0 <= t < taken@.len() implies id@ != #[trigger] taken@[t]@ by {
            assert(iv[t] == taken@[t]@);
        }
        assert forall|a: int| 0 <= a < files@.len() implies id@ != #[trigger] files@[a].id@ by {
            assert(iv[taken@.len() + a] == files@[a].id@);
        }
    }
    files.push(ServerFile { id, display_name: display, download_name: download, size, extension, path, mime });
    ids.push(id_copy);
}

/// The manifest for a selection: every regular file it holds, in order,
/// under ids that differ from each other and from every id in `taken`.
/// A selection without a regular file is refused with `EmptySelection`.
pub fn build_server_files(items: &Vec<SelectedPath>, taken: &Vec<String>) -> (r: Result<Vec<ServerFile>, ShareError>)
    ensures
        r is Err <==> file_count(items@) == 0,
        r matches Ok(files) ==> files@.len() == file_count(items@),
        r is Err ==> r matches Err(ShareError::EmptySelection),
        r matches Ok(files) ==> {
            &&& files@.len() == manifest_plan(items@).len()
            &&& forall|k: int| 0 <= k < files@.len() ==> entry_follows(#[trigger] files@[k], manifest_plan(items@)[k])
            &&& ids_fresh(files@, taken@)
        },
{
    let mut files: Vec<ServerFile> = Vec::new();
    let mut ids: Vec<String> = Vec::new();
    let mut t: usize = 0;
    while t < taken.len()
        invariant
            t <= taken@.len(),
            ids@.len() == t,
            forall|k: int| 0 <= k < t ==> #[trigger] ids@[k]@ == taken@[k]@,
        decreases taken@.len() - t,
    {
        ids.push(taken[t].clone());
        t += 1;
    }
    let mut i: usize = 0;
    while i < items.len()
        invariant
            i <= items@.len(),
            files@.len() == manifest_plan(items@.subrange(0, i as int)).len(),
            forall|k: int| 0 <= k < files@.len()
                ==> entry_follows(#[trigger] files@[k], manifest_plan(items@.subrange(0, i as int))[k]),
            ids@.len() == taken@.len() + files@.len(),
            forall|t: int| 0 <= t < taken@.len() ==> #[trigger] ids@[t]@ == taken@[t]@,
            forall|a: int| 0 <= a < files@.len() ==> #[trigger] ids@[taken@.len() + a]@ == files@[a].id@,
            ids_fresh(files@, taken@),
        decreases items@.len() - i,
    {
        let ghost before = manifest_plan(items@.subrange(0, i as int));
        assert(items@.subrange(0, i + 1).drop_last() =~= items@.subrange(0, i as int));
        assert(items@.subrange(0, i + 1).last() == items@[i as int]);
        match &items[i] {
            SelectedPath::File { path, name, size } => {
                let ghost f0 = files@;
                push_file_entry(&mut files, &mut ids, taken, name.clone(), name.clone(), *size, path.clone());
                assert forall|k: int| 0 <= k < files@.len() implies entry_follows(#[trigger] files@[k], manifest_plan(items@.subrange(0, i + 1))[k]) by {
                    if k < f0.len() {
                        assert(files@[k] == f0[k]);
                    }
                }
            },
            SelectedPath::Directory { label, entries } => {
                let ghost base = files@.len();
                let mut j: usize = 0;
                while j < entries.len()
                    invariant
                        j <= entries@.len(),
                        base == before.len(),
                        files@.len() == base + dir_plan(label@, entries@.subrange(0, j as int)).len(),
                        forall|k: int| 0 <= k < files@.len()
                            ==> entry_follows(#[trigger] files@[k], (before + dir_plan(label@, entries@.subrange(0, j as int)))[k]),
                        ids@.len() == taken@.len() + files@.len(),
                        forall|t: int| 0 <= t < taken@.len() ==> #[trigger] ids@[t]@ == taken@[t]@,
                        forall|a: int| 0 <= a < files@.len() ==> #[trigger] ids@[taken@.len() + a]@ == files@[a].id@,
                        ids_fresh(files@, taken@),
                    decreases entries@.len() - j,
                {
                    let ghost prev = before + dir_plan(label@, entries@.subrange(0, j as int));
                    assert(entries@.subrange(0, j + 1).drop_last() =~= entries@.subrange(0, j as int));
                    assert(entries@.subrange(0, j + 1).last() == entries@[j as int]);
                    let e = &entries[j];
                    if e.is_file {
                        let mut display = chars_of(label.as_str());
                        push_str(&mut display, "/");
                        let rel = forward_slashes(e.relative.as_str());
                        push_chars(&mut display, &rel);
                        let display = string_from_chars(&display);
                        let ghost f0 = files@;
                        push_file_entry(&mut files, &mut ids, taken, display, e.name.clone(), e.size, e.path.clone());
                        let ghost next = before + dir_plan(label@, entries@.subrange(0, j + 1));
                        assert(next =~= prev.push((label@ + "/"@ + normalize_separators(e.relative@), e.name@, e.size, e.path@)));
                        assert forall|k: int| 0 <= k < files@.len() implies entry_follows(#[trigger] files@[k], next[k]) by {
                            if k < f0.len() {
                                assert(files@[k] == f0[k]);
                            }
                        }
                    } else {
                        assert(before + dir_plan(label@, entries@.subrange(0, j + 1)) =~= prev);
                    }
                    j += 1;
                }
                assert(entries@.subrange(0, entries@.len() as int) =~= entries@);
            },
        }
        i += 1;
    }
    assert(items@.subrange(0, items@.len() as int) =~= items@);
    proof {
        lemma_manifest_counts_regular_files(items@);
    }
    if files.len() == 0 {
        return Err(ShareError::EmptySelection);
    }
    Ok(files)
}

/// The caller-facing description of a manifest entry.
pub fn shared_meta(f: &ServerFile) -> (r: SharedFileMeta)
    ensures
        r.id@ == f.id@,
        r.display_name@ == f.display_name@,
        r.download_name@ == f.download_name@,
        r.size == f.size,
        opt_view(r.extension) == opt_view(f.extension),
{
    SharedFileMeta {
        id: f.id.clone(),
        display_name: f.display_name.clone(),
        download_name: f.download_name.clone(),
        size: f.size,
        extension: clone_opt(&f.extension),
    }
}

/// `m` describes `f`.
pub open spec fn meta_of(m: SharedFileMeta, f: ServerFile) -> bool {
    &&& m.id@ == f.id@
    &&& m.display_name@ == f.display_name@
    &&& m.download_name@ == f.download_name@
    &&& m.size == f.size
    &&& opt_view(m.extension) == opt_view(f.extension)
}

/// The caller-facing descriptions of a manifest, in order.
pub fn shared_metas(files: &Vec<ServerFile>) -> (r: Vec<SharedFileMeta>)
    ensures
        r@.len() == files@.len(),
        forall|k: int| 0 <= k < files@.len() ==> meta_of(#[trigger] r@[k], files@[k]),
{
    let mut out: Vec<SharedFileMeta> = Vec::new();
    let mut i: usize = 0;
    while i < files.len()
        invariant
            i <= files@.len(),
            out@.len() == i,
            forall|k: int| 0 <= k < i ==> meta_of(#[trigger] out@[k], files@[k]),
        decreases files@.len() - i,
    {
        out.push(shared_meta(&files[i]));
        i += 1;
    }
    out
}

/// The manifest has one entry per regular file of the selection: a
/// directory contributes the regular files found below it, not itself.
pub proof fn lemma_manifest_counts_regular_files(items: Seq<SelectedPath>)
    ensures
        manifest_plan(items).len() == file_count(items),
    decreases items.len(),
{
    if items.len() > 0 {
        lemma_manifest_counts_regular_files(items.drop_last());
        match items.last() {
            SelectedPath::File { .. } => {},
            SelectedPath::Directory { label, entries } => {
                lemma_dir_counts(label@, entries@);
            },
        }
    }
}

/// A selection of regular files only yields one entry per selected path, so
/// a non-empty one is never refused.
pub proof fn lemma_file_selection_count(items: Seq<SelectedPath>)
    requires
        forall|i: int| 0 <= i < items.len() ==> #[trigger] items[i] is File,
    ensures
        file_count(items) == items.len(),
    decreases items.len(),
{
    if items.len() > 0 {
        assert(items.last() is File);
        lemma_file_selection_count(items.drop_last());
    }
}

proof fn lemma_dir_counts(label: Seq<char>, es: Seq<WalkedEntry>)
    ensures
        dir_plan(label, es).len() == dir_file_count(es),
    decreases es.len(),
{
    if es.len() > 0 {
        lemma_dir_counts(label, es.drop_last());
    }
}

} // verus!
