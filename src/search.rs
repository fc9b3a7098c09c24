//! The request-side rules of a file search: where to look, how many hits to
//! keep, which ranges are acceptable, and how a hit is reported.
use vstd::prelude::*;
use crate::address::views_of_strings;
use crate::manifest::opt_view;
use crate::text::{chars_of, string_from_chars, trim, trim_chars};

verus! {

/// One file or directory found.
#[derive(Clone, Debug)]
pub struct FileSearchHit {
    pub path: String,
    pub file_name: String,
    pub parent_dir: String,
    pub is_dir: bool,
    pub size: Option<u64>,
    /// Seconds since the Unix epoch.
    pub modified: Option<u64>,
}

/// The hits of one search.
#[derive(Clone, Debug)]
pub struct FileSearchResponse {
    pub hits: Vec<FileSearchHit>,
    pub duration_ms: u128,
    pub base_location: String,
}

/// What the file system reported about a hit.
#[derive(Clone, Copy, Debug)]
pub struct HitMetadata {
    pub is_dir: bool,
    pub is_file: bool,
    pub len: u64,
    pub modified: Option<u64>,
}

/// Why a search request was refused.
#[derive(Clone, Copy, Debug, PartialEq, Eq, Structural)]
pub enum SearchRangeError {
    /// The creation-time range starts after it ends.
    CreatedRange,
    /// The modification-time range starts after it ends.
    ModifiedRange,
}

/// How many hits a search keeps when the request names no limit.
pub const DEFAULT_RESULT_LIMIT: usize = 200;

/// The most hits a search keeps.
pub const MAX_RESULT_LIMIT: usize = 2000;

/// The number of hits to keep: the requested limit, or the default, held
/// between 1 and the maximum.
pub fn effective_limit(limit: Option<usize>) -> (r: usize)
    ensures
        r == match limit {
            None => DEFAULT_RESULT_LIMIT,
            Some(l) => if l < 1 { 1 } else if l > MAX_RESULT_LIMIT { MAX_RESULT_LIMIT } else { l },
        },
{
    match limit {
        None => DEFAULT_RESULT_LIMIT,
        Some(l) => if l < 1 { 1 } else if l > MAX_RESULT_LIMIT { MAX_RESULT_LIMIT } else { l },
    }
}

/// A time range is refused where it starts after it ends.
pub fn check_time_ranges(
    created_after: Option<u64>,
    created_before: Option<u64>,
    modified_after: Option<u64>,
    modified_before: Option<u64>,
) -> (r: Result<(), SearchRangeError>)
    ensures
        r == if created_after is Some && created_before is Some && created_after.unwrap() > created_before.unwrap() {
            Err(SearchRangeError::CreatedRange)
        } else if modified_after is Some && modified_before is Some && modified_after.unwrap() > modified_before.unwrap() {
            Err(SearchRangeError::ModifiedRange)
        } else {
            Ok(())
        },
{
    if let (Some(after), Some(before)) = (created_after, created_before) {
        if after > before {
            return Err(SearchRangeError::CreatedRange);
        }
    }
    if let (Some(after), Some(before)) = (modified_after, modified_before) {
        if after > before {
            return Err(SearchRangeError::ModifiedRange);
        }
    }
    Ok(())
}

/// A location as typed: trimmed, and none where nothing is left.
pub open spec fn location_of(input: Seq<char>) -> Option<Seq<char>> {
    if trim(input).len() == 0 { None } else { Some(trim(input)) }
}

/// A location as typed: trimmed, and none where nothing is left.
pub fn normalize_path(input: &str) -> (r: Option<String>)
    ensures
        opt_view(r) == location_of(input@),
{
    let t = trim_chars(&chars_of(input));
    if t.len() == 0 {
        None
    } else {
        Some(string_from_chars(&t))
    }
}

/// Whether two strings name the same path, component by component.
pub uninterp spec fn path_eq(a: Seq<char>, b: Seq<char>) -> bool;

/// Relies on `PartialEq` for `std::path::Path`: two paths are equal when
/// their components are, which depends on the two strings alone.
#[verifier::external_body]
fn same_path(a: &str, b: &str) -> (r: bool)
    ensures
        r == path_eq(a@, b@),
{
    std::path::Path::new(a) == std::path::Path::new(b)
}

/// The extra locations of a search: each typed location, trimmed, that is
/// not empty, not the base location, and not a path met before.
pub open spec fn extra_locations(items: Seq<Seq<char>>, base: Seq<char>) -> Seq<Seq<char>>
    decreases items.len(),
{
    if items.len() == 0 {
        Seq::empty()
    } else {
        let kept = extra_locations(items.drop_last(), base);
        let t = trim(items.last());
        if t.len() == 0 || path_eq(t, base) || exists|k: int| 0 <= k < kept.len() && path_eq(#[trigger] kept[k], t) {
            kept
        } else {
            kept.push(t)
        }
    }
}

/// The extra locations of a search, as `extra_locations` states.
pub fn parse_additional_locations(paths: &Vec<String>, base: &str) -> (r: Vec<String>)
    ensures
        views_of_strings(r@) == extra_locations(views_of_strings(paths@), base@),
{
    let ghost items = views_of_strings(paths@);
    let mut out: Vec<String> = Vec::new();
    let mut i: usize = 0;
    while i < paths.len()
        invariant
            i <= paths@.len(),
            items == views_of_strings(paths@),
            views_of_strings(out@) == extra_locations(items.subrange(0, i as int), base@),
        decreases paths@.len() - i,
    {
        assert(items.subrange(0, i + 1).drop_last() =~= items.subrange(0, i as int));
        assert(items.subrange(0, i + 1).last() == paths@[i as int]@);
        let ghost kept = views_of_strings(out@);
        match normalize_path(paths[i].as_str()) {
            None => {},
            Some(t) => {
                if !same_path(t.as_str(), base) {
                    let mut seen = false;
                    let mut k: usize = 0;
                    while k < out.len()
                        invariant
                            k <= out@.len(),
                            kept == views_of_strings(out@),
                            seen <==> exists|j: int| 0 <= j < k && path_eq(#[trigger] kept[j], t@),
                        decreases out@.len() - k,
                    {
                        assert(kept[k as int] == out@[k as int]@);
                        if same_path(out[k].as_str(), t.as_str()) {
                            seen = true;
                        }
                        k += 1;
                    }
                    if !seen {
                        out.push(t);
                        assert(views_of_strings(out@) =~= kept.push(trim(paths@[i as int]@)));
                    }
                }
            },
        }
        i += 1;
    }
    assert(items.subrange(0, items.len() as int) =~= items);
    out
}

/// The hit for `path`. Its leaf name and parent directory fall back to the
/// path itself where the path has none; a path the file system could not
/// describe is reported as a file of unknown size and age.
pub fn into_hit(path: String, file_name: Option<String>, parent_dir: Option<String>, metadata: Option<HitMetadata>) -> (r: FileSearchHit)
    ensures
        r.path@ == path@,
        r.file_name@ == match file_name { Some(n) => n@, None => path@ },
        r.parent_dir@ == match parent_dir { Some(p) => p@, None => path@ },
        r.is_dir == match metadata { Some(m) => m.is_dir, None => false },
        r.size == match metadata { Some(m) => if m.is_file { Some(m.len) } else { None }, None => None },
        r.modified == match metadata { Some(m) => m.modified, None => None },
{
    let file_name = match file_name {
        Some(n) => n,
        None => path.clone(),
    };
    let parent_dir = match parent_dir {
        Some(p) => p,
        None => path.clone(),
    };
    match metadata {
        Some(m) => FileSearchHit {
            path,
            file_name,
            parent_dir,
            is_dir: m.is_dir,
            size: if m.is_file { Some(m.len) } else { None },
            modified: m.modified,
        },
        None => FileSearchHit { path, file_name, parent_dir, is_dir: false, size: None, modified: None },
    }
}

} // verus!
