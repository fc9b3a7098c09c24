//! The sharing session: its caller-facing descriptor, and the slot that
//! holds at most one running share.
use vstd::prelude::*;
use crate::address::{
    choose_primary, is_candidate, is_primary_choice, resolve_addresses, strictly_sorted,
    views_of_strings, InterfaceAddress,
};
use crate::manifest::{ids_fresh, meta_of, opt_view, shared_metas, ServerFile, ShareError, SharedFileMeta};

verus! {

/// What callers are told about a running share.
#[derive(Clone, Debug)]
pub struct FileShareSession {
    pub port: u16,
    pub addresses: Vec<String>,
    pub primary_url: String,
    pub files: Vec<SharedFileMeta>,
}

/// A running share: the handle that stops its server, and its descriptor.
pub struct ActiveShare<H> {
    pub handle: H,
    pub session: FileShareSession,
}

/// Holds the running share, if there is one. There is never more than one:
/// a new share is installed only into an empty slot, so the previous one
/// must have been taken out (and stopped) first.
pub struct ShareSlot<H> {
    active: Option<ActiveShare<H>>,
}

/// `a` and `b` describe the same file.
pub open spec fn same_meta(a: SharedFileMeta, b: SharedFileMeta) -> bool {
    &&& a.id@ == b.id@
    &&& a.display_name@ == b.display_name@
    &&& a.download_name@ == b.download_name@
    &&& a.size == b.size
    &&& opt_view(a.extension) == opt_view(b.extension)
}

/// `a` and `b` describe the same session.
pub open spec fn same_session(a: FileShareSession, b: FileShareSession) -> bool {
    &&& a.port == b.port
    &&& views_of_strings(a.addresses@) == views_of_strings(b.addresses@)
    &&& a.primary_url@ == b.primary_url@
    &&& a.files@.len() == b.files@.len()
    &&& forall|k: int| 0 <= k < a.files@.len() ==> same_meta(#[trigger] a.files@[k], b.files@[k])
}

/// The ids of the files a session shares.
pub open spec fn session_ids(s: FileShareSession) -> Seq<Seq<char>> {
    s.files@.map_values(|m: SharedFileMeta| m.id@)
}

/// A selection must name at least one path.
pub fn check_selection(paths: &Vec<String>) -> (r: Result<(), ShareError>)
    ensures
        r is Err <==> paths@.len() == 0,
        r is Err ==> r matches Err(ShareError::InvalidSelection),
{
    if paths.len() == 0 {
        Err(ShareError::InvalidSelection)
    } else {
        Ok(())
    }
}

/// The descriptor of a share serving `files` on `port`: every address it is
/// reachable at, sorted, the one to show first, and what each file is.
pub fn describe_session(port: u16, interfaces: &Vec<InterfaceAddress>, files: &Vec<ServerFile>) -> (r: FileShareSession)
    ensures
        r.port == port,
        strictly_sorted(views_of_strings(r.addresses@)),
        forall|u: Seq<char>| #[trigger] views_of_strings(r.addresses@).contains(u)
            <==> is_candidate(interfaces@, port, u),
        is_primary_choice(views_of_strings(r.addresses@), port, r.primary_url@),
        r.files@.len() == files@.len(),
        forall|k: int| 0 <= k < files@.len() ==> meta_of(#[trigger] r.files@[k], files@[k]),
{
    let addresses = resolve_addresses(port, interfaces);
    let primary_url = choose_primary(&addresses, port);
    FileShareSession { port, addresses, primary_url, files: shared_metas(files) }
}

fn copy_meta(m: &SharedFileMeta) -> (r: SharedFileMeta)
    ensures
        same_meta(r, *m),
{
    SharedFileMeta {
        id: m.id.clone(),
        display_name: m.display_name.clone(),
        download_name: m.download_name.clone(),
        size: m.size,
        extension: match &m.extension {
            Some(e) => Some(e.clone()),
            None => None,
        },
    }
}

/// A copy of a descriptor.
pub fn copy_session(s: &FileShareSession) -> (r: FileShareSession)
    ensures
        same_session(r, *s),
{
    let mut addresses: Vec<String> = Vec::new();
    let mut i: usize = 0;
    while i < s.addresses.len()
        invariant
            i <= s.addresses@.len(),
            addresses@.len() == i,
            forall|k: int| 0 <= k < i ==> #[trigger] addresses@[k]@ == s.addresses@[k]@,
        decreases s.addresses@.len() - i,
    {
        addresses.push(s.addresses[i].clone());
        i += 1;
    }
    assert(views_of_strings(addresses@) =~= views_of_strings(s.addresses@));
    let mut files: Vec<SharedFileMeta> = Vec::new();
    let mut j: usize = 0;
    while j < s.files.len()
        invariant
            j <= s.files@.len(),
            files@.len() == j,
            forall|k: int| 0 <= k < j ==> same_meta(#[trigger] files@[k], s.files@[k]),
        decreases s.files@.len() - j,
    {
        files.push(copy_meta(&s.files[j]));
        j += 1;
    }
    FileShareSession { port: s.port, addresses, primary_url: s.primary_url.clone(), files }
}

impl<H> ShareSlot<H> {
    /// The running share, if any.
    pub closed spec fn current(&self) -> Option<ActiveShare<H>> {
        self.active
    }

    /// A slot with nothing running.
    pub fn new() -> (r: Self)
        ensures
            r.current() is None,
    {
        ShareSlot { active: None }
    }

    /// Whether a share is running.
    pub fn is_active(&self) -> (r: bool)
        ensures
            r == self.current() is Some,
    {
        self.active.is_some()
    }

    /// A copy of the running share's descriptor, or none; the slot is not
    /// changed.
    pub fn snapshot(&self) -> (r: Option<FileShareSession>)
        ensures
            r is None <==> self.current() is None,
            r matches Some(s) ==> same_session(s, self.current().unwrap().session),
    {
        match &self.active {
            Some(share) => Some(copy_session(&share.session)),
            None => None,
        }
    }

    /// Takes the running share out, to be stopped; the slot is then empty.
    /// On an empty slot this changes nothing and returns none, so stopping
    /// twice is the same as stopping once.
    pub fn take_active(&mut self) -> (r: Option<ActiveShare<H>>)
        ensures
            r == old(self).current(),
            final(self).current() is None,
    {
        self.active.take()
    }

    /// Installs a new running share into the empty slot.
    pub fn install(&mut self, share: ActiveShare<H>)
        requires
            old(self).current() is None,
        ensures
            final(self).current() == Some(share),
    {
        self.active = Some(share);
    }

    /// The ids in use by the running share, if any, so that a new manifest
    /// can avoid them.
    pub fn active_ids(&self) -> (r: Vec<String>)
        ensures
            self.current() is None ==> r@.len() == 0,
            self.current() matches Some(a) ==> views_of_strings(r@) == session_ids(a.session),
    {
        let mut out: Vec<String> = Vec::new();
        match &self.active {
            None => {},
            Some(share) => {
                let files = &share.session.files;
                let mut i: usize = 0;
                while i < files.len()
                    invariant
                        i <= files@.len(),
                        out@.len() == i,
                        forall|k: int| 0 <= k < i ==> #[trigger] out@[k]@ == files@[k].id@,
                    decreases files@.len() - i,
                {
                    out.push(files[i].id.clone());
                    i += 1;
                }
                assert(views_of_strings(out@) =~= session_ids(share.session));
            },
        }
        out
    }
}

/// Stopping an empty slot is a no-op, and a slot that has just been
/// stopped reports no session: of two stops in a row, as `take_active`
/// describes each, the second hands out nothing and changes nothing.
pub proof fn lemma_stop_twice<H>(
    before: ShareSlot<H>,
    first: Option<ActiveShare<H>>,
    between: ShareSlot<H>,
    second: Option<ActiveShare<H>>,
    after: ShareSlot<H>,
)
    requires
        first == before.current(),
        between.current() is None,
        second == between.current(),
        after.current() is None,
    ensures
        second is None,
        after.current() == between.current(),
{
}

/// A manifest built to avoid the ids of the running share, as
/// `build_server_files` does with `active_ids`, shares no id with it.
pub proof fn lemma_new_ids_disjoint(files: Seq<ServerFile>, taken: Seq<String>, previous: FileShareSession)
    requires
        ids_fresh(files, taken),
        views_of_strings(taken) == session_ids(previous),
    ensures
        forall|a: int, k: int| 0 <= a < files.len() && 0 <= k < previous.files@.len()
            ==> #[trigger] files[a].id@ != #[trigger] previous.files@[k].id@,
{
    assert forall|a: int, k: int| 0 <= a < files.len() && 0 <= k < previous.files@.len()
        implies #[trigger] files[a].id@ != #[trigger] previous.files@[k].id@ by {
        assert(views_of_strings(taken).len() == session_ids(previous).len());
        assert(views_of_strings(taken).len() == taken.len());
        assert(session_ids(previous).len() == previous.files@.len());
        assert(views_of_strings(taken)[k] == session_ids(previous)[k]);
        assert(taken[k]@ == previous.files@[k].id@);
        assert(files[a].id@ != taken[k]@);
    }
}

} // verus!
