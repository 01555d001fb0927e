//! The mod manager: the command surface over the cache. Commands are
//! handled one at a time; raw detected changes are lifted into
//! user-facing `Change` events; installs and updates frame their work in
//! `Started` → `Downloading`* → `Finished` progress events, with
//! download progress coalesced by a throttle. The driving task owns the
//! channels and the HTTP client; the decisions live here.
use crate::cache::{CacheView, ModCache};
use crate::data::{
    Change, ChangeView, DetectedChange, DetectedChangeView, DownloadProgress, ManagerError, Mod,
    ModProgress, ModProgressView, ModSource, ModView,
};
use crate::store::ErrorView;
use vstd::prelude::*;

verus! {

/// How long the download throttle holds `Receiving` reports back.
pub const DEFAULT_RECEIVING_INTERVAL_MS: u64 = 20;

/// The manager's error taxonomy; the store-shaped variants keep the
/// store error they wrap.
#[derive(Debug)]
pub enum Error {
    ModExistsError(crate::store::Error),
    ModNotFoundError(crate::store::Error),
    ModNonDirectoryError(crate::store::Error),
    ManifestParseError(crate::store::Error),
    SourceError(crate::store::Error),
    DestinationError(crate::store::Error),
    ChannelError(String),
    UnknownError(String),
}

/// Mathematical value of a manager error: its kind, with the id where
/// the kind carries one.
#[verifier::ext_equal]
pub ghost enum MgrErrorView {
    ModExists(Seq<char>),
    ModNotFound(Seq<char>),
    ModNonDirectory(Seq<char>),
    ManifestParse,
    Source,
    Destination,
    Channel,
    Unknown,
}

impl View for Error {
    type V = MgrErrorView;

    open spec fn view(&self) -> MgrErrorView {
        match self {
            Error::ModExistsError(e) => match e@ {
                ErrorView::AlreadyExists(id) => MgrErrorView::ModExists(id),
                _ => MgrErrorView::Unknown,
            },
            Error::ModNotFoundError(e) => match e@ {
                ErrorView::NotFound(id) => MgrErrorView::ModNotFound(id),
                _ => MgrErrorView::Unknown,
            },
            Error::ModNonDirectoryError(e) => match e@ {
                ErrorView::NonDirectory(id) => MgrErrorView::ModNonDirectory(id),
                _ => MgrErrorView::Unknown,
            },
            Error::ManifestParseError(_) => MgrErrorView::ManifestParse,
            Error::SourceError(_) => MgrErrorView::Source,
            Error::DestinationError(_) => MgrErrorView::Destination,
            Error::ChannelError(_) => MgrErrorView::Channel,
            Error::UnknownError(_) => MgrErrorView::Unknown,
        }
    }
}

/// The manager kind a store error maps onto.
pub open spec fn lifted_error(e: ErrorView) -> MgrErrorView {
    match e {
        ErrorView::AlreadyExists(id) => MgrErrorView::ModExists(id),
        ErrorView::NotFound(id) => MgrErrorView::ModNotFound(id),
        ErrorView::NonDirectory(id) => MgrErrorView::ModNonDirectory(id),
        ErrorView::SourceError => MgrErrorView::Source,
        ErrorView::DestinationError => MgrErrorView::Destination,
        ErrorView::IoError => MgrErrorView::Unknown,
        ErrorView::UnknownError => MgrErrorView::Unknown,
    }
}

/// Maps a store error into the manager's taxonomy, as the command
/// handlers report it.
pub fn from_local(err: crate::store::Error) -> (r: Error)
    ensures
        r@ == lifted_error(err@),
{
    match err {
        crate::store::Error::AlreadyExists(id) => Error::ModExistsError(
            crate::store::Error::AlreadyExists(id),
        ),
        crate::store::Error::NotFound(id) => Error::ModNotFoundError(
            crate::store::Error::NotFound(id),
        ),
        crate::store::Error::NonDirectory(id) => Error::ModNonDirectoryError(
            crate::store::Error::NonDirectory(id),
        ),
        crate::store::Error::SourceError(m) => Error::SourceError(
            crate::store::Error::SourceError(m),
        ),
        crate::store::Error::DestinationError(m) => Error::DestinationError(
            crate::store::Error::DestinationError(m),
        ),
        crate::store::Error::IoError(m) => Error::UnknownError(m),
        crate::store::Error::UnknownError(m) => Error::UnknownError(m),
    }
}

impl ManagerError {
    /// The serializable taxonomy a manager error is reported under to
    /// external consumers.
    pub fn from_error(err: &Error) -> (r: ManagerError)
        ensures
            err@ matches MgrErrorView::ModExists(_) <==> r is ModExistsError,
            err@ matches MgrErrorView::ModNotFound(_) <==> r is ModNotFoundError,
            err@ matches MgrErrorView::ModNonDirectory(_) <==> r is ModNonDirectoryError,
            err@ is ManifestParse <==> r is ManifestParseError,
            err@ is Source <==> r is SourceError,
            err@ is Destination <==> r is DestinationError,
            err@ is Channel <==> r is ChannelError,
            err@ is Unknown <==> r is UnknownError,
    {
        match err {
            Error::ModExistsError(e) => {
                match e {
                    crate::store::Error::AlreadyExists(_) => ManagerError::ModExistsError(
                        e.describe(),
                    ),
                    _ => ManagerError::UnknownError(e.describe()),
                }
            },
            Error::ModNotFoundError(e) => {
                match e {
                    crate::store::Error::NotFound(_) => ManagerError::ModNotFoundError(
                        e.describe(),
                    ),
                    _ => ManagerError::UnknownError(e.describe()),
                }
            },
            Error::ModNonDirectoryError(e) => {
                match e {
                    crate::store::Error::NonDirectory(_) => ManagerError::ModNonDirectoryError(
                        e.describe(),
                    ),
                    _ => ManagerError::UnknownError(e.describe()),
                }
            },
            Error::ManifestParseError(e) => ManagerError::ManifestParseError(e.describe()),
            Error::SourceError(e) => ManagerError::SourceError(e.describe()),
            Error::DestinationError(e) => ManagerError::DestinationError(e.describe()),
            Error::ChannelError(m) => ManagerError::ChannelError(m.clone()),
            Error::UnknownError(m) => ManagerError::UnknownError(m.clone()),
        }
    }
}

/// A command on the manager's queue.
pub enum Command {
    Get { id: String },
    List,
    Remove { id: String },
    Install { package: ModSource },
    Update { package: ModSource },
}

/// The `Change` a detected change is lifted into: install and update
/// results are framed as finished progress, removals and new versions
/// pass through.
pub open spec fn lift_spec(d: DetectedChangeView) -> ChangeView {
    match d {
        DetectedChangeView::Added { installed } => ChangeView::Add {
            progress: ModProgressView::Finished { installed },
        },
        DetectedChangeView::Removed { id } => ChangeView::Remove { id },
        DetectedChangeView::Updated { installed } => ChangeView::Update {
            progress: ModProgressView::Finished { installed },
        },
        DetectedChangeView::NewVersion { id } => ChangeView::NewVersion { id },
    }
}

/// The `Started` event that opens an operation on an id.
pub open spec fn started_event(is_update: bool, id: Seq<char>) -> ChangeView {
    if is_update {
        ChangeView::Update { progress: ModProgressView::Started { id } }
    } else {
        ChangeView::Add { progress: ModProgressView::Started { id } }
    }
}

/// A `Downloading` event of an operation on an id.
pub open spec fn downloading_event(
    is_update: bool,
    id: Seq<char>,
    main_file: DownloadProgress,
    logo_file: DownloadProgress,
) -> ChangeView {
    if is_update {
        ChangeView::Update {
            progress: ModProgressView::Downloading { id, main_file, logo_file },
        }
    } else {
        ChangeView::Add { progress: ModProgressView::Downloading { id, main_file, logo_file } }
    }
}

/// The `Finished` event that closes a successful operation.
pub open spec fn finished_event(is_update: bool, installed: ModView) -> ChangeView {
    if is_update {
        ChangeView::Update { progress: ModProgressView::Finished { installed } }
    } else {
        ChangeView::Add { progress: ModProgressView::Finished { installed } }
    }
}

/// The store transition a completed remote flow applies: an update
/// updates, an install installs.
pub open spec fn remote_step_spec(
    is_update: bool,
    s: crate::store::StoreView,
    d: crate::remote::DownloadedModView,
) -> (Result<ModView, ErrorView>, crate::store::StoreView) {
    if is_update {
        crate::store::update_remote_spec(s, d)
    } else {
        crate::store::install_remote_spec(s, d)
    }
}

/// The detected change a completed remote flow leaves in the cache.
pub open spec fn remote_step_event(is_update: bool, m: ModView) -> DetectedChangeView {
    if is_update {
        DetectedChangeView::Updated { installed: m }
    } else {
        DetectedChangeView::Added { installed: m }
    }
}

/// What serving a `Remove` command guarantees: the store transition is
/// applied, the map entry and one `Removed` cache event follow it, and
/// the removal is republished on the change bus; a store error leaves
/// everything untouched and is mapped into the manager's taxonomy.
pub open spec fn remove_outcome(
    pre: ManagerView,
    post: ManagerView,
    id: Seq<char>,
    r: Result<(), Error>,
) -> bool {
    match r {
        Ok(_) => {
            &&& crate::store::remove_spec(pre.cache.store, id).0 is Ok
            &&& post == (ManagerView {
                cache: (CacheView {
                    store: crate::store::remove_spec(pre.cache.store, id).1,
                    mods: crate::cache::cache_drop(pre.cache.mods, id),
                    events: pre.cache.events.push(DetectedChangeView::Removed { id }),
                    ..pre.cache
                }),
                changes: pre.changes.push(ChangeView::Remove { id }),
                ..pre
            })
        },
        Err(e) => {
            &&& crate::store::remove_spec(pre.cache.store, id).0 matches Err(se) && e@
                == lifted_error(se)
            &&& post == pre
        },
    }
}

/// What a local install guarantees: the store transition is applied,
/// the installed mod enters the map with one `Added` cache event, and
/// the operation is framed by `Started` and `Finished` on the change
/// bus; on a store error only `Started` is published, the store is left
/// as the failed transition leaves it, and the error is mapped.
pub open spec fn install_local_outcome(
    pre: ManagerView,
    post: ManagerView,
    src: crate::remote::SourceFileView,
    dest_id: Seq<char>,
    r: Result<Mod, Error>,
) -> bool {
    match r {
        Ok(m) => {
            &&& crate::store::install_local_spec(pre.cache.store, src, dest_id).0 == Ok::<
                ModView,
                ErrorView,
            >(m@)
            &&& post == (ManagerView {
                cache: (CacheView {
                    store: crate::store::install_local_spec(pre.cache.store, src, dest_id).1,
                    mods: crate::cache::cache_upsert(pre.cache.mods, m@),
                    events: pre.cache.events.push(DetectedChangeView::Added { installed: m@ }),
                    ..pre.cache
                }),
                changes: pre.changes + seq![
                    started_event(false, dest_id),
                    finished_event(false, m@),
                ],
                ..pre
            })
        },
        Err(e) => {
            &&& crate::store::install_local_spec(pre.cache.store, src, dest_id).0 matches Err(se)
                && e@ == lifted_error(se)
            &&& post == (ManagerView {
                cache: (CacheView {
                    store: crate::store::install_local_spec(pre.cache.store, src, dest_id).1,
                    ..pre.cache
                }),
                changes: pre.changes + seq![started_event(false, dest_id)],
                ..pre
            })
        },
    }
}

/// What a local update guarantees, framed like the install but under
/// `Update` events.
pub open spec fn update_local_outcome(
    pre: ManagerView,
    post: ManagerView,
    src: crate::remote::SourceFileView,
    dest_id: Seq<char>,
    r: Result<Mod, Error>,
) -> bool {
    match r {
        Ok(m) => {
            &&& crate::store::update_local_spec(pre.cache.store, src, dest_id).0 == Ok::<
                ModView,
                ErrorView,
            >(m@)
            &&& post == (ManagerView {
                cache: (CacheView {
                    store: crate::store::update_local_spec(pre.cache.store, src, dest_id).1,
                    mods: crate::cache::cache_upsert(pre.cache.mods, m@),
                    events: pre.cache.events.push(DetectedChangeView::Updated { installed: m@ }),
                    ..pre.cache
                }),
                changes: pre.changes + seq![
                    started_event(true, dest_id),
                    finished_event(true, m@),
                ],
                ..pre
            })
        },
        Err(e) => {
            &&& crate::store::update_local_spec(pre.cache.store, src, dest_id).0 matches Err(se)
                && e@ == lifted_error(se)
            &&& post == (ManagerView {
                cache: (CacheView {
                    store: crate::store::update_local_spec(pre.cache.store, src, dest_id).1,
                    ..pre.cache
                }),
                changes: pre.changes + seq![started_event(true, dest_id)],
                ..pre
            })
        },
    }
}

/// Whether an event is a `Downloading` report of the given operation.
pub open spec fn is_downloading_event(e: ChangeView, is_update: bool, id: Seq<char>) -> bool {
    exists|m: DownloadProgress, l: DownloadProgress| e == downloading_event(is_update, id, m, l)
}

/// Per-id progress ordering of one operation's trace: it opens with
/// `Started`, everything in between is `Downloading`, and only the very
/// last event may be `Finished`. An operation that fails contributes no
/// `Finished` at all.
pub open spec fn op_trace_ok(t: Seq<ChangeView>, is_update: bool, id: Seq<char>) -> bool {
    &&& t.len() >= 1
    &&& t[0] == started_event(is_update, id)
    &&& forall|k: int|
        0 < k < t.len() ==> (is_downloading_event(#[trigger] t[k], is_update, id) || (k == t.len()
            - 1 && (exists|m: ModView| t[k] == finished_event(is_update, m))))
}

/// Progress ordering: whatever download reports arrive in between, an
/// operation's trace — `Started`, the downloading reports, and a final
/// `Finished` on success or nothing on failure — is well ordered.
pub proof fn lemma_progress_ordering(
    mid: Seq<ChangeView>,
    is_update: bool,
    id: Seq<char>,
    installed: ModView,
)
    requires
        forall|k: int|
            0 <= k < mid.len() ==> is_downloading_event(#[trigger] mid[k], is_update, id),
    ensures
        op_trace_ok(seq![started_event(is_update, id)] + mid, is_update, id),
        op_trace_ok(
            seq![started_event(is_update, id)] + mid + seq![finished_event(is_update, installed)],
            is_update,
            id,
        ),
{
    let t1 = seq![started_event(is_update, id)] + mid;
    assert(t1[0] == started_event(is_update, id));
    assert forall|k: int| 0 < k < t1.len() implies (is_downloading_event(
        #[trigger] t1[k],
        is_update,
        id,
    ) || (k == t1.len() - 1 && (exists|m: ModView| t1[k] == finished_event(is_update, m)))) by {
        assert(t1[k] == mid[k - 1]);
    }
    let t2 = t1 + seq![finished_event(is_update, installed)];
    assert(t2[0] == t1[0]);
    assert forall|k: int| 0 < k < t2.len() implies (is_downloading_event(
        #[trigger] t2[k],
        is_update,
        id,
    ) || (k == t2.len() - 1 && (exists|m: ModView| t2[k] == finished_event(is_update, m)))) by {
        if k < t2.len() - 1 {
            assert(t2[k] == mid[k - 1]);
        } else {
            assert(t2[k] == finished_event(is_update, installed));
        }
    }
}

/// Coalesces download progress reports: `Receiving` reports are held
/// back and released at most once per throttle tick; any transition out
/// of `Receiving` is released at once.
pub struct DownloadThrottle {
    pub last_main: DownloadProgress,
    pub last_logo: DownloadProgress,
    pub unsent_update: bool,
}

impl DownloadThrottle {
    pub fn new() -> (r: Self)
        ensures
            r.last_main == DownloadProgress::Waiting,
            r.last_logo == DownloadProgress::Waiting,
            !r.unsent_update,
    {
        DownloadThrottle {
            last_main: DownloadProgress::Waiting,
            last_logo: DownloadProgress::Waiting,
            unsent_update: false,
        }
    }

    /// Records a main-file report; a `Receiving` report is deferred to
    /// the next tick, anything else is published at once.
    pub fn on_main_changed(&mut self, p: DownloadProgress) -> (emit: Option<
        (DownloadProgress, DownloadProgress),
    >)
        ensures
            final(self).last_main == p,
            final(self).last_logo == old(self).last_logo,
            p is Receiving ==> (final(self).unsent_update && emit is None),
            !(p is Receiving) ==> (!final(self).unsent_update && emit == Some(
                (p, old(self).last_logo),
            )),
    {
        self.last_main = p.clone();
        match &self.last_main {
            DownloadProgress::Receiving { .. } => {
                self.unsent_update = true;
                None
            },
            _ => {
                self.unsent_update = false;
                Some((p, self.last_logo.clone()))
            },
        }
    }

    /// Records a logo report; same policy as for the main file.
    pub fn on_logo_changed(&mut self, p: DownloadProgress) -> (emit: Option<
        (DownloadProgress, DownloadProgress),
    >)
        ensures
            final(self).last_logo == p,
            final(self).last_main == old(self).last_main,
            p is Receiving ==> (final(self).unsent_update && emit is None),
            !(p is Receiving) ==> (!final(self).unsent_update && emit == Some(
                (old(self).last_main, p),
            )),
    {
        self.last_logo = p.clone();
        match &self.last_logo {
            DownloadProgress::Receiving { .. } => {
                self.unsent_update = true;
                None
            },
            _ => {
                self.unsent_update = false;
                Some((self.last_main.clone(), p))
            },
        }
    }

    /// Releases a deferred report on a throttle tick.
    pub fn on_tick(&mut self) -> (emit: Option<(DownloadProgress, DownloadProgress)>)
        ensures
            final(self).last_main == old(self).last_main,
            final(self).last_logo == old(self).last_logo,
            !final(self).unsent_update,
            old(self).unsent_update ==> emit == Some((old(self).last_main, old(self).last_logo)),
            !old(self).unsent_update ==> emit is None,
    {
        if self.unsent_update {
            self.unsent_update = false;
            Some((self.last_main.clone(), self.last_logo.clone()))
        } else {
            None
        }
    }
}

/// One in-flight remote install or update: its id, the remote code, the
/// operation kind, and the throttle for its download reports.
pub struct RemoteFlow {
    pub is_update: bool,
    pub id: String,
    pub code: String,
    pub throttle: DownloadThrottle,
}

/// Mathematical value of the manager.
#[verifier::ext_equal]
pub ghost struct ManagerView {
    pub api_configured: bool,
    pub receiving_interval_ms: u64,
    pub cache: CacheView,
    pub changes: Seq<ChangeView>,
}

/// The command surface over the cache.
pub struct ModManager {
    api_configured: bool,
    receiving_interval_ms: u64,
    cache: ModCache,
    changes: Vec<Change>,
}

impl View for ModManager {
    type V = ManagerView;

    closed spec fn view(&self) -> ManagerView {
        ManagerView {
            api_configured: self.api_configured,
            receiving_interval_ms: self.receiving_interval_ms,
            cache: self.cache@,
            changes: self.changes@.map_values(|c: Change| c@),
        }
    }
}

impl ModManager {
    pub open spec fn wf(self) -> bool {
        crate::cache::cache_unique(self@.cache.mods) && self@.cache.store.wf()
    }

    pub fn new(api_configured: bool, cache: ModCache, receiving_interval_ms: u64) -> (r: Self)
        requires
            cache.wf(),
        ensures
            r@.api_configured == api_configured,
            r@.receiving_interval_ms == receiving_interval_ms,
            r@.cache == cache@,
            r@.changes == Seq::<ChangeView>::empty(),
            r.wf(),
    {
        let r = ModManager { api_configured, receiving_interval_ms, cache, changes: Vec::new() };
        proof {
            assert(r@.changes =~= Seq::<ChangeView>::empty());
        }
        r
    }

    /// The cache beneath the manager, for callers that mirror its store
    /// outward.
    pub fn cache_ref(&self) -> (r: &ModCache)
        ensures
            r@ == self@.cache,
    {
        &self.cache
    }

    /// Replaces the store beneath the cache with a freshly read one and
    /// reconciles the map with it, as the periodic scan tick does.
    pub fn rescan(&mut self, disk: crate::store::DiskMods)
        requires
            old(self).wf(),
            disk@.wf(),
        ensures
            final(self).wf(),
            final(self)@ == (ManagerView {
                cache: (CacheView {
                    store: disk@,
                    mods: crate::cache::scan_result(
                        old(self)@.cache.mods,
                        crate::store::list_spec(disk@),
                    ),
                    events: old(self)@.cache.events + crate::cache::scan_events(
                        old(self)@.cache.mods,
                        crate::store::list_spec(disk@),
                    ),
                    ..old(self)@.cache
                }),
                ..old(self)@
            }),
    {
        let ghost d = disk@;
        self.cache.reload_store(disk);
        self.cache.local_scan();
        proof {
            assert(self@ =~= (ManagerView {
                cache: (CacheView {
                    store: d,
                    mods: crate::cache::scan_result(
                        old(self)@.cache.mods,
                        crate::store::list_spec(d),
                    ),
                    events: old(self)@.cache.events + crate::cache::scan_events(
                        old(self)@.cache.mods,
                        crate::store::list_spec(d),
                    ),
                    ..old(self)@.cache
                }),
                ..old(self)@
            }));
        }
    }

    /// Hands the accumulated change events to the driving loop, which
    /// broadcasts them in order.
    pub fn take_changes(&mut self) -> (r: Vec<Change>)
        ensures
            r@.map_values(|c: Change| c@) == old(self)@.changes,
            final(self)@ == (ManagerView { changes: Seq::empty(), ..old(self)@ }),
    {
        let mut out: Vec<Change> = Vec::new();
        core::mem::swap(&mut out, &mut self.changes);
        proof {
            assert(self@.changes =~= Seq::<ChangeView>::empty());
            assert(self@ =~= (ManagerView { changes: Seq::empty(), ..old(self)@ }));
        }
        out
    }

    /// Drains the cache's detected changes and lifts each into a
    /// user-facing `Change`, in order.
    pub fn pump_detected(&mut self)
        requires
            old(self).wf(),
        ensures
            final(self).wf(),
            final(self)@ == (ManagerView {
                cache: (CacheView { events: Seq::empty(), ..old(self)@.cache }),
                changes: old(self)@.changes + old(self)@.cache.events.map_values(
                    |d: DetectedChangeView| lift_spec(d),
                ),
                ..old(self)@
            }),
    {
        let ghost evs = self@.cache.events;
        let detected = self.cache.take_events();
        let mut i: usize = 0;
        while i < detected.len()
            invariant
                i <= detected@.len(),
                detected@.map_values(|e: DetectedChange| e@) == evs,
                self@.cache == (CacheView { events: Seq::empty(), ..old(self)@.cache }),
                self@.api_configured == old(self)@.api_configured,
                self@.receiving_interval_ms == old(self)@.receiving_interval_ms,
                self@.changes == old(self)@.changes + evs.take(i as int).map_values(
                    |d: DetectedChangeView| lift_spec(d),
                ),
            decreases detected@.len() - i,
        {
            let ghost before = self@.changes;
            self.handle_detected(&detected[i]);
            proof {
                assert(self@.changes =~= before.push(lift_spec(evs[i as int])));
                assert(evs.take(i + 1).map_values(|d: DetectedChangeView| lift_spec(d)) =~= evs.take(
                    i as int,
                ).map_values(|d: DetectedChangeView| lift_spec(d)).push(lift_spec(evs[i as int])));
                assert(self@.changes =~= old(self)@.changes + evs.take(i + 1).map_values(
                    |d: DetectedChangeView| lift_spec(d),
                ));
            }
            i += 1;
        }
        proof {
            assert(evs.take(evs.len() as int) =~= evs);
            assert(self@ =~= (ManagerView {
                cache: (CacheView { events: Seq::empty(), ..old(self)@.cache }),
                changes: old(self)@.changes + evs.map_values(
                    |d: DetectedChangeView| lift_spec(d),
                ),
                ..old(self)@
            }));
        }
    }

    /// Lifts one detected change onto the change bus.
    pub fn handle_detected(&mut self, detected: &DetectedChange)
        ensures
            final(self)@ == (ManagerView {
                changes: old(self)@.changes.push(lift_spec(detected@)),
                ..old(self)@
            }),
    {
        let change = match detected {
            DetectedChange::Added { installed } => Change::Add {
                progress: ModProgress::Finished { installed: installed.clone_value() },
            },
            DetectedChange::Removed { id } => Change::Remove { id: id.clone() },
            DetectedChange::Updated { installed } => Change::Update {
                progress: ModProgress::Finished { installed: installed.clone_value() },
            },
            DetectedChange::NewVersion { id } => Change::NewVersion { id: id.clone() },
        };
        self.changes.push(change);
        proof {
            assert(self@.changes =~= old(self)@.changes.push(lift_spec(detected@)));
            assert(self@ =~= (ManagerView {
                changes: old(self)@.changes.push(lift_spec(detected@)),
                ..old(self)@
            }));
        }
    }

    /// Serves a `Get` command from the cache.
    pub fn get_mod(&self, id: &str) -> (r: Result<Mod, Error>)
        requires
            self.wf(),
        ensures
            match r {
                Ok(m) => crate::cache::cache_has(self@.cache.mods, id@) && m@ == crate::cache::cache_at(
                    self@.cache.mods,
                    id@,
                ),
                Err(e) => !crate::cache::cache_has(self@.cache.mods, id@) && e@
                    == MgrErrorView::ModNotFound(id@),
            },
    {
        match self.cache.get(id) {
            Ok(m) => Ok(m),
            Err(e) => Err(from_local(e)),
        }
    }

    /// Serves a `List` command from the cache.
    pub fn list_mods(&self) -> (r: Result<Vec<Mod>, Error>)
        ensures
            r matches Ok(ms) && ms@.map_values(|m: Mod| m@) == self@.cache.mods,
    {
        match self.cache.list() {
            Ok(ms) => Ok(ms),
            Err(e) => Err(from_local(e)),
        }
    }

    /// Serves a `Remove` command: the cache removes and reports, and the
    /// manager republishes the removal on the change bus.
    pub fn remove_mod(&mut self, id: &str) -> (r: Result<(), Error>)
        requires
            old(self).wf(),
        ensures
            final(self).wf(),
            remove_outcome(old(self)@, final(self)@, id@, r),
    {
        match self.cache.remove(id) {
            Err(e) => Err(from_local(e)),
            Ok(_) => {
                self.changes.push(Change::Remove { id: id.to_owned() });
                proof {
                    assert(self@.changes =~= old(self)@.changes.push(
                        ChangeView::Remove { id: id@ },
                    ));
                    assert(self@ =~= (ManagerView {
                        cache: (CacheView {
                            store: crate::store::remove_spec(old(self)@.cache.store, id@).1,
                            mods: crate::cache::cache_drop(old(self)@.cache.mods, id@),
                            events: old(self)@.cache.events.push(
                                DetectedChangeView::Removed { id: id@ },
                            ),
                            ..old(self)@.cache
                        }),
                        changes: old(self)@.changes.push(ChangeView::Remove { id: id@ }),
                        ..old(self)@
                    }));
                }
                Ok(())
            },
        }
    }

    /// Runs a local install: `Started` opens the operation, the cache
    /// does the work, and `Finished` closes it only on success.
    pub fn install_local_mod(&mut self, source_path: &str, dest_id: &str, source: &crate::remote::SourceFile) -> (r: Result<Mod, Error>)
        requires
            old(self).wf(),
            source@.path == source_path@,
        ensures
            final(self).wf(),
            install_local_outcome(old(self)@, final(self)@, source@, dest_id@, r),
    {
        self.changes.push(
            Change::Add { progress: ModProgress::Started { id: dest_id.to_owned() } },
        );
        let ghost after_start = self@.changes;
        proof {
            assert(after_start =~= old(self)@.changes.push(started_event(false, dest_id@)));
        }
        match self.cache.install_local(source, dest_id) {
            Err(e) => {
                proof {
                    assert(self@.changes =~= old(self)@.changes + seq![
                        started_event(false, dest_id@),
                    ]);
                    assert(self@ =~= (ManagerView {
                        cache: (CacheView {
                            store: crate::store::install_local_spec(
                                old(self)@.cache.store,
                                source@,
                                dest_id@,
                            ).1,
                            ..old(self)@.cache
                        }),
                        changes: old(self)@.changes + seq![started_event(false, dest_id@)],
                        ..old(self)@
                    }));
                }
                Err(from_local(e))
            },
            Ok(m) => {
                let out = m.clone_value();
                self.changes.push(Change::Add { progress: ModProgress::Finished { installed: m } });
                proof {
                    assert(self@.changes =~= old(self)@.changes + seq![
                        started_event(false, dest_id@),
                        finished_event(false, out@),
                    ]);
                    assert(self@ =~= (ManagerView {
                        cache: (CacheView {
                            store: crate::store::install_local_spec(
                                old(self)@.cache.store,
                                source@,
                                dest_id@,
                            ).1,
                            mods: crate::cache::cache_upsert(old(self)@.cache.mods, out@),
                            events: old(self)@.cache.events.push(
                                DetectedChangeView::Added { installed: out@ },
                            ),
                            ..old(self)@.cache
                        }),
                        changes: old(self)@.changes + seq![
                            started_event(false, dest_id@),
                            finished_event(false, out@),
                        ],
                        ..old(self)@
                    }));
                }
                Ok(out)
            },
        }
    }

    /// Runs a local update, framed the same way under `Update` events.
    pub fn update_local_mod(&mut self, source_path: &str, dest_id: &str, source: &crate::remote::SourceFile) -> (r: Result<Mod, Error>)
        requires
            old(self).wf(),
            source@.path == source_path@,
        ensures
            final(self).wf(),
            update_local_outcome(old(self)@, final(self)@, source@, dest_id@, r),
    {
        self.changes.push(
            Change::Update { progress: ModProgress::Started { id: dest_id.to_owned() } },
        );
        proof {
            assert(self@.changes =~= old(self)@.changes.push(started_event(true, dest_id@)));
        }
        match self.cache.update_local(source, dest_id) {
            Err(e) => {
                proof {
                    assert(self@.changes =~= old(self)@.changes + seq![
                        started_event(true, dest_id@),
                    ]);
                    assert(self@ =~= (ManagerView {
                        cache: (CacheView {
                            store: crate::store::update_local_spec(
                                old(self)@.cache.store,
                                source@,
                                dest_id@,
                            ).1,
                            ..old(self)@.cache
                        }),
                        changes: old(self)@.changes + seq![started_event(true, dest_id@)],
                        ..old(self)@
                    }));
                }
                Err(from_local(e))
            },
            Ok(m) => {
                let out = m.clone_value();
                self.changes.push(
                    Change::Update { progress: ModProgress::Finished { installed: m } },
                );
                proof {
                    assert(self@.changes =~= old(self)@.changes + seq![
                        started_event(true, dest_id@),
                        finished_event(true, out@),
                    ]);
                    assert(self@ =~= (ManagerView {
                        cache: (CacheView {
                            store: crate::store::update_local_spec(
                                old(self)@.cache.store,
                                source@,
                                dest_id@,
                            ).1,
                            mods: crate::cache::cache_upsert(old(self)@.cache.mods, out@),
                            events: old(self)@.cache.events.push(
                                DetectedChangeView::Updated { installed: out@ },
                            ),
                            ..old(self)@.cache
                        }),
                        changes: old(self)@.changes + seq![
                            started_event(true, dest_id@),
                            finished_event(true, out@),
                        ],
                        ..old(self)@
                    }));
                }
                Ok(out)
            },
        }
    }

    /// Opens a remote install or update: derives the id `fyi.<code>`,
    /// publishes `Started`, and hands back the flow that the driving
    /// loop feeds with download reports.
    pub fn begin_remote(&mut self, code: &str, is_update: bool) -> (flow: RemoteFlow)
        ensures
            final(self)@ == (ManagerView {
                changes: old(self)@.changes.push(started_event(is_update, "fyi."@ + code@)),
                ..old(self)@
            }),
            flow.is_update == is_update,
            flow.id@ == "fyi."@ + code@,
            flow.code@ == code@,
            !flow.throttle.unsent_update,
    {
        let id = crate::id_for_remote(code);
        let progress = ModProgress::Started { id: id.clone() };
        let change = if is_update {
            Change::Update { progress }
        } else {
            Change::Add { progress }
        };
        self.changes.push(change);
        proof {
            assert(self@.changes =~= old(self)@.changes.push(
                started_event(is_update, "fyi."@ + code@),
            ));
            assert(self@ =~= (ManagerView {
                changes: old(self)@.changes.push(started_event(is_update, "fyi."@ + code@)),
                ..old(self)@
            }));
        }
        RemoteFlow { is_update, id, code: code.to_owned(), throttle: DownloadThrottle::new() }
    }

    /// Whether remote operations can run at all; without a configured
    /// client they fail before any download starts.
    pub fn api_ready(&self) -> (r: Result<(), Error>)
        ensures
            r is Ok <==> self@.api_configured,
            r matches Err(e) ==> e@ is Unknown,
    {
        if self.api_configured {
            Ok(())
        } else {
            Err(
                Error::UnknownError(
                    String::from_str("tried to access remote mod, but API isn't configured"),
                ),
            )
        }
    }

    /// Publishes one throttled `Downloading` report for a flow, if the
    /// throttle releases one.
    pub fn publish_download_progress(
        &mut self,
        flow: &RemoteFlow,
        emit: Option<(DownloadProgress, DownloadProgress)>,
    )
        ensures
            emit matches Some(pair) ==> final(self)@ == (ManagerView {
                changes: old(self)@.changes.push(
                    downloading_event(flow.is_update, flow.id@, pair.0, pair.1),
                ),
                ..old(self)@
            }),
            emit is None ==> final(self)@ == old(self)@,
    {
        match emit {
            None => {
                proof {
                    assert(self@ =~= old(self)@);
                }
            },
            Some((main_file, logo_file)) => {
                let progress = ModProgress::Downloading {
                    id: flow.id.clone(),
                    main_file,
                    logo_file,
                };
                let change = if flow.is_update {
                    Change::Update { progress }
                } else {
                    Change::Add { progress }
                };
                let ghost pair = (main_file, logo_file);
                self.changes.push(change);
                proof {
                    assert(self@.changes =~= old(self)@.changes.push(
                        downloading_event(flow.is_update, flow.id@, pair.0, pair.1),
                    ));
                    assert(self@ =~= (ManagerView {
                        changes: old(self)@.changes.push(
                            downloading_event(flow.is_update, flow.id@, pair.0, pair.1),
                        ),
                        ..old(self)@
                    }));
                }
            },
        }
    }

    /// Completes a remote flow once the download finished: a final
    /// `Downloading` report shows both transfers finished, the cache
    /// installs or updates, and `Finished` closes the operation only on
    /// success.
    pub fn finish_remote(&mut self, flow: RemoteFlow, downloaded: &crate::remote::DownloadedMod)
        -> (r: Result<Mod, Error>)
        requires
            old(self).wf(),
        ensures
            final(self).wf(),
            match r {
                Ok(m) => {
                    &&& remote_step_spec(flow.is_update, old(self)@.cache.store, downloaded@).0
                        == Ok::<ModView, ErrorView>(m@)
                    &&& final(self)@ == (ManagerView {
                        cache: (CacheView {
                            store: remote_step_spec(
                                flow.is_update,
                                old(self)@.cache.store,
                                downloaded@,
                            ).1,
                            mods: crate::cache::cache_upsert(old(self)@.cache.mods, m@),
                            events: old(self)@.cache.events.push(
                                remote_step_event(flow.is_update, m@),
                            ),
                            ..old(self)@.cache
                        }),
                        changes: old(self)@.changes + seq![
                            downloading_event(
                                flow.is_update,
                                flow.id@,
                                DownloadProgress::Finished,
                                DownloadProgress::Finished,
                            ),
                            finished_event(flow.is_update, m@),
                        ],
                        ..old(self)@
                    })
                },
                Err(e) => {
                    &&& remote_step_spec(
                        flow.is_update,
                        old(self)@.cache.store,
                        downloaded@,
                    ).0 matches Err(se) && e@ == lifted_error(se)
                    &&& final(self)@ == (ManagerView {
                        cache: (CacheView {
                            store: remote_step_spec(
                                flow.is_update,
                                old(self)@.cache.store,
                                downloaded@,
                            ).1,
                            ..old(self)@.cache
                        }),
                        changes: old(self)@.changes + seq![
                            downloading_event(
                                flow.is_update,
                                flow.id@,
                                DownloadProgress::Finished,
                                DownloadProgress::Finished,
                            ),
                        ],
                        ..old(self)@
                    })
                },
            },
    {
        self.publish_download_progress(
            &flow,
            Some((DownloadProgress::Finished, DownloadProgress::Finished)),
        );
        let ghost mid = self@.changes;
        proof {
            assert(mid == old(self)@.changes.push(
                downloading_event(
                    flow.is_update,
                    flow.id@,
                    DownloadProgress::Finished,
                    DownloadProgress::Finished,
                ),
            ));
        }
        let res = if flow.is_update {
            self.cache.update_remote(downloaded)
        } else {
            self.cache.install_remote(downloaded)
        };
        match res {
            Err(e) => {
                proof {
                    assert(self@ =~= (ManagerView {
                        cache: (CacheView {
                            store: remote_step_spec(
                                flow.is_update,
                                old(self)@.cache.store,
                                downloaded@,
                            ).1,
                            ..old(self)@.cache
                        }),
                        changes: old(self)@.changes + seq![
                            downloading_event(
                                flow.is_update,
                                flow.id@,
                                DownloadProgress::Finished,
                                DownloadProgress::Finished,
                            ),
                        ],
                        ..old(self)@
                    }));
                }
                Err(from_local(e))
            },
            Ok(m) => {
                let out = m.clone_value();
                let progress = ModProgress::Finished { installed: m };
                let change = if flow.is_update {
                    Change::Update { progress }
                } else {
                    Change::Add { progress }
                };
                self.changes.push(change);
                proof {
                    assert(self@.changes =~= mid.push(finished_event(flow.is_update, out@)));
                    assert(self@.changes =~= old(self)@.changes + seq![
                        downloading_event(
                            flow.is_update,
                            flow.id@,
                            DownloadProgress::Finished,
                            DownloadProgress::Finished,
                        ),
                        finished_event(flow.is_update, out@),
                    ]);
                    assert(self@ =~= (ManagerView {
                        cache: (CacheView {
                            store: remote_step_spec(
                                flow.is_update,
                                old(self)@.cache.store,
                                downloaded@,
                            ).1,
                            mods: crate::cache::cache_upsert(old(self)@.cache.mods, out@),
                            events: old(self)@.cache.events.push(
                                remote_step_event(flow.is_update, out@),
                            ),
                            ..old(self)@.cache
                        }),
                        changes: old(self)@.changes + seq![
                            downloading_event(
                                flow.is_update,
                                flow.id@,
                                DownloadProgress::Finished,
                                DownloadProgress::Finished,
                            ),
                            finished_event(flow.is_update, out@),
                        ],
                        ..old(self)@
                    }));
                }
                Ok(out)
            },
        }
    }
}

/// What serving one command produced: a reply for the caller, or — for
/// a remote install or update — an opened flow whose download the
/// driving loop must run before finishing it.
pub enum CommandOutcome {
    Got(Result<Mod, Error>),
    Listed(Result<Vec<Mod>, Error>),
    Removed(Result<(), Error>),
    Done(Result<Mod, Error>),
    NeedsRemote { flow: RemoteFlow },
}

impl ModManager {
    /// Serves one command. Local installs and updates complete here;
    /// remote ones open their flow (the `Started` event is already
    /// published) and are completed by `finish_remote` once the driving
    /// loop has downloaded the payload.
    pub fn handle_command(
        &mut self,
        cmd: &Command,
        local_source: Option<&crate::remote::SourceFile>,
    ) -> (outcome: CommandOutcome)
        requires
            old(self).wf(),
            match cmd {
                Command::Install { package: ModSource::Local { source_path, .. } } => (
                local_source matches Some(s) && s@.path == source_path@),
                Command::Update { package: ModSource::Local { source_path, .. } } => (local_source
                    matches Some(s) && s@.path == source_path@),
                _ => true,
            },
        ensures
            final(self).wf(),
            match cmd {
                Command::Get { id } => (outcome matches CommandOutcome::Got(r) && final(self)@
                    == old(self)@ && (match r {
                    Ok(m) => crate::cache::cache_has(old(self)@.cache.mods, id@) && m@
                        == crate::cache::cache_at(old(self)@.cache.mods, id@),
                    Err(e) => !crate::cache::cache_has(old(self)@.cache.mods, id@) && e@
                        == MgrErrorView::ModNotFound(id@),
                })),
                Command::List => (outcome matches CommandOutcome::Listed(r) && final(self)@
                    == old(self)@ && (r matches Ok(ms) && ms@.map_values(|m: Mod| m@)
                    == old(self)@.cache.mods)),
                Command::Remove { id } => (outcome matches CommandOutcome::Removed(r)
                    && remove_outcome(old(self)@, final(self)@, id@, r)),
                Command::Install { package } => match package {
                    ModSource::Local { source_path, dest_id } => (outcome
                        matches CommandOutcome::Done(r) && (local_source matches Some(src)
                        && install_local_outcome(old(self)@, final(self)@, src@, dest_id@, r))),
                    ModSource::Remote { code } => (outcome matches CommandOutcome::NeedsRemote {
                        flow,
                    } && !flow.is_update && flow.code@ == code@ && flow.id@ == "fyi."@ + code@
                        && final(self)@ == (ManagerView {
                        changes: old(self)@.changes.push(started_event(false, "fyi."@ + code@)),
                        ..old(self)@
                    })),
                },
                Command::Update { package } => match package {
                    ModSource::Local { source_path, dest_id } => (outcome
                        matches CommandOutcome::Done(r) && (local_source matches Some(src)
                        && update_local_outcome(old(self)@, final(self)@, src@, dest_id@, r))),
                    ModSource::Remote { code } => (outcome matches CommandOutcome::NeedsRemote {
                        flow,
                    } && flow.is_update && flow.code@ == code@ && flow.id@ == "fyi."@ + code@
                        && final(self)@ == (ManagerView {
                        changes: old(self)@.changes.push(started_event(true, "fyi."@ + code@)),
                        ..old(self)@
                    })),
                },
            },
    {
        match cmd {
            Command::Get { id } => CommandOutcome::Got(self.get_mod(id.as_str())),
            Command::List => CommandOutcome::Listed(self.list_mods()),
            Command::Remove { id } => CommandOutcome::Removed(self.remove_mod(id.as_str())),
            Command::Install { package } => match package {
                ModSource::Local { source_path, dest_id } => {
                    let source = match local_source {
                        Some(s) => s,
                        None => {
                            proof {
                                assert(false);
                            }
                            return CommandOutcome::Done(
                                Err(Error::UnknownError(String::from_str("missing source"))),
                            );
                        },
                    };
                    CommandOutcome::Done(
                        self.install_local_mod(source_path.as_str(), dest_id.as_str(), source),
                    )
                },
                ModSource::Remote { code } => CommandOutcome::NeedsRemote {
                    flow: self.begin_remote(code.as_str(), false),
                },
            },
            Command::Update { package } => match package {
                ModSource::Local { source_path, dest_id } => {
                    let source = match local_source {
                        Some(s) => s,
                        None => {
                            proof {
                                assert(false);
                            }
                            return CommandOutcome::Done(
                                Err(Error::UnknownError(String::from_str("missing source"))),
                            );
                        },
                    };
                    CommandOutcome::Done(
                        self.update_local_mod(source_path.as_str(), dest_id.as_str(), source),
                    )
                },
                ModSource::Remote { code } => CommandOutcome::NeedsRemote {
                    flow: self.begin_remote(code.as_str(), true),
                },
            },
        }
    }
}

} // verus!
