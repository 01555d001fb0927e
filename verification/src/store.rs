//! The disk mod store: one install directory, holding a pack directory
//! per mod under `Mods/Packs/<id>` and metadata (manifest, latest-version
//! pointer, logo) under `Mods/Packs/.ml/<id>`.
//!
//! The store keeps the directory tree as a value — packs with their
//! files, metadata entries with their manifests — and every operation is
//! a verified transition on that value. The surrounding application
//! mirrors those transitions onto the real filesystem.
use crate::archive::TreeEntryView;
use crate::data::{Manifest, ManifestView, Mod, ModLogo, ModLogoView, ModView};
use vstd::prelude::*;

verus! {

/// Domain errors of the store.
#[derive(Debug)]
pub enum Error {
    AlreadyExists(String),
    NotFound(String),
    NonDirectory(String),
    SourceError(String),
    DestinationError(String),
    IoError(String),
    UnknownError(String),
}

/// Mathematical value of a store error. The three identity-carrying
/// variants keep the id they name; the rest are bare kinds.
#[verifier::ext_equal]
pub ghost enum ErrorView {
    AlreadyExists(Seq<char>),
    NotFound(Seq<char>),
    NonDirectory(Seq<char>),
    SourceError,
    DestinationError,
    IoError,
    UnknownError,
}

impl View for Error {
    type V = ErrorView;

    open spec fn view(&self) -> ErrorView {
        match self {
            Error::AlreadyExists(id) => ErrorView::AlreadyExists(id@),
            Error::NotFound(id) => ErrorView::NotFound(id@),
            Error::NonDirectory(id) => ErrorView::NonDirectory(id@),
            Error::SourceError(_) => ErrorView::SourceError,
            Error::DestinationError(_) => ErrorView::DestinationError,
            Error::IoError(_) => ErrorView::IoError,
            Error::UnknownError(_) => ErrorView::UnknownError,
        }
    }
}

impl Error {
    /// A short description of the error, for logs and messages.
    pub fn describe(&self) -> String {
        match self {
            Error::AlreadyExists(id) => {
                let mut m = String::from_str("mod already exists: ");
                m.append(id.as_str());
                m
            },
            Error::NotFound(id) => {
                let mut m = String::from_str("mod wasn't found: ");
                m.append(id.as_str());
                m
            },
            Error::NonDirectory(id) => {
                let mut m = String::from_str("mod isn't in a directory: ");
                m.append(id.as_str());
                m
            },
            Error::SourceError(m) => {
                let mut out = String::from_str("problem with installation source: ");
                out.append(m.as_str());
                out
            },
            Error::DestinationError(m) => {
                let mut out = String::from_str("problem with the destination: ");
                out.append(m.as_str());
                out
            },
            Error::IoError(m) => {
                let mut out = String::from_str("I/O error: ");
                out.append(m.as_str());
                out
            },
            Error::UnknownError(m) => {
                let mut out = String::from_str("unknown error: ");
                out.append(m.as_str());
                out
            },
        }
    }
}

/// One mod directory under `Mods/Packs`: its id (the directory name),
/// whether the path is in fact a directory, and the files it holds.
pub struct Pack {
    pub id: String,
    pub is_dir: bool,
    pub files: Vec<crate::archive::TreeEntry>,
}

/// Mathematical value of a `Pack`.
#[verifier::ext_equal]
pub ghost struct PackView {
    pub id: Seq<char>,
    pub is_dir: bool,
    pub files: Seq<TreeEntryView>,
}

impl View for Pack {
    type V = PackView;

    open spec fn view(&self) -> PackView {
        PackView {
            id: self.id@,
            is_dir: self.is_dir,
            files: self.files@.map_values(|e: crate::archive::TreeEntry| e@),
        }
    }
}

/// A logo file stored beside a manifest.
pub struct LogoFile {
    pub name: String,
    pub data: Vec<u8>,
}

/// Mathematical value of a `LogoFile`.
#[verifier::ext_equal]
pub ghost struct LogoFileView {
    pub name: Seq<char>,
    pub data: Seq<u8>,
}

impl View for LogoFile {
    type V = LogoFileView;

    open spec fn view(&self) -> LogoFileView {
        LogoFileView { name: self.name@, data: self.data@ }
    }
}

/// One metadata directory under `Mods/Packs/.ml/<id>`: the persisted
/// manifest, the latest-version pointer, and the logo file.
pub struct MetaDir {
    pub id: String,
    pub manifest: Option<Manifest>,
    pub latest: Option<String>,
    pub logo: Option<LogoFile>,
}

/// Mathematical value of a `MetaDir`.
#[verifier::ext_equal]
pub ghost struct MetaDirView {
    pub id: Seq<char>,
    pub manifest: Option<ManifestView>,
    pub latest: Option<Seq<char>>,
    pub logo: Option<LogoFileView>,
}

impl View for MetaDir {
    type V = MetaDirView;

    open spec fn view(&self) -> MetaDirView {
        MetaDirView {
            id: self.id@,
            manifest: match self.manifest {
                Some(m) => Some(m@),
                None => None,
            },
            latest: match self.latest {
                Some(l) => Some(l@),
                None => None,
            },
            logo: match self.logo {
                Some(l) => Some(l@),
                None => None,
            },
        }
    }
}

/// Mathematical value of the whole store.
#[verifier::ext_equal]
pub ghost struct StoreView {
    pub install_path: Seq<char>,
    pub packs: Seq<PackView>,
    pub meta: Seq<MetaDirView>,
}

impl StoreView {
    /// Ids are directory names, so each occurs at most once on either
    /// side of the tree.
    pub open spec fn wf(self) -> bool {
        &&& forall|i: int, j: int|
            0 <= i < j < self.packs.len() ==> (#[trigger] self.packs[i]).id != (
            #[trigger] self.packs[j]).id
        &&& forall|i: int, j: int|
            0 <= i < j < self.meta.len() ==> (#[trigger] self.meta[i]).id != (
            #[trigger] self.meta[j]).id
    }

    pub open spec fn has_pack(self, id: Seq<char>) -> bool {
        exists|i: int| 0 <= i < self.packs.len() && (#[trigger] self.packs[i]).id == id
    }

    pub open spec fn pack_index(self, id: Seq<char>) -> int {
        choose|i: int| 0 <= i < self.packs.len() && (#[trigger] self.packs[i]).id == id
    }

    pub open spec fn pack_at(self, id: Seq<char>) -> PackView {
        self.packs[self.pack_index(id)]
    }

    pub open spec fn has_meta(self, id: Seq<char>) -> bool {
        exists|i: int| 0 <= i < self.meta.len() && (#[trigger] self.meta[i]).id == id
    }

    pub open spec fn meta_index(self, id: Seq<char>) -> int {
        choose|i: int| 0 <= i < self.meta.len() && (#[trigger] self.meta[i]).id == id
    }

    pub open spec fn meta_at(self, id: Seq<char>) -> MetaDirView {
        self.meta[self.meta_index(id)]
    }

    /// The manifest that `get` reports for an id: the one persisted in
    /// the metadata directory, if any.
    pub open spec fn manifest_of(self, id: Seq<char>) -> Option<ManifestView> {
        if self.has_meta(id) {
            self.meta_at(id).manifest
        } else {
            None
        }
    }

    /// The stored latest-version pointer for an id, if any.
    pub open spec fn latest_of(self, id: Seq<char>) -> Option<Seq<char>> {
        if self.has_meta(id) {
            self.meta_at(id).latest
        } else {
            None
        }
    }
}

/// An index into `packs` pins down `pack_index` for its id.
pub proof fn lemma_pack_index(s: StoreView, i: int)
    requires
        s.wf(),
        0 <= i < s.packs.len(),
    ensures
        s.has_pack(s.packs[i].id),
        s.pack_index(s.packs[i].id) == i,
        s.pack_at(s.packs[i].id) == s.packs[i],
{
    let id = s.packs[i].id;
    assert(s.has_pack(id));
    let j = s.pack_index(id);
    if i != j {
        assert(s.packs[i].id != s.packs[j].id);
    }
}

/// An index into `meta` pins down `meta_index` for its id.
pub proof fn lemma_meta_index(s: StoreView, i: int)
    requires
        s.wf(),
        0 <= i < s.meta.len(),
    ensures
        s.has_meta(s.meta[i].id),
        s.meta_index(s.meta[i].id) == i,
        s.meta_at(s.meta[i].id) == s.meta[i],
{
    let id = s.meta[i].id;
    assert(s.has_meta(id));
    let j = s.meta_index(id);
    if i != j {
        assert(s.meta[i].id != s.meta[j].id);
    }
}

/// What `get` returns on a store value: `NotFound` when no directory
/// entry carries the id, `NonDirectory` when the entry is not a
/// directory, otherwise the mod with its persisted manifest.
pub open spec fn get_spec(s: StoreView, id: Seq<char>) -> Result<ModView, ErrorView> {
    if !s.has_pack(id) {
        Err(ErrorView::NotFound(id))
    } else if !s.pack_at(id).is_dir {
        Err(ErrorView::NonDirectory(id))
    } else {
        Ok(ModView { id: id, manifest: s.manifest_of(id) })
    }
}

/// Whether `list` reports a pack: it must be a directory and not the
/// ignored `.db` entry.
pub open spec fn listed(p: PackView) -> bool {
    p.is_dir && p.id != ".db"@
}

/// The mods that `list` reports for a prefix of the pack entries, in
/// their on-disk order.
pub open spec fn list_entries(s: StoreView, packs: Seq<PackView>) -> Seq<ModView>
    decreases packs.len(),
{
    if packs.len() == 0 {
        Seq::empty()
    } else {
        let rest = list_entries(s, packs.drop_last());
        if listed(packs.last()) {
            rest.push(ModView { id: packs.last().id, manifest: s.manifest_of(packs.last().id) })
        } else {
            rest
        }
    }
}

/// What `list` returns on a store value.
pub open spec fn list_spec(s: StoreView) -> Seq<ModView> {
    list_entries(s, s.packs)
}

/// What `remove` returns and leaves behind: `NotFound` leaves the store
/// untouched; otherwise the pack disappears, and the metadata directory
/// disappears with it when it exists.
pub open spec fn remove_spec(s: StoreView, id: Seq<char>) -> (Result<(), ErrorView>, StoreView) {
    if !s.has_pack(id) {
        (Err(ErrorView::NotFound(id)), s)
    } else {
        let packs = s.packs.remove(s.pack_index(id));
        let meta = if s.has_meta(id) {
            s.meta.remove(s.meta_index(id))
        } else {
            s.meta
        };
        (Ok(()), StoreView { packs, meta, ..s })
    }
}

/// The view of a result that carries a `Mod`.
pub open spec fn mod_result_view(r: Result<Mod, Error>) -> Result<ModView, ErrorView> {
    match r {
        Ok(m) => Ok(m@),
        Err(e) => Err(e@),
    }
}

/// The view of a result that carries nothing.
pub open spec fn unit_result_view(r: Result<(), Error>) -> Result<(), ErrorView> {
    match r {
        Ok(u) => Ok(u),
        Err(e) => Err(e@),
    }
}

/// The view of a result that carries a list of mods.
pub open spec fn mods_result_view(r: Result<Vec<Mod>, Error>) -> Result<Seq<ModView>, ErrorView> {
    match r {
        Ok(ms) => Ok(ms@.map_values(|m: Mod| m@)),
        Err(e) => Err(e@),
    }
}

/// The view of a result that carries a logo.
pub open spec fn logo_result_view(r: Result<ModLogo, Error>) -> Result<ModLogoView, ErrorView> {
    match r {
        Ok(l) => Ok(l@),
        Err(e) => Err(e@),
    }
}

/// The view of a result that carries the optional id of a freshly
/// written latest-version pointer.
pub open spec fn latest_result_view(r: Result<Option<String>, Error>) -> Result<
    Option<Seq<char>>,
    ErrorView,
> {
    match r {
        Ok(Some(id)) => Ok(Some(id@)),
        Ok(None) => Ok(None),
        Err(e) => Err(e@),
    }
}

/// The disk mod store. It owns the tree under `Mods/Packs` as a value;
/// the application layer mirrors each completed operation onto the real
/// directory at `install_path`.
pub struct DiskMods {
    install_path: String,
    packs: Vec<Pack>,
    meta: Vec<MetaDir>,
}

/// Mathematical value of the store.
impl View for DiskMods {
    type V = StoreView;

    closed spec fn view(&self) -> StoreView {
        StoreView {
            install_path: self.install_path@,
            packs: self.packs@.map_values(|p: Pack| p@),
            meta: self.meta@.map_values(|m: MetaDir| m@),
        }
    }
}

impl DiskMods {
    /// A store over an install directory about which nothing is known
    /// yet; the application fills it from disk.
    pub fn new(install_path: &str) -> (r: Self)
        ensures
            r@.install_path == install_path@,
            r@.packs == Seq::<PackView>::empty(),
            r@.meta == Seq::<MetaDirView>::empty(),
            r@.wf(),
    {
        let r = DiskMods {
            install_path: install_path.to_owned(),
            packs: Vec::new(),
            meta: Vec::new(),
        };
        proof {
            assert(r@.packs =~= Seq::<PackView>::empty());
            assert(r@.meta =~= Seq::<MetaDirView>::empty());
        }
        r
    }

    /// Records one pack the surrounding application found on disk. The
    /// id must be fresh; the listing walks each directory entry once.
    pub fn load_pack(&mut self, pack: Pack) -> (nothing: ())
        requires
            old(self)@.wf(),
            !old(self)@.has_pack(pack@.id),
        ensures
            final(self)@ == add_pack(old(self)@, pack@),
            final(self)@.wf(),
    {
        let ghost pv = pack@;
        proof {
            lemma_add_pack_wf(old(self)@, pv);
        }
        self.packs.push(pack);
        proof {
            assert(self@ =~= add_pack(old(self)@, pv));
        }
    }

    /// Records one metadata directory the surrounding application found
    /// on disk.
    pub fn load_meta(&mut self, meta: MetaDir) -> (nothing: ())
        requires
            old(self)@.wf(),
        ensures
            final(self)@ == set_meta(old(self)@, meta@),
            final(self)@.wf(),
    {
        self.write_meta(meta);
    }

    /// The directory that holds a mod's payload.
    pub fn mods_dir_path(&self, id: &str) -> (r: String)
        ensures
            r@ == self@.install_path + "/Mods/Packs/"@ + id@,
    {
        let mut out = self.install_path.clone();
        out.append("/Mods/Packs/");
        out.append(id);
        proof {
            reveal_strlit("/Mods/Packs/");
            reveal_strlit("/");
            assert(out@ =~= self@.install_path + "/Mods/Packs/"@ + id@);
        }
        out
    }

    /// The directory that holds a mod's metadata.
    pub fn manifest_dir_path(&self, id: &str) -> (r: String)
        ensures
            r@ == self@.install_path + "/Mods/Packs/.ml/"@ + id@,
    {
        let mut out = self.install_path.clone();
        out.append("/Mods/Packs/.ml/");
        out.append(id);
        proof {
            assert(out@ =~= self@.install_path + "/Mods/Packs/.ml/"@ + id@);
        }
        out
    }

    fn find_pack_index(&self, id: &str) -> (r: Option<usize>)
        ensures
            match r {
                Some(i) => i < self@.packs.len() && self@.packs[i as int].id == id@,
                None => !self@.has_pack(id@),
            },
    {
        let mut i: usize = 0;
        while i < self.packs.len()
            invariant
                i <= self.packs@.len(),
                forall|k: int| 0 <= k < i ==> (#[trigger] self@.packs[k]).id != id@,
            decreases self.packs@.len() - i,
        {
            if crate::paths::str_eq(self.packs[i].id.as_str(), id) {
                return Some(i);
            }
            i += 1;
        }
        None
    }

    fn find_meta_index(&self, id: &str) -> (r: Option<usize>)
        ensures
            match r {
                Some(i) => i < self@.meta.len() && self@.meta[i as int].id == id@,
                None => !self@.has_meta(id@),
            },
    {
        let mut i: usize = 0;
        while i < self.meta.len()
            invariant
                i <= self.meta@.len(),
                forall|k: int| 0 <= k < i ==> (#[trigger] self@.meta[k]).id != id@,
            decreases self.meta@.len() - i,
        {
            if crate::paths::str_eq(self.meta[i].id.as_str(), id) {
                return Some(i);
            }
            i += 1;
        }
        None
    }

    /// Looks one mod up by id.
    pub fn get(&self, id: &str) -> (r: Result<Mod, Error>)
        requires
            self@.wf(),
        ensures
            mod_result_view(r) == get_spec(self@, id@),
    {
        let idx = match self.find_pack_index(id) {
            None => {
                return Err(Error::NotFound(id.to_owned()));
            },
            Some(i) => i,
        };
        proof {
            lemma_pack_index(self@, idx as int);
        }
        if !self.packs[idx].is_dir {
            return Err(Error::NonDirectory(id.to_owned()));
        }
        let manifest = match self.find_meta_index(id) {
            None => None,
            Some(mi) => {
                proof {
                    lemma_meta_index(self@, mi as int);
                }
                match &self.meta[mi].manifest {
                    Some(m) => Some(m.clone_value()),
                    None => None,
                }
            },
        };
        let m = Mod { id: id.to_owned(), manifest };
        proof {
            assert(m@ =~= get_spec(self@, id@)->Ok_0);
        }
        Ok(m)
    }

    /// Lists the installed mods, in the tree's order, skipping the
    /// `.db` entry and stray non-directories.
    pub fn list(&self) -> (r: Result<Vec<Mod>, Error>)
        requires
            self@.wf(),
        ensures
            mods_result_view(r) == Ok::<Seq<ModView>, ErrorView>(list_spec(self@)),
    {
        let mut out: Vec<Mod> = Vec::new();
        let mut i: usize = 0;
        while i < self.packs.len()
            invariant
                self@.wf(),
                i <= self.packs@.len(),
                out@.map_values(|m: Mod| m@) == list_entries(self@, self@.packs.take(i as int)),
            decreases self.packs@.len() - i,
        {
            proof {
                assert(self@.packs.take(i + 1).drop_last() =~= self@.packs.take(i as int));
                assert(self@.packs.take(i + 1).last() == self@.packs[i as int]);
            }
            let pack = &self.packs[i];
            if pack.is_dir && !crate::paths::str_eq(pack.id.as_str(), ".db") {
                let manifest = match self.find_meta_index(pack.id.as_str()) {
                    None => None,
                    Some(mi) => {
                        proof {
                            lemma_meta_index(self@, mi as int);
                        }
                        match &self.meta[mi].manifest {
                            Some(m) => Some(m.clone_value()),
                            None => None,
                        }
                    },
                };
                let m = Mod { id: pack.id.clone(), manifest };
                proof {
                    assert(m@ =~= (ModView {
                        id: self@.packs[i as int].id,
                        manifest: self@.manifest_of(self@.packs[i as int].id),
                    }));
                }
                out.push(m);
                proof {
                    assert(out@.map_values(|m: Mod| m@) =~= list_entries(
                        self@,
                        self@.packs.take(i + 1),
                    ));
                }
            } else {
                proof {
                    assert(out@.map_values(|m: Mod| m@) =~= list_entries(
                        self@,
                        self@.packs.take(i + 1),
                    ));
                }
            }
            i += 1;
        }
        proof {
            assert(self@.packs.take(self@.packs.len() as int) =~= self@.packs);
        }
        Ok(out)
    }

    /// Removes a mod's payload directory and, when present, its
    /// metadata directory.
    pub fn remove(&mut self, id: &str) -> (r: Result<(), Error>)
        requires
            old(self)@.wf(),
        ensures
            (unit_result_view(r), final(self)@) == remove_spec(old(self)@, id@),
            final(self)@.wf(),
    {
        let idx = match self.find_pack_index(id) {
            None => {
                return Err(Error::NotFound(id.to_owned()));
            },
            Some(i) => i,
        };
        proof {
            lemma_pack_index(self@, idx as int);
        }
        self.packs.remove(idx);
        proof {
            assert(self@.packs =~= old(self)@.packs.remove(old(self)@.pack_index(id@)));
        }
        match self.find_meta_index(id) {
            None => {
                proof {
                    lemma_remove_keeps_wf(old(self)@, id@);
                    assert(self@ =~= remove_spec(old(self)@, id@).1);
                }
                Ok(())
            },
            Some(mi) => {
                proof {
                    lemma_meta_index(old(self)@, mi as int);
                }
                self.meta.remove(mi);
                proof {
                    assert(self@.meta =~= old(self)@.meta.remove(old(self)@.meta_index(id@)));
                    lemma_remove_keeps_wf(old(self)@, id@);
                    assert(self@ =~= remove_spec(old(self)@, id@).1);
                }
                Ok(())
            },
        }
    }
}

/// Adding a pack under a fresh id keeps the store well formed.
pub proof fn lemma_add_pack_wf(s: StoreView, p: PackView)
    requires
        s.wf(),
        !s.has_pack(p.id),
    ensures
        add_pack(s, p).wf(),
        add_pack(s, p).has_pack(p.id),
        add_pack(s, p).pack_at(p.id) == p,
        add_pack(s, p).meta == s.meta,
{
    let s1 = add_pack(s, p);
    assert forall|i: int, j: int| 0 <= i < j < s1.packs.len() implies (#[trigger] s1.packs[i]).id
        != (#[trigger] s1.packs[j]).id by {
        if j == s1.packs.len() - 1 {
            assert(s1.packs[i] == s.packs[i]);
        }
    }
    assert(s1.packs[s1.packs.len() - 1] == p);
    lemma_pack_index(s1, s1.packs.len() - 1);
}

/// Writing a metadata entry keeps the store well formed, records the
/// entry under its id, and touches nothing else.
pub proof fn lemma_set_meta(s: StoreView, m: MetaDirView)
    requires
        s.wf(),
    ensures
        set_meta(s, m).wf(),
        set_meta(s, m).has_meta(m.id),
        set_meta(s, m).meta_at(m.id) == m,
        set_meta(s, m).packs == s.packs,
        set_meta(s, m).install_path == s.install_path,
        forall|id2: Seq<char>|
            id2 != m.id ==> #[trigger] set_meta(s, m).has_meta(id2) == s.has_meta(id2),
        forall|id2: Seq<char>|
            id2 != m.id && s.has_meta(id2) ==> #[trigger] set_meta(s, m).meta_at(id2)
                == s.meta_at(id2),
{
    let s1 = set_meta(s, m);
    if s.has_meta(m.id) {
        let mi = s.meta_index(m.id);
        assert(0 <= mi < s.meta.len() && s.meta[mi].id == m.id);
        assert forall|i: int, j: int| 0 <= i < j < s1.meta.len() implies (#[trigger] s1.meta[i]).id
            != (#[trigger] s1.meta[j]).id by {
            assert(s.meta[i].id != s.meta[j].id);
        }
        lemma_meta_index(s1, mi);
        assert forall|id2: Seq<char>| id2 != m.id implies #[trigger] s1.has_meta(id2)
            == s.has_meta(id2) by {
            if s.has_meta(id2) {
                let i = s.meta_index(id2);
                assert(s1.meta[i].id == id2);
            }
            if s1.has_meta(id2) {
                let i = s1.meta_index(id2);
                assert(s.meta[i].id == id2);
            }
        }
        assert forall|id2: Seq<char>| id2 != m.id && s.has_meta(id2) implies #[trigger] s1.meta_at(
            id2,
        ) == s.meta_at(id2) by {
            let i = s.meta_index(id2);
            assert(s1.meta[i].id == id2);
            lemma_meta_index(s1, i);
        }
    } else {
        assert forall|i: int, j: int| 0 <= i < j < s1.meta.len() implies (#[trigger] s1.meta[i]).id
            != (#[trigger] s1.meta[j]).id by {
            if j == s1.meta.len() - 1 {
                assert(s1.meta[i] == s.meta[i]);
                assert(s.has_meta(s.meta[i].id));
            }
        }
        assert(s1.meta[s1.meta.len() - 1] == m);
        lemma_meta_index(s1, s1.meta.len() - 1);
        assert forall|id2: Seq<char>| id2 != m.id implies #[trigger] s1.has_meta(id2)
            == s.has_meta(id2) by {
            if s.has_meta(id2) {
                let i = s.meta_index(id2);
                assert(s1.meta[i].id == id2);
            }
            if s1.has_meta(id2) {
                let i = s1.meta_index(id2);
                assert(i < s.meta.len());
                assert(s.meta[i].id == id2);
            }
        }
        assert forall|id2: Seq<char>| id2 != m.id && s.has_meta(id2) implies #[trigger] s1.meta_at(
            id2,
        ) == s.meta_at(id2) by {
            let i = s.meta_index(id2);
            assert(s1.meta[i].id == id2);
            lemma_meta_index(s1, i);
        }
    }
}

/// After its pack is removed, an id is gone from the tree, and the tree
/// stays well formed.
pub proof fn lemma_stash_gone(s: StoreView, id: Seq<char>)
    requires
        s.wf(),
        s.has_pack(id),
    ensures
        !stash_spec(s, id).has_pack(id),
        stash_spec(s, id).wf(),
{
    let pi = s.pack_index(id);
    let s1 = stash_spec(s, id);
    s.packs.remove_ensures(pi);
    assert forall|k: int| 0 <= k < s1.packs.len() implies (#[trigger] s1.packs[k]).id != id by {
        if k < pi {
            assert(s1.packs[k] == s.packs[k]);
            assert(s.packs[k].id != s.packs[pi].id);
        } else {
            assert(s1.packs[k] == s.packs[k + 1]);
            assert(s.packs[pi].id != s.packs[k + 1].id);
        }
    }
    lemma_remove_keeps_unique_packs(s.packs, pi);
}

/// Removing one entry from an id-unique sequence of packs keeps the ids
/// unique.
pub proof fn lemma_remove_keeps_unique_packs(packs: Seq<PackView>, i: int)
    requires
        0 <= i < packs.len(),
        forall|a: int, b: int|
            0 <= a < b < packs.len() ==> (#[trigger] packs[a]).id != (#[trigger] packs[b]).id,
    ensures
        forall|a: int, b: int|
            0 <= a < b < packs.remove(i).len() ==> (#[trigger] packs.remove(i)[a]).id != (
            #[trigger] packs.remove(i)[b]).id,
{
    packs.remove_ensures(i);
}

/// Removing one entry from an id-unique sequence of metadata directories
/// keeps the ids unique.
pub proof fn lemma_remove_keeps_unique_meta(meta: Seq<MetaDirView>, i: int)
    requires
        0 <= i < meta.len(),
        forall|a: int, b: int|
            0 <= a < b < meta.len() ==> (#[trigger] meta[a]).id != (#[trigger] meta[b]).id,
    ensures
        forall|a: int, b: int|
            0 <= a < b < meta.remove(i).len() ==> (#[trigger] meta.remove(i)[a]).id != (
            #[trigger] meta.remove(i)[b]).id,
{
    meta.remove_ensures(i);
}

/// The entry a lone `.lua` source file becomes: its contents under the
/// fixed name `main.lua`.
pub open spec fn lua_main_entry(data: Seq<u8>) -> TreeEntryView {
    TreeEntryView { components: seq!["main.lua"@], is_dir: false, data }
}

/// The entry any other single source file becomes: its contents under
/// its own base name.
pub open spec fn single_entry(name: Seq<char>, data: Seq<u8>) -> TreeEntryView {
    TreeEntryView { components: seq![name], is_dir: false, data }
}

/// How a source file's contents are laid out in the destination
/// directory, decided by the file name's extension: a `.lua` file is
/// copied to `main.lua`, a `.zip` file is unpacked under the adjusted
/// member paths, anything else is copied under its own name. An archive
/// is rejected whole when it cannot be read or when any member's stored
/// name escapes the archive root (absolute, or traversing a parent
/// directory).
pub open spec fn payload_plan_spec(name: Seq<char>, data: Seq<u8>) -> Result<
    Seq<TreeEntryView>,
    ErrorView,
> {
    match crate::paths::extension_of(name) {
        Some(e) => if e == "lua"@ {
            Ok(seq![lua_main_entry(data)])
        } else if e == "zip"@ {
            match crate::archive::zip_entries_of(data) {
                Some(members) => if !crate::archive::all_names_enclosed(members) {
                    Err(ErrorView::SourceError)
                } else {
                    Ok(crate::archive::planned_entries_spec(members))
                },
                None => Err(ErrorView::SourceError),
            }
        } else {
            Ok(seq![single_entry(name, data)])
        },
        None => Ok(seq![single_entry(name, data)]),
    }
}

/// A store with one more pack.
pub open spec fn add_pack(s: StoreView, p: PackView) -> StoreView {
    StoreView { packs: s.packs.push(p), ..s }
}

/// A store with a metadata entry written: replacing the entry that
/// carries the same id, or appended when there is none.
pub open spec fn set_meta(s: StoreView, m: MetaDirView) -> StoreView {
    if s.has_meta(m.id) {
        StoreView { meta: s.meta.update(s.meta_index(m.id), m), ..s }
    } else {
        StoreView { meta: s.meta.push(m), ..s }
    }
}

/// The metadata entry for an id as writes see it: the stored one, or a
/// fresh empty one.
pub open spec fn meta_or_empty(s: StoreView, id: Seq<char>) -> MetaDirView {
    if s.has_meta(id) {
        s.meta_at(id)
    } else {
        MetaDirView { id, manifest: None, latest: None, logo: None }
    }
}

/// What `install_local` returns and leaves behind. The source is
/// checked first: a path that does not exist or is not a regular file is
/// a `SourceError`. An id already present on disk is `AlreadyExists`.
/// A payload that cannot be read leaves the created, still empty
/// destination directory behind, as the filesystem sequence does.
pub open spec fn install_local_spec(s: StoreView, src: crate::remote::SourceFileView, dest_id: Seq<char>) -> (
    Result<ModView, ErrorView>,
    StoreView,
) {
    if !src.exists || !src.is_file {
        (Err(ErrorView::SourceError), s)
    } else if s.has_pack(dest_id) {
        (Err(ErrorView::AlreadyExists(dest_id)), s)
    } else {
        match payload_plan_spec(crate::paths::file_name_of(src.path), src.data) {
            Err(e) => (
                Err(e),
                add_pack(s, PackView { id: dest_id, is_dir: true, files: Seq::empty() }),
            ),
            Ok(entries) => (
                Ok(ModView { id: dest_id, manifest: None }),
                add_pack(s, PackView { id: dest_id, is_dir: true, files: entries }),
            ),
        }
    }
}

/// The file extension for a logo's content type; only the three image
/// types the service serves are recognized.
pub open spec fn logo_ext_spec(content_type: Seq<char>) -> Option<Seq<char>> {
    if content_type == "image/jpeg"@ {
        Some("jpg"@)
    } else if content_type == "image/png"@ {
        Some("png"@)
    } else if content_type == "image/gif"@ {
        Some("gif"@)
    } else {
        None
    }
}

/// The manifest persisted for a downloaded mod.
pub open spec fn manifest_for_spec(
    d: crate::remote::DownloadedModView,
    logo_name: Option<Seq<char>>,
) -> ManifestView {
    ManifestView {
        name: d.api_mod.name,
        slug: d.api_mod.slug,
        description: d.api_mod.description,
        logo: logo_name,
        mod_file: crate::data::ManifestModFileView {
            id: d.mod_file.id,
            created_at: d.mod_file.created_at,
            download_url: d.mod_file.download_url,
        },
    }
}

/// What `update_latest_json` returns and leaves behind: nothing happens
/// when the catalog entry has no files or when the stored pointer
/// already names its newest file; otherwise the pointer is overwritten
/// and the mod's id is returned. The manifest is never touched.
pub open spec fn update_latest_spec(s: StoreView, api: crate::remote::ModSummaryView) -> (
    Result<Option<Seq<char>>, ErrorView>,
    StoreView,
) {
    let id = "fyi."@ + api.slug;
    if api.mod_files.len() == 0 {
        (Ok(None), s)
    } else {
        let latest = api.mod_files[0].id;
        if s.latest_of(id) == Some(latest) {
            (Ok(None), s)
        } else {
            let prev = meta_or_empty(s, id);
            (Ok(Some(id)), set_meta(s, MetaDirView { latest: Some(latest), ..prev }))
        }
    }
}

/// What `install_remote` returns and leaves behind: the payload goes in
/// under the id `fyi.<slug>` as a local install would place it; an
/// unrecognized logo content type fails the operation after the payload
/// is in place; otherwise logo, manifest and latest pointer are written
/// and the installed mod carries the manifest.
pub open spec fn install_remote_spec(s: StoreView, d: crate::remote::DownloadedModView) -> (
    Result<ModView, ErrorView>,
    StoreView,
) {
    let id = "fyi."@ + d.api_mod.slug;
    if s.has_pack(id) {
        (Err(ErrorView::AlreadyExists(id)), s)
    } else {
        match payload_plan_spec(crate::paths::file_name_of(d.main_file.path), d.main_file.data) {
            Err(e) => (Err(e), add_pack(s, PackView { id, is_dir: true, files: Seq::empty() })),
            Ok(entries) => {
                let s1 = add_pack(s, PackView { id, is_dir: true, files: entries });
                let bad_logo = match d.logo_file {
                    Some(l) => logo_ext_spec(l.content_type) is None,
                    None => false,
                };
                if bad_logo {
                    (Err(ErrorView::UnknownError), s1)
                } else {
                    let logo_name = match d.logo_file {
                        Some(l) => Some("mod_logo."@ + logo_ext_spec(l.content_type)->Some_0),
                        None => None,
                    };
                    let prev = meta_or_empty(s1, id);
                    let logo = match d.logo_file {
                        Some(l) => Some(
                            LogoFileView { name: logo_name->Some_0, data: l.data },
                        ),
                        None => prev.logo,
                    };
                    let manifest = manifest_for_spec(d, logo_name);
                    let s2 = set_meta(
                        s1,
                        MetaDirView { manifest: Some(manifest), logo, ..prev },
                    );
                    let s3 = update_latest_spec(s2, d.api_mod).1;
                    (Ok(ModView { id, manifest: Some(manifest) }), s3)
                }
            },
        }
    }
}

/// What `get_mod_logo` returns: the stored logo bytes under the MIME
/// type matching the file name recorded in the manifest. A mod without
/// a manifest, or whose manifest records no logo, is `NotFound`; a logo
/// name whose extension is missing or unrecognized is `UnknownError`;
/// a recorded logo whose file is not readable is `IoError`.
pub open spec fn get_mod_logo_spec(s: StoreView, id: Seq<char>) -> Result<ModLogoView, ErrorView> {
    match s.manifest_of(id) {
        None => Err(ErrorView::NotFound(id)),
        Some(m) => match m.logo {
            None => Err(ErrorView::NotFound(id)),
            Some(name) => match crate::paths::extension_of(name) {
                None => Err(ErrorView::UnknownError),
                Some(e) => {
                    let mime = if e == "jpg"@ {
                        Some("image/jpeg"@)
                    } else if e == "gif"@ {
                        Some("image/gif"@)
                    } else if e == "png"@ {
                        Some("image/png"@)
                    } else {
                        None
                    };
                    match mime {
                        None => Err(ErrorView::UnknownError),
                        Some(mime) => match s.meta_at(id).logo {
                            Some(l) => if l.name == name {
                                Ok(ModLogoView { mime_type: mime, bytes: l.data })
                            } else {
                                Err(ErrorView::IoError)
                            },
                            None => Err(ErrorView::IoError),
                        },
                    }
                },
            },
        },
    }
}

/// The state `remove` leaves behind is well formed.
pub proof fn lemma_remove_keeps_wf(s: StoreView, id: Seq<char>)
    requires
        s.wf(),
    ensures
        remove_spec(s, id).1.wf(),
{
    if s.has_pack(id) {
        lemma_remove_keeps_unique_packs(s.packs, s.pack_index(id));
        if s.has_meta(id) {
            lemma_remove_keeps_unique_meta(s.meta, s.meta_index(id));
        }
    }
}

/// The path of the save file an update preserves.
pub open spec fn save_path() -> Seq<Seq<char>> {
    seq!["save.dat"@]
}

/// The index of the last plain file at `path` among a pack's entries —
/// the one whose contents the directory shows, since later writes win —
/// or -1 when there is none.
pub open spec fn last_file_index(files: Seq<TreeEntryView>, path: Seq<Seq<char>>) -> int
    decreases files.len(),
{
    if files.len() == 0 {
        -1
    } else if !files.last().is_dir && files.last().components == path {
        files.len() - 1
    } else {
        last_file_index(files.drop_last(), path)
    }
}

/// Whether a pack's entries hold a plain file at `path`.
pub open spec fn contains_file(files: Seq<TreeEntryView>, path: Seq<Seq<char>>) -> bool {
    last_file_index(files, path) >= 0
}

pub proof fn lemma_last_file_index(files: Seq<TreeEntryView>, path: Seq<Seq<char>>)
    ensures
        -1 <= last_file_index(files, path) < files.len(),
        last_file_index(files, path) == -1 ==> forall|i: int|
            0 <= i < files.len() ==> ((#[trigger] files[i]).is_dir || files[i].components != path),
        last_file_index(files, path) >= 0 ==> (!files[last_file_index(files, path)].is_dir
            && files[last_file_index(files, path)].components == path),
        last_file_index(files, path) >= 0 ==> forall|i: int|
            last_file_index(files, path) < i < files.len() ==> ((#[trigger] files[i]).is_dir
                || files[i].components != path),
    decreases files.len(),
{
    if files.len() > 0 && !(!files.last().is_dir && files.last().components == path) {
        lemma_last_file_index(files.drop_last(), path);
        assert(forall|i: int| 0 <= i < files.len() - 1 ==> files[i] == files.drop_last()[i]);
    }
}

pub proof fn lemma_last_file_index_unique(files: Seq<TreeEntryView>, path: Seq<Seq<char>>, i: int)
    requires
        0 <= i < files.len(),
        !files[i].is_dir,
        files[i].components == path,
        forall|k: int|
            i < k < files.len() ==> ((#[trigger] files[k]).is_dir || files[k].components != path),
    ensures
        last_file_index(files, path) == i,
    decreases files.len(),
{
    if i == files.len() - 1 {
    } else {
        assert(files.last().is_dir || files.last().components != path);
        assert(files.drop_last()[i] == files[i]);
        assert(forall|k: int|
            i < k < files.len() - 1 ==> ((#[trigger] files.drop_last()[k]).is_dir
                || files.drop_last()[k].components != path));
        lemma_last_file_index_unique(files.drop_last(), path, i);
    }
}

/// What the update protocol returns and leaves behind, given the
/// install step's specification applied to the store without the old
/// pack: `NotFound` when the id is not installed; on an install error
/// the stashed pack is restored; on success, the stashed pack's
/// `save.dat` — when it had one — is copied over the fresh payload.
pub open spec fn finish_update_spec(
    dest_id: Seq<char>,
    stashed: PackView,
    step: (Result<ModView, ErrorView>, StoreView),
) -> (Result<ModView, ErrorView>, StoreView) {
    let (r, s2) = step;
    match r {
        Err(e) => {
            let cleared = if s2.has_pack(dest_id) {
                s2.packs.remove(s2.pack_index(dest_id))
            } else {
                s2.packs
            };
            (Err(e), StoreView { packs: cleared.push(stashed), ..s2 })
        },
        Ok(m) => {
            let si = last_file_index(stashed.files, save_path());
            if si >= 0 {
                let fresh = s2.pack_at(dest_id);
                let patched = PackView {
                    files: fresh.files.push(stashed.files[si]),
                    ..fresh
                };
                (Ok(m), StoreView { packs: s2.packs.update(s2.pack_index(dest_id), patched), ..s2 })
            } else {
                (Ok(m), s2)
            }
        },
    }
}

/// The store without the pack at `dest_id`, as the update protocol
/// stashes it away.
pub open spec fn stash_spec(s: StoreView, dest_id: Seq<char>) -> StoreView {
    StoreView { packs: s.packs.remove(s.pack_index(dest_id)), ..s }
}

/// What `update_local` returns and leaves behind.
pub open spec fn update_local_spec(
    s: StoreView,
    src: crate::remote::SourceFileView,
    dest_id: Seq<char>,
) -> (Result<ModView, ErrorView>, StoreView) {
    if !s.has_pack(dest_id) {
        (Err(ErrorView::NotFound(dest_id)), s)
    } else {
        let stashed = s.pack_at(dest_id);
        let s1 = stash_spec(s, dest_id);
        finish_update_spec(dest_id, stashed, install_local_spec(s1, src, dest_id))
    }
}

/// What `update_remote` returns and leaves behind.
pub open spec fn update_remote_spec(s: StoreView, d: crate::remote::DownloadedModView) -> (
    Result<ModView, ErrorView>,
    StoreView,
) {
    let dest_id = "fyi."@ + d.api_mod.slug;
    if !s.has_pack(dest_id) {
        (Err(ErrorView::NotFound(dest_id)), s)
    } else {
        let stashed = s.pack_at(dest_id);
        let s1 = stash_spec(s, dest_id);
        finish_update_spec(dest_id, stashed, install_remote_spec(s1, d))
    }
}

impl LogoFile {
    pub fn clone_value(&self) -> (r: LogoFile)
        ensures
            r@ == self@,
    {
        LogoFile { name: self.name.clone(), data: self.data.clone() }
    }
}

impl MetaDir {
    pub fn clone_value(&self) -> (r: MetaDir)
        ensures
            r@ == self@,
    {
        let manifest = match &self.manifest {
            Some(m) => Some(m.clone_value()),
            None => None,
        };
        let latest = match &self.latest {
            Some(l) => Some(l.clone()),
            None => None,
        };
        let logo = match &self.logo {
            Some(l) => Some(l.clone_value()),
            None => None,
        };
        let r = MetaDir { id: self.id.clone(), manifest, latest, logo };
        proof {
            assert(r@ =~= self@);
        }
        r
    }

    /// A copy of the entry with another latest-version pointer.
    fn with_latest(&self, latest: String) -> (r: MetaDir)
        ensures
            r@ == (MetaDirView { latest: Some(latest@), ..self@ }),
    {
        let manifest = match &self.manifest {
            Some(m) => Some(m.clone_value()),
            None => None,
        };
        let logo = match &self.logo {
            Some(l) => Some(l.clone_value()),
            None => None,
        };
        let r = MetaDir { id: self.id.clone(), manifest, latest: Some(latest), logo };
        proof {
            assert(r@ =~= (MetaDirView { latest: Some(latest@), ..self@ }));
        }
        r
    }
}

/// The file extension for a logo content type.
pub fn logo_extension(content_type: &str) -> (r: Option<String>)
    ensures
        match r {
            Some(e) => logo_ext_spec(content_type@) == Some(e@),
            None => logo_ext_spec(content_type@) is None,
        },
{
    if crate::paths::str_eq(content_type, "image/jpeg") {
        Some(String::from_str("jpg"))
    } else if crate::paths::str_eq(content_type, "image/png") {
        Some(String::from_str("png"))
    } else if crate::paths::str_eq(content_type, "image/gif") {
        Some(String::from_str("gif"))
    } else {
        None
    }
}

/// Lays a source file's contents out as destination entries, by the
/// extension rules.
fn plan_payload(name: &str, data: Vec<u8>) -> (r: Result<Vec<crate::archive::TreeEntry>, Error>)
    ensures
        match r {
            Ok(v) => payload_plan_spec(name@, data@) == Ok::<_, ErrorView>(
                v@.map_values(|e: crate::archive::TreeEntry| e@),
            ),
            Err(e) => payload_plan_spec(name@, data@) == Err::<Seq<TreeEntryView>, _>(e@),
        },
{
    let ext = crate::paths::name_extension(name);
    let is_lua = match &ext {
        Some(e) => crate::paths::str_eq(e.as_str(), "lua"),
        None => false,
    };
    let is_zip = match &ext {
        Some(e) => crate::paths::str_eq(e.as_str(), "zip"),
        None => false,
    };
    if is_lua {
        let mut components: Vec<String> = Vec::new();
        components.push(String::from_str("main.lua"));
        let entry = crate::archive::TreeEntry { components, is_dir: false, data };
        proof {
            assert(entry@.components =~= seq!["main.lua"@]);
            assert(entry@ =~= lua_main_entry(entry.data@));
        }
        let mut out: Vec<crate::archive::TreeEntry> = Vec::new();
        out.push(entry);
        proof {
            assert(out@.map_values(|e: crate::archive::TreeEntry| e@) =~= seq![
                lua_main_entry(data@),
            ]);
        }
        Ok(out)
    } else if is_zip {
        match crate::archive::read_zip_entries(&data) {
            None => Err(Error::SourceError(String::from_str("unreadable archive"))),
            Some(members) => {
                if !crate::archive::members_enclosed(&members) {
                    Err(Error::SourceError(String::from_str("member name escapes the archive")))
                } else {
                    Ok(crate::archive::plan_zip_entries(members))
                }
            },
        }
    } else {
        let mut components: Vec<String> = Vec::new();
        components.push(name.to_owned());
        let entry = crate::archive::TreeEntry { components, is_dir: false, data };
        proof {
            assert(entry@.components =~= seq![name@]);
            assert(entry@ =~= single_entry(name@, entry.data@));
        }
        let mut out: Vec<crate::archive::TreeEntry> = Vec::new();
        out.push(entry);
        proof {
            assert(out@.map_values(|e: crate::archive::TreeEntry| e@) =~= seq![
                single_entry(name@, data@),
            ]);
        }
        Ok(out)
    }
}

impl DiskMods {
    /// Writes a metadata entry, replacing any entry with the same id.
    fn write_meta(&mut self, entry: MetaDir) -> (nothing: ())
        requires
            old(self)@.wf(),
        ensures
            final(self)@ == set_meta(old(self)@, entry@),
            final(self)@.wf(),
    {
        let ghost s0 = self@;
        let ghost mv = entry@;
        proof {
            lemma_set_meta(s0, mv);
        }
        match self.find_meta_index(entry.id.as_str()) {
            Some(mi) => {
                proof {
                    lemma_meta_index(s0, mi as int);
                }
                self.meta.set(mi, entry);
                proof {
                    assert(self@ =~= set_meta(s0, mv));
                }
            },
            None => {
                self.meta.push(entry);
                proof {
                    assert(self@ =~= set_meta(s0, mv));
                }
            },
        }
    }

    /// Installs a mod from a local file.
    pub fn install_local(&mut self, source: &crate::remote::SourceFile, dest_id: &str) -> (r:
        Result<Mod, Error>)
        requires
            old(self)@.wf(),
        ensures
            (mod_result_view(r), final(self)@) == install_local_spec(
                old(self)@,
                source@,
                dest_id@,
            ),
            final(self)@.wf(),
            mod_result_view(r) is Ok ==> final(self)@.has_pack(dest_id@),
    {
        if !source.exists {
            return Err(Error::SourceError(String::from_str("not found")));
        }
        if !source.is_file {
            return Err(Error::SourceError(String::from_str("not a file")));
        }
        match self.find_pack_index(dest_id) {
            Some(i) => {
                proof {
                    lemma_pack_index(self@, i as int);
                }
                return Err(Error::AlreadyExists(dest_id.to_owned()));
            },
            None => {},
        }
        let ghost s0 = self@;
        let name = crate::paths::path_file_name(source.path.as_str());
        match plan_payload(name.as_str(), source.data.clone()) {
            Err(e) => {
                let pack = Pack { id: dest_id.to_owned(), is_dir: true, files: Vec::new() };
                proof {
                    assert(pack@ =~= (PackView {
                        id: dest_id@,
                        is_dir: true,
                        files: Seq::empty(),
                    }));
                    lemma_add_pack_wf(s0, pack@);
                }
                self.packs.push(pack);
                proof {
                    assert(self@ =~= add_pack(
                        s0,
                        PackView { id: dest_id@, is_dir: true, files: Seq::empty() },
                    ));
                }
                Err(e)
            },
            Ok(files) => {
                let pack = Pack { id: dest_id.to_owned(), is_dir: true, files };
                proof {
                    lemma_add_pack_wf(s0, pack@);
                }
                let ghost pv = pack@;
                self.packs.push(pack);
                proof {
                    assert(self@ =~= add_pack(s0, pv));
                    assert(self@.packs.last().id == dest_id@);
                }
                Ok(Mod { id: dest_id.to_owned(), manifest: None })
            },
        }
    }

    /// Installs a mod fetched from the remote service.
    pub fn install_remote(&mut self, downloaded: &crate::remote::DownloadedMod) -> (r: Result<
        Mod,
        Error,
    >)
        requires
            old(self)@.wf(),
        ensures
            (mod_result_view(r), final(self)@) == install_remote_spec(old(self)@, downloaded@),
            final(self)@.wf(),
            mod_result_view(r) is Ok ==> final(self)@.has_pack("fyi."@ + downloaded@.api_mod.slug),
    {
        let dest_id = crate::id_for_remote(downloaded.api_mod.slug.as_str());
        match self.find_pack_index(dest_id.as_str()) {
            Some(i) => {
                proof {
                    lemma_pack_index(self@, i as int);
                }
                return Err(Error::AlreadyExists(dest_id));
            },
            None => {},
        }
        let ghost s0 = self@;
        let name = crate::paths::path_file_name(downloaded.main_file.path.as_str());
        match plan_payload(name.as_str(), downloaded.main_file.data.clone()) {
            Err(e) => {
                let pack = Pack { id: dest_id, is_dir: true, files: Vec::new() };
                proof {
                    assert(pack@ =~= (PackView {
                        id: pack.id@,
                        is_dir: true,
                        files: Seq::empty(),
                    }));
                    lemma_add_pack_wf(s0, pack@);
                }
                self.packs.push(pack);
                proof {
                    assert(self@ =~= install_remote_spec(s0, downloaded@).1);
                }
                Err(e)
            },
            Ok(files) => {
                let pack = Pack { id: dest_id.clone(), is_dir: true, files };
                proof {
                    lemma_add_pack_wf(s0, pack@);
                }
                let ghost pv = pack@;
                self.packs.push(pack);
                let ghost s1 = self@;
                proof {
                    assert(s1 =~= add_pack(s0, pv));
                }
                let logo_name: Option<String> = match &downloaded.logo_file {
                    Some(l) => {
                        match logo_extension(l.content_type.as_str()) {
                            None => {
                                return Err(Error::UnknownError(
                                    String::from_str("unrecognized content-type for logo"),
                                ));
                            },
                            Some(ext) => {
                                let mut n = String::from_str("mod_logo.");
                                n.append(ext.as_str());
                                Some(n)
                            },
                        }
                    },
                    None => None,
                };
                let prev = match self.find_meta_index(dest_id.as_str()) {
                    Some(mi) => {
                        proof {
                            lemma_meta_index(s1, mi as int);
                        }
                        let m = &self.meta[mi];
                        let manifest = match &m.manifest {
                            Some(mm) => Some(mm.clone_value()),
                            None => None,
                        };
                        let latest = match &m.latest {
                            Some(l) => Some(l.clone()),
                            None => None,
                        };
                        let logo = match &m.logo {
                            Some(l) => Some(l.clone_value()),
                            None => None,
                        };
                        MetaDir { id: dest_id.clone(), manifest, latest, logo }
                    },
                    None => MetaDir {
                        id: dest_id.clone(),
                        manifest: None,
                        latest: None,
                        logo: None,
                    },
                };
                proof {
                    assert(prev@ =~= meta_or_empty(s1, dest_id@));
                }
                let logo = match (&downloaded.logo_file, &logo_name) {
                    (Some(l), Some(n)) => Some(
                        LogoFile { name: n.clone(), data: l.data.clone() },
                    ),
                    _ => prev.logo,
                };
                let manifest = Manifest {
                    name: downloaded.api_mod.name.clone(),
                    slug: downloaded.api_mod.slug.clone(),
                    description: downloaded.api_mod.description.clone(),
                    logo: match &logo_name {
                        Some(n) => Some(n.clone()),
                        None => None,
                    },
                    mod_file: crate::data::ManifestModFile {
                        id: downloaded.mod_file.id.clone(),
                        created_at: downloaded.mod_file.created_at.clone(),
                        download_url: downloaded.mod_file.download_url.clone(),
                    },
                };
                let ghost logo_name_v: Option<Seq<char>> = match downloaded@.logo_file {
                    Some(l) => Some("mod_logo."@ + logo_ext_spec(l.content_type)->Some_0),
                    None => None,
                };
                proof {
                    assert(manifest@ =~= manifest_for_spec(downloaded@, logo_name_v));
                }
                let entry = MetaDir {
                    id: prev.id,
                    manifest: Some(manifest.clone_value()),
                    latest: prev.latest,
                    logo,
                };
                proof {
                    let prev_v = meta_or_empty(s1, dest_id@);
                    let logo_v: Option<LogoFileView> = match downloaded@.logo_file {
                        Some(l) => Some(
                            LogoFileView { name: logo_name_v->Some_0, data: l.data },
                        ),
                        None => prev_v.logo,
                    };
                    assert(entry@ =~= (MetaDirView {
                        manifest: Some(manifest_for_spec(downloaded@, logo_name_v)),
                        logo: logo_v,
                        ..prev_v
                    }));
                }
                self.write_meta(entry);
                let latest_res = self.update_latest_json(&downloaded.api_mod);
                proof {
                    assert(latest_res is Ok);
                    assert(self@ =~= install_remote_spec(s0, downloaded@).1);
                    assert(self@.packs == s1.packs);
                    assert(self@.packs.last().id == dest_id@);
                    assert(self@.has_pack(dest_id@));
                }
                let r = Mod { id: dest_id, manifest: Some(manifest) };
                proof {
                    assert(r@ =~= install_remote_spec(s0, downloaded@).0->Ok_0);
                }
                Ok(r)
            },
        }
    }

    /// Compares the stored latest-version pointer with the catalog
    /// entry's newest file and overwrites it when they differ.
    pub fn update_latest_json(&mut self, api_mod: &crate::remote::Mod) -> (r: Result<
        Option<String>,
        Error,
    >)
        requires
            old(self)@.wf(),
        ensures
            (latest_result_view(r), final(self)@) == update_latest_spec(old(self)@, api_mod@),
            final(self)@.wf(),
            r is Ok,
    {
        let ghost s0 = self@;
        let id = crate::id_for_remote(api_mod.slug.as_str());
        if api_mod.mod_files.len() == 0 {
            return Ok(None);
        }
        let latest = api_mod.mod_files[0].id.clone();
        proof {
            assert(latest@ == api_mod@.mod_files[0].id);
        }
        let same = match self.find_meta_index(id.as_str()) {
            Some(mi) => {
                proof {
                    lemma_meta_index(s0, mi as int);
                }
                match &self.meta[mi].latest {
                    Some(prev) => *prev == latest,
                    None => false,
                }
            },
            None => false,
        };
        if same {
            return Ok(None);
        }
        let entry = match self.find_meta_index(id.as_str()) {
            Some(mi) => {
                proof {
                    lemma_meta_index(s0, mi as int);
                }
                self.meta[mi].with_latest(latest)
            },
            None => MetaDir { id: id.clone(), manifest: None, latest: Some(latest), logo: None },
        };
        proof {
            assert(entry@ =~= (MetaDirView {
                latest: Some(api_mod@.mod_files[0].id),
                ..meta_or_empty(s0, id@)
            }));
        }
        self.write_meta(entry);
        proof {
            assert(self@ =~= update_latest_spec(s0, api_mod@).1);
        }
        Ok(Some(id))
    }

    /// Stashes the pack to be replaced: removes it from the tree and
    /// hands it back, as the rename into the temporary directory does.
    fn stash_pack(&mut self, dest_id: &str) -> (r: Result<Pack, Error>)
        requires
            old(self)@.wf(),
        ensures
            match r {
                Ok(p) => {
                    &&& old(self)@.has_pack(dest_id@)
                    &&& p@ == old(self)@.pack_at(dest_id@)
                    &&& final(self)@ == stash_spec(old(self)@, dest_id@)
                    &&& final(self)@.wf()
                    &&& !final(self)@.has_pack(dest_id@)
                },
                Err(e) => {
                    &&& e@ == ErrorView::NotFound(dest_id@)
                    &&& !old(self)@.has_pack(dest_id@)
                    &&& final(self)@ == old(self)@
                },
            },
    {
        let idx = match self.find_pack_index(dest_id) {
            None => {
                return Err(Error::NotFound(dest_id.to_owned()));
            },
            Some(i) => i,
        };
        let ghost s0 = self@;
        proof {
            lemma_pack_index(s0, idx as int);
        }
        let p = self.packs.remove(idx);
        proof {
            assert(self@ =~= stash_spec(s0, dest_id@));
            lemma_stash_gone(s0, dest_id@);
        }
        Ok(p)
    }

    /// Completes an update: restores the stashed pack when the install
    /// step failed, and carries its `save.dat` over when it succeeded.
    fn finish_update(&mut self, dest_id: &str, stashed: Pack, install_result: Result<Mod, Error>)
        -> (r: Result<Mod, Error>)
        requires
            old(self)@.wf(),
            stashed@.id == dest_id@,
            install_result is Ok ==> old(self)@.has_pack(dest_id@),
        ensures
            (mod_result_view(r), final(self)@) == finish_update_spec(
                dest_id@,
                stashed@,
                (mod_result_view(install_result), old(self)@),
            ),
            final(self)@.wf(),
    {
        let ghost s2 = self@;
        match install_result {
            Err(e) => {
                match self.find_pack_index(dest_id) {
                    Some(i) => {
                        proof {
                            lemma_pack_index(s2, i as int);
                        }
                        self.packs.remove(i);
                        proof {
                            assert(self@.packs =~= s2.packs.remove(s2.pack_index(dest_id@)));
                            lemma_stash_gone(s2, dest_id@);
                        }
                    },
                    None => {},
                }
                let ghost cleared = self@;
                proof {
                    assert(!cleared.has_pack(dest_id@));
                    lemma_add_pack_wf(cleared, stashed@);
                }
                let ghost sv = stashed@;
                self.packs.push(stashed);
                proof {
                    assert(self@ =~= add_pack(cleared, sv));
                    assert(self@ =~= finish_update_spec(
                        dest_id@,
                        sv,
                        (mod_result_view(install_result), s2),
                    ).1);
                }
                Err(e)
            },
            Ok(m) => {
                let ghost sv = stashed@;
                let mut si: Option<usize> = None;
                let mut i: usize = stashed.files.len();
                while i > 0 && si.is_none()
                    invariant
                        i <= stashed.files@.len(),
                        sv == stashed@,
                        match si {
                            None => forall|k: int|
                                i <= k < sv.files.len() ==> ((#[trigger] sv.files[k]).is_dir
                                    || sv.files[k].components != save_path()),
                            Some(fi) => fi < sv.files.len() && !sv.files[fi as int].is_dir
                                && sv.files[fi as int].components == save_path() && (forall|k: int|
                                fi < k < sv.files.len() ==> ((#[trigger] sv.files[k]).is_dir
                                    || sv.files[k].components != save_path())),
                        },
                    decreases i,
                {
                    i = i - 1;
                    let e = &stashed.files[i];
                    let hit = !e.is_dir && e.components.len() == 1 && crate::paths::str_eq(
                        e.components[0].as_str(),
                        "save.dat",
                    );
                    proof {
                        assert(sv.files[i as int] == stashed.files@[i as int]@);
                        assert(sv.files[i as int].components == stashed.files@[
                            i as int
                        ].components.deep_view());
                        if hit {
                            assert(sv.files[i as int].components[0]
                                == stashed.files@[i as int].components@[0]@);
                            assert(sv.files[i as int].components =~= save_path());
                        } else {
                            if stashed.files@[i as int].components@.len() == 1 {
                                assert(sv.files[i as int].components[0]
                                    == stashed.files@[i as int].components@[0]@);
                            }
                            assert(sv.files[i as int].is_dir || sv.files[i as int].components
                                != save_path());
                        }
                    }
                    if hit {
                        si = Some(i);
                    }
                }
                match si {
                    None => {
                        proof {
                            lemma_last_file_index(sv.files, save_path());
                            if last_file_index(sv.files, save_path()) >= 0 {
                                assert(false);
                            }
                        }
                        Ok(m)
                    },
                    Some(fi) => {
                        proof {
                            lemma_last_file_index_unique(sv.files, save_path(), fi as int);
                        }
                        let entry = stashed.files[fi].clone_value();
                        let idx2 = match self.find_pack_index(dest_id) {
                            Some(i2) => i2,
                            None => {
                                proof {
                                    assert(false);
                                }
                                return Err(Error::UnknownError(String::from_str("lost pack")));
                            },
                        };
                        proof {
                            lemma_pack_index(s2, idx2 as int);
                        }
                        let ghost fresh = s2.pack_at(dest_id@);
                        let ghost patched = PackView {
                            files: fresh.files.push(sv.files[last_file_index(sv.files, save_path())]),
                            ..fresh
                        };
                        let mut pack = self.packs.remove(idx2);
                        proof {
                            assert(pack@ == fresh);
                        }
                        pack.files.push(entry);
                        proof {
                            assert(pack@.files =~= fresh.files.push(sv.files[fi as int]));
                            assert(pack@ =~= patched);
                        }
                        self.packs.insert(idx2, pack);
                        proof {
                            assert(self@.packs =~= s2.packs.update(
                                s2.pack_index(dest_id@),
                                patched,
                            ));
                            assert(self@ =~= (StoreView {
                                packs: s2.packs.update(s2.pack_index(dest_id@), patched),
                                ..s2
                            }));
                            assert forall|a: int, b: int|
                                0 <= a < b < self@.packs.len() implies (
                            #[trigger] self@.packs[a]).id != (#[trigger] self@.packs[b]).id by {
                                assert(s2.packs[a].id != s2.packs[b].id);
                            }
                        }
                        Ok(m)
                    },
                }
            },
        }
    }

    /// Updates a mod from a local file, preserving its save file; the
    /// old payload is restored when the install step fails.
    pub fn update_local(&mut self, source: &crate::remote::SourceFile, dest_id: &str) -> (r:
        Result<Mod, Error>)
        requires
            old(self)@.wf(),
        ensures
            (mod_result_view(r), final(self)@) == update_local_spec(old(self)@, source@, dest_id@),
            final(self)@.wf(),
    {
        let stashed = match self.stash_pack(dest_id) {
            Err(e) => {
                return Err(e);
            },
            Ok(p) => p,
        };
        let install_result = self.install_local(source, dest_id);
        self.finish_update(dest_id, stashed, install_result)
    }

    /// Updates a mod from the remote service, preserving its save file;
    /// the old payload is restored when the install step fails.
    pub fn update_remote(&mut self, downloaded: &crate::remote::DownloadedMod) -> (r: Result<
        Mod,
        Error,
    >)
        requires
            old(self)@.wf(),
        ensures
            (mod_result_view(r), final(self)@) == update_remote_spec(old(self)@, downloaded@),
            final(self)@.wf(),
    {
        let dest_id = crate::id_for_remote(downloaded.api_mod.slug.as_str());
        let stashed = match self.stash_pack(dest_id.as_str()) {
            Err(e) => {
                return Err(e);
            },
            Ok(p) => p,
        };
        let install_result = self.install_remote(downloaded);
        self.finish_update(dest_id.as_str(), stashed, install_result)
    }

    /// The files of a mod's payload directory, for callers that mirror
    /// the tree outward.
    pub fn pack_entries(&self, id: &str) -> (r: Option<Vec<crate::archive::TreeEntry>>)
        requires
            self@.wf(),
        ensures
            match r {
                Some(entries) => self@.has_pack(id@) && entries@.map_values(
                    |e: crate::archive::TreeEntry| e@,
                ) == self@.pack_at(id@).files,
                None => !self@.has_pack(id@),
            },
    {
        let idx = match self.find_pack_index(id) {
            None => {
                return None;
            },
            Some(i) => i,
        };
        proof {
            lemma_pack_index(self@, idx as int);
        }
        let pack = &self.packs[idx];
        let mut out: Vec<crate::archive::TreeEntry> = Vec::new();
        let mut i: usize = 0;
        while i < pack.files.len()
            invariant
                i <= pack.files@.len(),
                out@.len() == i,
                forall|k: int| 0 <= k < i ==> (#[trigger] out@[k])@ == pack.files@[k]@,
            decreases pack.files@.len() - i,
        {
            out.push(pack.files[i].clone_value());
            i += 1;
        }
        proof {
            assert(out@.map_values(|e: crate::archive::TreeEntry| e@) =~= self@.pack_at(
                id@,
            ).files);
        }
        Some(out)
    }

    /// The metadata entry stored for an id, for callers that mirror the
    /// tree outward.
    pub fn meta_for(&self, id: &str) -> (r: Option<MetaDir>)
        requires
            self@.wf(),
        ensures
            match r {
                Some(m) => self@.has_meta(id@) && m@ == self@.meta_at(id@),
                None => !self@.has_meta(id@),
            },
    {
        match self.find_meta_index(id) {
            None => None,
            Some(mi) => {
                proof {
                    lemma_meta_index(self@, mi as int);
                }
                Some(self.meta[mi].clone_value())
            },
        }
    }

    /// Serves a mod's logo from the stored metadata.
    pub fn get_mod_logo(&self, id: &str) -> (r: Result<ModLogo, Error>)
        requires
            self@.wf(),
        ensures
            logo_result_view(r) == get_mod_logo_spec(self@, id@),
    {
        let mi = match self.find_meta_index(id) {
            None => {
                return Err(Error::NotFound(id.to_owned()));
            },
            Some(mi) => mi,
        };
        proof {
            lemma_meta_index(self@, mi as int);
        }
        let manifest = match &self.meta[mi].manifest {
            None => {
                return Err(Error::NotFound(id.to_owned()));
            },
            Some(m) => m,
        };
        let logo_name = match &manifest.logo {
            None => {
                return Err(Error::NotFound(id.to_owned()));
            },
            Some(n) => n,
        };
        let ext = match crate::paths::name_extension(logo_name.as_str()) {
            None => {
                return Err(Error::UnknownError(String::from_str("no extension in logo name")));
            },
            Some(e) => e,
        };
        let mime = if crate::paths::str_eq(ext.as_str(), "jpg") {
            String::from_str("image/jpeg")
        } else if crate::paths::str_eq(ext.as_str(), "gif") {
            String::from_str("image/gif")
        } else if crate::paths::str_eq(ext.as_str(), "png") {
            String::from_str("image/png")
        } else {
            return Err(Error::UnknownError(String::from_str("unexpected extension in logo name")));
        };
        match &self.meta[mi].logo {
            Some(l) => {
                if crate::paths::str_eq(l.name.as_str(), logo_name.as_str()) {
                    let r = ModLogo { mime_type: mime, bytes: l.data.clone() };
                    proof {
                        assert(r@ =~= get_mod_logo_spec(self@, id@)->Ok_0);
                    }
                    Ok(r)
                } else {
                    Err(Error::IoError(String::from_str("logo file missing")))
                }
            },
            None => Err(Error::IoError(String::from_str("logo file missing"))),
        }
    }
}

/// Each mod `list_entries` reports takes its id from a distinct listed
/// pack, so the listing holds one entry per id.
pub proof fn lemma_list_entries_props(s: StoreView, packs: Seq<PackView>)
    requires
        forall|i: int, j: int|
            0 <= i < j < packs.len() ==> (#[trigger] packs[i]).id != (#[trigger] packs[j]).id,
    ensures
        forall|k: int|
            0 <= k < list_entries(s, packs).len() ==> exists|j: int|
                0 <= j < packs.len() && (#[trigger] list_entries(s, packs)[k]).id == packs[j].id,
        forall|a: int, b: int|
            0 <= a < b < list_entries(s, packs).len() ==> (#[trigger] list_entries(s, packs)[a]).id
                != (#[trigger] list_entries(s, packs)[b]).id,
    decreases packs.len(),
{
    if packs.len() > 0 {
        let dl = packs.drop_last();
        assert(forall|i: int| 0 <= i < dl.len() ==> dl[i] == packs[i]);
        lemma_list_entries_props(s, dl);
        let l = list_entries(s, packs);
        let prev = list_entries(s, dl);
        assert forall|k: int| 0 <= k < l.len() implies exists|j: int|
            0 <= j < packs.len() && (#[trigger] l[k]).id == packs[j].id by {
            if k < prev.len() {
                assert(l[k] == prev[k]);
                let j = choose|j: int| 0 <= j < dl.len() && prev[k].id == dl[j].id;
                assert(l[k].id == packs[j].id);
            } else {
                assert(l[k].id == packs[packs.len() - 1].id);
            }
        }
        assert forall|a: int, b: int| 0 <= a < b < l.len() implies (#[trigger] l[a]).id != (
        #[trigger] l[b]).id by {
            if b < prev.len() {
                assert(l[a] == prev[a] && l[b] == prev[b]);
            } else {
                assert(l[b].id == packs[packs.len() - 1].id);
                assert(l[a] == prev[a]);
                let j = choose|j: int| 0 <= j < dl.len() && prev[a].id == dl[j].id;
                assert(packs[j].id != packs[packs.len() - 1].id);
            }
        }
    }
}

/// The listing holds one entry per id.
pub proof fn lemma_list_spec_unique(s: StoreView)
    requires
        s.wf(),
    ensures
        forall|a: int, b: int|
            0 <= a < b < list_spec(s).len() ==> (#[trigger] list_spec(s)[a]).id != (
            #[trigger] list_spec(s)[b]).id,
{
    lemma_list_entries_props(s, s.packs);
}

/// Removing one pack and metadata entry leaves every other id exactly as
/// it was.
pub proof fn lemma_remove_preserves_others(s: StoreView, id: Seq<char>, other: Seq<char>)
    requires
        s.wf(),
        other != id,
    ensures
        remove_spec(s, id).1.has_pack(other) == s.has_pack(other),
        s.has_pack(other) ==> remove_spec(s, id).1.pack_at(other) == s.pack_at(other),
        remove_spec(s, id).1.has_meta(other) == s.has_meta(other),
        s.has_meta(other) ==> remove_spec(s, id).1.meta_at(other) == s.meta_at(other),
        remove_spec(s, id).1.manifest_of(other) == s.manifest_of(other),
        get_spec(remove_spec(s, id).1, other) == get_spec(s, other),
{
    let s1 = remove_spec(s, id).1;
    if s.has_pack(id) {
        let pi = s.pack_index(id);
        s.packs.remove_ensures(pi);
        assert forall|k: int| 0 <= k < s1.packs.len() implies exists|j: int|
            0 <= j < s.packs.len() && #[trigger] s1.packs[k] == s.packs[j] by {
            if k < pi {
                assert(s1.packs[k] == s.packs[k]);
            } else {
                assert(s1.packs[k] == s.packs[k + 1]);
            }
        }
        if s.has_pack(other) {
            let oi = s.pack_index(other);
            assert(s.packs[oi].id == other);
            assert(oi != pi);
            if oi < pi {
                assert(s1.packs[oi] == s.packs[oi]);
                lemma_pack_index_of(s1, oi, other);
            } else {
                assert(s1.packs[oi - 1] == s.packs[oi]);
                lemma_pack_index_of(s1, oi - 1, other);
            }
            lemma_pack_index(s, oi);
        }
        if s1.has_pack(other) {
            let oi = s1.pack_index(other);
            assert(s1.packs[oi].id == other);
            if oi < pi {
                assert(s1.packs[oi] == s.packs[oi]);
                assert(s.has_pack(other));
            } else {
                assert(s1.packs[oi] == s.packs[oi + 1]);
                assert(s.has_pack(other));
            }
        }
        if s.has_meta(id) {
            let mi = s.meta_index(id);
            s.meta.remove_ensures(mi);
            if s.has_meta(other) {
                let oi = s.meta_index(other);
                assert(s.meta[oi].id == other);
                assert(oi != mi);
                if oi < mi {
                    assert(s1.meta[oi] == s.meta[oi]);
                    lemma_meta_index_of(s1, oi, other);
                } else {
                    assert(s1.meta[oi - 1] == s.meta[oi]);
                    lemma_meta_index_of(s1, oi - 1, other);
                }
                lemma_meta_index(s, oi);
            }
            if s1.has_meta(other) {
                let oi = s1.meta_index(other);
                assert(s1.meta[oi].id == other);
                if oi < mi {
                    assert(s1.meta[oi] == s.meta[oi]);
                    assert(s.has_meta(other));
                } else {
                    assert(s1.meta[oi] == s.meta[oi + 1]);
                    assert(s.has_meta(other));
                }
            }
        } else {
            assert(s1.meta == s.meta);
            if s.has_meta(other) {
                lemma_meta_index_of(s1, s.meta_index(other), other);
                lemma_meta_index(s, s.meta_index(other));
            }
        }
    }
}

/// An index that carries an id pins `pack_index` down, stated for a
/// store that is well formed.
proof fn lemma_pack_index_of(s: StoreView, i: int, id: Seq<char>)
    requires
        s.wf(),
        0 <= i < s.packs.len(),
        s.packs[i].id == id,
    ensures
        s.has_pack(id),
        s.pack_index(id) == i,
        s.pack_at(id) == s.packs[i],
{
    lemma_pack_index(s, i);
}

proof fn lemma_meta_index_of(s: StoreView, i: int, id: Seq<char>)
    requires
        s.wf(),
        0 <= i < s.meta.len(),
        s.meta[i].id == id,
    ensures
        s.has_meta(id),
        s.meta_index(id) == i,
        s.meta_at(id) == s.meta[i],
{
    lemma_meta_index(s, i);
}

/// Round-trip identity: a local install that succeeds is immediately
/// visible through `get`, which returns exactly the mod the install
/// returned — provided no stale manifest lingers under the same id.
pub proof fn lemma_install_roundtrip(
    s: StoreView,
    src: crate::remote::SourceFileView,
    dest_id: Seq<char>,
)
    requires
        s.wf(),
        s.manifest_of(dest_id) is None,
        install_local_spec(s, src, dest_id).0 is Ok,
    ensures
        get_spec(install_local_spec(s, src, dest_id).1, dest_id) == Ok::<ModView, ErrorView>(
            install_local_spec(s, src, dest_id).0->Ok_0,
        ),
{
    let (r, s1) = install_local_spec(s, src, dest_id);
    assert(!s.has_pack(dest_id));
    let entries = payload_plan_spec(crate::paths::file_name_of(src.path), src.data)->Ok_0;
    let p = PackView { id: dest_id, is_dir: true, files: entries };
    assert(s1 == add_pack(s, p));
    lemma_add_pack_wf(s, p);
    assert(s1.meta == s.meta);
    assert(s1.manifest_of(dest_id) == s.manifest_of(dest_id));
    assert(get_spec(s1, dest_id) == Ok::<ModView, ErrorView>(
        ModView { id: dest_id, manifest: None },
    ));
}

/// Idempotent remove: once a remove succeeds, an immediate second
/// remove of the same id reports `NotFound` and changes nothing; and no
/// other id's mod is affected by the first remove.
pub proof fn lemma_remove_idempotent(s: StoreView, id: Seq<char>)
    requires
        s.wf(),
        remove_spec(s, id).0 is Ok,
    ensures
        remove_spec(remove_spec(s, id).1, id).0 == Err::<(), ErrorView>(ErrorView::NotFound(id)),
        remove_spec(remove_spec(s, id).1, id).1 == remove_spec(s, id).1,
        forall|other: Seq<char>|
            other != id ==> get_spec(#[trigger] remove_spec(s, id).1, other) == get_spec(s, other),
{
    let s1 = remove_spec(s, id).1;
    assert(s.has_pack(id));
    let pi = s.pack_index(id);
    s.packs.remove_ensures(pi);
    assert forall|k: int| 0 <= k < s1.packs.len() implies (#[trigger] s1.packs[k]).id != id by {
        if k < pi {
            assert(s1.packs[k] == s.packs[k]);
            assert(s.packs[k].id != s.packs[pi].id);
        } else {
            assert(s1.packs[k] == s.packs[k + 1]);
            assert(s.packs[pi].id != s.packs[k + 1].id);
        }
    }
    assert(!s1.has_pack(id));
    assert forall|other: Seq<char>| other != id implies get_spec(
        #[trigger] remove_spec(s, id).1,
        other,
    ) == get_spec(s, other) by {
        lemma_remove_preserves_others(s, id, other);
    }
}

/// No double install: after a successful install of an id, a second
/// install of the same id from any readable source fails with
/// `AlreadyExists` and leaves the store exactly as the first left it.
pub proof fn lemma_no_double_install(
    s: StoreView,
    src1: crate::remote::SourceFileView,
    src2: crate::remote::SourceFileView,
    dest_id: Seq<char>,
)
    requires
        s.wf(),
        install_local_spec(s, src1, dest_id).0 is Ok,
        src2.exists,
        src2.is_file,
    ensures
        install_local_spec(install_local_spec(s, src1, dest_id).1, src2, dest_id) == (
            Err::<ModView, ErrorView>(ErrorView::AlreadyExists(dest_id)),
            install_local_spec(s, src1, dest_id).1,
        ),
{
    let s1 = install_local_spec(s, src1, dest_id).1;
    let entries = payload_plan_spec(crate::paths::file_name_of(src1.path), src1.data)->Ok_0;
    let p = PackView { id: dest_id, is_dir: true, files: entries };
    assert(s1 == add_pack(s, p));
    assert(!s.has_pack(dest_id));
    lemma_add_pack_wf(s, p);
    assert(s1.has_pack(dest_id));
}

/// Save-file preservation: a successful update whose fresh payload does
/// not itself ship a `save.dat` leaves one in the directory exactly when
/// the directory had one before the update.
pub proof fn lemma_update_preserves_save(
    s: StoreView,
    src: crate::remote::SourceFileView,
    dest_id: Seq<char>,
)
    requires
        s.wf(),
        update_local_spec(s, src, dest_id).0 is Ok,
        !contains_file(
            payload_plan_spec(crate::paths::file_name_of(src.path), src.data)->Ok_0,
            save_path(),
        ),
    ensures
        update_local_spec(s, src, dest_id).1.has_pack(dest_id),
        contains_file(update_local_spec(s, src, dest_id).1.pack_at(dest_id).files, save_path())
            <==> contains_file(s.pack_at(dest_id).files, save_path()),
{
    assert(s.has_pack(dest_id));
    let stashed = s.pack_at(dest_id);
    let s1 = stash_spec(s, dest_id);
    lemma_stash_gone(s, dest_id);
    let step = install_local_spec(s1, src, dest_id);
    let (r, sfin) = finish_update_spec(dest_id, stashed, step);
    assert(r is Ok);
    assert(step.0 is Ok);
    let entries = payload_plan_spec(crate::paths::file_name_of(src.path), src.data)->Ok_0;
    let p = PackView { id: dest_id, is_dir: true, files: entries };
    assert(step.1 == add_pack(s1, p));
    lemma_add_pack_wf(s1, p);
    let si = last_file_index(stashed.files, save_path());
    lemma_last_file_index(stashed.files, save_path());
    if si >= 0 {
        let fresh = step.1.pack_at(dest_id);
        assert(fresh == p);
        let patched = PackView { files: fresh.files.push(stashed.files[si]), ..fresh };
        assert(sfin.packs == step.1.packs.update(step.1.pack_index(dest_id), patched));
        let pi = step.1.pack_index(dest_id);
        assert forall|a: int, b: int| 0 <= a < b < sfin.packs.len() implies (
        #[trigger] sfin.packs[a]).id != (#[trigger] sfin.packs[b]).id by {
            assert(step.1.packs[a].id != step.1.packs[b].id);
        }
        assert(sfin.packs[pi].id == dest_id);
        lemma_pack_index_of(StoreView { packs: sfin.packs, ..step.1 }, pi, dest_id);
        assert(sfin.pack_at(dest_id) == patched);
        let pf = patched.files;
        assert(pf.last() == stashed.files[si]);
        assert(!pf.last().is_dir && pf.last().components == save_path());
        assert(last_file_index(pf, save_path()) == pf.len() - 1);
        assert(contains_file(pf, save_path()));
    } else {
        assert(sfin == step.1);
        assert(sfin.pack_at(dest_id) == p);
        assert(!contains_file(p.files, save_path()));
    }
}

/// Latest-pointer monotonicity: polling a catalog entry returns the
/// mod's id exactly when it rewrites the stored pointer — that is, when
/// the entry's newest file differs from what was stored — and it never
/// touches any manifest.
pub proof fn lemma_latest_pointer(s: StoreView, api: crate::remote::ModSummaryView)
    requires
        s.wf(),
    ensures
        update_latest_spec(s, api).0 is Ok,
        update_latest_spec(s, api).0 == Ok::<Option<Seq<char>>, ErrorView>(
            None,
        ) <==> update_latest_spec(s, api).1 == s,
        (api.mod_files.len() > 0 && s.latest_of("fyi."@ + api.slug) != Some(
            api.mod_files[0].id,
        )) ==> update_latest_spec(s, api) == (
            Ok::<Option<Seq<char>>, ErrorView>(Some("fyi."@ + api.slug)),
            set_meta(
                s,
                MetaDirView {
                    latest: Some(api.mod_files[0].id),
                    ..meta_or_empty(s, "fyi."@ + api.slug)
                },
            ),
        ),
        forall|anyid: Seq<char>|
            #[trigger] update_latest_spec(s, api).1.manifest_of(anyid) == s.manifest_of(anyid),
{
    let id = "fyi."@ + api.slug;
    if api.mod_files.len() == 0 {
    } else {
        let latest = api.mod_files[0].id;
        if s.latest_of(id) == Some(latest) {
        } else {
            let prev = meta_or_empty(s, id);
            let entry = MetaDirView { latest: Some(latest), ..prev };
            let s1 = set_meta(s, entry);
            lemma_set_meta(s, entry);
            assert(s1.meta_at(id).latest == Some(latest));
            assert(s1.latest_of(id) == Some(latest));
            assert(s1 != s) by {
                assert(s1.latest_of(id) != s.latest_of(id));
            }
            assert forall|anyid: Seq<char>| #[trigger] s1.manifest_of(anyid) == s.manifest_of(
                anyid,
            ) by {
                if anyid == id {
                    assert(s1.meta_at(id).manifest == prev.manifest);
                    if s.has_meta(id) {
                        assert(prev.manifest == s.meta_at(id).manifest);
                    }
                }
            }
        }
    }
}

} // verus!
