use vstd::prelude::*;

verus! {

/// Descriptor of the remote file a manifest points at: the remote file id,
/// its creation timestamp (kept as the string the service returned), and
/// the URL the file can be downloaded from.
pub struct ManifestModFile {
    pub id: String,
    pub created_at: String,
    pub download_url: String,
}

/// Mathematical value of a `ManifestModFile`.
#[verifier::ext_equal]
pub ghost struct ManifestModFileView {
    pub id: Seq<char>,
    pub created_at: Seq<char>,
    pub download_url: Seq<char>,
}

impl View for ManifestModFile {
    type V = ManifestModFileView;

    open spec fn view(&self) -> ManifestModFileView {
        ManifestModFileView {
            id: self.id@,
            created_at: self.created_at@,
            download_url: self.download_url@,
        }
    }
}

impl ManifestModFile {
    /// Value equality, decided field by field.
    pub fn matches(&self, other: &ManifestModFile) -> (r: bool)
        ensures
            r <==> self@ == other@,
    {
        let r = self.id == other.id && self.created_at == other.created_at
            && self.download_url == other.download_url;
        proof {
            if r {
                assert(self@ =~= other@);
            }
        }
        r
    }

    pub fn clone_value(&self) -> (r: ManifestModFile)
        ensures
            r@ == self@,
    {
        ManifestModFile {
            id: self.id.clone(),
            created_at: self.created_at.clone(),
            download_url: self.download_url.clone(),
        }
    }
}

/// Metadata persisted beside a mod that was installed from the remote
/// service: display name, slug, description, the optional logo file name,
/// and the file descriptor of the installed version.
pub struct Manifest {
    pub name: String,
    pub slug: String,
    pub description: String,
    pub logo: Option<String>,
    pub mod_file: ManifestModFile,
}

/// Mathematical value of a `Manifest`.
#[verifier::ext_equal]
pub ghost struct ManifestView {
    pub name: Seq<char>,
    pub slug: Seq<char>,
    pub description: Seq<char>,
    pub logo: Option<Seq<char>>,
    pub mod_file: ManifestModFileView,
}

impl View for Manifest {
    type V = ManifestView;

    open spec fn view(&self) -> ManifestView {
        ManifestView {
            name: self.name@,
            slug: self.slug@,
            description: self.description@,
            logo: match self.logo {
                Some(l) => Some(l@),
                None => None,
            },
            mod_file: self.mod_file@,
        }
    }
}

impl Manifest {
    /// Value equality, decided field by field.
    pub fn matches(&self, other: &Manifest) -> (r: bool)
        ensures
            r <==> self@ == other@,
    {
        let logo_eq = match (&self.logo, &other.logo) {
            (Some(a), Some(b)) => *a == *b,
            (None, None) => true,
            _ => false,
        };
        let r = logo_eq && self.name == other.name && self.slug == other.slug
            && self.description == other.description && self.mod_file.matches(&other.mod_file);
        proof {
            if r {
                assert(self@ =~= other@);
            }
        }
        r
    }

    pub fn clone_value(&self) -> (r: Manifest)
        ensures
            r@ == self@,
    {
        let logo = match &self.logo {
            Some(l) => Some(l.clone()),
            None => None,
        };
        Manifest {
            name: self.name.clone(),
            slug: self.slug.clone(),
            description: self.description.clone(),
            logo,
            mod_file: self.mod_file.clone_value(),
        }
    }
}

/// A locally installed mod: its stable id, and the persisted manifest for
/// mods that came from the remote service (`None` for local installs).
pub struct Mod {
    pub id: String,
    pub manifest: Option<Manifest>,
}

/// Mathematical value of a `Mod`.
#[verifier::ext_equal]
pub ghost struct ModView {
    pub id: Seq<char>,
    pub manifest: Option<ManifestView>,
}

impl View for Mod {
    type V = ModView;

    open spec fn view(&self) -> ModView {
        ModView {
            id: self.id@,
            manifest: match self.manifest {
                Some(m) => Some(m@),
                None => None,
            },
        }
    }
}

impl Mod {
    /// Value equality: two mods are equal exactly when id and manifest are.
    pub fn matches(&self, other: &Mod) -> (r: bool)
        ensures
            r <==> self@ == other@,
    {
        let manifest_eq = match (&self.manifest, &other.manifest) {
            (Some(a), Some(b)) => a.matches(b),
            (None, None) => true,
            _ => false,
        };
        let r = manifest_eq && self.id == other.id;
        proof {
            if r {
                assert(self@ =~= other@);
            }
        }
        r
    }

    pub fn clone_value(&self) -> (r: Mod)
        ensures
            r@ == self@,
    {
        let manifest = match &self.manifest {
            Some(m) => Some(m.clone_value()),
            None => None,
        };
        Mod { id: self.id.clone(), manifest }
    }
}

/// A mod's logo as served to the host application: a MIME type and the
/// raw image bytes.
pub struct ModLogo {
    pub mime_type: String,
    pub bytes: Vec<u8>,
}

/// Mathematical value of a `ModLogo`.
#[verifier::ext_equal]
pub ghost struct ModLogoView {
    pub mime_type: Seq<char>,
    pub bytes: Seq<u8>,
}

impl View for ModLogo {
    type V = ModLogoView;

    open spec fn view(&self) -> ModLogoView {
        ModLogoView { mime_type: self.mime_type@, bytes: self.bytes@ }
    }
}

/// Progress of one file transfer.
#[derive(Clone, Copy)]
pub enum DownloadProgress {
    Waiting,
    Started,
    Receiving { expected_bytes: Option<u64>, received_bytes: u64 },
    Finished,
}

impl DownloadProgress {
    /// Value equality.
    pub fn matches(&self, other: &DownloadProgress) -> (r: bool)
        ensures
            r <==> *self == *other,
    {
        match (self, other) {
            (DownloadProgress::Waiting, DownloadProgress::Waiting) => true,
            (DownloadProgress::Started, DownloadProgress::Started) => true,
            (
                DownloadProgress::Receiving { expected_bytes: e1, received_bytes: r1 },
                DownloadProgress::Receiving { expected_bytes: e2, received_bytes: r2 },
            ) => {
                let expected_eq = match (e1, e2) {
                    (Some(a), Some(b)) => *a == *b,
                    (None, None) => true,
                    _ => false,
                };
                expected_eq && *r1 == *r2
            },
            (DownloadProgress::Finished, DownloadProgress::Finished) => true,
            _ => false,
        }
    }
}

/// Progress of one whole install or update operation.
pub enum ModProgress {
    Waiting { id: String },
    Started { id: String },
    Downloading { id: String, main_file: DownloadProgress, logo_file: DownloadProgress },
    Finished { installed: Mod },
}

/// Mathematical value of a `ModProgress`.
#[verifier::ext_equal]
pub ghost enum ModProgressView {
    Waiting { id: Seq<char> },
    Started { id: Seq<char> },
    Downloading { id: Seq<char>, main_file: DownloadProgress, logo_file: DownloadProgress },
    Finished { installed: ModView },
}

impl View for ModProgress {
    type V = ModProgressView;

    open spec fn view(&self) -> ModProgressView {
        match self {
            ModProgress::Waiting { id } => ModProgressView::Waiting { id: id@ },
            ModProgress::Started { id } => ModProgressView::Started { id: id@ },
            ModProgress::Downloading { id, main_file, logo_file } => ModProgressView::Downloading {
                id: id@,
                main_file: *main_file,
                logo_file: *logo_file,
            },
            ModProgress::Finished { installed } => ModProgressView::Finished {
                installed: installed@,
            },
        }
    }
}

/// An event on the change bus.
pub enum Change {
    Add { progress: ModProgress },
    Remove { id: String },
    Update { progress: ModProgress },
    NewVersion { id: String },
}

/// Mathematical value of a `Change`.
#[verifier::ext_equal]
pub ghost enum ChangeView {
    Add { progress: ModProgressView },
    Remove { id: Seq<char> },
    Update { progress: ModProgressView },
    NewVersion { id: Seq<char> },
}

impl View for Change {
    type V = ChangeView;

    open spec fn view(&self) -> ChangeView {
        match self {
            Change::Add { progress } => ChangeView::Add { progress: progress@ },
            Change::Remove { id } => ChangeView::Remove { id: id@ },
            Change::Update { progress } => ChangeView::Update { progress: progress@ },
            Change::NewVersion { id } => ChangeView::NewVersion { id: id@ },
        }
    }
}

/// Internal, progress-free event emitted by the cache when disk or remote
/// state changes outside a command.
pub enum DetectedChange {
    Added { installed: Mod },
    Removed { id: String },
    Updated { installed: Mod },
    NewVersion { id: String },
}

/// Mathematical value of a `DetectedChange`.
#[verifier::ext_equal]
pub ghost enum DetectedChangeView {
    Added { installed: ModView },
    Removed { id: Seq<char> },
    Updated { installed: ModView },
    NewVersion { id: Seq<char> },
}

impl View for DetectedChange {
    type V = DetectedChangeView;

    open spec fn view(&self) -> DetectedChangeView {
        match self {
            DetectedChange::Added { installed } => DetectedChangeView::Added {
                installed: installed@,
            },
            DetectedChange::Removed { id } => DetectedChangeView::Removed { id: id@ },
            DetectedChange::Updated { installed } => DetectedChangeView::Updated {
                installed: installed@,
            },
            DetectedChange::NewVersion { id } => DetectedChangeView::NewVersion { id: id@ },
        }
    }
}

/// The error taxonomy the manager reports to external consumers; each
/// variant carries a human-readable description.
pub enum ManagerError {
    ModExistsError(String),
    ModNotFoundError(String),
    ModNonDirectoryError(String),
    ManifestParseError(String),
    SourceError(String),
    DestinationError(String),
    ChannelError(String),
    UnknownError(String),
}

/// Where an install or update takes its payload from.
pub enum ModSource {
    Local { source_path: String, dest_id: String },
    Remote { code: String },
}

} // verus!
