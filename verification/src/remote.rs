//! Typed values exchanged with the remote mod service: the catalog entry
//! the manifest endpoint returns, and the result of a streamed download.
use crate::data::DownloadProgress;
use vstd::prelude::*;

verus! {

/// The service root used when none is configured.
pub const DEFAULT_SERVICE_ROOT: &'static str = "https://spelunky.fyi";

/// An account on the remote service.
pub struct User {
    pub username: String,
}

/// One downloadable file of a catalog entry. `created_at` is kept as the
/// timestamp string the service returned.
pub struct ModFile {
    pub id: String,
    pub created_at: String,
    pub filename: String,
    pub downloads: i64,
    pub download_url: String,
}

/// Mathematical value of a `ModFile`.
#[verifier::ext_equal]
pub ghost struct ModFileView {
    pub id: Seq<char>,
    pub created_at: Seq<char>,
    pub filename: Seq<char>,
    pub downloads: i64,
    pub download_url: Seq<char>,
}

impl View for ModFile {
    type V = ModFileView;

    open spec fn view(&self) -> ModFileView {
        ModFileView {
            id: self.id@,
            created_at: self.created_at@,
            filename: self.filename@,
            downloads: self.downloads,
            download_url: self.download_url@,
        }
    }
}

impl ModFile {
    pub fn clone_value(&self) -> (r: ModFile)
        ensures
            r@ == self@,
    {
        ModFile {
            id: self.id.clone(),
            created_at: self.created_at.clone(),
            filename: self.filename.clone(),
            downloads: self.downloads,
            download_url: self.download_url.clone(),
        }
    }
}

/// An image attached to a catalog entry.
pub struct Image {
    pub id: String,
    pub created_at: String,
    pub image_url: String,
}

/// A catalog entry as the remote manifest endpoint returns it. The
/// `mod_files` list is ordered newest first; its first element is the
/// authoritative latest version.
pub struct Mod {
    pub name: String,
    pub slug: String,
    pub self_url: String,
    pub submitter: User,
    pub collaborators: Vec<User>,
    pub description: String,
    pub mod_type: i32,
    pub game: i32,
    pub logo: Option<String>,
    pub details: String,
    pub comments_allowed: bool,
    pub is_listed: bool,
    pub adult_content: bool,
    pub mod_files: Vec<ModFile>,
}

/// The part of a catalog entry's mathematical value that the store and
/// cache contracts speak about.
#[verifier::ext_equal]
pub ghost struct ModSummaryView {
    pub name: Seq<char>,
    pub slug: Seq<char>,
    pub description: Seq<char>,
    pub logo: Option<Seq<char>>,
    pub mod_files: Seq<ModFileView>,
}

impl View for Mod {
    type V = ModSummaryView;

    open spec fn view(&self) -> ModSummaryView {
        ModSummaryView {
            name: self.name@,
            slug: self.slug@,
            description: self.description@,
            logo: match self.logo {
                Some(l) => Some(l@),
                None => None,
            },
            mod_files: self.mod_files@.map_values(|f: ModFile| f@),
        }
    }
}

/// A downloaded logo: the content type the server declared, and the
/// bytes that were streamed to disk.
pub struct DownloadedLogo {
    pub content_type: String,
    pub data: Vec<u8>,
}

/// A file handed to the store for installation: the path it was read
/// from, whether that path existed and named a regular file, and its
/// contents.
pub struct SourceFile {
    pub path: String,
    pub exists: bool,
    pub is_file: bool,
    pub data: Vec<u8>,
}

/// Mathematical value of a `SourceFile`.
#[verifier::ext_equal]
pub ghost struct SourceFileView {
    pub path: Seq<char>,
    pub exists: bool,
    pub is_file: bool,
    pub data: Seq<u8>,
}

impl View for SourceFile {
    type V = SourceFileView;

    open spec fn view(&self) -> SourceFileView {
        SourceFileView {
            path: self.path@,
            exists: self.exists,
            is_file: self.is_file,
            data: self.data@,
        }
    }
}

/// Mathematical value of a `DownloadedLogo`.
#[verifier::ext_equal]
pub ghost struct DownloadedLogoView {
    pub content_type: Seq<char>,
    pub data: Seq<u8>,
}

impl View for DownloadedLogo {
    type V = DownloadedLogoView;

    open spec fn view(&self) -> DownloadedLogoView {
        DownloadedLogoView { content_type: self.content_type@, data: self.data@ }
    }
}

/// The result of fetching a catalog entry and its payload: the entry,
/// the file descriptor that was chosen (the newest), the downloaded main
/// file, and the downloaded logo if the entry has one.
pub struct DownloadedMod {
    pub api_mod: Mod,
    pub mod_file: ModFile,
    pub main_file: SourceFile,
    pub logo_file: Option<DownloadedLogo>,
}

/// Mathematical value of a `DownloadedMod`.
#[verifier::ext_equal]
pub ghost struct DownloadedModView {
    pub api_mod: ModSummaryView,
    pub mod_file: ModFileView,
    pub main_file: SourceFileView,
    pub logo_file: Option<DownloadedLogoView>,
}

impl View for DownloadedMod {
    type V = DownloadedModView;

    open spec fn view(&self) -> DownloadedModView {
        DownloadedModView {
            api_mod: self.api_mod@,
            mod_file: self.mod_file@,
            main_file: self.main_file@,
            logo_file: match self.logo_file {
                Some(l) => Some(l@),
                None => None,
            },
        }
    }
}

/// Picks the file descriptor a download must fetch: the first entry of
/// `mod_files`, which the service orders newest first. Fails exactly when
/// the catalog entry has no files.
pub fn choose_mod_file(api_mod: &Mod) -> (r: Option<ModFile>)
    ensures
        api_mod@.mod_files.len() == 0 <==> r is None,
        api_mod@.mod_files.len() > 0 ==> (r matches Some(f) && f@ == api_mod@.mod_files[0]),
{
    if api_mod.mod_files.len() == 0 {
        None
    } else {
        let f = api_mod.mod_files[0].clone_value();
        Some(f)
    }
}

/// Tracks how many bytes of one transfer have arrived, and phrases the
/// running total as the progress value the change bus carries.
pub struct DownloadTracker {
    pub expected_bytes: Option<u64>,
    pub received_bytes: u64,
}

impl DownloadTracker {
    pub fn new(expected_bytes: Option<u64>) -> (r: Self)
        ensures
            r.expected_bytes == expected_bytes,
            r.received_bytes == 0,
    {
        DownloadTracker { expected_bytes, received_bytes: 0 }
    }

    /// Accounts for one received chunk and returns the progress value to
    /// publish for it.
    pub fn on_chunk(&mut self, chunk_len: u64) -> (r: DownloadProgress)
        requires
            old(self).received_bytes + chunk_len <= u64::MAX,
        ensures
            final(self).received_bytes == old(self).received_bytes + chunk_len,
            final(self).expected_bytes == old(self).expected_bytes,
            r == (DownloadProgress::Receiving {
                expected_bytes: old(self).expected_bytes,
                received_bytes: final(self).received_bytes,
            }),
    {
        self.received_bytes = self.received_bytes + chunk_len;
        DownloadProgress::Receiving {
            expected_bytes: self.expected_bytes,
            received_bytes: self.received_bytes,
        }
    }
}

/// The request path for a catalog entry's manifest.
pub fn api_mod_path(code: &str) -> (r: String)
    ensures
        r@ == "/api/mods/"@ + code@,
{
    let mut out = String::from_str("/api/mods/");
    out.append(code);
    out
}

/// Decides whether an HTTP status allows a response body to be used:
/// only the successful range does.
pub fn status_is_success(status: u16) -> (r: bool)
    ensures
        r <==> 200 <= status < 300,
{
    200 <= status && status < 300
}

} // verus!
