use ml2_mods::archive::TreeEntry;
use ml2_mods::remote::{DownloadedLogo, DownloadedMod, Mod as ApiMod, ModFile, SourceFile, User};
use ml2_mods::store::{DiskMods, Error, Pack};

fn file_source(path: &str, data: &[u8]) -> SourceFile {
    SourceFile {
        path: path.to_string(),
        exists: true,
        is_file: true,
        data: data.to_vec(),
    }
}

fn zip_bytes(entries: &[(&str, &[u8])]) -> Vec<u8> {
    let mut w = zip::ZipWriter::new(std::io::Cursor::new(Vec::new()));
    let opts = zip::write::SimpleFileOptions::default();
    for (name, data) in entries {
        w.start_file(*name, opts).unwrap();
        std::io::Write::write_all(&mut w, data).unwrap();
    }
    w.finish().unwrap().into_inner()
}

fn entry_paths(entries: &[TreeEntry]) -> Vec<String> {
    entries.iter().map(|e| e.components.join("/")).collect()
}

fn api_mod(slug: &str, logo: Option<&str>, file_id: &str) -> ApiMod {
    ApiMod {
        name: format!("The {} mod", slug),
        slug: slug.to_string(),
        self_url: format!("https://example.test/mods/{}", slug),
        submitter: User {
            username: "someone".to_string(),
        },
        collaborators: vec![],
        description: "a mod".to_string(),
        mod_type: 0,
        game: 0,
        logo: logo.map(|l| l.to_string()),
        details: String::new(),
        comments_allowed: true,
        is_listed: true,
        adult_content: false,
        mod_files: vec![ModFile {
            id: file_id.to_string(),
            created_at: "2021-01-01T00:00:00Z".to_string(),
            filename: "mod.lua".to_string(),
            downloads: 1,
            download_url: format!("https://example.test/files/{}", file_id),
        }],
    }
}

fn downloaded(slug: &str, logo: Option<(&str, &[u8])>, file_id: &str) -> DownloadedMod {
    DownloadedMod {
        api_mod: api_mod(slug, logo.map(|_| "https://example.test/logo.png"), file_id),
        mod_file: ModFile {
            id: file_id.to_string(),
            created_at: "2021-01-01T00:00:00Z".to_string(),
            filename: "mod.lua".to_string(),
            downloads: 1,
            download_url: format!("https://example.test/files/{}", file_id),
        },
        main_file: file_source("/tmp/dl/mod.lua", b"print('remote')"),
        logo_file: logo.map(|(ct, data)| DownloadedLogo {
            content_type: ct.to_string(),
            data: data.to_vec(),
        }),
    }
}

#[test]
fn local_lua_install_and_remove() {
    let mut store = DiskMods::new("/tmp/install");
    let m = store
        .install_local(&file_source("/tmp/my.lua", b"print('hi')"), "my")
        .unwrap();
    assert_eq!(m.id, "my");
    assert!(m.manifest.is_none());

    let entries = store.pack_entries("my").unwrap();
    assert_eq!(entry_paths(&entries), vec!["main.lua".to_string()]);
    assert_eq!(entries[0].data, b"print('hi')".to_vec());

    let got = store.get("my").unwrap();
    assert_eq!(got.id, "my");
    assert!(got.manifest.is_none());

    store.remove("my").unwrap();
    assert!(store.list().unwrap().is_empty());

    match store.remove("my") {
        Err(Error::NotFound(id)) => assert_eq!(id, "my"),
        other => panic!("expected NotFound, got {:?}", other.is_ok()),
    }
}

#[test]
fn zip_with_shared_prefix_is_stripped() {
    let data = zip_bytes(&[("pack/foo.txt", b"foo"), ("pack/bar.txt", b"bar")]);
    let mut store = DiskMods::new("/tmp/install");
    store
        .install_local(&file_source("/tmp/pack.zip", &data), "p")
        .unwrap();
    let mut paths = entry_paths(&store.pack_entries("p").unwrap());
    paths.sort();
    assert_eq!(paths, vec!["bar.txt".to_string(), "foo.txt".to_string()]);
}

#[test]
fn zip_with_data_dir_is_not_stripped() {
    let data = zip_bytes(&[("Data/inner.txt", b"x")]);
    let mut store = DiskMods::new("/tmp/install");
    store
        .install_local(&file_source("/tmp/pack.zip", &data), "p")
        .unwrap();
    let paths = entry_paths(&store.pack_entries("p").unwrap());
    assert_eq!(paths, vec!["Data/inner.txt".to_string()]);
}

#[test]
fn zip_single_lua_is_renamed() {
    let data = zip_bytes(&[("a.txt", b"a"), ("b.lua", b"b")]);
    let mut store = DiskMods::new("/tmp/install");
    store
        .install_local(&file_source("/tmp/pack.zip", &data), "p")
        .unwrap();
    let mut paths = entry_paths(&store.pack_entries("p").unwrap());
    paths.sort();
    assert_eq!(paths, vec!["a.txt".to_string(), "main.lua".to_string()]);
}

#[test]
fn zip_with_two_luas_keeps_names() {
    let data = zip_bytes(&[("ok.lua", b"a"), ("fine.lua", b"b")]);
    let mut store = DiskMods::new("/tmp/install");
    store
        .install_local(&file_source("/tmp/multi.zip", &data), "p")
        .unwrap();
    let mut paths = entry_paths(&store.pack_entries("p").unwrap());
    paths.sort();
    assert_eq!(paths, vec!["fine.lua".to_string(), "ok.lua".to_string()]);
}

#[test]
fn zip_single_file_is_not_stripped_to_nothing() {
    let data = zip_bytes(&[("lonely.txt", b"x")]);
    let mut store = DiskMods::new("/tmp/install");
    store
        .install_local(&file_source("/tmp/single.zip", &data), "p")
        .unwrap();
    let paths = entry_paths(&store.pack_entries("p").unwrap());
    assert_eq!(paths, vec!["lonely.txt".to_string()]);
}

#[test]
fn zip_varying_prefixes_keep_layout() {
    let data = zip_bytes(&[("a/foo.txt", b"1"), ("b/bar.txt", b"2")]);
    let mut store = DiskMods::new("/tmp/install");
    store
        .install_local(&file_source("/tmp/varying.zip", &data), "p")
        .unwrap();
    let mut paths = entry_paths(&store.pack_entries("p").unwrap());
    paths.sort();
    assert_eq!(paths, vec!["a/foo.txt".to_string(), "b/bar.txt".to_string()]);
}

#[test]
fn unreadable_zip_is_a_source_error() {
    let mut store = DiskMods::new("/tmp/install");
    let res = store.install_local(&file_source("/tmp/broken.zip", b"this is no archive"), "p");
    assert!(matches!(res, Err(Error::SourceError(_))));
}

#[test]
fn missing_source_is_a_source_error() {
    let mut store = DiskMods::new("/tmp/install");
    let source = SourceFile {
        path: "/tmp/gone.lua".to_string(),
        exists: false,
        is_file: false,
        data: vec![],
    };
    assert!(matches!(
        store.install_local(&source, "p"),
        Err(Error::SourceError(_))
    ));
}

#[test]
fn double_install_reports_already_exists() {
    let mut store = DiskMods::new("/tmp/install");
    store
        .install_local(&file_source("/tmp/my.lua", b"one"), "my")
        .unwrap();
    match store.install_local(&file_source("/tmp/my.lua", b"two"), "my") {
        Err(Error::AlreadyExists(id)) => assert_eq!(id, "my"),
        other => panic!("expected AlreadyExists, got {:?}", other.is_ok()),
    }
    // The first install's payload is untouched.
    let entries = store.pack_entries("my").unwrap();
    assert_eq!(entries[0].data, b"one".to_vec());
}

#[test]
fn stray_file_entry_reports_non_directory() {
    let mut store = DiskMods::new("/tmp/install");
    store.load_pack(Pack {
        id: "odd".to_string(),
        is_dir: false,
        files: vec![],
    });
    assert!(matches!(store.get("odd"), Err(Error::NonDirectory(_))));
    // list() skips it rather than failing.
    assert!(store.list().unwrap().is_empty());
}

#[test]
fn update_preserves_save_file() {
    let mut store = DiskMods::new("/tmp/install");
    let data = zip_bytes(&[("mod/main.lua", b"v1"), ("mod/save.dat", b"progress")]);
    store
        .install_local(&file_source("/tmp/v1.zip", &data), "m")
        .unwrap();

    let updated = store
        .update_local(&file_source("/tmp/v2.lua", b"v2"), "m")
        .unwrap();
    assert_eq!(updated.id, "m");
    let mut paths = entry_paths(&store.pack_entries("m").unwrap());
    paths.sort();
    assert_eq!(paths, vec!["main.lua".to_string(), "save.dat".to_string()]);

    // A mod that never had a save file gains none.
    store
        .install_local(&file_source("/tmp/other.lua", b"x"), "n")
        .unwrap();
    store
        .update_local(&file_source("/tmp/other2.lua", b"y"), "n")
        .unwrap();
    let paths = entry_paths(&store.pack_entries("n").unwrap());
    assert_eq!(paths, vec!["main.lua".to_string()]);
}

#[test]
fn update_of_missing_mod_reports_not_found() {
    let mut store = DiskMods::new("/tmp/install");
    assert!(matches!(
        store.update_local(&file_source("/tmp/x.lua", b"x"), "nope"),
        Err(Error::NotFound(_))
    ));
}

#[test]
fn failed_update_rolls_the_old_payload_back() {
    let mut store = DiskMods::new("/tmp/install");
    store
        .install_local(&file_source("/tmp/v1.lua", b"v1"), "m")
        .unwrap();
    let res = store.update_local(
        &SourceFile {
            path: "/tmp/gone.lua".to_string(),
            exists: false,
            is_file: false,
            data: vec![],
        },
        "m",
    );
    assert!(res.is_err());
    let entries = store.pack_entries("m").unwrap();
    assert_eq!(entries[0].data, b"v1".to_vec());
}

#[test]
fn remote_install_writes_manifest_logo_and_latest() {
    let mut store = DiskMods::new("/tmp/install");
    let d = downloaded("x", Some(("image/png", b"pngbytes")), "f1");
    let m = store.install_remote(&d).unwrap();
    assert_eq!(m.id, "fyi.x");
    let manifest = m.manifest.expect("manifest");
    assert_eq!(manifest.slug, "x");
    assert_eq!(manifest.logo.as_deref(), Some("mod_logo.png"));
    assert_eq!(manifest.mod_file.id, "f1");

    let logo = store.get_mod_logo("fyi.x").unwrap();
    assert_eq!(logo.mime_type, "image/png");
    assert_eq!(logo.bytes, b"pngbytes".to_vec());

    // Polling the same catalog entry again writes nothing new.
    assert_eq!(store.update_latest_json(&api_mod("x", None, "f1")).unwrap(), None);
}

#[test]
fn unknown_logo_type_fails_the_install() {
    let mut store = DiskMods::new("/tmp/install");
    let d = downloaded("x", Some(("image/webp", b"webp")), "f1");
    assert!(matches!(
        store.install_remote(&d),
        Err(Error::UnknownError(_))
    ));
}

#[test]
fn new_version_detection_updates_only_the_pointer() {
    let mut store = DiskMods::new("/tmp/install");
    let d = downloaded("x", None, "f1");
    let installed = store.install_remote(&d).unwrap();
    let manifest_before_file_id = installed.manifest.unwrap().mod_file.id;

    // Same newest file: nothing to report.
    assert_eq!(store.update_latest_json(&api_mod("x", None, "f1")).unwrap(), None);

    // A newer file: the pointer moves and the mod's id comes back.
    let r = store.update_latest_json(&api_mod("x", None, "f2")).unwrap();
    assert_eq!(r.as_deref(), Some("fyi.x"));

    // The manifest itself is untouched.
    let after = store.get("fyi.x").unwrap().manifest.unwrap();
    assert_eq!(after.mod_file.id, manifest_before_file_id);

    // Reporting the same newest file again writes nothing.
    assert_eq!(store.update_latest_json(&api_mod("x", None, "f2")).unwrap(), None);
}

#[test]
fn missing_manifest_or_logo_is_not_found() {
    let mut store = DiskMods::new("/tmp/install");
    // No manifest at all.
    assert!(matches!(
        store.get_mod_logo("nothing"),
        Err(Error::NotFound(_))
    ));
    // A manifest that records no logo.
    store.install_remote(&downloaded("bare", None, "f1")).unwrap();
    assert!(matches!(
        store.get_mod_logo("fyi.bare"),
        Err(Error::NotFound(_))
    ));
}

#[test]
fn logo_mime_types_follow_the_extension() {
    let mut store = DiskMods::new("/tmp/install");
    let d = downloaded("j", Some(("image/jpeg", b"jpegbytes")), "f1");
    store.install_remote(&d).unwrap();
    let logo = store.get_mod_logo("fyi.j").unwrap();
    assert_eq!(logo.mime_type, "image/jpeg");
    assert_eq!(logo.bytes, b"jpegbytes".to_vec());

    let d = downloaded("g", Some(("image/gif", b"gifbytes")), "f1");
    store.install_remote(&d).unwrap();
    assert_eq!(store.get_mod_logo("fyi.g").unwrap().mime_type, "image/gif");
}

#[test]
fn zip_member_escaping_the_root_is_rejected() {
    // A member stored under an absolute name.
    let data = zip_bytes(&[("/etc/evil.txt", b"x"), ("ok.txt", b"y")]);
    let mut store = DiskMods::new("/tmp/install");
    assert!(matches!(
        store.install_local(&file_source("/tmp/abs.zip", &data), "p"),
        Err(Error::SourceError(_))
    ));
    assert!(store.get("p").is_err() || store.pack_entries("p").unwrap().is_empty());

    // A member that traverses upward out of the root.
    let data = zip_bytes(&[("up/../../evil.txt", b"x")]);
    let mut store = DiskMods::new("/tmp/install");
    assert!(matches!(
        store.install_local(&file_source("/tmp/up.zip", &data), "q"),
        Err(Error::SourceError(_))
    ));
}

#[test]
fn path_helpers_name_the_layout() {
    let store = DiskMods::new("/base");
    assert_eq!(store.mods_dir_path("m"), "/base/Mods/Packs/m");
    assert_eq!(store.manifest_dir_path("m"), "/base/Mods/Packs/.ml/m");
}
