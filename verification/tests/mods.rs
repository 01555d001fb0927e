use ml2_mods::backoff::{AsBackoffKind, BackoffKind, RetryDecision, RetryPolicy};
use ml2_mods::cache::ModCache;
use ml2_mods::data::{Change, DetectedChange, DownloadProgress, ModProgress, ModSource};
use ml2_mods::id_for_remote;
use ml2_mods::manager::{Command, CommandOutcome, DownloadThrottle, ModManager};
use ml2_mods::remote::{
    choose_mod_file, status_is_success, DownloadTracker, DownloadedLogo, DownloadedMod,
    Mod as ApiMod, ModFile, SourceFile, User,
};
use ml2_mods::store::DiskMods;
use ml2_mods::ws::{
    announce_message, handle_message, install_result_message, is_likely_bad_token, ws_path,
    ws_scheme, ChannelMessage, ConnectionError, MessageData, PingAction, PingState, WsDecision,
};

fn file_source(path: &str, data: &[u8]) -> SourceFile {
    SourceFile {
        path: path.to_string(),
        exists: true,
        is_file: true,
        data: data.to_vec(),
    }
}

fn api_mod(slug: &str, file_id: &str) -> ApiMod {
    ApiMod {
        name: format!("The {} mod", slug),
        slug: slug.to_string(),
        self_url: format!("https://example.test/mods/{}", slug),
        submitter: User {
            username: "someone".to_string(),
        },
        collaborators: vec![],
        description: "a mod".to_string(),
        mod_type: 0,
        game: 0,
        logo: None,
        details: String::new(),
        comments_allowed: true,
        is_listed: true,
        adult_content: false,
        mod_files: vec![ModFile {
            id: file_id.to_string(),
            created_at: "2021-01-01T00:00:00Z".to_string(),
            filename: "mod.lua".to_string(),
            downloads: 1,
            download_url: format!("https://example.test/files/{}", file_id),
        }],
    }
}

fn downloaded(slug: &str, file_id: &str) -> DownloadedMod {
    DownloadedMod {
        api_mod: api_mod(slug, file_id),
        mod_file: ModFile {
            id: file_id.to_string(),
            created_at: "2021-01-01T00:00:00Z".to_string(),
            filename: "mod.lua".to_string(),
            downloads: 1,
            download_url: format!("https://example.test/files/{}", file_id),
        },
        main_file: file_source("/tmp/dl/mod.lua", b"print('remote')"),
        logo_file: None,
    }
}

fn new_cache() -> ModCache {
    ModCache::new(true, 3_600_000, 10_000, DiskMods::new("/tmp/install"), 15_000)
}

#[test]
fn cache_scan_converges_and_reports_each_change_once() {
    // A store with two mods the map has never seen.
    let mut disk = DiskMods::new("/tmp/install");
    disk.install_local(&file_source("/tmp/a.lua", b"a"), "a")
        .unwrap();
    disk.install_local(&file_source("/tmp/b.lua", b"b"), "b")
        .unwrap();
    let mut cache = ModCache::new(false, 3_600_000, 10_000, disk, 15_000);
    cache.local_scan();
    let events = cache.take_events();
    assert_eq!(events.len(), 2);
    assert!(events
        .iter()
        .all(|e| matches!(e, DetectedChange::Added { .. })));
    let listed = cache.list().unwrap();
    assert_eq!(listed.len(), 2);

    // Nothing changed: a second scan reports nothing.
    cache.local_scan();
    assert!(cache.take_events().is_empty());

    // The directory of "a" disappears behind the cache's back.
    let mut disk2 = DiskMods::new("/tmp/install");
    disk2
        .install_local(&file_source("/tmp/b.lua", b"b"), "b")
        .unwrap();
    cache.reload_store(disk2);
    cache.local_scan();
    let events = cache.take_events();
    assert_eq!(events.len(), 1);
    match &events[0] {
        DetectedChange::Removed { id } => assert_eq!(id, "a"),
        _ => panic!("expected a removal"),
    }
    let listed = cache.list().unwrap();
    assert_eq!(listed.len(), 1);
    assert_eq!(listed[0].id, "b");
}

#[test]
fn cache_populate_and_passthrough_events() {
    let mut cache = new_cache();
    cache.populate_cache();
    assert!(cache.list().unwrap().is_empty());

    cache
        .install_local(&file_source("/tmp/m.lua", b"m"), "m")
        .unwrap();
    let events = cache.take_events();
    assert_eq!(events.len(), 1);
    assert!(matches!(&events[0], DetectedChange::Added { installed } if installed.id == "m"));

    cache
        .update_local(&file_source("/tmp/m2.lua", b"m2"), "m")
        .unwrap();
    let events = cache.take_events();
    assert_eq!(events.len(), 1);
    assert!(matches!(&events[0], DetectedChange::Updated { installed } if installed.id == "m"));

    cache.remove("m").unwrap();
    let events = cache.take_events();
    assert_eq!(events.len(), 1);
    assert!(matches!(&events[0], DetectedChange::Removed { id } if id == "m"));
    assert!(cache.get("m").is_err());
}

#[test]
fn cache_new_version_event_comes_from_the_pointer() {
    let mut cache = new_cache();
    cache.install_remote(&downloaded("x", "f1")).unwrap();
    cache.take_events();

    assert_eq!(cache.update_latest_json(&api_mod("x", "f1")).unwrap(), None);
    assert!(cache.take_events().is_empty());

    let r = cache.update_latest_json(&api_mod("x", "f2")).unwrap();
    assert_eq!(r.as_deref(), Some("fyi.x"));
    let events = cache.take_events();
    assert_eq!(events.len(), 1);
    assert!(matches!(&events[0], DetectedChange::NewVersion { id } if id == "fyi.x"));
}

#[test]
fn cache_fetch_list_names_manifest_mods_only() {
    let mut cache = new_cache();
    cache.install_remote(&downloaded("x", "f1")).unwrap();
    cache
        .install_local(&file_source("/tmp/l.lua", b"l"), "local-one")
        .unwrap();
    assert_eq!(cache.list_mods_to_fetch(), vec!["x".to_string()]);

    let mut no_api = ModCache::new(false, 3_600_000, 10_000, DiskMods::new("/t"), 15_000);
    no_api
        .install_remote(&downloaded("x", "f1"))
        .unwrap();
    assert!(no_api.list_mods_to_fetch().is_empty());
}

#[test]
fn manager_serves_commands_and_lifts_events() {
    let mut mgr = ModManager::new(true, new_cache(), 20);
    match mgr.handle_command(
        &Command::Install {
            package: ModSource::Local {
                source_path: "/tmp/m.lua".to_string(),
                dest_id: "m".to_string(),
            },
        },
        Some(&file_source("/tmp/m.lua", b"m")),
    ) {
        CommandOutcome::Done(Ok(m)) => assert_eq!(m.id, "m"),
        _ => panic!("install failed"),
    }
    match mgr.handle_command(&Command::Get { id: "m".to_string() }, None) {
        CommandOutcome::Got(Ok(m)) => assert_eq!(m.id, "m"),
        _ => panic!("get failed"),
    }
    match mgr.handle_command(&Command::List, None) {
        CommandOutcome::Listed(Ok(ms)) => assert_eq!(ms.len(), 1),
        _ => panic!("list failed"),
    }
    let changes = mgr.take_changes();
    assert_eq!(changes.len(), 2);
    assert!(matches!(
        &changes[0],
        Change::Add { progress: ModProgress::Started { id } } if id == "m"
    ));
    assert!(matches!(
        &changes[1],
        Change::Add { progress: ModProgress::Finished { installed } } if installed.id == "m"
    ));

    // The cache's own detected change is lifted to a finished Add.
    mgr.pump_detected();
    let changes = mgr.take_changes();
    assert_eq!(changes.len(), 1);
    assert!(matches!(
        &changes[0],
        Change::Add { progress: ModProgress::Finished { installed } } if installed.id == "m"
    ));

    match mgr.handle_command(&Command::Remove { id: "m".to_string() }, None) {
        CommandOutcome::Removed(Ok(())) => {},
        _ => panic!("remove failed"),
    }
    let changes = mgr.take_changes();
    assert_eq!(changes.len(), 1);
    assert!(matches!(&changes[0], Change::Remove { id } if id == "m"));
}

#[test]
fn remote_install_flow_orders_progress_events() {
    let mut mgr = ModManager::new(true, new_cache(), 20);
    let flow = match mgr.handle_command(
        &Command::Install {
            package: ModSource::Remote { code: "x".to_string() },
        },
        None,
    ) {
        CommandOutcome::NeedsRemote { flow } => flow,
        _ => panic!("expected a remote flow"),
    };
    assert!(mgr.api_ready().is_ok());
    assert_eq!(flow.id, "fyi.x");

    // The driving loop reports download progress through the throttle.
    let mut flow = flow;
    let emit = flow.throttle.on_main_changed(DownloadProgress::Started);
    mgr.publish_download_progress(&flow, emit);
    let emit = flow.throttle.on_main_changed(DownloadProgress::Receiving {
        expected_bytes: Some(100),
        received_bytes: 10,
    });
    assert!(emit.is_none());
    mgr.publish_download_progress(&flow, emit);
    let emit = flow.throttle.on_tick();
    assert!(emit.is_some());
    mgr.publish_download_progress(&flow, emit);
    // Quiet interval: the tick has nothing to release.
    assert!(flow.throttle.on_tick().is_none());

    let m = mgr.finish_remote(flow, &downloaded("x", "f1")).unwrap();
    assert_eq!(m.id, "fyi.x");
    assert_eq!(m.manifest.as_ref().unwrap().mod_file.id, "f1");

    let changes = mgr.take_changes();
    assert!(changes.len() >= 4);
    assert!(matches!(
        &changes[0],
        Change::Add { progress: ModProgress::Started { id } } if id == "fyi.x"
    ));
    for c in &changes[1..changes.len() - 1] {
        assert!(matches!(
            c,
            Change::Add { progress: ModProgress::Downloading { .. } }
        ));
    }
    assert!(matches!(
        &changes[changes.len() - 2],
        Change::Add {
            progress: ModProgress::Downloading {
                main_file: DownloadProgress::Finished,
                logo_file: DownloadProgress::Finished,
                ..
            }
        }
    ));
    assert!(matches!(
        &changes[changes.len() - 1],
        Change::Add { progress: ModProgress::Finished { installed } } if installed.id == "fyi.x"
    ));
}

#[test]
fn concurrent_installs_of_one_id_yield_one_success() {
    let mut mgr = ModManager::new(true, new_cache(), 20);
    let first = mgr.handle_command(
        &Command::Install {
            package: ModSource::Local {
                source_path: "/tmp/m.lua".to_string(),
                dest_id: "m".to_string(),
            },
        },
        Some(&file_source("/tmp/m.lua", b"one")),
    );
    let second = mgr.handle_command(
        &Command::Install {
            package: ModSource::Local {
                source_path: "/tmp/m.lua".to_string(),
                dest_id: "m".to_string(),
            },
        },
        Some(&file_source("/tmp/m.lua", b"two")),
    );
    assert!(matches!(first, CommandOutcome::Done(Ok(_))));
    match second {
        CommandOutcome::Done(Err(e)) => {
            let reported = ml2_mods::data::ManagerError::from_error(&e);
            assert!(matches!(
                reported,
                ml2_mods::data::ManagerError::ModExistsError(_)
            ));
        },
        _ => panic!("second install must fail"),
    }
}

#[test]
fn download_tracker_counts_received_bytes() {
    let mut t = DownloadTracker::new(Some(100));
    match t.on_chunk(30) {
        DownloadProgress::Receiving {
            expected_bytes,
            received_bytes,
        } => {
            assert_eq!(expected_bytes, Some(100));
            assert_eq!(received_bytes, 30);
        },
        _ => panic!("expected Receiving"),
    }
    match t.on_chunk(50) {
        DownloadProgress::Receiving { received_bytes, .. } => assert_eq!(received_bytes, 80),
        _ => panic!("expected Receiving"),
    }
}

#[test]
fn choose_mod_file_takes_the_newest() {
    let api = api_mod("x", "f9");
    assert_eq!(choose_mod_file(&api).unwrap().id, "f9");
    let mut empty = api_mod("x", "f9");
    empty.mod_files.clear();
    assert!(choose_mod_file(&empty).is_none());
}

#[test]
fn status_codes_classify() {
    assert!(status_is_success(200));
    assert!(status_is_success(204));
    assert!(!status_is_success(301));
    assert!(!status_is_success(404));
    assert!(!status_is_success(500));
}

#[test]
fn id_for_remote_prefixes_the_slug() {
    assert_eq!(id_for_remote("spring-pack"), "fyi.spring-pack");
}

#[test]
fn ws_messages_follow_the_protocol() {
    let hello = ChannelMessage {
        action: "hello".to_string(),
        channel_name: "chan-7".to_string(),
        data: None,
    };
    match handle_message(&hello) {
        WsDecision::Announce { channel_name } => assert_eq!(channel_name, "chan-7"),
        _ => panic!("greeting must be announced"),
    }
    let reply = announce_message("chan-7".to_string());
    assert_eq!(reply.action, "announce");
    assert_eq!(reply.channel_name, "chan-7");

    let install = ChannelMessage {
        action: "install".to_string(),
        channel_name: "chan-7".to_string(),
        data: Some(MessageData {
            install_code: "x".to_string(),
            mod_file_id: "f1".to_string(),
        }),
    };
    match handle_message(&install) {
        WsDecision::StartInstall { code, .. } => assert_eq!(code, "x"),
        _ => panic!("install must start"),
    }

    let no_data = ChannelMessage {
        action: "install".to_string(),
        channel_name: "chan-7".to_string(),
        data: None,
    };
    assert!(matches!(handle_message(&no_data), WsDecision::Nothing));

    let parting = ChannelMessage {
        action: "web-disconnected".to_string(),
        channel_name: "chan-7".to_string(),
        data: None,
    };
    assert!(matches!(handle_message(&parting), WsDecision::Nothing));

    assert_eq!(
        install_result_message("chan-7", true).unwrap().action,
        "install-complete"
    );
    assert!(install_result_message("chan-7", false).is_none());
}

#[test]
fn pong_timeout_triggers_reconnect_and_backoff_resets() {
    // A server that never answers pings: the first timer sends the
    // ping, the second gives up the connection.
    let mut ping = PingState::new();
    assert_eq!(ping.on_timer(), PingAction::SendPing);
    assert_eq!(ping.on_timer(), PingAction::Reconnect);

    // The pong-timeout reconnect resets the backoff schedule.
    let mut policy = RetryPolicy::new(500, 60_000);
    assert_eq!(
        policy.wait_to_retry(Some(BackoffKind::Transient)),
        RetryDecision::SleepMs(500)
    );
    assert_eq!(
        policy.wait_to_retry(Some(BackoffKind::Transient)),
        RetryDecision::SleepMs(750)
    );
    assert_eq!(
        policy.wait_to_retry(Some(BackoffKind::Restart)),
        RetryDecision::SleepMs(0)
    );
    assert_eq!(
        policy.wait_to_retry(Some(BackoffKind::Transient)),
        RetryDecision::SleepMs(500)
    );
    assert_eq!(
        policy.wait_to_retry(Some(BackoffKind::Permanent)),
        RetryDecision::Stop
    );

    // A pong keeps the connection alive.
    let mut ping = PingState::new();
    assert_eq!(ping.on_timer(), PingAction::SendPing);
    ping.on_pong();
    assert_eq!(ping.on_timer(), PingAction::SendPing);
}

#[test]
fn connection_errors_classify_for_backoff() {
    assert_eq!(
        ConnectionError::WsHttpStatus(429).as_backoff_kind(),
        BackoffKind::Transient
    );
    assert_eq!(
        ConnectionError::WsHttpStatus(503).as_backoff_kind(),
        BackoffKind::Transient
    );
    assert_eq!(
        ConnectionError::WsHttpStatus(403).as_backoff_kind(),
        BackoffKind::Permanent
    );
    assert_eq!(ConnectionError::WsIo.as_backoff_kind(), BackoffKind::Transient);
    assert_eq!(ConnectionError::Json.as_backoff_kind(), BackoffKind::Permanent);
    assert!(is_likely_bad_token(&ConnectionError::WsHttpStatus(403)));
    assert!(!is_likely_bad_token(&ConnectionError::WsHttpStatus(429)));
}

#[test]
fn gateway_url_derivation() {
    assert_eq!(ws_scheme("http").as_deref(), Some("ws"));
    assert_eq!(ws_scheme("https").as_deref(), Some("wss"));
    assert_eq!(ws_scheme("ws").as_deref(), Some("ws"));
    assert_eq!(ws_scheme("wss").as_deref(), Some("wss"));
    assert!(ws_scheme("ftp").is_none());
    assert_eq!(ws_path("/"), "/ws/gateway/ml/");
    assert_eq!(ws_path("/base"), "/base/ws/gateway/ml/");
}

#[test]
fn throttle_defers_only_receiving_reports() {
    let mut t = DownloadThrottle::new();
    assert!(t
        .on_main_changed(DownloadProgress::Started)
        .is_some());
    assert!(t
        .on_main_changed(DownloadProgress::Receiving {
            expected_bytes: None,
            received_bytes: 1,
        })
        .is_none());
    assert!(t
        .on_logo_changed(DownloadProgress::Receiving {
            expected_bytes: None,
            received_bytes: 2,
        })
        .is_none());
    let released = t.on_tick().expect("deferred report");
    assert!(matches!(released.0, DownloadProgress::Receiving { .. }));
    assert!(matches!(released.1, DownloadProgress::Receiving { .. }));
    assert!(t.on_tick().is_none());
    // Leaving the receiving state flushes at once.
    assert!(t.on_main_changed(DownloadProgress::Finished).is_some());
}
