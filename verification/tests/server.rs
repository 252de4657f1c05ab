use prune::mods::{ActiveProjectConfig, DependencyError, ModGraph, ModLibrary, ModManifest};
use prune::server::bundle::{archive_path, bundle_entries, bundle_prefix};
use prune::server::events::{EventLog, MAX_SERVER_EVENTS};
use prune::server::jobs::{build_outcome, parse_build_progress, BuildRegistry, BUILD_PROGRESS_TOTAL};
use prune::server::{
    is_authorized, latest_apk_path, mods_snapshot, resolve_build_script, server_info, should_skip,
    BuildStatus, ServerConfig,
};
use prune::text::decimal_string;

fn config() -> ServerConfig {
    ServerConfig {
        host: "127.0.0.1".to_string(),
        port: 8788,
        repo_root: "/repo".to_string(),
        token: "test-token".to_string(),
        build_script: "android/build.sh".to_string(),
    }
}

#[test]
fn latest_apk_path_points_at_souprune_game_apk() {
    let path = latest_apk_path("/repo");
    assert_eq!(
        path,
        "/repo/android/souprune/build/outputs/apk/debug/souprune-debug.apk"
    );
}

#[test]
fn build_output_lines_update_stage_progress() {
    let mut builds = BuildRegistry::new();
    let id = builds.queue();
    assert_eq!(id, 1);
    builds.set_status(id, BuildStatus::Running, None, None, String::new());

    let event = builds.append_output_line(id, "▶ [2/3] 复制 .so 到 jniLibs...");
    let snapshot = builds.snapshot(id).expect("snapshot");

    assert_eq!(snapshot.progress_current, 4);
    assert_eq!(snapshot.progress_total, BUILD_PROGRESS_TOTAL);
    assert_eq!(snapshot.progress_message, "copy native libraries");
    assert!(snapshot.log.contains("jniLibs"));
    assert_eq!(
        event.as_deref(),
        Some("build #1 progress 4/6 copy native libraries")
    );
}

#[test]
fn server_state_records_runtime_events_for_info() {
    let mut events = EventLog::new();
    events.record(5, "health requested".to_string());
    let info = server_info(&config(), None, 0, false, events.recent());

    assert!(info
        .recent_events
        .iter()
        .any(|event| event.message == "health requested"));
    assert_eq!(info.build_script, "/repo/android/build.sh");
    assert_eq!(
        info.latest_apk_path,
        "/repo/android/souprune/build/outputs/apk/debug/souprune-debug.apk"
    );
    assert_eq!(info.active_mod, None);
    assert_eq!(info.mod_count, None);
}

#[test]
fn event_log_keeps_the_latest_events() {
    let mut events = EventLog::new();
    for i in 0..(MAX_SERVER_EVENTS as u64 + 5) {
        events.record(i, format!("event {i}"));
    }
    let recent = events.recent();
    assert_eq!(recent.len(), MAX_SERVER_EVENTS);
    assert_eq!(events.len(), MAX_SERVER_EVENTS);
    assert_eq!(recent[0].message, "event 5");
    assert_eq!(recent[0].timestamp_unix_secs, 5);
    assert_eq!(recent.last().unwrap().message, format!("event {}", MAX_SERVER_EVENTS + 4));
}

#[test]
fn authorization_requires_the_exact_bearer_token() {
    assert!(is_authorized("test-token", Some("Bearer test-token")));
    assert!(!is_authorized("test-token", Some("Bearer other")));
    assert!(!is_authorized("test-token", Some("bearer test-token")));
    assert!(!is_authorized("test-token", None));
}

#[test]
fn build_script_is_resolved_under_the_repository() {
    assert_eq!(resolve_build_script(&config()), "/repo/android/build.sh");
    let mut absolute = config();
    absolute.build_script = "/opt/build.sh".to_string();
    assert_eq!(resolve_build_script(&absolute), "/opt/build.sh");
}

#[test]
fn build_progress_markers() {
    assert_eq!(
        parse_build_progress("== [assets] =="),
        Some((1, 6, "prepare assets"))
    );
    assert_eq!(
        parse_build_progress("▶ [1/3] cargo"),
        Some((2, 6, "build native library"))
    );
    assert_eq!(parse_build_progress("[3/3] gradle"), Some((6, 6, "build APK")));
    assert_eq!(parse_build_progress("✅ APK 构建成功"), Some((6, 6, "build APK")));
    assert_eq!(parse_build_progress("APK build done"), Some((6, 6, "build APK")));
    assert_eq!(parse_build_progress("compiling"), None);
}

#[test]
fn build_jobs_follow_their_lifecycle() {
    let mut builds = BuildRegistry::new();
    assert_eq!(builds.len(), 0);
    let first = builds.queue();
    let second = builds.queue();
    assert_eq!((first, second), (1, 2));
    assert_eq!(builds.len(), 2);

    let queued = builds.snapshot(second).unwrap();
    assert_eq!(queued.status, BuildStatus::Queued);
    assert_eq!(queued.progress_message, "queued");
    assert_eq!((queued.progress_current, queued.progress_total), (0, 6));

    builds.set_progress(first, 9, 6, "running".to_string());
    assert_eq!(builds.snapshot(first).unwrap().progress_current, 6);
    assert_eq!(builds.append_output_line(first, "plain output"), None);
    builds.set_status(first, BuildStatus::Running, None, None, "fresh log\n".to_string());
    assert_eq!(builds.snapshot(first).unwrap().log, "fresh log\n");

    builds.finish(first, BuildStatus::Succeeded, Some(0), "/repo");
    let done = builds.snapshot(first).unwrap();
    assert_eq!(done.status, BuildStatus::Succeeded);
    assert_eq!(done.exit_code, Some(0));
    assert_eq!(
        done.apk_path.as_deref(),
        Some("/repo/android/souprune/build/outputs/apk/debug/souprune-debug.apk")
    );
    assert_eq!(done.progress_message, "build succeeded");

    builds.finish(second, BuildStatus::Failed, Some(2), "/repo");
    let failed = builds.snapshot(second).unwrap();
    assert_eq!(failed.apk_path, None);
    assert_eq!(failed.progress_message, "build failed");

    assert!(builds.snapshot(99).is_none());
    assert_eq!(builds.append_output_line(99, "[1/3]"), None);
}

#[test]
fn build_outcome_fails_on_reader_failure() {
    assert_eq!(build_outcome(Some((true, Some(0))), false), (BuildStatus::Succeeded, Some(0)));
    assert_eq!(build_outcome(Some((false, Some(1))), false), (BuildStatus::Failed, Some(1)));
    assert_eq!(build_outcome(Some((true, Some(0))), true), (BuildStatus::Failed, Some(0)));
    assert_eq!(build_outcome(None, false), (BuildStatus::Failed, None));
}

#[test]
fn decimal_numbers() {
    assert_eq!(decimal_string(0), "0");
    assert_eq!(decimal_string(1234567890), "1234567890");
    assert_eq!(decimal_string(u64::MAX), u64::MAX.to_string());
}

#[test]
fn bundle_skips_git_build_and_target() {
    assert!(should_skip("mad_dummy_example/.git/config"));
    assert!(should_skip(".build/x"));
    assert!(should_skip("/root/target"));
    assert!(!should_skip("mad_dummy_example/assets/readme.txt"));
    assert!(!should_skip("mad_dummy_example/.gitignore"));
    assert!(!should_skip("targets/x"));
}

#[test]
fn bundle_names_entries_under_the_projects_directory_name() {
    assert_eq!(bundle_prefix("/tmp/x/projects"), "projects");
    assert_eq!(bundle_prefix("/tmp/x/mods/"), "mods");
    assert_eq!(bundle_prefix("/tmp/x/mods/."), "mods");
    assert_eq!(bundle_prefix("/"), "projects");
    assert_eq!(bundle_prefix("/a/.."), "projects");
    assert_eq!(
        archive_path("projects", "mad_dummy_example/mod.toml"),
        "projects/mad_dummy_example/mod.toml"
    );
}

#[test]
fn mods_snapshot_lists_load_order_and_mods() {
    let mut graph = ModGraph::new();
    graph.insert(ModManifest {
        name: "undertale_preset".to_string(),
        version: Some("0.1.0".to_string()),
        dependencies: Vec::new(),
        mod_library: Some(ModLibrary {
            wasm: ".build/runtime.wasm".to_string(),
        }),
        content_library: None,
    });
    graph.insert(ModManifest {
        name: "mad_dummy_example".to_string(),
        version: None,
        dependencies: vec![("undertale_preset".to_string(), "0.1.0".to_string())],
        mod_library: None,
        content_library: None,
    });
    let active = ActiveProjectConfig {
        mod_name: "mad_dummy_example".to_string(),
        language: Some("en-US".to_string()),
    };
    let snapshot = mods_snapshot("/repo/projects", active, &graph).expect("snapshot");
    assert_eq!(snapshot.repository_root, "/repo/projects");
    assert_eq!(snapshot.active_mod, "mad_dummy_example");
    assert_eq!(snapshot.active_language.as_deref(), Some("en-US"));
    assert_eq!(snapshot.load_order, vec!["undertale_preset", "mad_dummy_example"]);
    assert_eq!(snapshot.mods.len(), 2);
    assert_eq!(snapshot.mods[0].name, "mad_dummy_example");
    assert_eq!(snapshot.mods[0].dependencies, vec!["undertale_preset"]);
    assert_eq!(snapshot.mods[1].runtime_wasm.as_deref(), Some(".build/runtime.wasm"));

    let info = server_info(&config(), Some(&snapshot), 3, true, Vec::new());
    assert_eq!(info.active_mod.as_deref(), Some("mad_dummy_example"));
    assert_eq!(info.mod_count, Some(2));
    assert_eq!(info.build_count, 3);
    assert!(info.latest_apk_exists);

    let broken = ActiveProjectConfig {
        mod_name: "ghost".to_string(),
        language: None,
    };
    assert!(matches!(
        mods_snapshot("/repo/projects", broken, &graph),
        Err(DependencyError::Unknown(name)) if name == "ghost"
    ));
}

#[test]
fn bundle_entries_keep_listed_files_outside_skipped_directories() {
    let files: Vec<String> = [
        "mad_dummy_example/mod.toml",
        "mad_dummy_example/.git/HEAD",
        "mad_dummy_example/target/debug/x.wasm",
        ".build/runtime.wasm",
        "mad_dummy_example/.gitignore",
        "config.toml",
    ]
    .iter()
    .map(|s| s.to_string())
    .collect();
    let entries = bundle_entries("/work/souprune/projects", &files);
    assert_eq!(
        entries,
        vec![
            (
                "projects/mad_dummy_example/mod.toml".to_string(),
                "mad_dummy_example/mod.toml".to_string()
            ),
            (
                "projects/mad_dummy_example/.gitignore".to_string(),
                "mad_dummy_example/.gitignore".to_string()
            ),
            ("projects/config.toml".to_string(), "config.toml".to_string()),
        ]
    );
    assert!(bundle_entries("/repo/target/projects", &files).is_empty());
    assert!(bundle_entries("/repo/projects", &Vec::new()).is_empty());
}
