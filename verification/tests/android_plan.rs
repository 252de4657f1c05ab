use prune::android::{AndroidPlan, AndroidProfile};
use prune::cli::{
    build_android_plan, needs_active_config, AndroidAction, AndroidCommand, CliProfile, PlanError,
};
use prune::mods::{ActiveProjectConfig, DependencyError, ModGraph, ModManifest};
use prune::workspace::WorkspacePaths;

fn plan(order: &[&str], profile: AndroidProfile, device: Option<&str>) -> AndroidPlan {
    AndroidPlan::new(
        "/repo".to_string(),
        "mad_dummy_example".to_string(),
        order.iter().map(|s| s.to_string()).collect(),
        profile,
        device.map(|d| d.to_string()),
    )
}

#[test]
fn android_plan_builds_assets_before_native_library() {
    let plan = plan(
        &["undertale_preset", "mad_dummy_example"],
        AndroidProfile::Release,
        None,
    );

    let labels: Vec<_> = plan
        .stages()
        .iter()
        .map(|stage| stage.label.as_str())
        .collect();

    assert_eq!(labels[0], "build builtin wasm");
    assert_eq!(labels[1], "build mod runtime undertale_preset");
    assert_eq!(labels[2], "build mod content undertale_preset");
    assert_eq!(labels[3], "build mod runtime mad_dummy_example");
    assert_eq!(labels[4], "build mod content mad_dummy_example");
    assert!(labels.contains(&"build android native library"));
    assert!(labels.contains(&"assemble debug apk"));
    assert!(labels.contains(&"install apk"));
    assert!(!labels.contains(&"sync builtin wasm"));
}

#[test]
fn android_plan_keeps_mod_sync_in_prune_provider_instead_of_adb_sdcard() {
    let plan = plan(
        &["undertale_preset", "mad_dummy_example"],
        AndroidProfile::Release,
        Some("DEVICE123"),
    );

    let rendered = plan.render_shell();

    assert!(!rendered.contains("/sdcard/SoupRune"));
    assert!(!rendered.contains("adb -s DEVICE123 push /repo/projects"));
    assert!(!rendered.contains("souprune_builtins.wasm /sdcard"));
}

#[test]
fn android_plan_uses_debug_native_library_for_debug_profile() {
    let plan = plan(&["mad_dummy_example"], AndroidProfile::Debug, None);

    let rendered = plan.render_shell();

    assert!(rendered.contains("/repo/target/aarch64-linux-android/debug/libsouprune.so"));
    assert!(!rendered.contains("/repo/target/aarch64-linux-android/release/libsouprune.so"));
}

#[test]
fn android_plan_does_not_request_external_storage_permissions() {
    let plan = plan(&["mad_dummy_example"], AndroidProfile::Release, Some("DEVICE123"));

    let rendered = plan.render_shell();

    assert!(!rendered.contains("MANAGE_EXTERNAL_STORAGE"));
    assert!(!rendered.contains("READ_EXTERNAL_STORAGE"));
    assert!(!rendered.contains("pm grant"));
}

#[test]
fn android_plan_prepares_android_jni_library_directory() {
    let plan = plan(&["mad_dummy_example"], AndroidProfile::Release, None);

    let rendered = plan.render_shell();

    assert!(
        rendered.contains("mkdir -p /repo/android/souprune/src/main/jniLibs/arm64-v8a"),
        "{rendered}"
    );
    assert!(!rendered.contains("/repo/android/prune/src/main/jniLibs/arm64-v8a"));
}

#[test]
fn android_plan_installs_souprune_game_debug_apk() {
    let plan = plan(&["mad_dummy_example"], AndroidProfile::Release, None);

    let rendered = plan.render_shell();

    assert!(
        rendered.contains(
            "adb install -r /repo/android/souprune/build/outputs/apk/debug/souprune-debug.apk"
        ),
        "{rendered}"
    );
    assert!(
        rendered.contains("cd /repo/android && ./gradlew :souprune:assembleDebug --no-daemon"),
        "{rendered}"
    );
    assert!(!rendered.contains("/repo/android/prune/build/outputs/apk/debug/prune-debug.apk"));
}

#[test]
fn plan_renders_every_stage_exactly() {
    let plan = plan(&["mad_dummy_example"], AndroidProfile::Debug, Some("DEVICE123"));
    let expected = [
        "# build builtin wasm",
        "cd /repo && just builtin-build",
        "# build mod runtime mad_dummy_example",
        "cd /repo && just runtime-build mad_dummy_example",
        "# build mod content mad_dummy_example",
        "cd /repo && just content-build mad_dummy_example",
        "# build android native library",
        "cd /repo && cargo build -p souprune --target aarch64-linux-android --features android",
        "# prepare android native library directory",
        "mkdir -p /repo/android/souprune/src/main/jniLibs/arm64-v8a",
        "# copy android native library",
        "cp /repo/target/aarch64-linux-android/debug/libsouprune.so /repo/android/souprune/src/main/jniLibs/arm64-v8a/libsouprune.so",
        "# assemble debug apk",
        "cd /repo/android && ./gradlew :souprune:assembleDebug --no-daemon",
        "# install apk",
        "adb -s DEVICE123 install -r /repo/android/souprune/build/outputs/apk/debug/souprune-debug.apk",
    ]
    .join("\n");
    assert_eq!(plan.render_shell(), expected);
    assert_eq!(plan.stages().len(), 8);
}

#[test]
fn release_plan_passes_release_flags() {
    let plan = plan(&["mad_dummy_example"], AndroidProfile::Release, None);
    let rendered = plan.render_shell();
    assert!(rendered.contains("cd /repo && just builtin-build-release"));
    assert!(rendered.contains("just runtime-build-release mad_dummy_example"));
    assert!(rendered.contains("just content-build-release mad_dummy_example"));
    assert!(rendered.contains("--features android --release"));
    assert!(rendered.contains("/repo/target/aarch64-linux-android/release/libsouprune.so"));
}

#[test]
fn plan_warns_when_active_mod_is_not_last() {
    let plan = plan(&["mad_dummy_example", "other"], AndroidProfile::Release, None);
    let last = plan.stages().last().unwrap();
    assert_eq!(last.label, "warn active mod not last in dependency order");
    assert_eq!(last.program, "printf");
    assert_eq!(
        last.args,
        vec!["active mod mad_dummy_example is not last in dependency order\n".to_string()]
    );
    assert!(plan
        .render_shell()
        .ends_with("printf 'active mod mad_dummy_example is not last in dependency order\n'"));
    assert_eq!(plan.stages().len(), 2 * 2 + 7);

    let empty = plan_with_order(&[]);
    assert_eq!(empty.stages().len(), 7);
}

fn plan_with_order(order: &[&str]) -> AndroidPlan {
    plan(order, AndroidProfile::Debug, None)
}

#[test]
fn plan_getters_return_inputs() {
    let plan = plan(&["a", "mad_dummy_example"], AndroidProfile::Debug, Some("SER"));
    assert_eq!(plan.root(), "/repo");
    assert_eq!(plan.mod_name(), "mad_dummy_example");
    assert_eq!(plan.mod_order(), &["a".to_string(), "mad_dummy_example".to_string()]);
    assert_eq!(plan.profile(), AndroidProfile::Debug);
    assert_eq!(plan.device(), Some("SER"));
    assert_eq!(AndroidProfile::Debug.as_str(), "debug");
    assert_eq!(AndroidProfile::Release.as_str(), "release");
    let copy = plan.clone();
    assert_eq!(copy.render_shell(), plan.render_shell());
}

fn manifest(name: &str, deps: &[&str]) -> ModManifest {
    ModManifest {
        name: name.to_string(),
        version: Some("0.1.0".to_string()),
        dependencies: deps
            .iter()
            .map(|d| (d.to_string(), "0.1.0".to_string()))
            .collect(),
        mod_library: None,
        content_library: None,
    }
}

#[test]
fn build_android_plan_orders_dependencies_first() {
    let mut graph = ModGraph::new();
    graph.insert(manifest("undertale_preset", &[]));
    graph.insert(manifest("mad_dummy_example", &["undertale_preset"]));
    let command = AndroidCommand {
        action: AndroidAction::Plan,
        mod_name: Some("mad_dummy_example".to_string()),
        device: None,
        profile: CliProfile::Debug,
    };
    let workspace = WorkspacePaths::new("/repo".to_string());
    assert!(!needs_active_config(&command));
    let plan = build_android_plan(&command, &workspace, None, &graph).expect("plan");
    assert_eq!(plan.mod_name(), "mad_dummy_example");
    assert_eq!(
        plan.mod_order(),
        &["undertale_preset".to_string(), "mad_dummy_example".to_string()]
    );
    assert_eq!(plan.profile(), AndroidProfile::Debug);
    assert_eq!(plan.root(), "/repo");

    let unknown = AndroidCommand {
        action: AndroidAction::Plan,
        mod_name: Some("nope".to_string()),
        device: None,
        profile: CliProfile::Debug,
    };
    let missing = build_android_plan(&unknown, &workspace, None, &graph);
    assert!(matches!(
        missing,
        Err(PlanError::Dependency(DependencyError::Unknown(name))) if name == "nope"
    ));
}

fn config(name: &str) -> ActiveProjectConfig {
    ActiveProjectConfig { mod_name: name.to_string(), language: None }
}

#[test]
fn build_android_plan_mod_flag_overrides_config() {
    let mut graph = ModGraph::new();
    graph.insert(manifest("undertale_preset", &[]));
    graph.insert(manifest("mad_dummy_example", &["undertale_preset"]));
    let command = AndroidCommand {
        action: AndroidAction::Deploy,
        mod_name: Some("undertale_preset".to_string()),
        device: Some("emulator-5554".to_string()),
        profile: CliProfile::Release,
    };
    let workspace = WorkspacePaths::new("/repo".to_string());
    let plan = build_android_plan(&command, &workspace, Some(config("mad_dummy_example")), &graph)
        .expect("plan");
    assert_eq!(plan.mod_name(), "undertale_preset");
    assert_eq!(plan.mod_order(), &["undertale_preset".to_string()]);
    assert_eq!(plan.device(), Some("emulator-5554"));
}

#[test]
fn build_android_plan_uses_active_config_without_flag() {
    let mut graph = ModGraph::new();
    graph.insert(manifest("undertale_preset", &[]));
    graph.insert(manifest("mad_dummy_example", &["undertale_preset"]));
    let command = AndroidCommand {
        action: AndroidAction::Plan,
        mod_name: None,
        device: None,
        profile: CliProfile::Release,
    };
    let workspace = WorkspacePaths::new("/repo".to_string());
    assert!(needs_active_config(&command));
    let plan = build_android_plan(&command, &workspace, Some(config("mad_dummy_example")), &graph)
        .expect("plan");
    assert_eq!(plan.mod_name(), "mad_dummy_example");
    assert_eq!(
        plan.mod_order(),
        &["undertale_preset".to_string(), "mad_dummy_example".to_string()]
    );
    assert_eq!(plan.profile(), AndroidProfile::Release);

    let none = build_android_plan(&command, &workspace, None, &graph);
    assert!(matches!(none, Err(PlanError::NoActiveMod)));
    assert_eq!(
        PlanError::NoActiveMod.message(),
        "no active mod: pass --mod or set project.mod_name in projects/config.toml"
    );
}
