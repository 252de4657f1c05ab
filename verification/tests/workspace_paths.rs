use prune::text::join_path;
use prune::workspace::WorkspacePaths;

#[test]
fn workspace_apk_path_points_at_souprune_game_debug_apk() {
    let workspace = WorkspacePaths::new("/repo".to_string());

    assert_eq!(
        workspace.apk_path(),
        "/repo/android/souprune/build/outputs/apk/debug/souprune-debug.apk"
    );
}

#[test]
fn workspace_paths_sit_under_the_root() {
    let workspace = WorkspacePaths::new("/repo".to_string());
    assert_eq!(workspace.root(), "/repo");
    assert_eq!(workspace.projects_dir(), "/repo/projects");
    assert_eq!(workspace.android_dir(), "/repo/android");
    assert_eq!(
        workspace.builtin_wasm(),
        "/repo/assets/builtins/souprune_builtins.wasm"
    );
    let trailing = WorkspacePaths::new("/repo/".to_string());
    assert_eq!(trailing.projects_dir(), "/repo/projects");
    let relative = WorkspacePaths::new(String::new());
    assert_eq!(relative.android_dir(), "android");
}

#[test]
fn join_path_follows_path_join() {
    assert_eq!(join_path("/a", "b"), "/a/b");
    assert_eq!(join_path("/a/", "b"), "/a/b");
    assert_eq!(join_path("/a", "/b"), "/b");
    assert_eq!(join_path("", "b"), "b");
    assert_eq!(join_path("a", ""), "a/");
    for (base, part) in [("/a", "b"), ("/a/", "b/c"), ("x", "/y"), ("", "z")] {
        assert_eq!(
            join_path(base, part),
            std::path::Path::new(base).join(part).display().to_string()
        );
    }
}
