//! Layout of a SoupRune workspace on disk.

use vstd::prelude::*;

use crate::text::{join_path, path_join};

verus! {

/// `<root>/projects`
pub open spec fn spec_projects_dir(root: Seq<char>) -> Seq<char> {
    path_join(root, "projects"@)
}

/// `<root>/android`
pub open spec fn spec_android_dir(root: Seq<char>) -> Seq<char> {
    path_join(root, "android"@)
}

/// `<root>/assets/builtins/souprune_builtins.wasm`
pub open spec fn spec_builtin_wasm(root: Seq<char>) -> Seq<char> {
    path_join(path_join(path_join(root, "assets"@), "builtins"@), "souprune_builtins.wasm"@)
}

/// `<root>/android/souprune/build/outputs/apk/debug/souprune-debug.apk`
pub open spec fn spec_apk_path(root: Seq<char>) -> Seq<char> {
    path_join(
        path_join(
            path_join(
                path_join(
                    path_join(path_join(spec_android_dir(root), "souprune"@), "build"@),
                    "outputs"@,
                ),
                "apk"@,
            ),
            "debug"@,
        ),
        "souprune-debug.apk"@,
    )
}

/// The root directory of a SoupRune checkout and the paths derived from it.
#[derive(Clone, Debug, PartialEq, Eq)]
pub struct WorkspacePaths {
    root: String,
}

impl View for WorkspacePaths {
    type V = Seq<char>;

    closed spec fn view(&self) -> Seq<char> {
        self.root@
    }
}

/// Builds the debug APK path under `root` (shared with the server).
pub fn apk_path_under(root: &str) -> (path: String)
    ensures
        path@ == spec_apk_path(root@),
{
    let android = join_path(root, "android");
    let p = join_path(android.as_str(), "souprune");
    let p = join_path(p.as_str(), "build");
    let p = join_path(p.as_str(), "outputs");
    let p = join_path(p.as_str(), "apk");
    let p = join_path(p.as_str(), "debug");
    join_path(p.as_str(), "souprune-debug.apk")
}

impl WorkspacePaths {
    pub fn new(root: String) -> (paths: Self)
        ensures
            paths@ == root@,
    {
        WorkspacePaths { root }
    }

    pub fn root(&self) -> (root: &str)
        ensures
            root@ == self@,
    {
        self.root.as_str()
    }

    pub fn projects_dir(&self) -> (dir: String)
        ensures
            dir@ == spec_projects_dir(self@),
    {
        join_path(self.root.as_str(), "projects")
    }

    pub fn android_dir(&self) -> (dir: String)
        ensures
            dir@ == spec_android_dir(self@),
    {
        join_path(self.root.as_str(), "android")
    }

    pub fn builtin_wasm(&self) -> (path: String)
        ensures
            path@ == spec_builtin_wasm(self@),
    {
        let assets = join_path(self.root.as_str(), "assets");
        let builtins = join_path(assets.as_str(), "builtins");
        join_path(builtins.as_str(), "souprune_builtins.wasm")
    }

    pub fn apk_path(&self) -> (path: String)
        ensures
            path@ == spec_apk_path(self@),
    {
        apk_path_under(self.root.as_str())
    }
}

} // verus!
