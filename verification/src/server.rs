//! State and answers of the HTTP API server used by Android prune clients:
//! authorization, the mods snapshot, the server info, the bounded event log,
//! and the registry of build jobs with their progress.

use vstd::prelude::*;
use vstd::string::*;

use crate::mods::{
    dependency_names, issue_of, spec_dependency_order, ActiveProjectConfig, DependencyError,
    ModGraph, ModManifest,
};
use crate::text::{copy_strings, join_path, path_join};
use crate::workspace::{apk_path_under, spec_apk_path};

pub mod jobs;
pub mod bundle;
pub mod events;

pub use bundle::should_skip;

verus! {

/// Where the server listens, which repository it serves, the bearer token
/// it expects, and the build script it runs.
#[derive(Clone, Debug)]
pub struct ServerConfig {
    pub host: String,
    pub port: u16,
    pub repo_root: String,
    pub token: String,
    pub build_script: String,
}

/// `GET /api/mods`: the active mod, its load order, and every mod found.
#[derive(Clone, Debug)]
pub struct ModsSnapshot {
    pub repository_root: String,
    pub active_mod: String,
    pub active_language: Option<String>,
    pub load_order: Vec<String>,
    pub mods: Vec<ModSnapshot>,
}

/// One mod of a [`ModsSnapshot`].
#[derive(Clone, Debug)]
pub struct ModSnapshot {
    pub name: String,
    pub version: Option<String>,
    pub dependencies: Vec<String>,
    pub runtime_wasm: Option<String>,
    pub content_wasm: Option<String>,
}

/// The state of one build job as the API reports it.
#[derive(Clone, Debug)]
pub struct BuildSnapshot {
    pub id: u64,
    pub status: BuildStatus,
    pub exit_code: Option<i32>,
    pub apk_path: Option<String>,
    pub log: String,
    pub progress_current: u64,
    pub progress_total: u64,
    pub progress_message: String,
}

/// One event of the server log.
#[derive(Debug)]
pub struct ServerLogEntry {
    pub timestamp_unix_secs: u64,
    pub message: String,
}

impl Clone for ServerLogEntry {
    fn clone(&self) -> (entry: Self)
        ensures
            entry == *self,
    {
        ServerLogEntry { timestamp_unix_secs: self.timestamp_unix_secs, message: self.message.clone() }
    }
}

/// `GET /api/info`.
#[derive(Clone, Debug)]
pub struct ServerInfo {
    pub host: String,
    pub port: u16,
    pub repository_root: String,
    pub build_script: String,
    pub active_mod: Option<String>,
    pub mod_count: Option<usize>,
    pub build_count: usize,
    pub latest_apk_path: String,
    pub latest_apk_exists: bool,
    pub recent_events: Vec<ServerLogEntry>,
}

/// `GET /api/logs`.
#[derive(Clone, Debug)]
pub struct ServerLogs {
    pub events: Vec<ServerLogEntry>,
}

#[derive(Clone, Copy, Debug, PartialEq, Eq, Structural)]
pub enum BuildStatus {
    Queued,
    Running,
    Succeeded,
    Failed,
}

/// The APK that a build of the repository at `repo_root` produces (the same
/// path as [`crate::workspace::WorkspacePaths::apk_path`]).
pub fn latest_apk_path(repo_root: &str) -> (path: String)
    ensures
        path@ == spec_apk_path(repo_root@),
{
    apk_path_under(repo_root)
}

/// The build script: `build_script` as given when absolute, otherwise
/// under the repository root.
pub open spec fn spec_build_script(config: ServerConfig) -> Seq<char> {
    if config.build_script@.len() > 0 && config.build_script@[0] == '/' {
        config.build_script@
    } else {
        path_join(config.repo_root@, config.build_script@)
    }
}

pub fn resolve_build_script(config: &ServerConfig) -> (script: String)
    ensures
        script@ == spec_build_script(*config),
{
    let script = config.build_script.as_str();
    if script.unicode_len() > 0 && script.get_char(0) == '/' {
        config.build_script.clone()
    } else {
        join_path(config.repo_root.as_str(), script)
    }
}

/// A request is authorized when its `Authorization` header is exactly
/// `Bearer <token>`.
pub open spec fn spec_authorized(token: Seq<char>, header: Option<Seq<char>>) -> bool {
    header == Some("Bearer "@ + token)
}

pub fn is_authorized(token: &str, authorization: Option<&str>) -> (ok: bool)
    ensures
        ok == spec_authorized(
            token@,
            match authorization {
                Some(h) => Some(h@),
                None => None,
            },
        ),
{
    let mut expected = "Bearer ".to_owned();
    expected.append(token);
    match authorization {
        Some(header) => crate::order::str_equal(header, expected.as_str()),
        None => false,
    }
}

fn clone_option(value: &Option<String>) -> (copy: Option<String>)
    ensures
        copy == *value,
{
    match value {
        Some(s) => Some(s.clone()),
        None => None,
    }
}

/// What the snapshot reports of one manifest.
pub open spec fn mod_snapshot_matches(s: ModSnapshot, m: ModManifest) -> bool {
    &&& s.name == m.name
    &&& s.version == m.version
    &&& s.dependencies.deep_view() == dependency_names(m)
    &&& s.runtime_wasm == match m.mod_library {
        Some(lib) => Some(lib.wasm),
        None => None::<String>,
    }
    &&& s.content_wasm == match m.content_library {
        Some(lib) => Some(lib.wasm),
        None => None::<String>,
    }
}

fn mod_snapshot(m: &ModManifest) -> (s: ModSnapshot)
    ensures
        mod_snapshot_matches(s, *m),
{
    let mut dependencies: Vec<String> = Vec::new();
    let n = m.dependencies.len();
    for i in 0..n
        invariant
            n == m.dependencies.len(),
            dependencies.deep_view() =~= dependency_names(*m).take(i as int),
    {
        let ghost before = dependencies.deep_view();
        dependencies.push(m.dependencies[i].0.clone());
        proof {
            assert(dependencies.deep_view() =~= before.push(m.dependencies@[i as int].0@));
            assert(dependency_names(*m).take(i + 1) =~= dependency_names(*m).take(i as int).push(
                m.dependencies@[i as int].0@,
            ));
        }
    }
    proof {
        assert(dependency_names(*m).take(n as int) =~= dependency_names(*m));
    }
    ModSnapshot {
        name: m.name.clone(),
        version: clone_option(&m.version),
        dependencies,
        runtime_wasm: match &m.mod_library {
            Some(lib) => Some(lib.wasm.clone()),
            None => None,
        },
        content_wasm: match &m.content_library {
            Some(lib) => Some(lib.wasm.clone()),
            None => None,
        },
    }
}

/// The mods snapshot of the projects directory `projects_root`, given its
/// `config.toml` and the manifests found there: the active mod's load
/// order and one entry per mod, in ascending name order.
pub fn mods_snapshot(
    projects_root: &str,
    active: ActiveProjectConfig,
    graph: &ModGraph,
) -> (snapshot: Result<ModsSnapshot, DependencyError>)
    ensures
        match spec_dependency_order(graph@, active.mod_name@) {
            Ok(order) => snapshot matches Ok(s) && {
                &&& s.repository_root@ == projects_root@
                &&& s.active_mod == active.mod_name
                &&& s.active_language == active.language
                &&& s.load_order.deep_view() == order
                &&& s.mods@.len() == graph@.dom().len()
                &&& forall|i: int, j: int|
                    0 <= i < j < s.mods@.len() ==> crate::order::lex_less(
                        #[trigger] s.mods@[i].name@,
                        #[trigger] s.mods@[j].name@,
                    )
                &&& forall|i: int|
                    0 <= i < s.mods@.len() ==> graph@.contains_key(#[trigger] s.mods@[i].name@)
                        && mod_snapshot_matches(s.mods@[i], graph@[s.mods@[i].name@])
            },
            Err(issue) => snapshot matches Err(e) && issue_of(e) == issue,
        },
{
    let load_order = match graph.dependency_order(active.mod_name.as_str()) {
        Ok(order) => order,
        Err(e) => {
            return Err(e);
        },
    };
    let manifests = graph.manifests();
    proof {
        graph.lemma_dom_finite();
        crate::mods::lemma_ascending_no_duplicates(crate::mods::manifest_names(manifests@));
        crate::mods::manifest_names(manifests@).unique_seq_to_set();
    }
    let mut mods: Vec<ModSnapshot> = Vec::new();
    let n = manifests.len();
    for i in 0..n
        invariant
            n == manifests@.len(),
            mods@.len() == i,
            forall|k: int|
                0 <= k < i ==> mod_snapshot_matches(#[trigger] mods@[k], manifests@[k]),
    {
        mods.push(mod_snapshot(&manifests[i]));
    }
    proof {
        assert forall|i: int, j: int| 0 <= i < j < mods@.len() implies crate::order::lex_less(
            #[trigger] mods@[i].name@,
            #[trigger] mods@[j].name@,
        ) by {
            assert(crate::mods::manifest_names(manifests@)[i] == manifests@[i].name@);
            assert(crate::mods::manifest_names(manifests@)[j] == manifests@[j].name@);
        }
        assert forall|i: int| 0 <= i < mods@.len() implies graph@.contains_key(
            #[trigger] mods@[i].name@,
        ) && mod_snapshot_matches(mods@[i], graph@[mods@[i].name@]) by {
            assert(crate::mods::manifest_names(manifests@)[i] == manifests@[i].name@);
            assert(crate::mods::manifest_names(manifests@).to_set().contains(manifests@[i].name@));
        }
    }
    Ok(ModsSnapshot {
        repository_root: projects_root.to_owned(),
        active_mod: active.mod_name,
        active_language: active.language,
        load_order,
        mods,
    })
}

/// `GET /api/info` from the configuration, the mods snapshot when one could
/// be made, the number of builds, whether the latest APK exists, and the
/// recent events.
pub fn server_info(
    config: &ServerConfig,
    snapshot: Option<&ModsSnapshot>,
    build_count: usize,
    latest_apk_exists: bool,
    recent_events: Vec<ServerLogEntry>,
) -> (info: ServerInfo)
    ensures
        info.host == config.host,
        info.port == config.port,
        info.repository_root == config.repo_root,
        info.build_script@ == spec_build_script(*config),
        info.active_mod == match snapshot {
            Some(s) => Some(s.active_mod),
            None => None::<String>,
        },
        info.mod_count == match snapshot {
            Some(s) => Some(s.mods@.len() as usize),
            None => None::<usize>,
        },
        info.build_count == build_count,
        info.latest_apk_path@ == spec_apk_path(config.repo_root@),
        info.latest_apk_exists == latest_apk_exists,
        info.recent_events == recent_events,
{
    ServerInfo {
        host: config.host.clone(),
        port: config.port,
        repository_root: config.repo_root.clone(),
        build_script: resolve_build_script(config),
        active_mod: match snapshot {
            Some(s) => Some(s.active_mod.clone()),
            None => None,
        },
        mod_count: match snapshot {
            Some(s) => Some(s.mods.len()),
            None => None,
        },
        build_count,
        latest_apk_path: latest_apk_path(config.repo_root.as_str()),
        latest_apk_exists,
        recent_events,
    }
}

} // verus!
