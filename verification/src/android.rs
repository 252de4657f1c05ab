//! The Android build/deploy plan: the ordered command stages that build the
//! builtin and mod wasm, the native library, the APK, and install it.

use vstd::prelude::*;
use vstd::string::*;

use crate::process::{option_view, plain_stage, spec_render_stage, stage_of, stages_of, CommandStage, StageSpec};
use crate::text::{join_path, path_join, push_char};
use crate::workspace::{apk_path_under, spec_apk_path};

verus! {

#[derive(Clone, Copy, Debug, PartialEq, Eq, Structural)]
pub enum AndroidProfile {
    Debug,
    Release,
}

pub open spec fn spec_profile_name(profile: AndroidProfile) -> Seq<char> {
    match profile {
        AndroidProfile::Debug => "debug"@,
        AndroidProfile::Release => "release"@,
    }
}

impl AndroidProfile {
    pub fn as_str(self) -> (name: &'static str)
        ensures
            name@ == spec_profile_name(self),
    {
        match self {
            AndroidProfile::Debug => "debug",
            AndroidProfile::Release => "release",
        }
    }
}

pub open spec fn spec_builtin_recipe(profile: AndroidProfile) -> Seq<char> {
    match profile {
        AndroidProfile::Debug => "builtin-build"@,
        AndroidProfile::Release => "builtin-build-release"@,
    }
}

pub open spec fn spec_runtime_recipe(profile: AndroidProfile) -> Seq<char> {
    match profile {
        AndroidProfile::Debug => "runtime-build"@,
        AndroidProfile::Release => "runtime-build-release"@,
    }
}

pub open spec fn spec_content_recipe(profile: AndroidProfile) -> Seq<char> {
    match profile {
        AndroidProfile::Debug => "content-build"@,
        AndroidProfile::Release => "content-build-release"@,
    }
}

/// The target directory under `target/aarch64-linux-android` that a
/// profile builds into.
pub open spec fn spec_native_artifact_dir(profile: AndroidProfile) -> Seq<char> {
    spec_profile_name(profile)
}

pub open spec fn spec_android_build_args(profile: AndroidProfile) -> Seq<Seq<char>> {
    let base = seq![
        "build"@,
        "-p"@,
        "souprune"@,
        "--target"@,
        "aarch64-linux-android"@,
        "--features"@,
        "android"@,
    ];
    match profile {
        AndroidProfile::Debug => base,
        AndroidProfile::Release => base.push("--release"@),
    }
}

/// `<root>/android/souprune/src/main/jniLibs/arm64-v8a`
pub open spec fn spec_jni_lib_dir(root: Seq<char>) -> Seq<char> {
    path_join(
        path_join(
            path_join(
                path_join(path_join(path_join(root, "android"@), "souprune"@), "src"@),
                "main"@,
            ),
            "jniLibs"@,
        ),
        "arm64-v8a"@,
    )
}

/// `<root>/target/aarch64-linux-android/<profile>/libsouprune.so`
pub open spec fn spec_native_library(root: Seq<char>, profile: AndroidProfile) -> Seq<char> {
    path_join(
        path_join(
            path_join(path_join(root, "target"@), "aarch64-linux-android"@),
            spec_native_artifact_dir(profile),
        ),
        "libsouprune.so"@,
    )
}

pub open spec fn spec_adb_args(device: Option<Seq<char>>, args: Seq<Seq<char>>) -> Seq<Seq<char>> {
    match device {
        Some(d) => seq!["-s"@, d] + args,
        None => args,
    }
}

pub open spec fn spec_builtin_stage(root: Seq<char>, profile: AndroidProfile) -> StageSpec {
    plain_stage("build builtin wasm"@, "just"@, seq![spec_builtin_recipe(profile)], Some(root))
}

pub open spec fn spec_runtime_stage(
    root: Seq<char>,
    name: Seq<char>,
    profile: AndroidProfile,
) -> StageSpec {
    plain_stage(
        "build mod runtime "@ + name,
        "just"@,
        seq![spec_runtime_recipe(profile), name],
        Some(root),
    )
}

pub open spec fn spec_content_stage(
    root: Seq<char>,
    name: Seq<char>,
    profile: AndroidProfile,
) -> StageSpec {
    plain_stage(
        "build mod content "@ + name,
        "just"@,
        seq![spec_content_recipe(profile), name],
        Some(root),
    )
}

/// The runtime and content stages of each mod, in load order.
pub open spec fn spec_mod_stages(
    root: Seq<char>,
    order: Seq<Seq<char>>,
    profile: AndroidProfile,
) -> Seq<StageSpec>
    decreases order.len(),
{
    if order.len() == 0 {
        seq![]
    } else {
        spec_mod_stages(root, order.drop_last(), profile) + seq![
            spec_runtime_stage(root, order.last(), profile),
            spec_content_stage(root, order.last(), profile),
        ]
    }
}

pub open spec fn spec_native_stage(root: Seq<char>, profile: AndroidProfile) -> StageSpec {
    plain_stage(
        "build android native library"@,
        "cargo"@,
        spec_android_build_args(profile),
        Some(root),
    )
}

pub open spec fn spec_prepare_jni_stage(root: Seq<char>) -> StageSpec {
    plain_stage(
        "prepare android native library directory"@,
        "mkdir"@,
        seq!["-p"@, spec_jni_lib_dir(root)],
        None,
    )
}

pub open spec fn spec_copy_native_stage(root: Seq<char>, profile: AndroidProfile) -> StageSpec {
    plain_stage(
        "copy android native library"@,
        "cp"@,
        seq![
            spec_native_library(root, profile),
            path_join(spec_jni_lib_dir(root), "libsouprune.so"@),
        ],
        None,
    )
}

pub open spec fn spec_assemble_stage(root: Seq<char>) -> StageSpec {
    plain_stage(
        "assemble debug apk"@,
        "./gradlew"@,
        seq![":souprune:assembleDebug"@, "--no-daemon"@],
        Some(path_join(root, "android"@)),
    )
}

pub open spec fn spec_install_stage(root: Seq<char>, device: Option<Seq<char>>) -> StageSpec {
    plain_stage(
        "install apk"@,
        "adb"@,
        spec_adb_args(device, seq!["install"@, "-r"@, spec_apk_path(root)]),
        None,
    )
}

pub open spec fn spec_warn_stage(mod_name: Seq<char>) -> StageSpec {
    plain_stage(
        "warn active mod not last in dependency order"@,
        "printf"@,
        seq!["active mod "@ + mod_name + " is not last in dependency order\n"@],
        None,
    )
}

/// Whether the active mod is the last entry of the load order.
pub open spec fn active_mod_is_last(mod_name: Seq<char>, order: Seq<Seq<char>>) -> bool {
    order.len() > 0 && order.last() == mod_name
}

/// Every stage of the Android plan, in the order in which they run.
pub open spec fn spec_android_stages(
    root: Seq<char>,
    mod_name: Seq<char>,
    order: Seq<Seq<char>>,
    profile: AndroidProfile,
    device: Option<Seq<char>>,
) -> Seq<StageSpec> {
    let head = seq![spec_builtin_stage(root, profile)] + spec_mod_stages(root, order, profile);
    let tail = seq![
        spec_native_stage(root, profile),
        spec_prepare_jni_stage(root),
        spec_copy_native_stage(root, profile),
        spec_assemble_stage(root),
        spec_install_stage(root, device),
    ];
    if active_mod_is_last(mod_name, order) {
        head + tail
    } else {
        head + tail + seq![spec_warn_stage(mod_name)]
    }
}

pub fn runtime_recipe(profile: AndroidProfile) -> (recipe: &'static str)
    ensures
        recipe@ == spec_runtime_recipe(profile),
{
    match profile {
        AndroidProfile::Debug => "runtime-build",
        AndroidProfile::Release => "runtime-build-release",
    }
}

pub fn content_recipe(profile: AndroidProfile) -> (recipe: &'static str)
    ensures
        recipe@ == spec_content_recipe(profile),
{
    match profile {
        AndroidProfile::Debug => "content-build",
        AndroidProfile::Release => "content-build-release",
    }
}

pub fn native_artifact_dir(profile: AndroidProfile) -> (dir: &'static str)
    ensures
        dir@ == spec_native_artifact_dir(profile),
{
    match profile {
        AndroidProfile::Debug => "debug",
        AndroidProfile::Release => "release",
    }
}

pub fn android_build_args(profile: AndroidProfile) -> (args: Vec<String>)
    ensures
        args.deep_view() == spec_android_build_args(profile),
{
    let mut args: Vec<String> = Vec::new();
    args.push("build".to_owned());
    args.push("-p".to_owned());
    args.push("souprune".to_owned());
    args.push("--target".to_owned());
    args.push("aarch64-linux-android".to_owned());
    args.push("--features".to_owned());
    args.push("android".to_owned());
    match profile {
        AndroidProfile::Release => {
            args.push("--release".to_owned());
        },
        AndroidProfile::Debug => {},
    }
    proof {
        assert(args.deep_view() =~= spec_android_build_args(profile));
    }
    args
}

/// An `adb` stage, aimed at `device` when one is given.
pub fn adb_stage(label: String, device: Option<&str>, args: Vec<String>) -> (stage: CommandStage)
    ensures
        stage_of(stage) == plain_stage(
            label@,
            "adb"@,
            spec_adb_args(
                match device {
                    Some(d) => Some(d@),
                    None => None,
                },
                args.deep_view(),
            ),
            None,
        ),
{
    let mut full_args: Vec<String> = Vec::new();
    match device {
        Some(d) => {
            full_args.push("-s".to_owned());
            full_args.push(d.to_owned());
        },
        None => {},
    }
    let ghost head = full_args.deep_view();
    let n = args.len();
    for i in 0..n
        invariant
            n == args.len(),
            full_args.deep_view() =~= head + args.deep_view().take(i as int),
    {
        let ghost before = full_args.deep_view();
        let item = args[i].clone();
        full_args.push(item);
        proof {
            assert(full_args.deep_view() =~= before.push(args@[i as int]@));
            assert(args.deep_view().take(i + 1) =~= args.deep_view().take(i as int).push(
                args@[i as int]@,
            ));
        }
    }
    proof {
        assert(args.deep_view().take(n as int) =~= args.deep_view());
    }
    let stage = CommandStage::new(label, "adb".to_owned(), full_args);
    proof {
        assert(stage_of(stage) =~= plain_stage(
            label@,
            "adb"@,
            spec_adb_args(
                match device {
                    Some(d) => Some(d@),
                    None => None,
                },
                args.deep_view(),
            ),
            None,
        ));
    }
    stage
}

pub open spec fn option_str_view(o: Option<&str>) -> Option<Seq<char>> {
    match o {
        Some(d) => Some(d@),
        None => None,
    }
}

/// Appends the runtime and content stages of every mod in `mod_order`.
fn push_mod_stages(
    stages: &mut Vec<CommandStage>,
    root: &String,
    mod_order: &Vec<String>,
    profile: AndroidProfile,
)
    ensures
        stages_of(final(stages)@) =~= stages_of(old(stages)@) + spec_mod_stages(
            root@,
            mod_order.deep_view(),
            profile,
        ),
{
    let ghost start = stages_of(stages@);
    let ghost order = mod_order.deep_view();
    let n = mod_order.len();
    for i in 0..n
        invariant
            n == mod_order.len(),
            order == mod_order.deep_view(),
            stages_of(stages@) =~= start + spec_mod_stages(root@, order.take(i as int), profile),
    {
        let name = &mod_order[i];
        let mut runtime_label = "build mod runtime ".to_owned();
        runtime_label.append(name.as_str());
        let mut runtime_args: Vec<String> = Vec::new();
        runtime_args.push(runtime_recipe(profile).to_owned());
        runtime_args.push(name.clone());
        let runtime = CommandStage::new(runtime_label, "just".to_owned(), runtime_args).cwd(
            root.clone(),
        );
        proof {
            assert(runtime_args.deep_view() =~= seq![spec_runtime_recipe(profile), name@]);
            assert(stage_of(runtime) =~= spec_runtime_stage(root@, name@, profile));
        }
        let mut content_label = "build mod content ".to_owned();
        content_label.append(name.as_str());
        let mut content_args: Vec<String> = Vec::new();
        content_args.push(content_recipe(profile).to_owned());
        content_args.push(name.clone());
        let content = CommandStage::new(content_label, "just".to_owned(), content_args).cwd(
            root.clone(),
        );
        proof {
            assert(content_args.deep_view() =~= seq![spec_content_recipe(profile), name@]);
            assert(stage_of(content) =~= spec_content_stage(root@, name@, profile));
        }
        let ghost before = stages@;
        stages.push(runtime);
        stages.push(content);
        proof {
            assert(stages@ =~= before.push(runtime).push(content));
            assert(stages_of(stages@) =~= stages_of(before).push(stage_of(runtime)).push(
                stage_of(content),
            ));
            assert(order.take(i + 1).drop_last() =~= order.take(i as int));
            assert(order.take(i + 1).last() == name@);
        }
    }
    proof {
        assert(order.take(n as int) =~= order);
    }
}

/// Every stage of the Android build and deploy, in order.
fn build_stages(
    root: &String,
    mod_name: &String,
    mod_order: &Vec<String>,
    profile: AndroidProfile,
    device: Option<&str>,
) -> (stages: Vec<CommandStage>)
    ensures
        stages_of(stages@) =~= spec_android_stages(
            root@,
            mod_name@,
            mod_order.deep_view(),
            profile,
            option_str_view(device),
        ),
{
    let mut stages: Vec<CommandStage> = Vec::new();

    let builtin_recipe = match profile {
        AndroidProfile::Release => "builtin-build-release",
        AndroidProfile::Debug => "builtin-build",
    };
    let mut builtin_args: Vec<String> = Vec::new();
    builtin_args.push(builtin_recipe.to_owned());
    let builtin = CommandStage::new("build builtin wasm".to_owned(), "just".to_owned(), builtin_args)
        .cwd(root.clone());
    proof {
        assert(builtin_args.deep_view() =~= seq![spec_builtin_recipe(profile)]);
        assert(stage_of(builtin) =~= spec_builtin_stage(root@, profile));
    }
    stages.push(builtin);
    proof {
        assert(stages_of(stages@) =~= seq![spec_builtin_stage(root@, profile)]);
    }

    push_mod_stages(&mut stages, root, mod_order, profile);
    let ghost head = stages_of(stages@);

    let native = CommandStage::new(
        "build android native library".to_owned(),
        "cargo".to_owned(),
        android_build_args(profile),
    ).cwd(root.clone());
    proof {
        assert(stage_of(native) =~= spec_native_stage(root@, profile));
    }

    let android = join_path(root.as_str(), "android");
    let souprune = join_path(android.as_str(), "souprune");
    let src = join_path(souprune.as_str(), "src");
    let main = join_path(src.as_str(), "main");
    let jni_libs = join_path(main.as_str(), "jniLibs");
    let jni_lib_dir = join_path(jni_libs.as_str(), "arm64-v8a");
    let mut prepare_args: Vec<String> = Vec::new();
    prepare_args.push("-p".to_owned());
    prepare_args.push(jni_lib_dir.clone());
    let prepare = CommandStage::new(
        "prepare android native library directory".to_owned(),
        "mkdir".to_owned(),
        prepare_args,
    );
    proof {
        assert(prepare_args.deep_view() =~= seq!["-p"@, spec_jni_lib_dir(root@)]);
        assert(stage_of(prepare) =~= spec_prepare_jni_stage(root@));
    }

    let target = join_path(root.as_str(), "target");
    let triple = join_path(target.as_str(), "aarch64-linux-android");
    let artifacts = join_path(triple.as_str(), native_artifact_dir(profile));
    let library = join_path(artifacts.as_str(), "libsouprune.so");
    let destination = join_path(jni_lib_dir.as_str(), "libsouprune.so");
    let mut copy_args: Vec<String> = Vec::new();
    copy_args.push(library);
    copy_args.push(destination);
    let copy = CommandStage::new("copy android native library".to_owned(), "cp".to_owned(), copy_args);
    proof {
        assert(copy_args.deep_view() =~= seq![
            spec_native_library(root@, profile),
            path_join(spec_jni_lib_dir(root@), "libsouprune.so"@),
        ]);
        assert(stage_of(copy) =~= spec_copy_native_stage(root@, profile));
    }

    let mut assemble_args: Vec<String> = Vec::new();
    assemble_args.push(":souprune:assembleDebug".to_owned());
    assemble_args.push("--no-daemon".to_owned());
    let assemble = CommandStage::new(
        "assemble debug apk".to_owned(),
        "./gradlew".to_owned(),
        assemble_args,
    ).cwd(join_path(root.as_str(), "android"));
    proof {
        assert(assemble_args.deep_view() =~= seq![":souprune:assembleDebug"@, "--no-daemon"@]);
        assert(stage_of(assemble) =~= spec_assemble_stage(root@));
    }

    let mut install_args: Vec<String> = Vec::new();
    install_args.push("install".to_owned());
    install_args.push("-r".to_owned());
    install_args.push(apk_path_under(root.as_str()));
    let install = adb_stage("install apk".to_owned(), device, install_args);
    proof {
        assert(install_args.deep_view() =~= seq!["install"@, "-r"@, spec_apk_path(root@)]);
        assert(stage_of(install) =~= spec_install_stage(root@, option_str_view(device)));
    }

    let ghost before_tail = stages@;
    stages.push(native);
    stages.push(prepare);
    stages.push(copy);
    stages.push(assemble);
    stages.push(install);
    proof {
        assert(stages@ =~= before_tail + seq![native, prepare, copy, assemble, install]);
        assert(stages_of(stages@) =~= head + seq![
            spec_native_stage(root@, profile),
            spec_prepare_jni_stage(root@),
            spec_copy_native_stage(root@, profile),
            spec_assemble_stage(root@),
            spec_install_stage(root@, option_str_view(device)),
        ]);
    }

    let order_len = mod_order.len();
    let is_last = order_len > 0 && mod_order[order_len - 1] == *mod_name;
    proof {
        if order_len > 0 {
            assert(mod_order.deep_view().last() == mod_order@[order_len - 1]@);
        }
        assert(is_last == active_mod_is_last(mod_name@, mod_order.deep_view()));
    }
    if !is_last {
        let mut message = "active mod ".to_owned();
        message.append(mod_name.as_str());
        message.append(" is not last in dependency order\n");
        let mut warn_args: Vec<String> = Vec::new();
        warn_args.push(message);
        let warn = CommandStage::new(
            "warn active mod not last in dependency order".to_owned(),
            "printf".to_owned(),
            warn_args,
        );
        proof {
            assert(warn_args.deep_view() =~= seq![
                "active mod "@ + mod_name@ + " is not last in dependency order\n"@,
            ]);
            assert(stage_of(warn) =~= spec_warn_stage(mod_name@));
        }
        let ghost before_warn = stages@;
        stages.push(warn);
        proof {
            assert(stages@ =~= before_warn.push(warn));
        }
    }
    stages
}

/// One stage of the printed plan: a `# label` comment line above the
/// shell line.
pub open spec fn spec_stage_block(stage: StageSpec) -> Seq<char> {
    "# "@ + stage.label + "\n"@ + spec_render_stage(
        stage.program,
        stage.args,
        stage.cwd,
        stage.allow_failure,
    )
}

/// The printed plan: the blocks of all stages, separated by newlines.
pub open spec fn spec_render_plan(stages: Seq<StageSpec>) -> Seq<char>
    decreases stages.len(),
{
    if stages.len() == 0 {
        seq![]
    } else if stages.len() == 1 {
        spec_stage_block(stages[0])
    } else {
        spec_render_plan(stages.drop_last()) + "\n"@ + spec_stage_block(stages.last())
    }
}

/// The Android build and deploy plan for one active mod.
#[derive(Debug)]
pub struct AndroidPlan {
    root: String,
    mod_name: String,
    mod_order: Vec<String>,
    profile: AndroidProfile,
    device: Option<String>,
    stages: Vec<CommandStage>,
}

impl AndroidPlan {
    #[verifier::type_invariant]
    spec fn stages_follow_inputs(self) -> bool {
        stages_of(self.stages@) == spec_android_stages(
            self.root@,
            self.mod_name@,
            self.mod_order.deep_view(),
            self.profile,
            option_view(self.device),
        )
    }

    pub closed spec fn spec_root(&self) -> Seq<char> {
        self.root@
    }

    pub closed spec fn spec_mod_name(&self) -> Seq<char> {
        self.mod_name@
    }

    pub closed spec fn spec_mod_order(&self) -> Seq<Seq<char>> {
        self.mod_order.deep_view()
    }

    pub closed spec fn spec_profile(&self) -> AndroidProfile {
        self.profile
    }

    pub closed spec fn spec_device(&self) -> Option<Seq<char>> {
        option_view(self.device)
    }

    /// The stages this plan runs, as plain values.
    pub open spec fn planned(&self) -> Seq<StageSpec> {
        spec_android_stages(
            self.spec_root(),
            self.spec_mod_name(),
            self.spec_mod_order(),
            self.spec_profile(),
            self.spec_device(),
        )
    }

    pub fn new(
        root: String,
        mod_name: String,
        mod_order: Vec<String>,
        profile: AndroidProfile,
        device: Option<String>,
    ) -> (plan: Self)
        ensures
            plan.spec_root() == root@,
            plan.spec_mod_name() == mod_name@,
            plan.spec_mod_order() == mod_order.deep_view(),
            plan.spec_profile() == profile,
            plan.spec_device() == option_view(device),
    {
        let device_ref: Option<&str> = match &device {
            Some(d) => Some(d.as_str()),
            None => None,
        };
        let stages = build_stages(&root, &mod_name, &mod_order, profile, device_ref);
        proof {
            assert(option_str_view(device_ref) == option_view(device));
        }
        AndroidPlan { root, mod_name, mod_order, profile, device, stages }
    }

    pub fn stages(&self) -> (stages: &[CommandStage])
        ensures
            stages_of(stages@) == self.planned(),
    {
        proof {
            use_type_invariant(self);
        }
        self.stages.as_slice()
    }

    /// The whole plan as a shell script with one comment line per stage.
    pub fn render_shell(&self) -> (script: String)
        ensures
            script@ == spec_render_plan(self.planned()),
    {
        proof {
            use_type_invariant(self);
        }
        let ghost all = stages_of(self.stages@);
        let mut script = String::new();
        let n = self.stages.len();
        for i in 0..n
            invariant
                n == self.stages.len(),
                all == stages_of(self.stages@),
                script@ == spec_render_plan(all.take(i as int)),
        {
            let stage = &self.stages[i];
            if i > 0 {
                push_char(&mut script, '\n');
            }
            script.append("# ");
            script.append(stage.label.as_str());
            push_char(&mut script, '\n');
            let line = stage.render_shell();
            script.append(line.as_str());
            proof {
                reveal_strlit("\n");
                let prefix = all.take(i + 1);
                assert(prefix.last() == stage_of(*stage));
                assert(prefix.drop_last() =~= all.take(i as int));
                if i == 0 {
                    assert(prefix.len() == 1);
                    assert(script@ =~= spec_stage_block(prefix[0]));
                } else {
                    assert(script@ =~= spec_render_plan(prefix.drop_last()) + "\n"@
                        + spec_stage_block(prefix.last()));
                }
            }
        }
        proof {
            assert(all.take(n as int) =~= all);
        }
        script
    }

    pub fn root(&self) -> (root: &str)
        ensures
            root@ == self.spec_root(),
    {
        self.root.as_str()
    }

    pub fn mod_name(&self) -> (name: &str)
        ensures
            name@ == self.spec_mod_name(),
    {
        self.mod_name.as_str()
    }

    pub fn mod_order(&self) -> (order: &[String])
        ensures
            order.deep_view() == self.spec_mod_order(),
    {
        self.mod_order.as_slice()
    }

    pub fn profile(&self) -> (profile: AndroidProfile)
        ensures
            profile == self.spec_profile(),
    {
        self.profile
    }

    pub fn device(&self) -> (device: Option<&str>)
        ensures
            option_str_view(device) == self.spec_device(),
    {
        match &self.device {
            Some(d) => Some(d.as_str()),
            None => None,
        }
    }
}

impl Clone for AndroidPlan {
    /// A plan for the same inputs.
    fn clone(&self) -> (plan: Self)
        ensures
            plan.spec_root() == self.spec_root(),
            plan.spec_mod_name() == self.spec_mod_name(),
            plan.spec_mod_order() == self.spec_mod_order(),
            plan.spec_profile() == self.spec_profile(),
            plan.spec_device() == self.spec_device(),
    {
        let mut order: Vec<String> = Vec::new();
        let n = self.mod_order.len();
        for i in 0..n
            invariant
                n == self.mod_order.len(),
                order.deep_view() =~= self.mod_order.deep_view().take(i as int),
        {
            let ghost before = order.deep_view();
            order.push(self.mod_order[i].clone());
            proof {
                assert(order.deep_view() =~= before.push(self.mod_order@[i as int]@));
            }
        }
        proof {
            assert(self.mod_order.deep_view().take(n as int) =~= self.mod_order.deep_view());
        }
        let device = match &self.device {
            Some(d) => Some(d.clone()),
            None => None,
        };
        AndroidPlan::new(self.root.clone(), self.mod_name.clone(), order, self.profile, device)
    }
}

/// The mod stages come in pairs, runtime then content, in load order.
pub proof fn lemma_mod_stages_layout(root: Seq<char>, order: Seq<Seq<char>>, profile: AndroidProfile)
    ensures
        spec_mod_stages(root, order, profile).len() == 2 * order.len(),
        forall|i: int|
            0 <= i < order.len() ==> spec_mod_stages(root, order, profile)[2 * i]
                == spec_runtime_stage(root, #[trigger] order[i], profile) && spec_mod_stages(
                root,
                order,
                profile,
            )[2 * i + 1] == spec_content_stage(root, order[i], profile),
    decreases order.len(),
{
    if order.len() > 0 {
        let init = order.drop_last();
        lemma_mod_stages_layout(root, init, profile);
        assert forall|i: int| 0 <= i < order.len() implies spec_mod_stages(root, order, profile)[2
            * i] == spec_runtime_stage(root, #[trigger] order[i], profile) && spec_mod_stages(
            root,
            order,
            profile,
        )[2 * i + 1] == spec_content_stage(root, order[i], profile) by {
            if i < init.len() {
                assert(init[i] == order[i]);
            }
        }
    }
}

/// The Android plan builds the builtin wasm first, then each mod's runtime
/// and content wasm in load order, and only then the native library; it
/// prepares the JNI library directory, copies the library of the chosen
/// profile into it, assembles the debug APK, and installs the workspace's
/// game APK (the path of `WorkspacePaths::apk_path`); a last stage warns
/// exactly when the active mod is not last in the load order.
pub proof fn lemma_plan_layout(
    root: Seq<char>,
    mod_name: Seq<char>,
    order: Seq<Seq<char>>,
    profile: AndroidProfile,
    device: Option<Seq<char>>,
)
    ensures
        ({
            let stages = spec_android_stages(root, mod_name, order, profile, device);
            let n = order.len() as int;
            &&& stages.len() == 2 * n + 6 + (if active_mod_is_last(mod_name, order) {
                0int
            } else {
                1int
            })
            &&& stages[0] == spec_builtin_stage(root, profile)
            &&& forall|i: int|
                0 <= i < n ==> stages[1 + 2 * i] == spec_runtime_stage(
                    root,
                    #[trigger] order[i],
                    profile,
                ) && stages[2 + 2 * i] == spec_content_stage(root, order[i], profile)
            &&& stages[2 * n + 1] == spec_native_stage(root, profile)
            &&& stages[2 * n + 2] == spec_prepare_jni_stage(root)
            &&& stages[2 * n + 3] == spec_copy_native_stage(root, profile)
            &&& stages[2 * n + 3].args[0] == spec_native_library(root, profile)
            &&& stages[2 * n + 4] == spec_assemble_stage(root)
            &&& stages[2 * n + 5] == spec_install_stage(root, device)
            &&& stages[2 * n + 5].args.last() == spec_apk_path(root)
            &&& !active_mod_is_last(mod_name, order) ==> stages[2 * n + 6] == spec_warn_stage(
                mod_name,
            )
        }),
{
    lemma_mod_stages_layout(root, order, profile);
    let mods = spec_mod_stages(root, order, profile);
    let stages = spec_android_stages(root, mod_name, order, profile, device);
    let n = order.len() as int;
    assert forall|i: int| 0 <= i < n implies stages[1 + 2 * i] == spec_runtime_stage(
        root,
        #[trigger] order[i],
        profile,
    ) && stages[2 + 2 * i] == spec_content_stage(root, order[i], profile) by {
        assert(stages[1 + 2 * i] == mods[2 * i]);
        assert(stages[2 + 2 * i] == mods[2 * i + 1]);
    }
    let install_args = spec_install_stage(root, device).args;
    match device {
        Some(d) => {
            assert(install_args.last() == spec_apk_path(root));
        },
        None => {},
    }
}

/// The native build always cross-compiles for `aarch64-linux-android`;
/// a release build is the debug build with `--release`; and the copy stage
/// reads the library from where cargo, run from the workspace root, writes
/// it for that target: `target/aarch64-linux-android/release` when the
/// build passes `--release`, `target/aarch64-linux-android/debug` otherwise.
pub proof fn lemma_native_build_feeds_copy(root: Seq<char>, profile: AndroidProfile)
    ensures
        ({
            let build = spec_native_stage(root, profile);
            let copy = spec_copy_native_stage(root, profile);
            let args = build.args;
            &&& build.program == "cargo"@
            &&& build.cwd == Some(root)
            &&& exists|i: int|
                0 <= i < args.len() - 1 && #[trigger] args[i] == "--target"@ && args[i + 1]
                    == "aarch64-linux-android"@
            &&& copy.args[0] == path_join(
                path_join(
                    path_join(path_join(root, "target"@), "aarch64-linux-android"@),
                    if args.contains("--release"@) {
                        "release"@
                    } else {
                        "debug"@
                    },
                ),
                "libsouprune.so"@,
            )
        }),
        spec_android_build_args(AndroidProfile::Release) == spec_android_build_args(
            AndroidProfile::Debug,
        ).push("--release"@),
        !spec_android_build_args(AndroidProfile::Debug).contains("--release"@),
{
    reveal_strlit("build");
    reveal_strlit("-p");
    reveal_strlit("souprune");
    reveal_strlit("--target");
    reveal_strlit("aarch64-linux-android");
    reveal_strlit("--features");
    reveal_strlit("android");
    reveal_strlit("--release");
    let debug = spec_android_build_args(AndroidProfile::Debug);
    let args = spec_android_build_args(profile);
    assert(args[3] == "--target"@ && args[4] == "aarch64-linux-android"@);
    assert(!debug.contains("--release"@)) by {
        if debug.contains("--release"@) {
            let i = debug.index_of("--release"@);
            assert(debug[i].len() == "--release"@.len());
        }
    }
    match profile {
        AndroidProfile::Debug => {
            assert(args == debug);
            assert(!args.contains("--release"@));
            assert(spec_native_artifact_dir(profile) == "debug"@);
        },
        AndroidProfile::Release => {
            assert(args[args.len() - 1] == "--release"@);
            assert(spec_native_artifact_dir(profile) == "release"@);
        },
    }
    let build = spec_native_stage(root, profile);
    assert(build.args == args);
    assert(exists|i: int|
        0 <= i < args.len() - 1 && #[trigger] args[i] == "--target"@ && args[i + 1]
            == "aarch64-linux-android"@);
}

/// The install stage installs the APK that the assemble stage builds:
/// Gradle, run in `<root>/android` on the task `:souprune:assembleDebug`,
/// writes `souprune/build/outputs/apk/debug/souprune-debug.apk` there;
/// `adb install -r` gets that file, after `-s <serial>` when a device is
/// named.
pub proof fn lemma_install_takes_assembled_apk(root: Seq<char>, device: Option<Seq<char>>)
    ensures
        ({
            let assemble = spec_assemble_stage(root);
            let install = spec_install_stage(root, device);
            let gradle_dir = path_join(root, "android"@);
            &&& assemble.program == "./gradlew"@
            &&& assemble.cwd == Some(gradle_dir)
            &&& assemble.args[0] == ":souprune:assembleDebug"@
            &&& install.program == "adb"@
            &&& install.args.len() >= 3
            &&& install.args[install.args.len() - 3] == "install"@
            &&& install.args[install.args.len() - 2] == "-r"@
            &&& install.args.last() == path_join(
                path_join(
                    path_join(
                        path_join(path_join(path_join(gradle_dir, "souprune"@), "build"@), "outputs"@),
                        "apk"@,
                    ),
                    "debug"@,
                ),
                "souprune-debug.apk"@,
            )
            &&& match device {
                Some(serial) => install.args.len() == 5 && install.args[0] == "-s"@
                    && install.args[1] == serial,
                None => install.args.len() == 3,
            }
        }),
{
}

} // verus!
