//! Build jobs: the registry of jobs by id, how a line of build output moves
//! a job's progress, and how a finished build is judged.

use std::collections::BTreeMap;

use vstd::prelude::*;
use vstd::string::*;

use super::{latest_apk_path, BuildSnapshot, BuildStatus};
use crate::process::option_view;
use crate::text::{contains_text, decimal, decimal_string, push_char, text_contains};
use crate::workspace::spec_apk_path;

verus! {

broadcast use {vstd::std_specs::btree::group_btree_axioms, vstd::laws_cmp::group_laws_cmp};

/// The number of progress steps of a build.
pub const BUILD_PROGRESS_TOTAL: u64 = 6;

/// One build job.
#[derive(Debug)]
pub struct BuildJob {
    pub id: u64,
    pub status: BuildStatus,
    pub exit_code: Option<i32>,
    pub apk_path: Option<String>,
    pub log: String,
    pub progress_current: u64,
    pub progress_total: u64,
    pub progress_message: String,
}

/// A build job as plain values.
#[verifier::ext_equal]
pub struct JobView {
    pub id: u64,
    pub status: BuildStatus,
    pub exit_code: Option<i32>,
    pub apk_path: Option<Seq<char>>,
    pub log: Seq<char>,
    pub progress_current: u64,
    pub progress_total: u64,
    pub progress_message: Seq<char>,
}

pub open spec fn job_view(job: BuildJob) -> JobView {
    JobView {
        id: job.id,
        status: job.status,
        exit_code: job.exit_code,
        apk_path: option_view(job.apk_path),
        log: job.log@,
        progress_current: job.progress_current,
        progress_total: job.progress_total,
        progress_message: job.progress_message@,
    }
}

/// A job just queued.
pub open spec fn queued_job(id: u64) -> JobView {
    JobView {
        id,
        status: BuildStatus::Queued,
        exit_code: None,
        apk_path: None,
        log: seq![],
        progress_current: 0,
        progress_total: BUILD_PROGRESS_TOTAL,
        progress_message: "queued"@,
    }
}

/// What a line of build output says of the progress: (step, steps, what).
pub open spec fn spec_parse_build_progress(line: Seq<char>) -> Option<(u64, u64, Seq<char>)> {
    if contains_text(line, "[assets]"@) {
        Some((1, BUILD_PROGRESS_TOTAL, "prepare assets"@))
    } else if contains_text(line, "[1/3]"@) {
        Some((2, BUILD_PROGRESS_TOTAL, "build native library"@))
    } else if contains_text(line, "[2/3]"@) {
        Some((4, BUILD_PROGRESS_TOTAL, "copy native libraries"@))
    } else if contains_text(line, "[3/3]"@) {
        Some((6, BUILD_PROGRESS_TOTAL, "build APK"@))
    } else if contains_text(line, "APK 构建成功"@) || contains_text(line, "APK build"@) {
        Some((BUILD_PROGRESS_TOTAL, BUILD_PROGRESS_TOTAL, "build APK"@))
    } else {
        None
    }
}

pub open spec fn progress_view(p: Option<(u64, u64, &str)>) -> Option<(u64, u64, Seq<char>)> {
    match p {
        Some((current, total, message)) => Some((current, total, message@)),
        None => None,
    }
}

/// Reads the progress marker of one line of build output, if it has one.
pub fn parse_build_progress(line: &str) -> (progress: Option<(u64, u64, &'static str)>)
    ensures
        progress_view(progress) == spec_parse_build_progress(line@),
{
    if text_contains(line, "[assets]") {
        return Some((1, BUILD_PROGRESS_TOTAL, "prepare assets"));
    }
    if text_contains(line, "[1/3]") {
        return Some((2, BUILD_PROGRESS_TOTAL, "build native library"));
    }
    if text_contains(line, "[2/3]") {
        return Some((4, BUILD_PROGRESS_TOTAL, "copy native libraries"));
    }
    if text_contains(line, "[3/3]") {
        return Some((6, BUILD_PROGRESS_TOTAL, "build APK"));
    }
    if text_contains(line, "APK 构建成功") || text_contains(line, "APK build") {
        return Some((BUILD_PROGRESS_TOTAL, BUILD_PROGRESS_TOTAL, "build APK"));
    }
    None
}

pub open spec fn min_u64(a: u64, b: u64) -> u64 {
    if a <= b {
        a
    } else {
        b
    }
}

/// The message recorded when a line moves a build's progress.
pub open spec fn spec_progress_event(id: u64, current: u64, total: u64, message: Seq<char>) -> Seq<
    char,
> {
    "build #"@ + decimal(id as nat) + " progress "@ + decimal(current as nat) + "/"@ + decimal(
        total as nat,
    ) + " "@ + message
}

/// A job after one more line of output.
pub open spec fn spec_after_output(job: JobView, line: Seq<char>) -> JobView {
    let logged = JobView { log: job.log + line + seq!['\n'], ..job };
    match spec_parse_build_progress(line) {
        Some((current, total, message)) => JobView {
            progress_current: min_u64(current, total),
            progress_total: total,
            progress_message: message,
            ..logged
        },
        None => logged,
    }
}

/// A job after its build finished with `status`.
pub open spec fn spec_finished(
    job: JobView,
    status: BuildStatus,
    exit_code: Option<i32>,
    repo_root: Seq<char>,
) -> JobView {
    if status == BuildStatus::Succeeded {
        JobView {
            status,
            exit_code,
            apk_path: Some(spec_apk_path(repo_root)),
            progress_current: BUILD_PROGRESS_TOTAL,
            progress_total: BUILD_PROGRESS_TOTAL,
            progress_message: "build succeeded"@,
            ..job
        }
    } else {
        JobView { status, exit_code, apk_path: None, progress_message: "build failed"@, ..job }
    }
}

/// How a build ended: `waited` is what waiting for the script gave
/// (`None` when waiting failed, otherwise whether it exited successfully and
/// its exit code); `reader_failed` whether reading its output failed.
pub open spec fn spec_build_outcome(waited: Option<(bool, Option<i32>)>, reader_failed: bool) -> (
    BuildStatus,
    Option<i32>,
) {
    let (status, code) = match waited {
        Some((true, code)) => (BuildStatus::Succeeded, code),
        Some((false, code)) => (BuildStatus::Failed, code),
        None => (BuildStatus::Failed, None),
    };
    if reader_failed {
        (BuildStatus::Failed, code)
    } else {
        (status, code)
    }
}

pub fn build_outcome(waited: Option<(bool, Option<i32>)>, reader_failed: bool) -> (outcome: (
    BuildStatus,
    Option<i32>,
))
    ensures
        outcome == spec_build_outcome(waited, reader_failed),
{
    let (status, code) = match waited {
        Some((true, code)) => (BuildStatus::Succeeded, code),
        Some((false, code)) => (BuildStatus::Failed, code),
        None => (BuildStatus::Failed, None),
    };
    if reader_failed {
        (BuildStatus::Failed, code)
    } else {
        (status, code)
    }
}

/// The build jobs of the server, by id, and the id the next job gets.
#[derive(Debug)]
pub struct BuildRegistry {
    next_id: u64,
    jobs: BTreeMap<u64, BuildJob>,
}

impl BuildRegistry {
    pub closed spec fn next_id(&self) -> u64 {
        self.next_id
    }

    /// The jobs, by id.
    pub closed spec fn jobs(&self) -> Map<u64, JobView> {
        self.jobs@.map_values(|job: BuildJob| job_view(job))
    }

    /// No jobs yet; the first gets id 1.
    pub fn new() -> (registry: Self)
        ensures
            registry.next_id() == 1,
            registry.jobs() == Map::<u64, JobView>::empty(),
    {
        let registry = BuildRegistry { next_id: 1, jobs: BTreeMap::new() };
        assert(registry.jobs() =~= Map::<u64, JobView>::empty());
        registry
    }

    /// The number of jobs.
    pub fn len(&self) -> (n: usize)
        ensures
            n == self.jobs().dom().len(),
    {
        assert(self.jobs().dom() =~= self.jobs@.dom());
        self.jobs.len()
    }

    /// Queues a new job under the next id, which then advances (wrapping
    /// like an atomic counter).
    pub fn queue(&mut self) -> (id: u64)
        ensures
            id == old(self).next_id(),
            final(self).next_id() == (if id == u64::MAX { 0 } else { (id + 1) as u64 }),
            final(self).jobs() == old(self).jobs().insert(id, queued_job(id)),
    {
        let id = self.next_id;
        self.next_id = self.next_id.wrapping_add(1);
        let job = BuildJob {
            id,
            status: BuildStatus::Queued,
            exit_code: None,
            apk_path: None,
            log: String::new(),
            progress_current: 0,
            progress_total: BUILD_PROGRESS_TOTAL,
            progress_message: "queued".to_owned(),
        };
        proof {
            assert(job_view(job) =~= queued_job(id));
        }
        let ghost before = self.jobs@;
        self.jobs.insert(id, job);
        proof {
            assert(self.jobs() =~= before.map_values(|job: BuildJob| job_view(job)).insert(
                id,
                queued_job(id),
            ));
        }
        id
    }

    /// Takes job `id` out of the map, if there is one.
    fn take(&mut self, id: u64) -> (job: Option<BuildJob>)
        ensures
            final(self).next_id() == old(self).next_id(),
            final(self).jobs() == old(self).jobs().remove(id),
            match job {
                Some(j) => old(self).jobs().contains_key(id) && old(self).jobs()[id] == job_view(j),
                None => !old(self).jobs().contains_key(id),
            },
    {
        let ghost before = self.jobs@;
        let job = self.jobs.remove(&id);
        proof {
            assert(self.jobs() =~= before.map_values(|job: BuildJob| job_view(job)).remove(id));
        }
        job
    }

    /// Puts job `id` back.
    fn put(&mut self, id: u64, job: BuildJob)
        ensures
            final(self).next_id() == old(self).next_id(),
            final(self).jobs() == old(self).jobs().insert(id, job_view(job)),
    {
        let ghost before = self.jobs@;
        let ghost view = job_view(job);
        self.jobs.insert(id, job);
        proof {
            assert(self.jobs() =~= before.map_values(|job: BuildJob| job_view(job)).insert(
                id,
                view,
            ));
        }
    }

    /// Sets the status, exit code and APK of job `id`, and its log unless
    /// `log` is empty.
    pub fn set_status(
        &mut self,
        id: u64,
        status: BuildStatus,
        exit_code: Option<i32>,
        apk_path: Option<String>,
        log: String,
    )
        ensures
            final(self).next_id() == old(self).next_id(),
            final(self).jobs() == if old(self).jobs().contains_key(id) {
                let job = old(self).jobs()[id];
                old(self).jobs().insert(
                    id,
                    JobView {
                        status,
                        exit_code,
                        apk_path: option_view(apk_path),
                        log: if log@.len() == 0 {
                            job.log
                        } else {
                            log@
                        },
                        ..job
                    },
                )
            } else {
                old(self).jobs()
            },
    {
        match self.take(id) {
            Some(mut job) => {
                job.status = status;
                job.exit_code = exit_code;
                job.apk_path = apk_path;
                if log.unicode_len() > 0 {
                    job.log = log;
                }
                self.put(id, job);
                proof {
                    assert(self.jobs() =~= old(self).jobs().insert(id, job_view(job)));
                }
            },
            None => {
                proof {
                    assert(self.jobs() =~= old(self).jobs());
                }
            },
        }
    }

    /// Sets the progress of job `id`, the step capped at `total`.
    pub fn set_progress(&mut self, id: u64, current: u64, total: u64, message: String)
        ensures
            final(self).next_id() == old(self).next_id(),
            final(self).jobs() == if old(self).jobs().contains_key(id) {
                old(self).jobs().insert(
                    id,
                    JobView {
                        progress_current: min_u64(current, total),
                        progress_total: total,
                        progress_message: message@,
                        ..old(self).jobs()[id]
                    },
                )
            } else {
                old(self).jobs()
            },
    {
        match self.take(id) {
            Some(mut job) => {
                job.progress_current = if current <= total {
                    current
                } else {
                    total
                };
                job.progress_total = total;
                job.progress_message = message;
                self.put(id, job);
                proof {
                    assert(self.jobs() =~= old(self).jobs().insert(id, job_view(job)));
                }
            },
            None => {
                proof {
                    assert(self.jobs() =~= old(self).jobs());
                }
            },
        }
    }

    /// Appends one line of build output to the log of job `id` and moves
    /// its progress when the line marks a step; returns the event to record
    /// when it did.
    pub fn append_output_line(&mut self, id: u64, line: &str) -> (event: Option<String>)
        ensures
            final(self).next_id() == old(self).next_id(),
            final(self).jobs() == if old(self).jobs().contains_key(id) {
                old(self).jobs().insert(id, spec_after_output(old(self).jobs()[id], line@))
            } else {
                old(self).jobs()
            },
            match event {
                Some(text) => old(self).jobs().contains_key(id) && spec_parse_build_progress(
                    line@,
                ) is Some && text@ == spec_progress_event(
                    id,
                    final(self).jobs()[id].progress_current,
                    final(self).jobs()[id].progress_total,
                    final(self).jobs()[id].progress_message,
                ),
                None => !old(self).jobs().contains_key(id) || spec_parse_build_progress(
                    line@,
                ) is None,
            },
    {
        match self.take(id) {
            Some(mut job) => {
                job.log.append(line);
                push_char(&mut job.log, '\n');
                let mut event: Option<String> = None;
                match parse_build_progress(line) {
                    Some((current, total, message)) => {
                        job.progress_current = if current <= total {
                            current
                        } else {
                            total
                        };
                        job.progress_total = total;
                        job.progress_message = message.to_owned();
                        let mut text = "build #".to_owned();
                        text.append(decimal_string(id).as_str());
                        text.append(" progress ");
                        text.append(decimal_string(job.progress_current).as_str());
                        text.append("/");
                        text.append(decimal_string(job.progress_total).as_str());
                        text.append(" ");
                        text.append(job.progress_message.as_str());
                        event = Some(text);
                    },
                    None => {},
                }
                proof {
                    assert(job_view(job) =~= spec_after_output(old(self).jobs()[id], line@));
                }
                self.put(id, job);
                proof {
                    assert(self.jobs() =~= old(self).jobs().insert(
                        id,
                        spec_after_output(old(self).jobs()[id], line@),
                    ));
                }
                event
            },
            None => {
                proof {
                    assert(self.jobs() =~= old(self).jobs());
                }
                None
            },
        }
    }

    /// Records the end of job `id`: its status and exit code, the APK of
    /// the repository at `repo_root` when it succeeded, and its progress.
    pub fn finish(&mut self, id: u64, status: BuildStatus, exit_code: Option<i32>, repo_root: &str)
        ensures
            final(self).next_id() == old(self).next_id(),
            final(self).jobs() == if old(self).jobs().contains_key(id) {
                old(self).jobs().insert(
                    id,
                    spec_finished(old(self).jobs()[id], status, exit_code, repo_root@),
                )
            } else {
                old(self).jobs()
            },
    {
        let succeeded = match status {
            BuildStatus::Succeeded => true,
            _ => false,
        };
        let apk_path = if succeeded {
            Some(latest_apk_path(repo_root))
        } else {
            None
        };
        match self.take(id) {
            Some(mut job) => {
                job.status = status;
                job.exit_code = exit_code;
                job.apk_path = apk_path;
                if succeeded {
                    job.progress_current = BUILD_PROGRESS_TOTAL;
                    job.progress_total = BUILD_PROGRESS_TOTAL;
                    job.progress_message = "build succeeded".to_owned();
                } else {
                    job.progress_message = "build failed".to_owned();
                }
                proof {
                    assert(job_view(job) =~= spec_finished(
                        old(self).jobs()[id],
                        status,
                        exit_code,
                        repo_root@,
                    ));
                }
                self.put(id, job);
                proof {
                    assert(self.jobs() =~= old(self).jobs().insert(
                        id,
                        spec_finished(old(self).jobs()[id], status, exit_code, repo_root@),
                    ));
                }
            },
            None => {
                proof {
                    assert(self.jobs() =~= old(self).jobs());
                }
            },
        }
    }

    /// The state of job `id`, if there is such a job.
    pub fn snapshot(&self, id: u64) -> (snapshot: Option<BuildSnapshot>)
        ensures
            match snapshot {
                Some(s) => self.jobs().contains_key(id) && {
                    let job = self.jobs()[id];
                    &&& s.id == job.id
                    &&& s.status == job.status
                    &&& s.exit_code == job.exit_code
                    &&& option_view(s.apk_path) == job.apk_path
                    &&& s.log@ == job.log
                    &&& s.progress_current == job.progress_current
                    &&& s.progress_total == job.progress_total
                    &&& s.progress_message@ == job.progress_message
                },
                None => !self.jobs().contains_key(id),
            },
    {
        match self.jobs.get(&id) {
            Some(job) => Some(
                BuildSnapshot {
                    id: job.id,
                    status: job.status,
                    exit_code: job.exit_code,
                    apk_path: match &job.apk_path {
                        Some(p) => Some(p.clone()),
                        None => None,
                    },
                    log: job.log.clone(),
                    progress_current: job.progress_current,
                    progress_total: job.progress_total,
                    progress_message: job.progress_message.clone(),
                },
            ),
            None => None,
        }
    }
}

/// A job's step never exceeds its number of steps: a queued job starts at
/// step 0 of 6, and output lines, progress updates and the end of the build
/// keep the step within the steps.
pub proof fn lemma_progress_within_total(
    job: JobView,
    line: Seq<char>,
    current: u64,
    total: u64,
    message: Seq<char>,
    status: BuildStatus,
    exit_code: Option<i32>,
    repo_root: Seq<char>,
    id: u64,
)
    requires
        job.progress_current <= job.progress_total,
    ensures
        queued_job(id).progress_current <= queued_job(id).progress_total,
        spec_after_output(job, line).progress_current <= spec_after_output(job, line).progress_total,
        min_u64(current, total) <= total,
        spec_finished(job, status, exit_code, repo_root).progress_current <= spec_finished(
            job,
            status,
            exit_code,
            repo_root,
        ).progress_total,
{
}

/// The lines, each followed by a newline.
pub open spec fn newline_terminated(lines: Seq<Seq<char>>) -> Seq<char>
    decreases lines.len(),
{
    if lines.len() == 0 {
        seq![]
    } else {
        newline_terminated(lines.drop_last()) + lines.last() + seq!['\n']
    }
}

/// A job after each of `lines` of output in turn.
pub open spec fn after_outputs(job: JobView, lines: Seq<Seq<char>>) -> JobView
    decreases lines.len(),
{
    if lines.len() == 0 {
        job
    } else {
        spec_after_output(after_outputs(job, lines.drop_last()), lines.last())
    }
}

/// A line of output is added to the log followed by a newline, and leaves
/// the job's id, status, exit code and APK as they were; so a job's log,
/// from its queueing on, is its output lines, each ended by `\n`.
pub proof fn lemma_output_log(job: JobView, line: Seq<char>, lines: Seq<Seq<char>>, id: u64)
    ensures
        spec_after_output(job, line).log == job.log + line + seq!['\n'],
        spec_after_output(job, line).log.last() == '\n',
        spec_after_output(job, line).id == job.id,
        spec_after_output(job, line).status == job.status,
        spec_after_output(job, line).exit_code == job.exit_code,
        spec_after_output(job, line).apk_path == job.apk_path,
        after_outputs(queued_job(id), lines).log == newline_terminated(lines),
    decreases lines.len(),
{
    if lines.len() > 0 {
        lemma_output_log(job, line, lines.drop_last(), id);
    }
}

/// A build that finished successfully is at its last step, `6/6`, with
/// the repository's APK; one that did not keeps its step and has no APK.
/// Either way its log is left as it was.
pub proof fn lemma_finished_progress(
    job: JobView,
    status: BuildStatus,
    exit_code: Option<i32>,
    repo_root: Seq<char>,
)
    ensures
        ({
            let done = spec_finished(job, status, exit_code, repo_root);
            &&& done.status == status
            &&& done.exit_code == exit_code
            &&& done.log == job.log
            &&& status == BuildStatus::Succeeded ==> {
                &&& done.progress_current == 6
                &&& done.progress_total == 6
                &&& done.progress_current == done.progress_total
                &&& done.progress_message == "build succeeded"@
                &&& done.apk_path == Some(spec_apk_path(repo_root))
            }
            &&& status != BuildStatus::Succeeded ==> {
                &&& done.progress_current == job.progress_current
                &&& done.progress_total == job.progress_total
                &&& done.progress_message == "build failed"@
                &&& done.apk_path is None
            }
        }),
{
}

} // verus!
