//! The job/app capability pair and the orchestration written once against
//! it: reconciling candidate jobs with the remote history, applying the
//! name filter and the count cap, and planning the submission steps.

use vstd::prelude::*;
use crate::conf::Conf;
use crate::error::Error;
use crate::monitor::{should_be_run_spec, JobInfo, JobInfoModel};
use crate::text::{contains_seq, has_prefix};

pub mod bed_merge;
pub mod vcfs2bed;

verus! {

/// A work unit staged for submission: its kind has a fixed name prefix,
/// and each job a canonical name derived purely from its grouping key.
pub trait JobStaged: Sized {
    /// The name prefix of this job kind.
    spec fn prefix_spec() -> Seq<char>;

    /// The canonical name of this job.
    spec fn name_spec(&self) -> Seq<char>;

    /// The job's key data is well formed.
    spec fn wf(&self) -> bool;

    /// The name prefix of this job kind.
    fn prefix() -> (r: &'static str)
        ensures
            r@ == Self::prefix_spec(),
    ;

    /// The canonical name of this job.
    fn name(&self) -> (r: String)
        requires
            self.wf(),
        ensures
            r@ == self.name_spec(),
    ;

    /// Whether a history record's name belongs to this job kind.
    fn is_name(name: &str) -> (r: bool)
        ensures
            r == has_prefix(name@, Self::prefix_spec()),
    {
        crate::text::str_has_prefix(name, Self::prefix())
    }
}

/// An app: it derives its candidate jobs from a remote listing and builds
/// each job's input manifest.
pub trait App {
    type Job: JobStaged;

    type Inputs: DeepView;

    /// The candidate jobs an app accepts for a listing.
    spec fn job_list_ok(lines: Seq<Seq<char>>, jobs: Seq<Self::Job>) -> bool;

    /// The listings on which building the candidate list fails.
    spec fn job_list_fails(lines: Seq<Seq<char>>) -> bool;

    /// The input manifest of a job.
    spec fn inputs_model(job: &Self::Job, conf: &Conf) -> <Self::Inputs as DeepView>::V;

    /// Builds the unfiltered candidate job list from a remote listing.
    fn create_job_list_unfiltered(lines: &Vec<String>) -> (r: Result<Vec<Self::Job>, Error>)
        ensures
            match r {
                Ok(jobs) => Self::job_list_ok(lines.deep_view(), jobs@) && (forall|k: int|
                    0 <= k < jobs.len() ==> (#[trigger] jobs@[k]).wf()),
                Err(_) => Self::job_list_fails(lines.deep_view()),
            },
    ;

    /// Builds the input manifest of one job.
    fn create_inputs_definition(job: &Self::Job, conf: &Conf) -> (r: Result<Self::Inputs, Error>)
        requires
            job.wf(),
        ensures
            r matches Ok(i) && i.deep_view() == Self::inputs_model(job, conf),
    ;
}

/// The name-substring filter, as a character sequence.
pub open spec fn pat_view(pat: Option<String>) -> Option<Seq<char>> {
    match pat {
        None => None,
        Some(p) => Some(p@),
    }
}

/// A candidate job is kept when it matches the optional name filter and
/// the history says it still needs a submission.
pub open spec fn passes_filter<J: JobStaged>(
    j: J,
    submitted: Seq<JobInfoModel>,
    pat: Option<Seq<char>>,
) -> bool {
    (match pat {
        None => true,
        Some(p) => contains_seq(j.name_spec(), p),
    }) && should_be_run_spec(j.name_spec(), submitted)
}

/// The candidates kept by the filter, in order.
pub open spec fn filtered_jobs<J: JobStaged>(
    jobs: Seq<J>,
    submitted: Seq<JobInfoModel>,
    pat: Option<Seq<char>>,
) -> Seq<J>
    decreases jobs.len(),
{
    if jobs.len() == 0 {
        Seq::empty()
    } else {
        let rest = filtered_jobs(jobs.drop_last(), submitted, pat);
        if passes_filter(jobs.last(), submitted, pat) {
            rest.push(jobs.last())
        } else {
            rest
        }
    }
}

/// Keeps the candidates that match the optional name filter and that the
/// history does not already cover.
pub fn filter_job_list<J: JobStaged>(
    jobs_unfiltered: Vec<J>,
    submitted: &Vec<JobInfo>,
    pat: &Option<String>,
) -> (r: Vec<J>)
    requires
        forall|k: int| 0 <= k < jobs_unfiltered.len() ==> (#[trigger] jobs_unfiltered@[k]).wf(),
    ensures
        r@ == filtered_jobs(jobs_unfiltered@, submitted.deep_view(), pat_view(*pat)),
        forall|k: int| 0 <= k < r.len() ==> (#[trigger] r@[k]).wf(),
{
    let ghost orig = jobs_unfiltered@;
    let ghost sv = submitted.deep_view();
    let ghost pv = pat_view(*pat);
    let mut rest = jobs_unfiltered;
    let total = rest.len();
    let mut jobs: Vec<J> = Vec::new();
    let mut i: usize = 0;
    proof {
        assert(orig.take(0) =~= Seq::<J>::empty());
        assert(jobs@ =~= filtered_jobs(orig.take(0), sv, pv));
    }
    while rest.len() > 0
        invariant
            0 <= i <= total,
            total == orig.len(),
            rest@ == orig.skip(i as int),
            sv == submitted.deep_view(),
            jobs@ == filtered_jobs(orig.take(i as int), sv, pv),
            pv == pat_view(*pat),
            forall|k: int| 0 <= k < orig.len() ==> (#[trigger] orig[k]).wf(),
            forall|k: int| 0 <= k < jobs.len() ==> (#[trigger] jobs@[k]).wf(),
        decreases rest.len(),
    {
        proof {
            assert(orig.skip(i as int).len() == orig.len() - i);
            assert(orig.skip(i as int)[0] == orig[i as int]);
            assert(orig.take(i + 1).drop_last() =~= orig.take(i as int));
            assert(orig.take(i + 1).last() == orig[i as int]);
        }
        let job = rest.remove(0);
        proof {
            assert(rest@ =~= orig.skip(i + 1));
            assert(job == orig[i as int]);
            assert(job.wf());
        }
        let name = job.name();
        let passes_pat = match pat {
            None => true,
            Some(p) => crate::text::str_contains(name.as_str(), p.as_str()),
        };
        if passes_pat && crate::monitor::should_be_run(name.as_str(), submitted) {
            let ghost pre = jobs@;
            jobs.push(job);
            proof {
                assert(jobs@ =~= pre.push(orig[i as int]));
                assert(passes_filter(orig[i as int], sv, pv));
            }
        } else {
            proof {
                assert(!passes_filter(orig[i as int], sv, pv));
            }
        }
        i = i + 1;
    }
    proof {
        assert(orig.skip(i as int).len() == 0);
        assert(i == orig.len());
        assert(orig.take(i as int) =~= orig);
    }
    jobs
}

/// One planned step of a run: report the job in dry-run mode, or launch
/// it.
pub enum RunStep<J> {
    WouldRun(J),
    Launch(J),
}

/// The job a step concerns.
pub open spec fn step_job<J>(s: RunStep<J>) -> J {
    match s {
        RunStep::WouldRun(j) => j,
        RunStep::Launch(j) => j,
    }
}

/// The selected jobs cut down to an optional count cap, order kept.
pub open spec fn truncated<J>(jobs: Seq<J>, num: Option<usize>) -> Seq<J> {
    match num {
        None => jobs,
        Some(n) => if n < jobs.len() {
            jobs.take(n as int)
        } else {
            jobs
        },
    }
}

/// The steps for the selected jobs, in order: all reports in dry-run mode,
/// all launches otherwise.
pub open spec fn steps_of<J: JobStaged>(jobs: Seq<J>, dry: bool) -> Seq<RunStep<J>>
    decreases jobs.len(),
{
    if jobs.len() == 0 {
        Seq::empty()
    } else {
        steps_of(jobs.drop_last(), dry).push(
            if dry {
                RunStep::WouldRun(jobs.last())
            } else {
                RunStep::Launch(jobs.last())
            },
        )
    }
}

/// Plans a run: builds the candidates from the listing, keeps those the
/// history does not cover and the name filter accepts, cuts the list to
/// the count cap, and emits one step per remaining job, in order. In
/// dry-run mode every step is a report and none is a launch.
pub fn run_jobs<A: App>(lines: &Vec<String>, submitted: &Vec<JobInfo>, run: &crate::selection::RunChoice) -> (r:
    Result<Vec<RunStep<A::Job>>, Error>)
    ensures
        match r {
            Ok(steps) => exists|jobs: Seq<A::Job>|
                #[trigger] A::job_list_ok(lines.deep_view(), jobs) && steps@ == steps_of(
                    truncated(
                        filtered_jobs(jobs, submitted.deep_view(), pat_view(run.pat)),
                        run.num,
                    ),
                    run.dry,
                ),
            Err(_) => A::job_list_fails(lines.deep_view()),
        },
        r matches Ok(steps) ==> forall|k: int|
            0 <= k < steps.len() ==> step_job(#[trigger] steps@[k]).wf(),
        run.dry ==> (r matches Ok(steps) ==> forall|k: int|
            0 <= k < steps.len() ==> steps@[k] is WouldRun),
{
    let jobs_unfiltered = match A::create_job_list_unfiltered(lines) {
        Ok(v) => v,
        Err(e) => {
            return Err(e);
        },
    };
    let ghost candidates = jobs_unfiltered@;
    let mut jobs = filter_job_list(jobs_unfiltered, submitted, &run.pat);
    if let Some(num) = run.num {
        jobs.truncate(num);
    }
    proof {
        assert(jobs@ == truncated(
            filtered_jobs(candidates, submitted.deep_view(), pat_view(run.pat)),
            run.num,
        )) by {
            let f = filtered_jobs(candidates, submitted.deep_view(), pat_view(run.pat));
            match run.num {
                None => {},
                Some(n) => {
                    if n < f.len() {
                        assert(jobs@ =~= f.take(n as int));
                    } else {
                        assert(jobs@ =~= f);
                    }
                },
            }
        }
    }
    let ghost selected = jobs@;
    let mut steps: Vec<RunStep<A::Job>> = Vec::new();
    let mut rest = jobs;
    let total = rest.len();
    let mut i: usize = 0;
    proof {
        assert(selected.take(0) =~= Seq::<A::Job>::empty());
        assert(steps@ =~= steps_of(selected.take(0), run.dry));
    }
    while rest.len() > 0
        invariant
            0 <= i <= total,
            total == selected.len(),
            rest@ == selected.skip(i as int),
            steps@ == steps_of(selected.take(i as int), run.dry),
            forall|k: int| 0 <= k < selected.len() ==> (#[trigger] selected[k]).wf(),
            forall|k: int| 0 <= k < steps.len() ==> step_job(#[trigger] steps@[k]).wf(),
            run.dry ==> forall|k: int| 0 <= k < steps.len() ==> steps@[k] is WouldRun,
        decreases rest.len(),
    {
        proof {
            assert(selected.skip(i as int)[0] == selected[i as int]);
            assert(selected.take(i + 1).drop_last() =~= selected.take(i as int));
            assert(selected.take(i + 1).last() == selected[i as int]);
        }
        let job = rest.remove(0);
        proof {
            assert(rest@ =~= selected.skip(i + 1));
            assert(job == selected[i as int]);
        }
        let ghost pre = steps@;
        if run.dry {
            steps.push(RunStep::WouldRun(job));
        } else {
            steps.push(RunStep::Launch(job));
        }
        proof {
            assert(steps@ =~= steps_of(selected.take(i + 1), run.dry));
        }
        i = i + 1;
    }
    proof {
        assert(selected.skip(i as int).len() == 0);
        assert(i == selected.len());
        assert(selected.take(i as int) =~= selected);
    }
    Ok(steps)
}

/// The report lines for the history records whose names belong to a job
/// kind: one line per matching record, in history order.
pub open spec fn monitor_lines_spec<J: JobStaged>(jobs: Seq<JobInfoModel>) -> Seq<Seq<char>>
    decreases jobs.len(),
{
    if jobs.len() == 0 {
        Seq::empty()
    } else {
        let rest = monitor_lines_spec::<J>(jobs.drop_last());
        let j = jobs.last();
        if has_prefix(j.name, J::prefix_spec()) {
            rest.push(
                seq!['J', 'o', 'b', ' '] + j.name + seq![' ', 'i', 's', ' ']
                    + crate::job::state_token(j.state),
            )
        } else {
            rest
        }
    }
}

/// Reports every history record whose name belongs to the job kind,
/// alongside its state; purely observational.
pub fn monitor_jobs<J: JobStaged>(jobs: &Vec<JobInfo>) -> (r: Vec<String>)
    ensures
        r.deep_view() == monitor_lines_spec::<J>(jobs.deep_view()),
{
    proof {
        reveal_strlit("Job ");
        reveal_strlit(" is ");
    }
    let ghost jv = jobs.deep_view();
    let mut lines: Vec<String> = Vec::new();
    let mut i: usize = 0;
    proof {
        assert(jv.take(0) =~= Seq::<JobInfoModel>::empty());
        assert(lines.deep_view() =~= monitor_lines_spec::<J>(jv.take(0)));
    }
    while i < jobs.len()
        invariant
            0 <= i <= jobs.len(),
            jv == jobs.deep_view(),
            jv.len() == jobs.len(),
            lines.deep_view() == monitor_lines_spec::<J>(jv.take(i as int)),
            "Job "@ == seq!['J', 'o', 'b', ' '],
            " is "@ == seq![' ', 'i', 's', ' '],
        decreases jobs.len() - i,
    {
        proof {
            assert(jv.take(i + 1).drop_last() =~= jv.take(i as int));
            assert(jv.take(i + 1).last() == jv[i as int]);
        }
        let ghost pre = lines.deep_view();
        if J::is_name(jobs[i].name.as_str()) {
            let line = String::from_str("Job ").concat(jobs[i].name.as_str()).concat(
                " is ",
            ).concat(jobs[i].state.text());
            proof {
                assert(line@ =~= seq!['J', 'o', 'b', ' '] + jv[i as int].name + seq![
                    ' ', 'i', 's', ' ',
                ] + crate::job::state_token(jv[i as int].state));
            }
            lines.push(line);
            proof {
                assert(lines.deep_view() =~= pre.push(line@));
            }
        }
        i = i + 1;
    }
    proof {
        assert(jv.take(jobs.len() as int) =~= jv);
    }
    lines
}

/// The file name a job's input manifest is written under.
pub fn inputs_file_name<J: JobStaged>(job: &J) -> (r: String)
    requires
        job.wf(),
    ensures
        r@ == seq!['i', 'n', 'p', 'u', 't', 's', '_'] + job.name_spec(),
{
    proof {
        reveal_strlit("inputs_");
    }
    let r = String::from_str("inputs_").concat(job.name().as_str());
    proof {
        assert(r@ =~= seq!['i', 'n', 'p', 'u', 't', 's', '_'] + job.name_spec());
    }
    r
}

} // verus!
