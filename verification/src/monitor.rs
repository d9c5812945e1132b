//! The remote job-history snapshot: parsing raw records into typed jobs and
//! indexing them by name, first occurrence winning.

use vstd::prelude::*;
use crate::error::Error;
use crate::job::{parse_state_spec, state_needs_submission, JobState};
use crate::text::str_eq;

verus! {

/// One job of the remote history: its name and its state.
pub struct JobInfo {
    pub name: String,
    pub state: JobState,
}

/// The mathematical value of a [`JobInfo`].
#[verifier::ext_equal]
pub struct JobInfoModel {
    pub name: Seq<char>,
    pub state: JobState,
}

impl View for JobInfo {
    type V = JobInfoModel;

    open spec fn view(&self) -> JobInfoModel {
        JobInfoModel { name: self.name@, state: self.state }
    }
}

impl DeepView for JobInfo {
    type V = JobInfoModel;

    open spec fn deep_view(&self) -> JobInfoModel {
        self.view()
    }
}

/// The state of the first record with a given name, if any: the rule by
/// which a history with re-submissions is read.
pub open spec fn first_with_name(jobs: Seq<JobInfoModel>, name: Seq<char>) -> Option<JobState>
    decreases jobs.len(),
{
    if jobs.len() == 0 {
        None
    } else if jobs.first().name == name {
        Some(jobs.first().state)
    } else {
        first_with_name(jobs.drop_first(), name)
    }
}

/// There is a first record with this name exactly when some record has it.
pub proof fn lemma_first_with_name_contains(jobs: Seq<JobInfoModel>, name: Seq<char>)
    ensures
        first_with_name(jobs, name) is Some <==> exists|k: int|
            0 <= k < jobs.len() && (#[trigger] jobs[k]).name == name,
    decreases jobs.len(),
{
    if jobs.len() > 0 {
        lemma_first_with_name_contains(jobs.drop_first(), name);
        if jobs.first().name == name {
            assert(jobs[0].name == name);
        } else if first_with_name(jobs.drop_first(), name) is Some {
            let k = choose|k: int|
                0 <= k < jobs.drop_first().len() && (#[trigger] jobs.drop_first()[k]).name == name;
            assert(jobs[k + 1].name == name);
        } else {
            assert forall|k: int| 0 <= k < jobs.len() implies (#[trigger] jobs[k]).name != name by {
                if k > 0 {
                    assert(jobs.drop_first()[k - 1] == jobs[k]);
                }
            }
        }
    }
}

/// Appending a record changes a lookup only where no earlier record had
/// the name.
pub proof fn lemma_first_with_name_push(jobs: Seq<JobInfoModel>, j: JobInfoModel, name: Seq<char>)
    ensures
        first_with_name(jobs.push(j), name) == (if first_with_name(jobs, name) is Some {
            first_with_name(jobs, name)
        } else if j.name == name {
            Some(j.state)
        } else {
            None
        }),
    decreases jobs.len(),
{
    if jobs.len() == 0 {
        assert(jobs.push(j).first() == j);
        assert(jobs.push(j).drop_first() =~= Seq::<JobInfoModel>::empty());
    } else {
        assert(jobs.push(j).first() == jobs.first());
        assert(jobs.push(j).drop_first() =~= jobs.drop_first().push(j));
        lemma_first_with_name_push(jobs.drop_first(), j, name);
    }
}

/// What parsing raw history records yields: the records in order, or
/// nothing if any state token is unknown.
pub open spec fn scan_records(records: Seq<(Seq<char>, Seq<char>)>) -> Option<Seq<JobInfoModel>>
    decreases records.len(),
{
    if records.len() == 0 {
        Some(Seq::empty())
    } else {
        match scan_records(records.drop_last()) {
            None => None,
            Some(rest) => match parse_state_spec(records.last().1) {
                None => None,
                Some(state) => Some(rest.push(JobInfoModel { name: records.last().0, state })),
            },
        }
    }
}

/// Once a front segment of the records fails the scan, the whole fails it.
proof fn lemma_scan_records_none_extends(records: Seq<(Seq<char>, Seq<char>)>, i: int)
    requires
        0 <= i <= records.len(),
        scan_records(records.take(i)) is None,
    ensures
        scan_records(records) is None,
    decreases records.len() - i,
{
    if i < records.len() {
        assert(records.take(i + 1).drop_last() =~= records.take(i));
        lemma_scan_records_none_extends(records, i + 1);
    } else {
        assert(records.take(i) =~= records);
    }
}

/// Parses raw history records, each a name and a state token, into typed
/// jobs. An unknown state token is a hard error.
pub fn parse_job_records(records: &Vec<(String, String)>) -> (r: Result<Vec<JobInfo>, Error>)
    ensures
        match r {
            Ok(jobs) => scan_records(records.deep_view()) == Some(jobs.deep_view()),
            Err(_) => scan_records(records.deep_view()) is None,
        },
{
    let mut jobs: Vec<JobInfo> = Vec::new();
    let mut i: usize = 0;
    proof {
        assert(records.deep_view().take(0) =~= Seq::<(Seq<char>, Seq<char>)>::empty());
        assert(jobs.deep_view() =~= Seq::<JobInfoModel>::empty());
    }
    while i < records.len()
        invariant
            0 <= i <= records.len(),
            records.deep_view().len() == records.len(),
            scan_records(records.deep_view().take(i as int)) == Some(jobs.deep_view()),
        decreases records.len() - i,
    {
        let ghost pre = jobs.deep_view();
        proof {
            assert(records.deep_view().take(i + 1).drop_last() =~= records.deep_view().take(
                i as int,
            ));
            assert(records.deep_view().take(i + 1).last() == records.deep_view()[i as int]);
            assert(records.deep_view()[i as int].0 == records[i as int].0@);
            assert(records.deep_view()[i as int].1 == records[i as int].1@);
        }
        let state = match JobState::parse(records[i].1.as_str()) {
            Ok(s) => s,
            Err(e) => {
                proof {
                    lemma_scan_records_none_extends(records.deep_view(), i + 1);
                }
                return Err(e);
            },
        };
        let name = records[i].0.clone();
        jobs.push(JobInfo { name, state });
        proof {
            assert(jobs.deep_view() =~= pre.push(
                JobInfoModel { name: records.deep_view()[i as int].0, state },
            ));
        }
        i = i + 1;
    }
    proof {
        assert(records.deep_view().take(records.len() as int) =~= records.deep_view());
    }
    Ok(jobs)
}

/// Whether some record carries this name.
fn contains_name(jobs: &Vec<JobInfo>, name: &str) -> (r: bool)
    ensures
        r == exists|k: int| 0 <= k < jobs.len() && (#[trigger] jobs.deep_view()[k]).name == name@,
{
    let mut i: usize = 0;
    while i < jobs.len()
        invariant
            0 <= i <= jobs.len(),
            jobs.deep_view().len() == jobs.len(),
            forall|k: int| 0 <= k < i ==> (#[trigger] jobs.deep_view()[k]).name != name@,
        decreases jobs.len() - i,
    {
        if str_eq(jobs[i].name.as_str(), name) {
            proof {
                assert((jobs.deep_view()[i as int]).name == name@);
            }
            return true;
        }
        i = i + 1;
    }
    false
}

/// The records with the first of each name kept, in order, and later
/// re-submissions dropped.
pub open spec fn dedup_first(jobs: Seq<JobInfoModel>) -> Seq<JobInfoModel>
    decreases jobs.len(),
{
    if jobs.len() == 0 {
        Seq::empty()
    } else {
        let rest = dedup_first(jobs.drop_last());
        if first_with_name(jobs.drop_last(), jobs.last().name) is Some {
            rest
        } else {
            rest.push(jobs.last())
        }
    }
}

/// Indexes the history by name: keeps the first record of each name and
/// drops later re-submissions, leaving every lookup unchanged.
pub fn jobs_by_name(jobs: &Vec<JobInfo>) -> (r: Vec<JobInfo>)
    ensures
        r.deep_view() == dedup_first(jobs.deep_view()),
        forall|n: Seq<char>|
            #[trigger] first_with_name(r.deep_view(), n) == first_with_name(jobs.deep_view(), n),
        forall|k1: int, k2: int|
            0 <= k1 < k2 < r.len() ==> (#[trigger] r.deep_view()[k1]).name != (
            #[trigger] r.deep_view()[k2]).name,
{
    let mut r: Vec<JobInfo> = Vec::new();
    let mut i: usize = 0;
    proof {
        assert(r.deep_view() =~= Seq::<JobInfoModel>::empty());
        assert(jobs.deep_view().take(0) =~= Seq::<JobInfoModel>::empty());
    }
    while i < jobs.len()
        invariant
            0 <= i <= jobs.len(),
            jobs.deep_view().len() == jobs.len(),
            r.deep_view().len() == r.len(),
            r.deep_view() == dedup_first(jobs.deep_view().take(i as int)),
            forall|n: Seq<char>|
                #[trigger] first_with_name(r.deep_view(), n) == first_with_name(
                    jobs.deep_view().take(i as int),
                    n,
                ),
            forall|k1: int, k2: int|
                0 <= k1 < k2 < r.len() ==> (#[trigger] r.deep_view()[k1]).name != (
                #[trigger] r.deep_view()[k2]).name,
        decreases jobs.len() - i,
    {
        let ghost pre = r.deep_view();
        let ghost jv = jobs.deep_view();
        proof {
            assert(jv.take(i + 1).drop_last() =~= jv.take(i as int));
            assert(jv.take(i + 1) =~= jv.take(i as int).push(jv[i as int]));
        }
        let present = contains_name(&r, jobs[i].name.as_str());
        proof {
            lemma_first_with_name_contains(pre, jv[i as int].name);
            assert(present == (first_with_name(pre, jv[i as int].name) is Some));
            assert(present == (first_with_name(jv.take(i as int), jv[i as int].name) is Some));
            assert(jv.take(i + 1).last() == jv[i as int]);
            if present {
                assert(dedup_first(jv.take(i + 1)) == pre);
            } else {
                assert(dedup_first(jv.take(i + 1)) == pre.push(jv[i as int]));
            }
        }
        if !present {
            r.push(JobInfo { name: jobs[i].name.clone(), state: jobs[i].state });
            proof {
                assert(r.deep_view() =~= pre.push(jv[i as int]));
            }
        }
        proof {
            lemma_first_with_name_contains(pre, jv[i as int].name);
            assert forall|n: Seq<char>| #[trigger]
                first_with_name(r.deep_view(), n) == first_with_name(jv.take(i + 1), n) by {
                lemma_first_with_name_push(jv.take(i as int), jv[i as int], n);
                if !present {
                    lemma_first_with_name_push(pre, jv[i as int], n);
                    if n == jv[i as int].name {
                        lemma_first_with_name_contains(pre, n);
                    }
                } else {
                    if n == jv[i as int].name {
                        lemma_first_with_name_contains(pre, n);
                    }
                }
            }
            if !present {
                assert forall|k1: int, k2: int|
                    0 <= k1 < k2 < r.len() implies (#[trigger] r.deep_view()[k1]).name != (
                #[trigger] r.deep_view()[k2]).name by {
                    if k2 == r.len() - 1 {
                        assert(r.deep_view()[k1] == pre[k1]);
                        lemma_first_with_name_contains(pre, jv[i as int].name);
                        assert(first_with_name(pre, jv[i as int].name) is None);
                        if pre[k1].name == jv[i as int].name {
                            assert(0 <= k1 < pre.len() && pre[k1].name == jv[i as int].name);
                        }
                    }
                }
            }
        }
        i = i + 1;
    }
    proof {
        assert(jobs.deep_view().take(jobs.len() as int) =~= jobs.deep_view());
    }
    r
}

/// Whether a job of this name still needs a submission: yes if the history
/// has no record of the name, or its first record's state calls for one.
pub open spec fn should_be_run_spec(name: Seq<char>, jobs: Seq<JobInfoModel>) -> bool {
    match first_with_name(jobs, name) {
        None => true,
        Some(state) => state_needs_submission(state),
    }
}

/// Decides from the history whether a job of this name needs a submission.
pub fn should_be_run(name: &str, jobs: &Vec<JobInfo>) -> (r: bool)
    ensures
        r == should_be_run_spec(name@, jobs.deep_view()),
{
    let ghost jv = jobs.deep_view();
    let mut i: usize = 0;
    proof {
        assert(jv.skip(0) =~= jv);
    }
    while i < jobs.len()
        invariant
            0 <= i <= jobs.len(),
            jv == jobs.deep_view(),
            jv.len() == jobs.len(),
            first_with_name(jv, name@) == first_with_name(jv.skip(i as int), name@),
        decreases jobs.len() - i,
    {
        proof {
            assert(jv.skip(i as int).first() == jv[i as int]);
            assert(jv.skip(i as int).drop_first() =~= jv.skip(i + 1));
        }
        if str_eq(jobs[i].name.as_str(), name) {
            return jobs[i].state.needs_to_be_submitted();
        }
        i = i + 1;
    }
    proof {
        assert(jv.skip(jobs.len() as int) =~= Seq::<JobInfoModel>::empty());
    }
    true
}

} // verus!
