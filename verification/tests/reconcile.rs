use udix::job::JobState;
use udix::monitor::{jobs_by_name, parse_job_records, should_be_run, JobInfo};

fn history(records: &[(&str, &str)]) -> Vec<JobInfo> {
    let raw: Vec<(String, String)> = records
        .iter()
        .map(|(n, s)| (n.to_string(), s.to_string()))
        .collect();
    parse_job_records(&raw).unwrap()
}

#[test]
fn parses_every_known_state_token() {
    assert!(JobState::parse("restartable").unwrap() == JobState::Restartable);
    assert!(JobState::parse("runnable").unwrap() == JobState::Runnable);
    assert!(JobState::parse("running").unwrap() == JobState::Running);
    assert!(JobState::parse("failed").unwrap() == JobState::Failed);
    assert!(JobState::parse("done").unwrap() == JobState::Done);
}

#[test]
fn unknown_state_token_is_a_hard_error() {
    let err = JobState::parse("paused").unwrap_err();
    assert_eq!(
        err.report(),
        "Unknown job state paused. Known job states are runnable, running, failed and done (Udix)"
    );
    let raw = vec![("j1".to_string(), "paused".to_string())];
    assert!(parse_job_records(&raw).is_err());
}

#[test]
fn state_tokens_round_trip() {
    for token in ["restartable", "runnable", "running", "failed", "done"] {
        let state = JobState::parse(token).unwrap();
        assert_eq!(state.text(), token);
    }
}

#[test]
fn absent_name_is_always_selected() {
    let jobs = history(&[("other", "done")]);
    assert!(should_be_run("vcfs2bed_c1_b0", &jobs));
    assert!(should_be_run("anything", &Vec::new()));
}

#[test]
fn done_and_running_are_never_selected() {
    let jobs = history(&[("a", "done"), ("b", "running")]);
    assert!(!should_be_run("a", &jobs));
    assert!(!should_be_run("b", &jobs));
}

#[test]
fn failed_runnable_and_restartable_are_selected() {
    let jobs = history(&[("a", "failed"), ("b", "runnable"), ("c", "restartable")]);
    assert!(should_be_run("a", &jobs));
    assert!(should_be_run("b", &jobs));
    assert!(should_be_run("c", &jobs));
}

#[test]
fn first_occurrence_wins_on_duplicate_names() {
    // A history with re-submissions: only the first record of a name counts.
    let jobs = history(&[("a", "done"), ("a", "failed"), ("b", "failed"), ("b", "done")]);
    let index = jobs_by_name(&jobs);
    assert_eq!(index.len(), 2);
    assert_eq!(index[0].name, "a");
    assert!(index[0].state == JobState::Done);
    assert_eq!(index[1].name, "b");
    assert!(index[1].state == JobState::Failed);
    assert!(!should_be_run("a", &index));
    assert!(should_be_run("b", &index));
    // The lookup answers the same on the raw history.
    assert!(!should_be_run("a", &jobs));
    assert!(should_be_run("b", &jobs));
}
