use udix::apps::bed_merge::AppBedMerge;
use udix::apps::vcfs2bed::{AppVcfs2Bed, JobVcfs2Bed};
use udix::apps::{inputs_file_name, monitor_jobs, run_jobs, App, JobStaged, RunStep};
use udix::conf::{Conf, DataConf, Misc, WorkspaceConf};
use udix::monitor::{parse_job_records, JobInfo};
use udix::selection::RunChoice;

fn listing_101() -> Vec<String> {
    (0..=100).map(|i| format!("s_c1_b{}.vcf.gz", i)).collect()
}

fn submitted_history(records: &[(&str, &str)]) -> Vec<JobInfo> {
    let raw: Vec<(String, String)> = records
        .iter()
        .map(|(n, s)| (n.to_string(), s.to_string()))
        .collect();
    parse_job_records(&raw).unwrap()
}

fn test_conf() -> Conf {
    Conf {
        data: DataConf {
            vcfs_dir: "/data/vcfs/".to_string(),
            beds_dir: "/data/beds/".to_string(),
        },
        workspace: WorkspaceConf { work_dir: "~/udix/work".to_string() },
        misc: Misc { start_date: "2023-01-01".to_string() },
    }
}

fn step_name(step: &RunStep<JobVcfs2Bed>) -> String {
    match step {
        RunStep::WouldRun(j) => j.name(),
        RunStep::Launch(j) => j.name(),
    }
}

#[test]
fn names_candidates_per_block() {
    let jobs = AppVcfs2Bed::create_job_list_unfiltered(&listing_101()).unwrap();
    assert_eq!(jobs.len(), 2);
    assert_eq!(jobs[0].name(), "vcfs2bed_c1_b0");
    assert_eq!(jobs[1].name(), "vcfs2bed_c1_b1");
}

#[test]
fn done_jobs_are_not_submitted_again() {
    // With block 0 already done, only block 1 remains.
    let submitted = submitted_history(&[("vcfs2bed_c1_b0", "done")]);
    let run = RunChoice { num: None, dry: false, pat: None };
    let steps = run_jobs::<AppVcfs2Bed>(&listing_101(), &submitted, &run).unwrap();
    assert_eq!(steps.len(), 1);
    assert!(matches!(steps[0], RunStep::Launch(_)));
    assert_eq!(step_name(&steps[0]), "vcfs2bed_c1_b1");
}

#[test]
fn dry_run_never_launches() {
    let submitted: Vec<JobInfo> = Vec::new();
    let run = RunChoice { num: None, dry: true, pat: None };
    let steps = run_jobs::<AppVcfs2Bed>(&listing_101(), &submitted, &run).unwrap();
    assert_eq!(steps.len(), 2);
    for step in &steps {
        assert!(matches!(step, RunStep::WouldRun(_)));
        assert!(!matches!(step, RunStep::Launch(_)));
    }
}

#[test]
fn count_cap_keeps_the_front_of_the_order() {
    let submitted: Vec<JobInfo> = Vec::new();
    let run = RunChoice { num: Some(1), dry: false, pat: None };
    let steps = run_jobs::<AppVcfs2Bed>(&listing_101(), &submitted, &run).unwrap();
    assert_eq!(steps.len(), 1);
    assert_eq!(step_name(&steps[0]), "vcfs2bed_c1_b0");
}

#[test]
fn pattern_filters_by_name_substring() {
    let submitted: Vec<JobInfo> = Vec::new();
    let run = RunChoice { num: None, dry: false, pat: Some("_b1".to_string()) };
    let steps = run_jobs::<AppVcfs2Bed>(&listing_101(), &submitted, &run).unwrap();
    assert_eq!(steps.len(), 1);
    assert_eq!(step_name(&steps[0]), "vcfs2bed_c1_b1");
}

#[test]
fn vcfs2bed_manifest_lists_block_paths() {
    let jobs = AppVcfs2Bed::create_job_list_unfiltered(&listing_101()).unwrap();
    let conf = test_conf();
    let inputs = AppVcfs2Bed::create_inputs_definition(&jobs[1], &conf).unwrap();
    assert_eq!(inputs.vcfs, vec!["/data/vcfs/s_c1_b100.vcf.gz".to_string()]);
    assert_eq!(inputs.out_prefix, "vcfs2bed_c1_b1");
    assert_eq!(inputs_file_name(&jobs[1]), "inputs_vcfs2bed_c1_b1");
}

#[test]
fn bedmerge_manifest_lists_member_paths() {
    let listing: Vec<String> = vec![
        "x_c1_b0.bed", "x_c1_b0.bim", "x_c1_b0.fam",
        "x_c1_b1.bed", "x_c1_b1.bim", "x_c1_b1.fam",
    ]
    .into_iter()
    .map(|s| s.to_string())
    .collect();
    let jobs = AppBedMerge::create_job_list_unfiltered(&listing).unwrap();
    assert_eq!(jobs.len(), 1);
    assert_eq!(jobs[0].name(), "bedmerge_c1");
    let conf = test_conf();
    let inputs = AppBedMerge::create_inputs_definition(&jobs[0], &conf).unwrap();
    assert_eq!(
        inputs.beds,
        vec!["/data/beds/x_c1_b0.bed".to_string(), "/data/beds/x_c1_b1.bed".to_string()]
    );
    assert_eq!(
        inputs.bims,
        vec!["/data/beds/x_c1_b0.bim".to_string(), "/data/beds/x_c1_b1.bim".to_string()]
    );
    assert_eq!(
        inputs.fams,
        vec!["/data/beds/x_c1_b0.fam".to_string(), "/data/beds/x_c1_b1.fam".to_string()]
    );
    assert_eq!(inputs.out_prefix, "bedmerge_c1");
}

#[test]
fn monitor_reports_only_matching_names() {
    let jobs = submitted_history(&[
        ("vcfs2bed_c1_b0", "done"),
        ("bedmerge_c1", "running"),
        ("vcfs2bed_c1_b1", "failed"),
    ]);
    let lines = monitor_jobs::<JobVcfs2Bed>(&jobs);
    assert_eq!(
        lines,
        vec![
            "Job vcfs2bed_c1_b0 is done".to_string(),
            "Job vcfs2bed_c1_b1 is failed".to_string(),
        ]
    );
}

#[test]
fn is_name_checks_the_kind_prefix() {
    assert!(JobVcfs2Bed::is_name("vcfs2bed_c7_b3"));
    assert!(!JobVcfs2Bed::is_name("bedmerge_c7"));
    assert!(!JobVcfs2Bed::is_name(""));
}
