use udix::data::chromosome::Chromosome;
use udix::data::vcfs::{get_vcf_files, get_vcf_files_sorted, VcfFile, BLOCK_SIZE};

#[test]
fn block_size_is_one_hundred() {
    assert_eq!(BLOCK_SIZE, 100);
}

#[test]
fn block_index_is_sequence_index_over_block_size() {
    let key = |i| udix::data::vcfs::VcfFileKey {
        chromosome: Chromosome::Auto(1),
        i_file: i,
    };
    assert_eq!(key(0).i_block(), 0);
    assert_eq!(key(99).i_block(), 0);
    assert_eq!(key(100).i_block(), 1);
    assert_eq!(key(250).i_block(), 2);
}

#[test]
fn parses_a_vcf_line() {
    let f = VcfFile::parse_if_vcf("cohort_c12_b42_v1.vcf.gz").unwrap().unwrap();
    assert!(matches!(f.key.chromosome, Chromosome::Auto(12)));
    assert_eq!(f.key.i_file, 42);
    assert_eq!(f.name, "cohort_c12_b42_v1.vcf.gz");
}

#[test]
fn round_trips_grammar_components() {
    // The parsed components rebuild the basename they came from.
    let f = VcfFile::parse_if_vcf("s_c7_b3.vcf.gz").unwrap().unwrap();
    let rebuilt = format!(
        "s_c{}_b{}.vcf.gz",
        f.key.chromosome.text(),
        f.key.i_file
    );
    assert_eq!(rebuilt, "s_c7_b3.vcf.gz");
}

#[test]
fn skips_lines_with_other_suffixes() {
    assert!(VcfFile::parse_if_vcf("notes.txt").unwrap().is_none());
    assert!(VcfFile::parse_if_vcf("s_c1_b0.bed").unwrap().is_none());
    assert!(VcfFile::parse_if_vcf("").unwrap().is_none());
}

#[test]
fn rejects_malformed_vcf_lines() {
    // Recognized suffix but a body that misses the grammar is a hard error.
    assert!(VcfFile::parse_if_vcf("justonepart.vcf.gz").is_err());
    assert!(VcfFile::parse_if_vcf("s_c1.vcf.gz").is_err());
    assert!(VcfFile::parse_if_vcf("s_cZ_b0.vcf.gz").is_err());
    assert!(VcfFile::parse_if_vcf("s_c1_x0.vcf.gz").is_err());
    assert!(VcfFile::parse_if_vcf("s_c1_b.vcf.gz").is_err());
    assert!(VcfFile::parse_if_vcf("s_c1_bq7.vcf.gz").is_err());
}

#[test]
fn parse_basename_reports_the_name() {
    let err = VcfFile::parse_basename("bad.vcf.gz", "bad").unwrap_err();
    assert_eq!(err.report(), "Cannot parse VCF file 'bad.vcf.gz'. (Udix)");
}

#[test]
fn collects_only_vcf_lines() {
    let lines = vec![
        "s_c2_b1.vcf.gz".to_string(),
        "readme.md".to_string(),
        "s_c1_b0.vcf.gz".to_string(),
    ];
    let files = get_vcf_files(&lines).unwrap();
    assert_eq!(files.len(), 2);
    assert_eq!(files[0].name, "s_c2_b1.vcf.gz");
    assert_eq!(files[1].name, "s_c1_b0.vcf.gz");
}

#[test]
fn one_bad_vcf_line_aborts_the_pass() {
    let lines = vec!["s_c1_b0.vcf.gz".to_string(), "s_c1_bbad.vcf.gz".to_string()];
    assert!(get_vcf_files(&lines).is_err());
}

#[test]
fn sorts_by_chromosome_then_index() {
    let lines = vec![
        "s_cX_b0.vcf.gz".to_string(),
        "s_c2_b10.vcf.gz".to_string(),
        "s_c2_b2.vcf.gz".to_string(),
        "s_c10_b0.vcf.gz".to_string(),
        "s_c1_b5.vcf.gz".to_string(),
    ];
    let files = get_vcf_files_sorted(&lines).unwrap();
    let names: Vec<&str> = files.iter().map(|f| f.name.as_str()).collect();
    assert_eq!(
        names,
        vec![
            "s_c1_b5.vcf.gz",
            "s_c2_b2.vcf.gz",
            "s_c2_b10.vcf.gz",
            "s_c10_b0.vcf.gz",
            "s_cX_b0.vcf.gz",
        ]
    );
}
