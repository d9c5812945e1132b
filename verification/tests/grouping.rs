use udix::data::chromosome::Chromosome;
use udix::data::vcfs::{get_vcf_files_sorted, group_vcf_files, VcfFile, VcfFilesOfChr};

fn grouped(lines: &[&str]) -> Vec<VcfFilesOfChr> {
    let lines: Vec<String> = lines.iter().map(|s| s.to_string()).collect();
    let files = get_vcf_files_sorted(&lines).unwrap();
    group_vcf_files(&files)
}

#[test]
fn empty_listing_groups_to_nothing() {
    let groups = grouped(&[]);
    assert_eq!(groups.len(), 0);
}

#[test]
fn block_boundary_splits_indices_99_and_100() {
    // Adjacent sequence indices 99 and 100 must never share a block.
    let groups = grouped(&["s_c1_b99.vcf.gz", "s_c1_b100.vcf.gz"]);
    assert_eq!(groups.len(), 1);
    assert_eq!(groups[0].blocks.len(), 2);
    assert_eq!(groups[0].blocks[0].i_block, 0);
    assert_eq!(groups[0].blocks[0].files.len(), 1);
    assert_eq!(groups[0].blocks[0].files[0].name, "s_c1_b99.vcf.gz");
    assert_eq!(groups[0].blocks[1].i_block, 1);
    assert_eq!(groups[0].blocks[1].files.len(), 1);
    assert_eq!(groups[0].blocks[1].files[0].name, "s_c1_b100.vcf.gz");
}

#[test]
fn indices_0_to_99_share_block_0() {
    let lines: Vec<String> = (0..100).map(|i| format!("s_c1_b{}.vcf.gz", i)).collect();
    let files = get_vcf_files_sorted(&lines).unwrap();
    let groups = group_vcf_files(&files);
    assert_eq!(groups.len(), 1);
    assert_eq!(groups[0].blocks.len(), 1);
    assert_eq!(groups[0].blocks[0].i_block, 0);
    assert_eq!(groups[0].blocks[0].files.len(), 100);
}

#[test]
fn hundred_and_one_files_make_two_blocks() {
    let lines: Vec<String> = (0..=100).map(|i| format!("s_c1_b{}.vcf.gz", i)).collect();
    let files = get_vcf_files_sorted(&lines).unwrap();
    let groups = group_vcf_files(&files);
    assert_eq!(groups.len(), 1);
    assert!(matches!(groups[0].chromosome, Chromosome::Auto(1)));
    assert_eq!(groups[0].blocks.len(), 2);
    assert_eq!(groups[0].blocks[0].i_block, 0);
    assert_eq!(groups[0].blocks[0].files.len(), 100);
    assert_eq!(groups[0].blocks[1].i_block, 1);
    assert_eq!(groups[0].blocks[1].files.len(), 1);
}

#[test]
fn chromosome_change_closes_group() {
    let groups = grouped(&[
        "s_c1_b0.vcf.gz",
        "s_c1_b1.vcf.gz",
        "s_c2_b0.vcf.gz",
        "s_cX_b0.vcf.gz",
    ]);
    assert_eq!(groups.len(), 3);
    assert!(matches!(groups[0].chromosome, Chromosome::Auto(1)));
    assert_eq!(groups[0].blocks.len(), 1);
    assert_eq!(groups[0].blocks[0].files.len(), 2);
    assert!(matches!(groups[1].chromosome, Chromosome::Auto(2)));
    assert!(matches!(groups[2].chromosome, Chromosome::Allo('X')));
}

fn flatten(groups: &Vec<VcfFilesOfChr>) -> Vec<VcfFile> {
    let mut files: Vec<VcfFile> = Vec::new();
    for g in groups {
        for b in &g.blocks {
            for f in &b.files {
                files.push(VcfFile { key: f.key, name: f.name.clone() });
            }
        }
    }
    files
}

#[test]
fn regrouping_flattened_groups_is_identity() {
    // Grouping is idempotent: group, flatten, group again, same groups.
    let lines: Vec<String> = vec![
        "s_c1_b0.vcf.gz".to_string(),
        "s_c1_b99.vcf.gz".to_string(),
        "s_c1_b100.vcf.gz".to_string(),
        "s_c3_b7.vcf.gz".to_string(),
        "s_cY_b1.vcf.gz".to_string(),
    ];
    let files = get_vcf_files_sorted(&lines).unwrap();
    let groups = group_vcf_files(&files);
    let again = group_vcf_files(&flatten(&groups));
    assert_eq!(groups.len(), again.len());
    for (g1, g2) in groups.iter().zip(again.iter()) {
        assert!(g1.chromosome == g2.chromosome);
        assert_eq!(g1.blocks.len(), g2.blocks.len());
        for (b1, b2) in g1.blocks.iter().zip(g2.blocks.iter()) {
            assert_eq!(b1.i_block, b2.i_block);
            let n1: Vec<&str> = b1.files.iter().map(|f| f.name.as_str()).collect();
            let n2: Vec<&str> = b2.files.iter().map(|f| f.name.as_str()).collect();
            assert_eq!(n1, n2);
        }
    }
}

#[test]
fn survey_counts_files_blocks_and_chromosomes() {
    let lines: Vec<String> = (0..=100)
        .map(|i| format!("s_c1_b{}.vcf.gz", i))
        .chain((0..3).map(|i| format!("s_cX_b{}.vcf.gz", i)))
        .collect();
    let files = get_vcf_files_sorted(&lines).unwrap();
    let groups = group_vcf_files(&files);
    let report = udix::data::vcfs::survey_vcfs("/data/vcfs/", &groups);
    assert_eq!(report[0], "VCF files are here: /data/vcfs/");
    assert_eq!(report[1], "Chromosome 1 has 101 files in 2 blocks");
    assert_eq!(report[2], "Chromosome X has 3 files in 1 blocks");
    assert_eq!(
        report[3],
        "There are 104 files in 3 blocks and 2 chromosomes."
    );
}
