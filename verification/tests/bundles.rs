use udix::data::beds::{
    get_bed_bundles, get_bed_bundles_by_chrom, survey_beds, BedBundle, FileMatchBuffer, FileType,
};
use udix::data::chromosome::Chromosome;

#[test]
fn parses_a_bundle_basename() {
    let b = BedBundle::parse("x_c1_b0").unwrap();
    assert_eq!(b.prefix, "x");
    assert!(matches!(b.chromosome, Chromosome::Auto(1)));
    assert_eq!(b.i_block, 0);
    assert_eq!(b.basename(), "x_c1_b0");
}

#[test]
fn rejects_malformed_bundle_basenames() {
    assert!(BedBundle::parse("x_c1").is_err());
    assert!(BedBundle::parse("x_c1_b0_extra").is_err());
    assert!(BedBundle::parse("x_cQ_b0").is_err());
    assert!(BedBundle::parse("x_c1_q0").is_err());
    assert!(BedBundle::parse("x_c1_b").is_err());
}

#[test]
fn bundle_file_names_carry_the_extension() {
    let b = BedBundle::parse("x_cX_b2").unwrap();
    assert_eq!(b.file_name(&FileType::Bed), "x_cX_b2.bed");
    assert_eq!(b.file_name(&FileType::Bim), "x_cX_b2.bim");
    assert_eq!(b.file_name(&FileType::Fam), "x_cX_b2.fam");
    assert_eq!(b.text(), "x_cX_b2.{bed,bim,fam}");
}

#[test]
fn any_push_order_completes_one_bundle() {
    // Each of the six orders of .bed/.bim/.fam yields exactly one bundle.
    let orders = [
        [FileType::Bed, FileType::Bim, FileType::Fam],
        [FileType::Bed, FileType::Fam, FileType::Bim],
        [FileType::Bim, FileType::Bed, FileType::Fam],
        [FileType::Bim, FileType::Fam, FileType::Bed],
        [FileType::Fam, FileType::Bed, FileType::Bim],
        [FileType::Fam, FileType::Bim, FileType::Bed],
    ];
    for order in orders.iter() {
        let mut buffer = FileMatchBuffer::new();
        let mut completed: Vec<BedBundle> = Vec::new();
        for ft in order.iter() {
            if let Some(bundle) = buffer.push(ft, "x_c1_b0").unwrap() {
                completed.push(bundle);
            }
        }
        assert_eq!(completed.len(), 1);
        assert_eq!(completed[0].basename(), "x_c1_b0");
        assert!(buffer.is_empty());
    }
}

#[test]
fn duplicate_member_kind_is_an_error() {
    let mut buffer = FileMatchBuffer::new();
    assert!(buffer.push(&FileType::Bed, "x_c1_b0").unwrap().is_none());
    let err = buffer.push(&FileType::Bed, "x_c1_b0").unwrap_err();
    assert_eq!(
        err.report(),
        "Got a x_c1_b0.bed, no x_c1_b0.bim, and no x_c1_b0.fam. (Udix)"
    );
}

#[test]
fn leftover_member_at_end_is_an_error() {
    let mut buffer = FileMatchBuffer::new();
    assert!(buffer.push(&FileType::Bed, "x_c1_b0").unwrap().is_none());
    assert!(!buffer.is_empty());
    let err = buffer.unmatched_error();
    assert_eq!(
        err.report(),
        "Got a x_c1_b0.bed, no x_c1_b0.bim, and no x_c1_b0.fam. (Udix)"
    );
}

fn lines(names: &[&str]) -> Vec<String> {
    names.iter().map(|s| s.to_string()).collect()
}

#[test]
fn collects_bundles_from_a_listing() {
    // Members of neighboring basenames interleave once sorted; each triple
    // still closes on its own.
    let listing = lines(&[
        "x_c2_b0.fam",
        "x_c1_b0.bed",
        "x_c2_b0.bed",
        "notes.txt",
        "x_c1_b0.fam",
        "x_c2_b0.bim",
        "x_c1_b0.bim",
    ]);
    let bundles = get_bed_bundles(&listing).unwrap();
    assert_eq!(bundles.len(), 2);
    assert_eq!(bundles[0].basename(), "x_c1_b0");
    assert_eq!(bundles[1].basename(), "x_c2_b0");
}

#[test]
fn incomplete_triple_fails_the_listing() {
    let listing = lines(&["x_c1_b0.bed", "x_c1_b0.bim"]);
    assert!(get_bed_bundles(&listing).is_err());
}

#[test]
fn groups_bundles_by_chromosome() {
    let listing = lines(&[
        "x_c1_b0.bed", "x_c1_b0.bim", "x_c1_b0.fam",
        "x_c1_b1.bed", "x_c1_b1.bim", "x_c1_b1.fam",
        "x_cX_b0.bed", "x_cX_b0.bim", "x_cX_b0.fam",
    ]);
    let groups = get_bed_bundles_by_chrom(&listing).unwrap();
    assert_eq!(groups.len(), 2);
    assert!(matches!(groups[0].chromosome, Chromosome::Auto(1)));
    assert_eq!(groups[0].bed_bundles.len(), 2);
    assert_eq!(groups[0].bed_bundles[0].i_block, 0);
    assert_eq!(groups[0].bed_bundles[1].i_block, 1);
    assert!(matches!(groups[1].chromosome, Chromosome::Allo('X')));
    assert_eq!(groups[1].bed_bundles.len(), 1);
    let report = survey_beds(&groups);
    assert_eq!(report.len(), 2);
    assert_eq!(report[0], "For chromosome 1, we have 2 BED bundles.");
    assert_eq!(report[1], "For chromosome X, we have 1 BED bundles.");
}
