use udix::data::chromosome::{chrom_le_exec, Chromosome};

#[test]
fn parses_bare_number() {
    let c = Chromosome::parse("7").unwrap();
    assert!(matches!(c, Chromosome::Auto(7)));
}

#[test]
fn parses_chr_marker() {
    let c = Chromosome::parse("chr21").unwrap();
    assert!(matches!(c, Chromosome::Auto(21)));
}

#[test]
fn parses_c_marker() {
    let c = Chromosome::parse("c3").unwrap();
    assert!(matches!(c, Chromosome::Auto(3)));
}

#[test]
fn parses_allosomes() {
    assert!(matches!(Chromosome::parse("X").unwrap(), Chromosome::Allo('X')));
    assert!(matches!(Chromosome::parse("Y").unwrap(), Chromosome::Allo('Y')));
    assert!(matches!(Chromosome::parse("cX").unwrap(), Chromosome::Allo('X')));
    assert!(matches!(Chromosome::parse("chrY").unwrap(), Chromosome::Allo('Y')));
}

#[test]
fn parse_failure_reports_parse_int_kind() {
    let err = Chromosome::parse("256").unwrap_err();
    assert_eq!(err.report(), "Cannot parse chromosome token (ParseInt)");
}

#[test]
fn rejects_unknown_tokens() {
    assert!(Chromosome::parse("Z").is_err());
    assert!(Chromosome::parse("").is_err());
    assert!(Chromosome::parse("c").is_err());
    assert!(Chromosome::parse("x").is_err());
    assert!(Chromosome::parse("7q").is_err());
    assert!(Chromosome::parse("256").is_err());
}

#[test]
fn renders_canonically() {
    assert_eq!(Chromosome::parse("chr9").unwrap().text(), "9");
    assert_eq!(Chromosome::parse("cX").unwrap().text(), "X");
}

#[test]
fn round_trips_through_text() {
    for token in ["1", "22", "255", "X", "Y"] {
        let c = Chromosome::parse(token).unwrap();
        let rendered = c.text();
        let again = Chromosome::parse(rendered.as_str()).unwrap();
        assert!(c == again);
    }
}

#[test]
fn orders_autosomes_before_allosomes() {
    let two = Chromosome::parse("2").unwrap();
    let ten = Chromosome::parse("10").unwrap();
    let x = Chromosome::parse("X").unwrap();
    let y = Chromosome::parse("Y").unwrap();
    assert!(chrom_le_exec(&two, &ten));
    assert!(!chrom_le_exec(&ten, &two));
    assert!(chrom_le_exec(&ten, &x));
    assert!(!chrom_le_exec(&x, &ten));
    assert!(chrom_le_exec(&x, &y));
    assert!(!chrom_le_exec(&y, &x));
    assert!(chrom_le_exec(&x, &x));
}
