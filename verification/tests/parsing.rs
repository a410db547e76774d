use vcf_diversity::error::VcfError;
use vcf_diversity::genotype::read_genotype;
use vcf_diversity::header::{
    header_sample_names, read_header_line, validate_vcf_header, HeaderStep,
};
use vcf_diversity::line::parse_variant;
use vcf_diversity::region::parse_region;
use vcf_diversity::text::{
    char_is_whitespace, chars_of, number_to_string, read_i64, read_u8, split_whitespace,
    u8_to_string,
};

fn chars(s: &str) -> Vec<char> {
    s.chars().collect()
}

fn parse_error(out: Result<Option<vcf_diversity::line::ParsedVariant>, VcfError>) -> String {
    match out {
        Err(VcfError::Parse(text)) => text,
        other => panic!("unexpected: {:?}", other),
    }
}

#[test]
fn chars_are_kept_in_order() {
    assert_eq!(chars_of("a\u{e9}z"), vec!['a', '\u{e9}', 'z']);
    assert!(chars_of("").is_empty());
}

#[test]
fn whitespace_is_what_std_calls_whitespace() {
    for code in 0u32..0x3100 {
        if let Some(c) = char::from_u32(code) {
            assert_eq!(char_is_whitespace(c), c.is_whitespace(), "U+{:04X}", code);
        }
    }
}

#[test]
fn tokens_are_the_runs_between_whitespace() {
    let line = chars("  ab\tc \u{a0} def\n");
    assert_eq!(split_whitespace(&line), vec![(2, 4), (5, 6), (9, 12)]);
    assert!(split_whitespace(&chars(" \t ")).is_empty());
    assert!(split_whitespace(&chars("")).is_empty());
    assert_eq!(split_whitespace(&chars("x")), vec![(0, 1)]);
}

#[test]
fn integers_are_read_as_std_reads_them() {
    let cases = [
        "0", "7", "-7", "+7", "007", "", "-", "+", "1a", " 1", "1 ", "--1", "+-1",
        "9223372036854775807", "9223372036854775808", "-9223372036854775808",
        "-9223372036854775809", "00000000000000000000000000000012", "99999999999999999999",
        "1_000", "١",
    ];
    for text in cases {
        assert_eq!(read_i64(&chars(text)), text.parse::<i64>().ok(), "{:?}", text);
    }
    assert_eq!(read_i64(&chars("-42")), Some(-42));
    assert_eq!(read_i64(&chars("9223372036854775808")), None);
}

#[test]
fn bytes_are_read_as_std_reads_them() {
    let cases = ["0", "1", "+5", "-0", "-1", "255", "256", "0255", "", "+", "1/", "2.5", "000"];
    for text in cases {
        assert_eq!(read_u8(&chars(text)), text.parse::<u8>().ok(), "{:?}", text);
    }
    assert_eq!(read_u8(&chars("255")), Some(255));
    assert_eq!(read_u8(&chars("256")), None);
}

#[test]
fn numbers_are_written_in_base_ten() {
    assert_eq!(u8_to_string(0), "0");
    assert_eq!(u8_to_string(9), "9");
    assert_eq!(u8_to_string(10), "10");
    assert_eq!(u8_to_string(109), "109");
    assert_eq!(u8_to_string(255), "255");
    assert_eq!(number_to_string(1234567890123), "1234567890123");
    assert_eq!(number_to_string(u128::MAX), u128::MAX.to_string());
}

#[test]
fn genotype_cells() {
    assert_eq!(read_genotype(&chars("0|1")), Some(vec![0, 1]));
    assert_eq!(read_genotype(&chars("1/0:35:4")), Some(vec![1, 0]));
    assert_eq!(read_genotype(&chars("2")), Some(vec![2]));
    assert_eq!(read_genotype(&chars("0|1/2")), Some(vec![0, 1, 2]));
    assert_eq!(read_genotype(&chars(".")), None);
    assert_eq!(read_genotype(&chars("./.")), None);
    assert_eq!(read_genotype(&chars(".|.")), None);
    assert_eq!(read_genotype(&chars("./.:12")), None);
    assert_eq!(read_genotype(&chars("0|.")), None);
    assert_eq!(read_genotype(&chars("0|")), None);
    assert_eq!(read_genotype(&chars("|0")), None);
    assert_eq!(read_genotype(&chars("")), None);
    assert_eq!(read_genotype(&chars(":0|1")), None);
    assert_eq!(read_genotype(&chars("0|256")), None);
    assert_eq!(read_genotype(&chars("a|0")), None);
}

#[test]
fn alleles_come_back_from_a_line_in_order() {
    let alleles: Vec<Vec<u8>> = vec![vec![0, 1], vec![1, 0], vec![2, 10], vec![255, 0], vec![7]];
    let cells: Vec<String> = alleles
        .iter()
        .map(|a| a.iter().map(|x| x.to_string()).collect::<Vec<_>>().join("|"))
        .collect();
    let line = format!("chr7\t1234\trs1\tA\tC\t50\tPASS\t.\tGT\t{}", cells.join("\t"));
    let parsed = parse_variant(&line, "7", 1, 5000).unwrap().unwrap();
    assert_eq!(parsed.variant.position, 1234);
    let expected: Vec<Option<Vec<u8>>> = alleles.into_iter().map(Some).collect();
    assert_eq!(parsed.variant.genotypes, expected);
    assert!(!parsed.multi_allelic);
    assert_eq!(parsed.missing.total_data_points, 5);
    assert_eq!(parsed.missing.missing_data_points, 0);
    assert!(parsed.missing.positions_with_missing.is_empty());
}

#[test]
fn line_with_too_few_fields_fails() {
    let out = parse_variant("1 5 . A G . . . GT", "1", 1, 10);
    assert_eq!(parse_error(out), "Invalid VCF line format");
    assert_eq!(parse_error(parse_variant("", "1", 1, 10)), "Invalid VCF line format");
}

#[test]
fn line_with_bad_position_fails() {
    let out = parse_variant("1 x5 . A G . . . GT 0|0", "1", 1, 10);
    assert_eq!(parse_error(out), "Invalid position");
}

#[test]
fn line_outside_the_filter_gives_nothing() {
    assert!(parse_variant("2 5 . A G . . . GT 0|0", "1", 1, 10).unwrap().is_none());
    assert!(parse_variant("1 11 . A G . . . GT 0|0", "1", 1, 10).unwrap().is_none());
    assert!(parse_variant("1 0 . A G . . . GT 0|0", "1", 1, 10).unwrap().is_none());
    assert!(parse_variant("1 1 . A G . . . GT 0|0", "1", 1, 10).unwrap().is_some());
    assert!(parse_variant("1 10 . A G . . . GT 0|0", "1", 1, 10).unwrap().is_some());
    // Another chromosome is passed over before its position is read.
    assert!(parse_variant("2 x . A G . . . GT 0|0", "1", 1, 10).unwrap().is_none());
}

#[test]
fn meta_lines_give_nothing() {
    assert!(parse_variant("##fileformat=VCFv4.2", "1", 1, 10).unwrap().is_none());
    let header = "#CHROM POS ID REF ALT QUAL FILTER INFO FORMAT S1";
    assert!(parse_variant(header, "1", 1, 10).unwrap().is_none());
}

#[test]
fn chromosome_prefix_is_optional_on_both_sides() {
    let line = "chr1 5 . A G . . . GT 0|0";
    assert!(parse_variant(line, "1", 1, 10).unwrap().is_some());
    assert!(parse_variant(line, "chr1", 1, 10).unwrap().is_some());
    assert!(parse_variant("1 5 . A G . . . GT 0|0", "chr1", 1, 10).unwrap().is_some());
    assert!(parse_variant("chrchr1 5 . A G . . . GT 0|0", "1", 1, 10).unwrap().is_some());
    assert!(parse_variant("Chr1 5 . A G . . . GT 0|0", "1", 1, 10).unwrap().is_none());
    assert!(parse_variant("chrX 5 . A G . . . GT 0|0", "x", 1, 10).unwrap().is_none());
}

#[test]
fn multi_allelic_sites_are_flagged() {
    let parsed = parse_variant("1 5 . A G,T . . . GT 0|2", "1", 1, 10).unwrap().unwrap();
    assert!(parsed.multi_allelic);
    assert_eq!(parsed.variant.genotypes, vec![Some(vec![0, 2])]);
    let single = parse_variant("1 5 . A G . . . GT 0|1", "1", 1, 10).unwrap().unwrap();
    assert!(!single.multi_allelic);
}

#[test]
fn unreadable_cells_count_as_missing() {
    let parsed =
        parse_variant("1 9 . A G . . . GT:DP x|0:3 .|.:0 1|1:9 . 0/300", "1", 1, 10)
            .unwrap()
            .unwrap();
    assert_eq!(
        parsed.variant.genotypes,
        vec![None, None, Some(vec![1, 1]), None, None]
    );
    assert_eq!(parsed.missing.total_data_points, 5);
    assert_eq!(parsed.missing.missing_data_points, 4);
    assert_eq!(parsed.missing.positions_with_missing.len(), 1);
    assert!(parsed.missing.positions_with_missing.contains(&9));
}

#[test]
fn header_must_name_the_mandatory_columns() {
    assert!(validate_vcf_header("#CHROM POS ID REF ALT QUAL FILTER INFO FORMAT").is_ok());
    assert!(validate_vcf_header("#CHROM\tPOS\tID\tREF\tALT\tQUAL\tFILTER\tINFO\tFORMAT\tA\tB\n").is_ok());
    let bad = [
        "#CHROM POS ID REF ALT QUAL FILTER INFO",
        "#CHROM POS ID ALT REF QUAL FILTER INFO FORMAT",
        "CHROM POS ID REF ALT QUAL FILTER INFO FORMAT",
        "#CHROM POS ID REF ALT QUAL FILTER INFO FORMATS",
        "#chrom POS ID REF ALT QUAL FILTER INFO FORMAT",
        "",
    ];
    for header in bad {
        match validate_vcf_header(header) {
            Err(VcfError::InvalidVcfFormat(text)) => assert_eq!(text, "Invalid VCF header format"),
            other => panic!("unexpected for {:?}: {:?}", header, other),
        }
    }
}

#[test]
fn sample_names_follow_the_ninth_column() {
    let header = "#CHROM POS ID REF ALT QUAL FILTER INFO FORMAT NA1 pop_NA2\tx\n";
    assert_eq!(header_sample_names(header), vec!["NA1", "pop_NA2", "x"]);
    assert!(header_sample_names("#CHROM POS ID REF ALT QUAL FILTER INFO FORMAT").is_empty());
    assert!(header_sample_names("#CHROM POS").is_empty());
}

#[test]
fn header_lines_step_by_step() {
    assert!(matches!(read_header_line("##contig=<ID=1>"), Ok(HeaderStep::Skip)));
    assert!(matches!(read_header_line("1 5 . A G . . . GT 0|0"), Ok(HeaderStep::Skip)));
    assert!(matches!(read_header_line(""), Ok(HeaderStep::Skip)));
    match read_header_line("#CHROM POS ID REF ALT QUAL FILTER INFO FORMAT A B") {
        Ok(HeaderStep::Samples(names)) => assert_eq!(names, vec!["A", "B"]),
        other => panic!("unexpected: {:?}", other),
    }
    assert!(matches!(
        read_header_line("#CHROM POS ID REF ALT"),
        Err(VcfError::InvalidVcfFormat(_))
    ));
    assert!(matches!(
        read_header_line("#CHROMOSOME POS ID REF ALT QUAL FILTER INFO FORMAT A"),
        Err(VcfError::InvalidVcfFormat(_))
    ));
}

fn region_error(text: &str) -> String {
    match parse_region(text) {
        Err(VcfError::InvalidRegion(message)) => message,
        other => panic!("unexpected for {:?}: {:?}", text, other),
    }
}

#[test]
fn regions() {
    assert_eq!(parse_region("100-200").unwrap(), (100, 200));
    assert_eq!(parse_region("+1-2").unwrap(), (1, 2));
    assert_eq!(region_error("100"), "Invalid region format. Use start-end");
    assert_eq!(region_error(""), "Invalid region format. Use start-end");
    assert_eq!(region_error("1-2-3"), "Invalid region format. Use start-end");
    assert_eq!(region_error("-5-10"), "Invalid region format. Use start-end");
    assert_eq!(region_error("a-10"), "Invalid start position");
    assert_eq!(region_error("-10"), "Invalid start position");
    assert_eq!(region_error("10-b"), "Invalid end position");
    assert_eq!(region_error("10-"), "Invalid end position");
    assert_eq!(region_error("10- 20"), "Invalid end position");
    assert_eq!(region_error("200-100"), "Start position must be less than end position");
    assert_eq!(region_error("100-100"), "Start position must be less than end position");
}
