use vcf_diversity::batch::{process_entry, VariantCache};
use vcf_diversity::config::{insert_sample, parse_config_table, read_cell, ConfigEntry};
use vcf_diversity::error::VcfError;
use vcf_diversity::files::{choose_vcf_file, file_matches};
use vcf_diversity::haplotype::{
    comparisons, extract_sample_id, process_variants, unmatched_samples, SampleGroups,
};
use vcf_diversity::ingest::process_lines;
use vcf_diversity::variant::Variant;

fn strings(items: &[&str]) -> Vec<String> {
    items.iter().map(|s| s.to_string()).collect()
}

fn group(name: &str, left: u8, right: u8) -> SampleGroups {
    SampleGroups { name: name.to_string(), left, right }
}

fn variant(position: i64, slots: &[Option<&[u8]>]) -> Variant {
    Variant { position, genotypes: slots.iter().map(|s| s.map(|a| a.to_vec())).collect() }
}

fn names() -> Vec<String> {
    strings(&["EUR_GBR_HG001", "EUR_GBR_HG002", "AFR_YRI_NA003", "NA004"])
}

fn variants() -> Vec<Variant> {
    vec![
        variant(100, &[Some(&[0, 1]), Some(&[1, 1]), Some(&[0, 0]), Some(&[1, 0])]),
        variant(150, &[Some(&[0, 0]), Some(&[0, 0]), Some(&[0, 0]), Some(&[0, 0])]),
        variant(200, &[Some(&[1, 0]), None, Some(&[0, 1]), Some(&[0])]),
        variant(900, &[Some(&[1, 0]), Some(&[0, 1]), Some(&[0, 1]), Some(&[1, 1])]),
    ]
}

fn parse_failure<T: std::fmt::Debug>(out: Result<T, VcfError>) -> String {
    match out {
        Err(VcfError::Parse(text)) => text,
        other => panic!("unexpected: {:?}", other),
    }
}

#[test]
fn sample_identifiers() {
    assert_eq!(extract_sample_id("EUR_GBR_HG001"), "HG001");
    assert_eq!(extract_sample_id("NA004"), "NA004");
    assert_eq!(extract_sample_id("a_"), "");
    assert_eq!(extract_sample_id("_b"), "b");
    assert_eq!(extract_sample_id(""), "");
    assert_eq!(extract_sample_id("pop_\u{e9}t\u{e9}"), "\u{e9}t\u{e9}");
}

#[test]
fn pairs_among_haplotypes() {
    assert_eq!(comparisons(0), 0);
    assert_eq!(comparisons(1), 0);
    assert_eq!(comparisons(2), 1);
    assert_eq!(comparisons(3), 3);
    assert_eq!(comparisons(10), 45);
    assert_eq!(comparisons(11), 55);
}

#[test]
fn group_zero_takes_left_haplotypes() {
    // Left haplotypes of HG001, NA003 and NA004; HG002's left is in group 1.
    let filter = vec![
        group("HG001", 0, 1),
        group("HG002", 1, 1),
        group("NA003", 0, 0),
        group("NA004", 0, 0),
        group("HG999", 0, 0),
    ];
    let within: Vec<Variant> = variants().into_iter().filter(|v| v.position <= 500).collect();
    let got = process_variants(&within, &names(), 0, &filter, 1, 500).unwrap();
    // Reduced slots: 100 -> 0,0,1; 150 -> 0,0,0; 200 -> 1,0,0.
    assert_eq!(got.haplotypes, 3);
    assert_eq!(got.comparisons, 3);
    assert_eq!(got.segregating_sites, 2);
    assert_eq!(got.total_pairwise_differences, 4);
    assert_eq!(got.sequence_length, 500);
    assert_eq!(unmatched_samples(&names(), &filter), vec![4]);
}

#[test]
fn group_one_takes_right_haplotypes() {
    let filter = vec![
        group("HG001", 0, 1),
        group("HG002", 1, 1),
        group("NA003", 0, 0),
        group("NA004", 1, 1),
    ];
    let within: Vec<Variant> = variants().into_iter().filter(|v| v.position <= 500).collect();
    let got = process_variants(&within, &names(), 1, &filter, 101, 300).unwrap();
    // Right haplotypes of HG001, HG002, NA004:
    // 100 -> 1,1,0; 150 -> 0,0,0; 200 -> 0,missing,missing (NA004 has one allele).
    assert_eq!(got.haplotypes, 3);
    assert_eq!(got.comparisons, 3);
    assert_eq!(got.segregating_sites, 1);
    assert_eq!(got.total_pairwise_differences, 2);
    assert_eq!(got.sequence_length, 200);
}

#[test]
fn two_samples_with_one_identifier_fail() {
    let doubled = strings(&["EUR_HG001", "AFR_HG002", "ASN_HG001"]);
    let filter = vec![group("HG001", 0, 0), group("HG002", 0, 0)];
    let out = process_variants(&variants(), &doubled, 0, &filter, 1, 10);
    assert_eq!(parse_failure(out), "Duplicate sample ID 'HG001' in VCF.");
}

#[test]
fn groups_too_small_fail() {
    let none = vec![group("HG001", 1, 0), group("HG777", 0, 0)];
    let out = process_variants(&variants(), &names(), 0, &none, 1, 10);
    assert_eq!(parse_failure(out), "No haplotypes found for the specified group 0");
    let out = process_variants(&variants(), &names(), 1, &none, 1, 10);
    assert_eq!(parse_failure(out), "No haplotypes found for the specified group 1");
    let out = process_variants(&variants(), &names(), 7, &none, 1, 10);
    assert_eq!(parse_failure(out), "No haplotypes found for the specified group 7");
    let one = vec![group("HG001", 0, 0), group("HG002", 1, 0)];
    let out = process_variants(&variants(), &names(), 0, &one, 1, 10);
    assert_eq!(parse_failure(out), "Not enough haplotypes for calculation");
    let out = process_variants(&variants(), &names(), 0, &Vec::new(), 1, 10);
    assert_eq!(parse_failure(out), "No haplotypes found for the specified group 0");
}

#[test]
fn sample_cells() {
    assert_eq!(read_cell(&"0|1".chars().collect::<Vec<_>>()), Some((0, 1)));
    assert_eq!(read_cell(&"1|0_lowconf".chars().collect::<Vec<_>>()), Some((1, 0)));
    assert_eq!(read_cell(&"01|000".chars().collect::<Vec<_>>()), Some((1, 0)));
    assert_eq!(read_cell(&"1|1|9".chars().collect::<Vec<_>>()), Some((1, 1)));
    assert_eq!(read_cell(&"0/1".chars().collect::<Vec<_>>()), None);
    assert_eq!(read_cell(&"2|1".chars().collect::<Vec<_>>()), None);
    assert_eq!(read_cell(&"1|2".chars().collect::<Vec<_>>()), None);
    assert_eq!(read_cell(&"|1".chars().collect::<Vec<_>>()), None);
    assert_eq!(read_cell(&"1|".chars().collect::<Vec<_>>()), None);
    assert_eq!(read_cell(&"x1|0".chars().collect::<Vec<_>>()), None);
    assert_eq!(read_cell(&"300|0".chars().collect::<Vec<_>>()), None);
    assert_eq!(read_cell(&"".chars().collect::<Vec<_>>()), None);
}

#[test]
fn samples_are_set_by_name() {
    let mut samples = Vec::new();
    insert_sample(&mut samples, group("a", 0, 1));
    insert_sample(&mut samples, group("b", 1, 1));
    insert_sample(&mut samples, group("a", 1, 0));
    let got: Vec<(String, u8, u8)> =
        samples.iter().map(|s| (s.name.clone(), s.left, s.right)).collect();
    assert_eq!(got, vec![("a".to_string(), 1, 0), ("b".to_string(), 1, 1)]);
}

fn config_headers() -> Vec<String> {
    strings(&["seqname", "start", "end", "a", "b", "c", "d", "HG001", "HG002", "NA003"])
}

#[test]
fn configuration_table() {
    let records = vec![
        strings(&["chr1", "100", "500", "", "", "", "", "0|1", "1|1", "0|0"]),
        strings(&["chr1", "600", "900", "", "", "", "", "x", "1/1", ""]),
        strings(&["chr2", "1", "50", "", "", "", "", "0|0", "bad", "1|0"]),
    ];
    let table = parse_config_table(&config_headers(), &records).unwrap();
    assert_eq!(table.total_genotypes, 9);
    assert_eq!(table.invalid_genotypes, 4);
    assert_eq!(table.dropped_rows, vec![1]);
    assert_eq!(table.entries.len(), 2);
    let first = &table.entries[0];
    assert_eq!((first.seqname.as_str(), first.start, first.end), ("chr1", 100, 500));
    let got: Vec<(&str, u8, u8)> =
        first.samples.iter().map(|s| (s.name.as_str(), s.left, s.right)).collect();
    assert_eq!(got, vec![("HG001", 0, 1), ("HG002", 1, 1), ("NA003", 0, 0)]);
    let second = &table.entries[1];
    assert_eq!((second.seqname.as_str(), second.start, second.end), ("chr2", 1, 50));
    let got: Vec<(&str, u8, u8)> =
        second.samples.iter().map(|s| (s.name.as_str(), s.left, s.right)).collect();
    assert_eq!(got, vec![("HG001", 0, 0), ("NA003", 1, 0)]);
}

#[test]
fn configuration_table_failures() {
    let short = strings(&["seqname", "start", "end", "a", "b", "c", "d"]);
    let out = parse_config_table(&short, &Vec::new());
    assert_eq!(parse_failure(out), "No sample names found in config file header.");

    let good = strings(&["chr1", "100", "500", "", "", "", "", "0|1", "1|1", "0|0"]);
    let ragged = strings(&["chr1", "100", "500", "", "", "", "", "0|1"]);
    let out = parse_config_table(&config_headers(), &vec![good.clone(), ragged]);
    assert_eq!(parse_failure(out), "Mismatched number of fields in record on line 3");

    let bad_start = strings(&["chr1", "1e3", "500", "", "", "", "", "0|1", "1|1", "0|0"]);
    let out = parse_config_table(&config_headers(), &vec![bad_start]);
    assert_eq!(parse_failure(out), "Invalid start");

    let bad_end = strings(&["chr1", "100", "", "", "", "", "", "0|1", "1|1", "0|0"]);
    let out = parse_config_table(&config_headers(), &vec![good, bad_end]);
    assert_eq!(parse_failure(out), "Invalid end");

    let table = parse_config_table(&config_headers(), &Vec::new()).unwrap();
    assert!(table.entries.is_empty());
    assert_eq!(table.total_genotypes, 0);
}

fn chromosome_lines() -> Vec<String> {
    strings(&[
        "##fileformat=VCFv4.2",
        "#CHROM\tPOS\tID\tREF\tALT\tQUAL\tFILTER\tINFO\tFORMAT\tEUR_HG001\tEUR_HG002\tNA003",
        "chr1\t100\t.\tA\tG\t.\t.\t.\tGT\t0|1\t1|1\t0|0",
        "chr1\t150\t.\tA\tG\t.\t.\t.\tGT\t0|0\t0|0\t0|0",
        "chr1\t200\t.\tA\tG\t.\t.\t.\tGT\t1|0\t.|.\t0|1",
        "chr1\t900\t.\tA\tG\t.\t.\t.\tGT\t1|0\t0|1\t0|1",
    ])
}

fn entry(start: i64, end: i64, samples: Vec<SampleGroups>) -> ConfigEntry {
    ConfigEntry { seqname: "chr1".to_string(), start, end, samples }
}

#[test]
fn an_entry_gives_a_row_when_both_groups_succeed() {
    let data = process_lines(&chromosome_lines(), "chr1", 1, i64::MAX).unwrap();
    let samples = vec![group("HG001", 0, 1), group("HG002", 0, 1), group("NA003", 0, 1)];
    let e = entry(100, 500, samples);
    let outcome = process_entry(&e, &data.variants, &data.sample_names);
    let (zero, one) = outcome.row().unwrap();
    assert_eq!(zero.chr, "chr1");
    assert_eq!((zero.region_start, zero.region_end, zero.sequence_length), (100, 500, 401));
    // Left haplotypes: 100 -> 0,1,0; 150 -> 0,0,0; 200 -> 1,missing,0.
    assert_eq!(zero.haplotypes, 3);
    assert_eq!(zero.comparisons, 3);
    assert_eq!(zero.segregating_sites, 2);
    assert_eq!(zero.total_pairwise_differences, 3);
    // Right haplotypes: 100 -> 1,1,0; 150 -> 0,0,0; 200 -> 0,missing,1.
    assert_eq!(one.haplotypes, 3);
    assert_eq!(one.segregating_sites, 2);
    assert_eq!(one.total_pairwise_differences, 3);
    assert_eq!(one.sequence_length, 401);
}

#[test]
fn an_entry_gives_no_row_when_a_group_fails() {
    let data = process_lines(&chromosome_lines(), "chr1", 1, i64::MAX).unwrap();
    let samples = vec![group("HG001", 0, 0), group("HG002", 0, 0), group("NA003", 0, 1)];
    let e = entry(100, 500, samples);
    let outcome = process_entry(&e, &data.variants, &data.sample_names);
    assert!(outcome.first.is_ok());
    match &outcome.second {
        Err(VcfError::Parse(text)) => assert_eq!(text, "Not enough haplotypes for calculation"),
        other => panic!("unexpected: {:?}", other),
    }
    assert!(outcome.row().is_none());
}

#[test]
fn a_chromosome_is_held_once() {
    let mut cache = VariantCache::new();
    assert_eq!(cache.find("chr1"), None);
    let data = process_lines(&chromosome_lines(), "chr1", 1, i64::MAX).unwrap();
    let at = cache.store("chr1".to_string(), data);
    assert_eq!(at, 0);
    assert_eq!(cache.find("chr1"), Some(0));
    assert_eq!(cache.find("chr2"), None);
    assert_eq!(cache.find("chr"), None);
    let other = process_lines(&chromosome_lines(), "chr2", 1, i64::MAX).unwrap();
    assert_eq!(cache.store("chr2".to_string(), other), 1);
    assert_eq!(cache.find("chr2"), Some(1));
    assert_eq!(cache.get(0).variants.len(), 4);
    assert_eq!(cache.get(1).variants.len(), 0);
    assert_eq!(cache.get(1).sample_names, vec!["EUR_HG001", "EUR_HG002", "NA003"]);
}

#[test]
fn files_of_a_chromosome() {
    assert!(file_matches("chr1.vcf", "1"));
    assert!(file_matches("chr1.vcf.gz", "1"));
    assert!(file_matches("chr1_phased.vcf", "1"));
    assert!(!file_matches("chr10.vcf", "1"));
    assert!(!file_matches("chr1.txt", "1"));
    assert!(!file_matches("chr2.vcf", "1"));
    // Without the prefix the character that is tested lies three places on.
    assert!(file_matches("1.vcf", "1"));
    assert!(!file_matches("1.v", "1"));
    assert!(!file_matches("1abc2.vcf", "1"));
    assert!(!file_matches("", "1"));

    let folder: Vec<String> = ["notes.txt", "chr10.vcf", "chr1.vcf.gz", "chr1.vcf"]
        .iter()
        .map(|s| s.to_string())
        .collect();
    assert_eq!(choose_vcf_file(&folder, "1").unwrap(), 2);
    assert_eq!(choose_vcf_file(&folder, "10").unwrap(), 1);
    assert!(matches!(choose_vcf_file(&folder, "2"), Err(VcfError::NoVcfFiles)));
    assert!(matches!(choose_vcf_file(&Vec::new(), "1"), Err(VcfError::NoVcfFiles)));
}
