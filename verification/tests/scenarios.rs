use vcf_diversity::diversity::{
    calculate_pairwise_differences, count_segregating_sites, total_pairwise_differences,
    variant_is_segregating,
};
use vcf_diversity::error::VcfError;
use vcf_diversity::haplotype::{comparisons, process_variants, SampleGroups};
use vcf_diversity::ingest::process_lines;
use vcf_diversity::line::parse_variant;
use vcf_diversity::region::{max_position, sequence_length};

fn lines(text: &[&str]) -> Vec<String> {
    text.iter().map(|s| s.to_string()).collect()
}

fn three_sample_file() -> Vec<String> {
    lines(&[
        "##fileformat=VCFv4.2",
        "#CHROM\tPOS\tID\tREF\tALT\tQUAL\tFILTER\tINFO\tFORMAT\tS1\tS2\tS3",
        "chr1\t10\t.\tA\tG\t.\tPASS\t.\tGT\t0|0\t0|0\t1|1",
        "chr1\t20\t.\tC\tT\t.\tPASS\t.\tGT\t0|0\t0|0\t0|0",
    ])
}

#[test]
fn three_samples_two_variants() {
    let got = process_lines(&three_sample_file(), "1", 1, 100).unwrap();
    assert_eq!(got.sample_names, vec!["S1", "S2", "S3"]);
    assert_eq!(got.variants.len(), 2);
    assert_eq!(got.variants[0].position, 10);
    assert_eq!(got.variants[0].genotypes, vec![Some(vec![0, 0]), Some(vec![0, 0]), Some(vec![1, 1])]);
    assert_eq!(got.missing.total_data_points, 6);
    assert_eq!(got.missing.missing_data_points, 0);
    assert!(got.missing.positions_with_missing.is_empty());

    assert_eq!(count_segregating_sites(&got.variants), 1);
    let pairs = calculate_pairwise_differences(&got.variants, 3);
    assert_eq!(pairs.len(), 3);
    assert_eq!((pairs[0].first, pairs[0].second, pairs[0].diff_count), (0, 1, 0));
    assert_eq!((pairs[1].first, pairs[1].second, pairs[1].diff_count), (0, 2, 1));
    assert_eq!((pairs[2].first, pairs[2].second, pairs[2].diff_count), (1, 2, 1));
    assert!(pairs[0].positions.is_empty());
    assert_eq!(pairs[1].positions, vec![10]);
    assert_eq!(pairs[2].positions, vec![10]);
    assert_eq!(total_pairwise_differences(&pairs), 2);

    // The two statistics over the 100 positions, from the whole numbers.
    let n = got.sample_names.len();
    let length = sequence_length(max_position(&got.variants), got.contig_length, 1, 100).length;
    assert_eq!(length, 100);
    let harmonic: f64 = (1..n).map(|i| 1.0 / i as f64).sum();
    assert_eq!(harmonic, 1.5);
    let theta = count_segregating_sites(&got.variants) as f64 / harmonic / length as f64;
    assert_eq!(theta, 1.0 / 1.5 / 100.0);
    assert_eq!(comparisons(n), 3);
    let pi = total_pairwise_differences(&pairs) as f64 / comparisons(n) as f64 / length as f64;
    assert_eq!(pi, 2.0 / 3.0 / 100.0);
}

#[test]
fn missing_cell_is_left_out() {
    let parsed = parse_variant("1 5 . A G . . . GT ./. 0|0 0|1", "chr1", 1, 10)
        .unwrap()
        .unwrap();
    assert_eq!(parsed.variant.genotypes, vec![None, Some(vec![0, 0]), Some(vec![0, 1])]);
    assert_eq!(parsed.missing.total_data_points, 3);
    assert_eq!(parsed.missing.missing_data_points, 1);
    assert!(parsed.missing.positions_with_missing.contains(&5));
    assert!(variant_is_segregating(&parsed.variant));

    let quiet = parse_variant("1 6 . A G . . . GT ./. 0|0 0|0", "1", 1, 10).unwrap().unwrap();
    assert!(!variant_is_segregating(&quiet.variant));
    let variants = vec![parsed.variant, quiet.variant];
    let pairs = calculate_pairwise_differences(&variants, 3);
    assert_eq!(pairs[0].diff_count, 0);
    assert_eq!(pairs[1].diff_count, 0);
    assert_eq!(pairs[2].diff_count, 1);
    assert_eq!(pairs[2].positions, vec![5]);
}

fn group(name: &str, left: u8, right: u8) -> SampleGroups {
    SampleGroups { name: name.to_string(), left, right }
}

#[test]
fn group_without_haplotypes_fails() {
    let got = process_lines(&three_sample_file(), "chr1", 1, 100).unwrap();
    let filter = vec![group("S1", 1, 0), group("S2", 1, 0)];
    let out = process_variants(&got.variants, &got.sample_names, 0, &filter, 1, 100);
    match out {
        Err(VcfError::Parse(text)) => {
            assert_eq!(text, "No haplotypes found for the specified group 0")
        }
        other => panic!("unexpected: {:?}", other),
    }
}

#[test]
fn group_with_one_haplotype_fails() {
    let got = process_lines(&three_sample_file(), "chr1", 1, 100).unwrap();
    let filter = vec![group("S1", 0, 0), group("S2", 1, 0)];
    let out = process_variants(&got.variants, &got.sample_names, 0, &filter, 1, 100);
    match out {
        Err(VcfError::Parse(text)) => assert_eq!(text, "Not enough haplotypes for calculation"),
        other => panic!("unexpected: {:?}", other),
    }
}
