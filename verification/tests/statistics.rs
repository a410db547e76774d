use vcf_diversity::diversity::{
    calculate_pairwise_differences, compare_pair, count_segregating_sites, pairs_of_sample,
    total_pairwise_differences, variant_is_segregating, variants_have_slots, PairDifference,
};
use vcf_diversity::variant::{clone_variants, Variant};

fn variant(position: i64, slots: &[Option<&[u8]>]) -> Variant {
    Variant { position, genotypes: slots.iter().map(|s| s.map(|a| a.to_vec())).collect() }
}

fn sample_set() -> Vec<Variant> {
    vec![
        variant(10, &[Some(&[0, 0]), Some(&[0, 1]), Some(&[1, 1]), None]),
        variant(20, &[Some(&[0, 0]), Some(&[0, 0]), Some(&[0, 0]), Some(&[0, 0])]),
        variant(30, &[Some(&[0, 1]), Some(&[1, 0]), None, None]),
        variant(40, &[None, None, None, None]),
        variant(50, &[Some(&[2, 2]), None, Some(&[2, 2]), Some(&[2, 3])]),
    ]
}

#[test]
fn segregating_sites_are_counted() {
    let variants = sample_set();
    let flags: Vec<bool> = variants.iter().map(variant_is_segregating).collect();
    assert_eq!(flags, vec![true, false, true, false, true]);
    assert_eq!(count_segregating_sites(&variants), 3);
    assert!(count_segregating_sites(&variants) <= variants.len());
    assert_eq!(count_segregating_sites(&[].to_vec()), 0);
}

#[test]
fn count_is_zero_only_without_a_segregating_site() {
    let quiet = vec![
        variant(1, &[Some(&[0, 0]), Some(&[0]), None]),
        variant(2, &[None, None, None]),
        variant(3, &[Some(&[3]), Some(&[3, 3, 3]), Some(&[])]),
    ];
    assert_eq!(count_segregating_sites(&quiet), 0);
    let mut one = clone_variants(&quiet);
    one.push(variant(4, &[Some(&[0]), None, Some(&[1])]));
    assert_eq!(count_segregating_sites(&one), 1);
}

#[test]
fn a_missing_slot_adds_no_allele() {
    assert!(!variant_is_segregating(&variant(1, &[Some(&[1, 1]), None, Some(&[1])])));
    assert!(variant_is_segregating(&variant(1, &[Some(&[1, 0]), None])));
    assert!(!variant_is_segregating(&variant(1, &[])));
}

fn summary(pairs: &[PairDifference]) -> Vec<(usize, usize, usize, Vec<i64>)> {
    pairs.iter().map(|p| (p.first, p.second, p.diff_count, p.positions.clone())).collect()
}

#[test]
fn every_pair_is_compared_once_in_order() {
    let variants = sample_set();
    let pairs = calculate_pairwise_differences(&variants, 4);
    assert_eq!(
        summary(&pairs),
        vec![
            (0, 1, 2, vec![10, 30]),
            (0, 2, 1, vec![10]),
            (0, 3, 1, vec![50]),
            (1, 2, 1, vec![10]),
            (1, 3, 0, vec![]),
            (2, 3, 1, vec![50]),
        ]
    );
    assert_eq!(total_pairwise_differences(&pairs), 6);
}

#[test]
fn pair_counts_follow_the_number_of_samples() {
    for n in 0usize..12 {
        let slots: Vec<Option<&[u8]>> = (0..n).map(|_| Some(&[0u8, 1][..])).collect();
        let variants = vec![variant(5, &slots), variant(6, &slots)];
        let pairs = calculate_pairwise_differences(&variants, n);
        assert_eq!(pairs.len(), n * n.saturating_sub(1) / 2);
        let mut expected = Vec::new();
        for i in 0..n {
            for j in i + 1..n {
                expected.push((i, j));
            }
        }
        let got: Vec<(usize, usize)> = pairs.iter().map(|p| (p.first, p.second)).collect();
        assert_eq!(got, expected);
        assert_eq!(total_pairwise_differences(&pairs), 0);
    }
}

#[test]
fn a_pair_differs_no_more_often_than_both_are_present() {
    let variants = sample_set();
    let pairs = calculate_pairwise_differences(&variants, 4);
    for p in &pairs {
        let both = variants
            .iter()
            .filter(|v| v.genotypes[p.first].is_some() && v.genotypes[p.second].is_some())
            .count();
        assert!(p.diff_count <= both);
        assert_eq!(p.diff_count, p.positions.len());
    }
}

#[test]
fn calls_are_compared_as_ordered_sequences() {
    let variants = vec![
        variant(1, &[Some(&[0, 1]), Some(&[1, 0])]),
        variant(2, &[Some(&[0, 1]), Some(&[0, 1])]),
        variant(3, &[Some(&[0]), Some(&[0, 0])]),
    ];
    let pair = compare_pair(&variants, 0, 1);
    assert_eq!((pair.first, pair.second, pair.diff_count), (0, 1, 2));
    assert_eq!(pair.positions, vec![1, 3]);
    let same = compare_pair(&variants, 1, 1);
    assert_eq!(same.diff_count, 0);
}

#[test]
fn one_row_of_pairs() {
    let variants = sample_set();
    let row = pairs_of_sample(&variants, 1, 4);
    assert_eq!(summary(&row), vec![(1, 2, 1, vec![10]), (1, 3, 0, vec![])]);
    assert!(pairs_of_sample(&variants, 3, 4).is_empty());
}

#[test]
fn no_segregating_site_means_no_difference() {
    let variants = vec![
        variant(1, &[Some(&[0, 0]), Some(&[0, 0]), None]),
        variant(2, &[Some(&[1, 1]), Some(&[1, 1]), Some(&[1, 1])]),
    ];
    assert_eq!(count_segregating_sites(&variants), 0);
    let pairs = calculate_pairwise_differences(&variants, 3);
    assert_eq!(total_pairwise_differences(&pairs), 0);

    // Calls of different length differ though they hold one allele code.
    let ragged = vec![variant(1, &[Some(&[0]), Some(&[0, 0])])];
    assert_eq!(count_segregating_sites(&ragged), 0);
    let pairs = calculate_pairwise_differences(&ragged, 2);
    assert_eq!(total_pairwise_differences(&pairs), 1);
}

#[test]
fn slots_are_checked() {
    let variants = sample_set();
    assert!(variants_have_slots(&variants, 4));
    assert!(variants_have_slots(&variants, 0));
    assert!(!variants_have_slots(&variants, 5));
    let mut short = clone_variants(&variants);
    short.push(variant(60, &[None]));
    assert!(!variants_have_slots(&short, 2));
    assert!(variants_have_slots(&short, 1));
}

#[test]
fn copies_keep_every_slot() {
    let variants = sample_set();
    let copy = clone_variants(&variants);
    assert_eq!(copy.len(), variants.len());
    for (a, b) in copy.iter().zip(variants.iter()) {
        assert_eq!(a.position, b.position);
        assert_eq!(a.genotypes, b.genotypes);
    }
    let one = variants[0].clone();
    assert_eq!(one.position, 10);
    assert_eq!(one.genotypes, variants[0].genotypes);
}
