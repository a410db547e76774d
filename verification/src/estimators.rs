//! Watterson's theta and the nucleotide diversity as exact fractions of
//! whole numbers, and what holds of them.

use crate::diversity::{
    all_pairs, lemma_no_segregating_no_differences, pair_count, same_ploidy, segregating_count,
    total_differences,
};
use crate::variant::VariantView;
use crate::haplotype::GroupDiversityView;
use vstd::prelude::*;

verus! {

/// A quotient of two whole numbers; it stands for a number where its
/// denominator is positive.
pub struct Fraction {
    pub numerator: int,
    pub denominator: int,
}

impl Fraction {
    /// Whether the fraction stands for a number.
    pub open spec fn defined(self) -> bool {
        self.denominator > 0
    }

    /// Whether a defined fraction is zero.
    pub open spec fn is_zero(self) -> bool {
        self.numerator == 0
    }

    /// Whether `self` is at most `other`, for two defined fractions.
    pub open spec fn le(self, other: Fraction) -> bool {
        self.numerator * other.denominator <= other.numerator * self.denominator
    }
}

/// The product of the whole numbers from 1 to `k`.
pub open spec fn factorial(k: nat) -> nat
    decreases k,
{
    if k == 0 {
        1
    } else {
        k * factorial((k - 1) as nat)
    }
}

/// The harmonic number H(k) = 1/1 + 1/2 + ... + 1/k, times `factorial(k)`,
/// which makes it a whole number.
pub open spec fn harmonic_scaled(k: nat) -> nat
    decreases k,
{
    if k == 0 {
        0
    } else {
        harmonic_scaled((k - 1) as nat) * k + factorial((k - 1) as nat)
    }
}

/// Watterson's theta for `n` haplotypes: the segregating sites over the
/// harmonic number H(n - 1) over the sequence length.
pub open spec fn watterson_theta(segregating_sites: nat, n: nat, length: int) -> Fraction {
    Fraction {
        numerator: (segregating_sites * factorial((n - 1) as nat)) as int,
        denominator: harmonic_scaled((n - 1) as nat) * length,
    }
}

/// The nucleotide diversity for `n` haplotypes: the pairwise differences
/// over the number of pairs over the sequence length.
pub open spec fn nucleotide_diversity(total_differences: nat, n: nat, length: int) -> Fraction {
    Fraction { numerator: total_differences as int, denominator: pair_count(n as int) * length }
}

impl GroupDiversityView {
    /// Watterson's theta of the group.
    pub open spec fn theta(self) -> Fraction {
        watterson_theta(self.segregating_sites, self.haplotypes, self.sequence_length)
    }

    /// The nucleotide diversity of the group.
    pub open spec fn pi(self) -> Fraction {
        nucleotide_diversity(
            self.total_pairwise_differences as nat,
            self.haplotypes,
            self.sequence_length,
        )
    }
}

/// A factorial is positive.
pub proof fn lemma_factorial_positive(k: nat)
    ensures
        factorial(k) > 0,
    decreases k,
{
    if k > 0 {
        lemma_factorial_positive((k - 1) as nat);
        assert(k * factorial((k - 1) as nat) > 0) by (nonlinear_arith)
            requires
                k > 0,
                factorial((k - 1) as nat) > 0,
        ;
    }
}

/// A scaled harmonic number is positive from the first on.
pub proof fn lemma_harmonic_positive(k: nat)
    requires
        k >= 1,
    ensures
        harmonic_scaled(k) > 0,
{
    lemma_factorial_positive((k - 1) as nat);
    assert(harmonic_scaled((k - 1) as nat) * k >= 0) by (nonlinear_arith);
}

/// Both statistics are defined for two haplotypes or more and a sequence
/// of positive length.
pub proof fn lemma_statistics_defined(n: nat, length: int)
    requires
        n >= 2,
        length > 0,
    ensures
        forall|s: nat| (#[trigger] watterson_theta(s, n, length)).defined(),
        forall|t: nat| (#[trigger] nucleotide_diversity(t, n, length)).defined(),
{
    lemma_harmonic_positive((n - 1) as nat);
    assert(harmonic_scaled((n - 1) as nat) * length > 0) by (nonlinear_arith)
        requires
            harmonic_scaled((n - 1) as nat) > 0,
            length > 0,
    ;
    assert(n * (n - 1) >= 2) by (nonlinear_arith)
        requires
            n >= 2,
    ;
    assert(pair_count(n as int) * length > 0) by (nonlinear_arith)
        requires
            pair_count(n as int) >= 1,
            length > 0,
    ;
}

/// Watterson's theta is zero where no site is segregating, and the
/// nucleotide diversity is zero where no pair differs.
pub proof fn lemma_statistics_zero(n: nat, length: int)
    ensures
        watterson_theta(0, n, length).is_zero(),
        nucleotide_diversity(0, n, length).is_zero(),
{
    assert(0 * factorial((n - 1) as nat) == 0) by (nonlinear_arith);
}

/// With the number of haplotypes and the sequence length held fixed,
/// Watterson's theta does not fall as the segregating sites rise.
pub proof fn lemma_theta_monotone(fewer: nat, more: nat, n: nat, length: int)
    requires
        fewer <= more,
        n >= 2,
        length > 0,
    ensures
        watterson_theta(fewer, n, length).le(watterson_theta(more, n, length)),
{
    lemma_statistics_defined(n, length);
    lemma_factorial_positive((n - 1) as nat);
    let f = factorial((n - 1) as nat) as int;
    let d = harmonic_scaled((n - 1) as nat) * length;
    assert(watterson_theta(fewer, n, length).defined());
    assert((fewer * f) * d <= (more * f) * d) by (nonlinear_arith)
        requires
            fewer <= more,
            f > 0,
            d > 0,
    ;
}

/// With the number of haplotypes and the sequence length held fixed, the
/// nucleotide diversity does not fall as the pairwise differences rise.
pub proof fn lemma_pi_monotone(fewer: nat, more: nat, n: nat, length: int)
    requires
        fewer <= more,
        n >= 2,
        length > 0,
    ensures
        nucleotide_diversity(fewer, n, length).le(nucleotide_diversity(more, n, length)),
{
    lemma_statistics_defined(n, length);
    let d = pair_count(n as int) * length;
    assert(nucleotide_diversity(fewer, n, length).defined());
    assert(fewer * d <= more * d) by (nonlinear_arith)
        requires
            fewer <= more,
            d > 0,
    ;
}

/// Both statistics are zero where no site is segregating: for variants
/// none of which is segregating, and whose calls have the same number of
/// alleles at each variant, Watterson's theta and the nucleotide diversity
/// of the first `n` samples are zero.
pub proof fn lemma_zero_without_segregating_sites(variants: Seq<VariantView>, n: nat, length: int)
    requires
        segregating_count(variants) == 0,
        forall|k: int| 0 <= k < variants.len() ==> same_ploidy(#[trigger] variants[k], n as int),
    ensures
        total_differences(all_pairs(variants, n as int)) == 0,
        watterson_theta(segregating_count(variants), n, length).is_zero(),
        nucleotide_diversity(
            total_differences(all_pairs(variants, n as int)) as nat,
            n,
            length,
        ).is_zero(),
{
    lemma_no_segregating_no_differences(variants, n as int);
    lemma_statistics_zero(n, length);
}

} // verus!
