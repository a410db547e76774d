//! Segregating sites and pairwise differences of a set of variants.

use crate::variant::{variants_view, Variant, VariantView};
use rayon::iter::{IntoParallelIterator, IntoParallelRefIterator, ParallelIterator};
use vstd::prelude::*;

verus! {

/// Whether some non-missing slot of `v` holds the allele code `a`.
pub open spec fn has_allele(v: VariantView, a: u8) -> bool {
    exists|i: int, k: int| slot_holds(v, i, k, a)
}

/// Whether position `k` of slot `i` of `v` holds the allele code `a`.
pub open spec fn slot_holds(v: VariantView, i: int, k: int, a: u8) -> bool {
    &&& 0 <= i < v.genotypes.len()
    &&& v.genotypes[i] is Some
    &&& 0 <= k < v.genotypes[i]->0.len()
    &&& v.genotypes[i]->0[k] == a
}

/// The distinct allele codes over the non-missing slots of `v`.
pub open spec fn allele_set(v: VariantView) -> Set<u8> {
    Set::new(|a: u8| has_allele(v, a))
}

/// A variant is segregating where more than one allele code is observed.
pub open spec fn is_segregating(v: VariantView) -> bool {
    allele_set(v).len() > 1
}

/// How many of `variants` are segregating.
pub open spec fn segregating_count(variants: Seq<VariantView>) -> nat
    decreases variants.len(),
{
    if variants.len() == 0 {
        0
    } else {
        segregating_count(variants.drop_last()) + if is_segregating(variants.last()) {
            1nat
        } else {
            0nat
        }
    }
}

/// Every set of bytes is finite.
pub proof fn lemma_byte_set_finite(s: Set<u8>)
    ensures
        s.finite(),
        s.len() <= 256,
{
    let all = Set::new(|i: int| 0 <= i < 256);
    vstd::set_lib::lemma_int_range(0, 256);
    assert(all =~= vstd::set_lib::set_int_range(0, 256));
    let bytes = all.map(|i: int| i as u8);
    vstd::set_lib::lemma_map_size_bound(all, bytes, |i: int| i as u8);
    assert forall|a: u8| s.contains(a) implies bytes.contains(a) by {
        assert(all.contains(a as int));
        assert((a as int) as u8 == a);
    }
    assert(s.subset_of(bytes));
    vstd::set_lib::lemma_len_subset(s, bytes);
}

/// More than one allele code is observed exactly where two different
/// codes are.
pub proof fn lemma_segregating_iff_two_alleles(v: VariantView)
    ensures
        is_segregating(v) <==> exists|a: u8, b: u8| a != b && has_allele(v, a) && has_allele(v, b),
{
    let s = allele_set(v);
    lemma_byte_set_finite(s);
    if exists|a: u8, b: u8| a != b && has_allele(v, a) && has_allele(v, b) {
        let (a, b) = choose|a: u8, b: u8| a != b && has_allele(v, a) && has_allele(v, b);
        assert(s.contains(a) && s.contains(b));
        assert(s.remove(a).contains(b));
        assert(s.remove(a).remove(b).len() >= 0);
    }
    if s.len() > 1 {
        let a = s.choose();
        assert(s.contains(a));
        assert(s.remove(a).len() >= 1);
        let b = s.remove(a).choose();
        assert(s.remove(a).contains(b));
        assert(a != b && has_allele(v, a) && has_allele(v, b));
    }
}

/// Whether more than one allele code is observed over the non-missing
/// slots of `v`.
pub fn variant_is_segregating(v: &Variant) -> (b: bool)
    ensures
        b == is_segregating(v@),
{
    let mut first: Option<u8> = None;
    let mut i: usize = 0;
    while i < v.genotypes.len()
        invariant
            i <= v.genotypes@.len(),
            first matches Some(a) ==> has_allele(v@, a),
            forall|x: int, k: int, a: u8|
                x < i && #[trigger] slot_holds(v@, x, k, a) ==> first == Some(a),
        decreases v.genotypes@.len() - i,
    {
        match &v.genotypes[i] {
            Some(alleles) => {
                let mut k: usize = 0;
                while k < alleles.len()
                    invariant
                        i < v.genotypes@.len(),
                        v.genotypes@[i as int] == Some(*alleles),
                        k <= alleles@.len(),
                        first matches Some(a) ==> has_allele(v@, a),
                        forall|x: int, y: int, a: u8|
                            (x < i || (x == i && y < k)) && #[trigger] slot_holds(v@, x, y, a)
                                ==> first == Some(a),
                    decreases alleles@.len() - k,
                {
                    let a: u8 = alleles[k];
                    assert(slot_holds(v@, i as int, k as int, a));
                    match first {
                        None => {
                            first = Some(a);
                        },
                        Some(seen) => {
                            if seen != a {
                                proof {
                                    lemma_segregating_iff_two_alleles(v@);
                                    assert(has_allele(v@, a));
                                    assert(seen != a && has_allele(v@, seen) && has_allele(v@, a));
                                }
                                return true;
                            }
                        },
                    }
                    k += 1;
                }
            },
            None => {},
        }
        i += 1;
    }
    proof {
        lemma_segregating_iff_two_alleles(v@);
        assert forall|a: u8, b: u8| has_allele(v@, a) && has_allele(v@, b) implies a == b by {
            let (x, k) = choose|x: int, k: int| slot_holds(v@, x, k, a);
            let (y, l) = choose|y: int, l: int| slot_holds(v@, y, l, b);
            assert(slot_holds(v@, x, k, a));
            assert(slot_holds(v@, y, l, b));
        }
    }
    false
}

/// A segregating-site count is at most the number of variants, and it is
/// zero exactly where no variant is segregating.
pub proof fn lemma_segregating_count(variants: Seq<VariantView>)
    ensures
        segregating_count(variants) <= variants.len(),
        segregating_count(variants) == 0 <==> forall|k: int|
            0 <= k < variants.len() ==> !is_segregating(#[trigger] variants[k]),
    decreases variants.len(),
{
    if variants.len() > 0 {
        let init = variants.drop_last();
        lemma_segregating_count(init);
        assert forall|k: int| 0 <= k < init.len() implies init[k] == variants[k] by {}
        if segregating_count(variants) == 0 {
            assert forall|k: int| 0 <= k < variants.len() implies !is_segregating(
                #[trigger] variants[k],
            ) by {
                if k < init.len() {
                    assert(init[k] == variants[k]);
                }
            }
        }
        if forall|k: int| 0 <= k < variants.len() ==> !is_segregating(#[trigger] variants[k]) {
            assert forall|k: int| 0 <= k < init.len() implies !is_segregating(
                #[trigger] init[k],
            ) by {
                assert(init[k] == variants[k]);
            }
        }
    }
}

/// Counts in parallel, with rayon's `par_iter`, `filter` and `count`, the
/// variants for which `variant_is_segregating` answers `true`: `filter`
/// keeps the items on which its closure gave `true`, and `count` returns
/// how many items are left.
#[verifier::external_body]
fn par_count_segregating(variants: &Vec<Variant>) -> (count: usize)
    ensures
        count == segregating_count(variants_view(variants@)),
{
    variants.par_iter().filter(|v| variant_is_segregating(v)).count()
}

/// The number of segregating sites among `variants`.
pub fn count_segregating_sites(variants: &Vec<Variant>) -> (count: usize)
    ensures
        count == segregating_count(variants_view(variants@)),
        count <= variants@.len(),
        count == 0 <==> forall|k: int|
            0 <= k < variants@.len() ==> !is_segregating(#[trigger] variants@[k]@),
{
    proof {
        lemma_segregating_count(variants_view(variants@));
        assert forall|k: int| 0 <= k < variants@.len() implies #[trigger] variants@[k]@
            == variants_view(variants@)[k] by {}
    }
    par_count_segregating(variants)
}

/// Whether every variant of `variants` has at least `n` genotype slots.
pub open spec fn has_slots(variants: Seq<VariantView>, n: int) -> bool {
    forall|m: int| 0 <= m < variants.len() ==> n <= (#[trigger] variants[m]).genotypes.len()
}

/// Whether every variant of `variants` has at least `n` genotype slots.
pub fn variants_have_slots(variants: &Vec<Variant>, n: usize) -> (b: bool)
    ensures
        b == has_slots(variants_view(variants@), n as int),
{
    let mut m: usize = 0;
    while m < variants.len()
        invariant
            m <= variants@.len(),
            has_slots(variants_view(variants@).take(m as int), n as int),
        decreases variants@.len() - m,
    {
        if variants[m].genotypes.len() < n {
            assert(variants_view(variants@)[m as int].genotypes.len() < n);
            return false;
        }
        m += 1;
    }
    assert(variants_view(variants@).take(m as int) =~= variants_view(variants@));
    true
}

/// Whether samples `i` and `j` both have a call at `v`.
pub open spec fn both_present(v: VariantView, i: int, j: int) -> bool {
    &&& 0 <= i < v.genotypes.len()
    &&& 0 <= j < v.genotypes.len()
    &&& v.genotypes[i] is Some
    &&& v.genotypes[j] is Some
}

/// Whether samples `i` and `j` both have a call at `v` and the two calls
/// differ as ordered sequences of allele codes.
pub open spec fn pair_differs(v: VariantView, i: int, j: int) -> bool {
    both_present(v, i, j) && v.genotypes[i]->0 != v.genotypes[j]->0
}

/// The positions of the variants at which samples `i` and `j` differ, in
/// the order of `variants`.
pub open spec fn difference_positions(variants: Seq<VariantView>, i: int, j: int) -> Seq<int>
    decreases variants.len(),
{
    if variants.len() == 0 {
        Seq::empty()
    } else if pair_differs(variants.last(), i, j) {
        difference_positions(variants.drop_last(), i, j).push(variants.last().position)
    } else {
        difference_positions(variants.drop_last(), i, j)
    }
}

/// The number of variants at which samples `i` and `j` both have a call.
pub open spec fn both_present_count(variants: Seq<VariantView>, i: int, j: int) -> nat
    decreases variants.len(),
{
    if variants.len() == 0 {
        0
    } else {
        both_present_count(variants.drop_last(), i, j) + if both_present(variants.last(), i, j) {
            1nat
        } else {
            0nat
        }
    }
}

/// The differences of one pair of samples: how many variants differ, and
/// where.
#[derive(Debug)]
pub struct PairDifference {
    pub first: usize,
    pub second: usize,
    pub diff_count: usize,
    pub positions: Vec<i64>,
}

/// The differences of one pair as a mathematical value.
pub struct PairDifferenceView {
    pub first: int,
    pub second: int,
    pub diff_count: int,
    pub positions: Seq<int>,
}

/// The positions of `positions` as integers.
pub open spec fn positions_view(positions: Seq<i64>) -> Seq<int> {
    positions.map_values(|p: i64| p as int)
}

impl View for PairDifference {
    type V = PairDifferenceView;

    open spec fn view(&self) -> PairDifferenceView {
        PairDifferenceView {
            first: self.first as int,
            second: self.second as int,
            diff_count: self.diff_count as int,
            positions: positions_view(self.positions@),
        }
    }
}

/// The pairs of `pairs` as mathematical values.
pub open spec fn pairs_view(pairs: Seq<PairDifference>) -> Seq<PairDifferenceView> {
    pairs.map_values(|p: PairDifference| p@)
}

/// The differences of samples `i` and `j` over `variants`.
pub open spec fn pair_difference(variants: Seq<VariantView>, i: int, j: int) -> PairDifferenceView {
    PairDifferenceView {
        first: i,
        second: j,
        diff_count: difference_positions(variants, i, j).len() as int,
        positions: difference_positions(variants, i, j),
    }
}

/// A pair differs at no more variants than both samples have a call at.
pub proof fn lemma_differences_bounded(variants: Seq<VariantView>, i: int, j: int)
    ensures
        difference_positions(variants, i, j).len() <= both_present_count(variants, i, j)
            <= variants.len(),
    decreases variants.len(),
{
    if variants.len() > 0 {
        lemma_differences_bounded(variants.drop_last(), i, j);
    }
}

/// Whether two calls hold the same alleles in the same order.
fn same_alleles(a: &Vec<u8>, b: &Vec<u8>) -> (same: bool)
    ensures
        same == (a@ == b@),
{
    if a.len() != b.len() {
        return false;
    }
    let mut k: usize = 0;
    while k < a.len()
        invariant
            a@.len() == b@.len(),
            k <= a@.len(),
            a@.take(k as int) == b@.take(k as int),
        decreases a@.len() - k,
    {
        if a[k] != b[k] {
            return false;
        }
        assert(a@.take(k + 1) =~= a@.take(k as int).push(a@[k as int]));
        assert(b@.take(k + 1) =~= b@.take(k as int).push(b@[k as int]));
        k += 1;
    }
    assert(a@.take(k as int) =~= a@ && b@.take(k as int) =~= b@);
    true
}

/// Scans `variants` in order and records where samples `i` and `j` both
/// have a call and the calls differ.
pub fn compare_pair(variants: &Vec<Variant>, i: usize, j: usize) -> (out: PairDifference)
    requires
        has_slots(variants_view(variants@), i + 1),
        has_slots(variants_view(variants@), j + 1),
    ensures
        out@ == pair_difference(variants_view(variants@), i as int, j as int),
        out.diff_count <= both_present_count(variants_view(variants@), i as int, j as int),
{
    let ghost vs = variants_view(variants@);
    let mut diff_count: usize = 0;
    let mut positions: Vec<i64> = Vec::new();
    let mut m: usize = 0;
    while m < variants.len()
        invariant
            vs == variants_view(variants@),
            has_slots(vs, i + 1),
            has_slots(vs, j + 1),
            m <= variants@.len(),
            diff_count == positions@.len(),
            diff_count <= m,
            positions_view(positions@) == difference_positions(vs.take(m as int), i as int, j as int),
        decreases variants@.len() - m,
    {
        let v = &variants[m];
        proof {
            assert(vs.take(m + 1).drop_last() =~= vs.take(m as int));
            assert(vs.take(m + 1).last() == v@);
            assert(vs[m as int] == v@);
        }
        let differs = match (&v.genotypes[i], &v.genotypes[j]) {
            (Some(gi), Some(gj)) => !same_alleles(gi, gj),
            _ => false,
        };
        assert(differs == pair_differs(v@, i as int, j as int));
        if differs {
            diff_count += 1;
            positions.push(v.position);
            assert(positions_view(positions@) =~= difference_positions(
                vs.take(m as int),
                i as int,
                j as int,
            ).push(v.position as int));
        }
        m += 1;
    }
    proof {
        assert(vs.take(m as int) =~= vs);
        lemma_differences_bounded(vs, i as int, j as int);
    }
    PairDifference { first: i, second: j, diff_count, positions }
}

/// The differences of sample `i` with each later sample below `n`, by
/// rising second sample.
pub open spec fn pair_row(variants: Seq<VariantView>, i: int, n: int) -> Seq<PairDifferenceView> {
    Seq::new((n - i - 1) as nat, |k: int| pair_difference(variants, i, i + 1 + k))
}

/// The rows of the samples `from`, `from + 1`, ... below `n`, one after
/// the other.
pub open spec fn pair_rows(variants: Seq<VariantView>, from: int, n: int) -> Seq<
    PairDifferenceView,
>
    decreases n - from,
{
    if from >= n {
        Seq::empty()
    } else {
        pair_row(variants, from, n) + pair_rows(variants, from + 1, n)
    }
}

/// The differences of every pair `(i, j)` with `i < j < n`, ordered by
/// `i`, then by `j`.
pub open spec fn all_pairs(variants: Seq<VariantView>, n: int) -> Seq<PairDifferenceView> {
    pair_rows(variants, 0, n)
}

/// The number of unordered pairs among `n` samples.
pub open spec fn pair_count(n: int) -> int {
    n * (n - 1) / 2
}

/// The rows from `from` on hold one entry for each pair of the samples
/// `from..n`, each entry that of a pair `first < second < n` whose count
/// is bounded by the variants at which both samples have a call.
pub proof fn lemma_pair_rows(variants: Seq<VariantView>, from: int, n: int)
    requires
        0 <= from <= n,
    ensures
        pair_rows(variants, from, n).len() == pair_count(n - from),
        forall|k: int|
            0 <= k < pair_rows(variants, from, n).len() ==> {
                let p = #[trigger] pair_rows(variants, from, n)[k];
                &&& from <= p.first < p.second < n
                &&& p == pair_difference(variants, p.first, p.second)
                &&& 0 <= p.diff_count <= both_present_count(variants, p.first, p.second)
            },
    decreases n - from,
{
    if from < n {
        lemma_pair_rows(variants, from + 1, n);
        let row = pair_row(variants, from, n);
        let rest = pair_rows(variants, from + 1, n);
        assert((n - from) * (n - from - 1) == (n - from - 1) * (n - from - 2) + 2 * (n - from
            - 1)) by (nonlinear_arith);
        assert forall|k: int| 0 <= k < pair_rows(variants, from, n).len() implies {
            let p = #[trigger] pair_rows(variants, from, n)[k];
            &&& from <= p.first < p.second < n
            &&& p == pair_difference(variants, p.first, p.second)
            &&& 0 <= p.diff_count <= both_present_count(variants, p.first, p.second)
        } by {
            if k < row.len() {
                assert(pair_rows(variants, from, n)[k] == row[k]);
                lemma_differences_bounded(variants, from, from + 1 + k);
            } else {
                assert(pair_rows(variants, from, n)[k] == rest[k - row.len()]);
            }
        }
    } else {
        assert(0int * (0 - 1) == 0) by (nonlinear_arith);
    }
}

/// Computes in parallel, with rayon's `into_par_iter` on a range, `map` and
/// `collect`, what `compare_pair` returns for sample `i` and each sample of
/// `first..n`. `map` applies its closure to every item, and `collect` into
/// a `Vec` keeps the order of the range.
#[verifier::external_body]
fn par_pair_row(variants: &Vec<Variant>, i: usize, first: usize, n: usize) -> (row: Vec<
    PairDifference,
>)
    requires
        i < first <= n,
        has_slots(variants_view(variants@), n as int),
    ensures
        row@.len() == n - first,
        forall|k: int|
            0 <= k < row@.len() ==> (#[trigger] row@[k])@ == pair_difference(
                variants_view(variants@),
                i as int,
                first + k,
            ),
{
    (first..n).into_par_iter().map(|j| compare_pair(variants, i, j)).collect()
}

/// The differences of sample `i` with each later sample below `n`.
pub fn pairs_of_sample(variants: &Vec<Variant>, i: usize, n: usize) -> (row: Vec<PairDifference>)
    requires
        i < n,
        has_slots(variants_view(variants@), n as int),
    ensures
        pairs_view(row@) == pair_row(variants_view(variants@), i as int, n as int),
{
    let first: usize = i + 1;
    let row = par_pair_row(variants, i, first, n);
    assert(pairs_view(row@) =~= pair_row(variants_view(variants@), i as int, n as int));
    row
}

/// Computes in parallel, with rayon's `into_par_iter` on a range,
/// `flat_map` and `collect`, what `pairs_of_sample` returns for each sample
/// of `from..n`, and joins the rows. `flat_map` flattens the rows that its
/// closure gives into one iterator, and `collect` into a `Vec` keeps the
/// order: row after row, each in its own order.
#[verifier::external_body]
fn par_pair_rows(variants: &Vec<Variant>, from: usize, n: usize) -> (pairs: Vec<PairDifference>)
    requires
        from <= n,
        has_slots(variants_view(variants@), n as int),
        pair_count(n - from) <= usize::MAX,
    ensures
        pairs_view(pairs@) == pair_rows(variants_view(variants@), from as int, n as int),
{
    (from..n).into_par_iter().flat_map(|i| pairs_of_sample(variants, i, n)).collect()
}

/// The differences of every unordered pair of the first `n` samples,
/// ordered by first sample, then by second.
pub fn calculate_pairwise_differences(variants: &Vec<Variant>, n: usize) -> (pairs: Vec<
    PairDifference,
>)
    requires
        has_slots(variants_view(variants@), n as int),
        pair_count(n as int) <= usize::MAX,
    ensures
        pairs_view(pairs@) == all_pairs(variants_view(variants@), n as int),
        pairs@.len() == pair_count(n as int),
        forall|k: int|
            0 <= k < pairs@.len() ==> {
                let p = #[trigger] pairs@[k];
                &&& p.first < p.second < n
                &&& p@ == pair_difference(
                    variants_view(variants@),
                    p.first as int,
                    p.second as int,
                )
                &&& p.diff_count <= both_present_count(
                    variants_view(variants@),
                    p.first as int,
                    p.second as int,
                )
            },
{
    let pairs = par_pair_rows(variants, 0, n);
    proof {
        let vs = variants_view(variants@);
        lemma_pair_rows(vs, 0, n as int);
        assert(pairs_view(pairs@).len() == pairs@.len());
        assert forall|k: int| 0 <= k < pairs@.len() implies {
            let p = #[trigger] pairs@[k];
            &&& p.first < p.second < n
            &&& p@ == pair_difference(vs, p.first as int, p.second as int)
            &&& p.diff_count <= both_present_count(vs, p.first as int, p.second as int)
        } by {
            assert(pairs_view(pairs@)[k] == pairs@[k]@);
            assert(pair_rows(vs, 0, n as int)[k] == pairs@[k]@);
        }
    }
    pairs
}

/// The sum of the difference counts of `pairs`.
pub open spec fn total_differences(pairs: Seq<PairDifferenceView>) -> int
    decreases pairs.len(),
{
    if pairs.len() == 0 {
        0
    } else {
        total_differences(pairs.drop_last()) + pairs.last().diff_count
    }
}

/// The total number of pairwise differences over `pairs`.
pub fn total_pairwise_differences(pairs: &Vec<PairDifference>) -> (total: u128)
    ensures
        total == total_differences(pairs_view(pairs@)),
{
    let ghost ps = pairs_view(pairs@);
    let mut total: u128 = 0;
    let mut k: usize = 0;
    while k < pairs.len()
        invariant
            ps == pairs_view(pairs@),
            k <= pairs@.len(),
            total == total_differences(ps.take(k as int)),
            total <= k * 0xffff_ffff_ffff_ffff,
        decreases pairs@.len() - k,
    {
        proof {
            assert(ps.take(k + 1).drop_last() =~= ps.take(k as int));
            assert(ps.take(k + 1).last() == pairs@[k as int]@);
        }
        total = total + pairs[k].diff_count as u128;
        k += 1;
    }
    assert(ps.take(k as int) =~= ps);
    total
}

/// Whether the calls of the first `n` samples at `v` all have the same
/// number of alleles.
pub open spec fn same_ploidy(v: VariantView, n: int) -> bool {
    forall|i: int, j: int|
        0 <= i < n && 0 <= j < n && both_present(v, i, j) ==> (#[trigger] v.genotypes[i])->0.len()
            == (#[trigger] v.genotypes[j])->0.len()
}

/// Where a variant is not segregating, two calls with the same number of
/// alleles do not differ.
pub proof fn lemma_not_segregating_no_difference(v: VariantView, i: int, j: int)
    requires
        !is_segregating(v),
        both_present(v, i, j),
        v.genotypes[i]->0.len() == v.genotypes[j]->0.len(),
    ensures
        !pair_differs(v, i, j),
{
    lemma_segregating_iff_two_alleles(v);
    let a = v.genotypes[i]->0;
    let b = v.genotypes[j]->0;
    assert forall|k: int| 0 <= k < a.len() implies a[k] == b[k] by {
        assert(slot_holds(v, i, k, a[k]));
        assert(slot_holds(v, j, k, b[k]));
        assert(has_allele(v, a[k]) && has_allele(v, b[k]));
    }
    assert(a =~= b);
}

/// A pair that differs at none of the variants has no difference position.
pub proof fn lemma_no_difference_positions(variants: Seq<VariantView>, i: int, j: int)
    requires
        forall|k: int| 0 <= k < variants.len() ==> !pair_differs(#[trigger] variants[k], i, j),
    ensures
        difference_positions(variants, i, j) == Seq::<int>::empty(),
    decreases variants.len(),
{
    if variants.len() > 0 {
        assert(!pair_differs(variants[variants.len() - 1], i, j));
        assert forall|k: int| 0 <= k < variants.drop_last().len() implies !pair_differs(
            #[trigger] variants.drop_last()[k],
            i,
            j,
        ) by {
            assert(variants.drop_last()[k] == variants[k]);
        }
        lemma_no_difference_positions(variants.drop_last(), i, j);
    }
}

/// Counts that are all zero sum to zero.
pub proof fn lemma_total_of_zeros(pairs: Seq<PairDifferenceView>)
    requires
        forall|k: int| 0 <= k < pairs.len() ==> (#[trigger] pairs[k]).diff_count == 0,
    ensures
        total_differences(pairs) == 0,
    decreases pairs.len(),
{
    if pairs.len() > 0 {
        assert(pairs[pairs.len() - 1].diff_count == 0);
        assert forall|k: int| 0 <= k < pairs.drop_last().len() implies (
        #[trigger] pairs.drop_last()[k]).diff_count == 0 by {
            assert(pairs.drop_last()[k] == pairs[k]);
        }
        lemma_total_of_zeros(pairs.drop_last());
    }
}

/// Without a segregating site there is no pairwise difference: where no
/// variant is segregating and the calls at each variant have the same
/// number of alleles, every pair of the first `n` samples has a count of
/// zero, and so has the total.
pub proof fn lemma_no_segregating_no_differences(variants: Seq<VariantView>, n: int)
    requires
        0 <= n,
        segregating_count(variants) == 0,
        forall|k: int| 0 <= k < variants.len() ==> same_ploidy(#[trigger] variants[k], n),
    ensures
        forall|k: int|
            0 <= k < all_pairs(variants, n).len() ==> (#[trigger] all_pairs(
                variants,
                n,
            )[k]).diff_count == 0,
        total_differences(all_pairs(variants, n)) == 0,
{
    lemma_segregating_count(variants);
    lemma_pair_rows(variants, 0, n);
    let pairs = all_pairs(variants, n);
    assert forall|k: int| 0 <= k < pairs.len() implies (#[trigger] pairs[k]).diff_count == 0 by {
        let p = pairs[k];
        assert forall|m: int| 0 <= m < variants.len() implies !pair_differs(
            #[trigger] variants[m],
            p.first,
            p.second,
        ) by {
            let v = variants[m];
            if both_present(v, p.first, p.second) {
                assert(same_ploidy(v, n));
                assert(v.genotypes[p.first]->0.len() == v.genotypes[p.second]->0.len());
                lemma_not_segregating_no_difference(v, p.first, p.second);
            }
        }
        lemma_no_difference_positions(variants, p.first, p.second);
    }
    lemma_total_of_zeros(pairs);
}

} // verus!
