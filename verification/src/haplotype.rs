//! The haplotype-group filter: from a configuration entry's samples to the
//! haplotypes of one group, and the diversity of the variants reduced to them.

use crate::diversity::{
    all_pairs, calculate_pairwise_differences, count_segregating_sites, pair_count,
    segregating_count, total_differences, total_pairwise_differences,
};
use crate::error::{VcfError, VcfErrorView};
use crate::header::names_view;
use crate::line::same_chars;
use crate::text::{chars_of, decimal_text, u8_to_string};
use crate::variant::{slot_view, variants_view, Variant, VariantView};
use vstd::prelude::*;
use vstd::slice::slice_subrange;
use vstd::string::{StrSliceExecFns, StringExecFns};

verus! {

/// One configured sample: its identifier and the group, 0 or 1, of its left
/// and of its right haplotype.
#[derive(Debug)]
pub struct SampleGroups {
    pub name: String,
    pub left: u8,
    pub right: u8,
}

/// A configured sample as a mathematical value.
pub struct SampleGroupsView {
    pub name: Seq<char>,
    pub left: u8,
    pub right: u8,
}

impl View for SampleGroups {
    type V = SampleGroupsView;

    open spec fn view(&self) -> SampleGroupsView {
        SampleGroupsView { name: self.name@, left: self.left, right: self.right }
    }
}

/// The samples of `samples` as mathematical values.
pub open spec fn samples_view(samples: Seq<SampleGroups>) -> Seq<SampleGroupsView> {
    samples.map_values(|s: SampleGroups| s@)
}

impl Clone for SampleGroups {
    fn clone(&self) -> (out: SampleGroups)
        ensures
            out@ == self@,
    {
        SampleGroups { name: self.name.clone(), left: self.left, right: self.right }
    }
}

/// The index after the last `_` of `name`, or 0 where it has none.
pub open spec fn id_start(name: Seq<char>) -> int
    decreases name.len(),
{
    if name.len() == 0 {
        0
    } else if name.last() == '_' {
        name.len() as int
    } else {
        id_start(name.drop_last())
    }
}

/// An identifier starts inside its name.
pub proof fn lemma_id_start(name: Seq<char>)
    ensures
        0 <= id_start(name) <= name.len(),
    decreases name.len(),
{
    if name.len() > 0 && name.last() != '_' {
        lemma_id_start(name.drop_last());
    }
}

/// The identifier of a sample name: what follows its last `_`, or the
/// whole name where it has none.
pub open spec fn sample_id(name: Seq<char>) -> Seq<char> {
    name.skip(id_start(name))
}

/// The identifiers of `names`, in order.
pub open spec fn sample_ids(names: Seq<Seq<char>>) -> Seq<Seq<char>> {
    names.map_values(|n: Seq<char>| sample_id(n))
}

/// The index after the last `_` of `name`.
fn find_id_start(name: &[char]) -> (at: usize)
    ensures
        at == id_start(name@),
        at <= name@.len(),
{
    let mut k: usize = name.len();
    assert(name@.take(k as int) =~= name@);
    while k > 0 && name[k - 1] != '_'
        invariant
            k <= name@.len(),
            id_start(name@) == id_start(name@.take(k as int)),
        decreases k,
    {
        assert(name@.take(k as int).drop_last() =~= name@.take(k - 1));
        k -= 1;
    }
    k
}

/// The identifier of a sample name: what follows its last `_`.
pub fn extract_sample_id(name: &str) -> (id: &str)
    ensures
        id@ == sample_id(name@),
{
    let chars = chars_of(name);
    let at = find_id_start(chars.as_slice());
    name.substring_char(at, chars.len())
}

/// Whether the identifier at `j` already occurs before `j`.
pub open spec fn repeats_earlier(ids: Seq<Seq<char>>, j: int) -> bool {
    exists|i: int| 0 <= i < j && #[trigger] ids[i] == ids[j]
}

/// The first index at or after `j` whose identifier occurs earlier.
pub open spec fn first_repeat_from(ids: Seq<Seq<char>>, j: int) -> Option<int>
    decreases ids.len() - j,
{
    if j < 0 || j >= ids.len() {
        None
    } else if repeats_earlier(ids, j) {
        Some(j)
    } else {
        first_repeat_from(ids, j + 1)
    }
}

/// The first index whose identifier occurs earlier in `ids`.
pub open spec fn first_repeat(ids: Seq<Seq<char>>) -> Option<int> {
    first_repeat_from(ids, 0)
}

/// The first index at or after `i` that holds `name`.
pub open spec fn position_from(ids: Seq<Seq<char>>, name: Seq<char>, i: int) -> Option<int>
    decreases ids.len() - i,
{
    if i < 0 || i >= ids.len() {
        None
    } else if ids[i] == name {
        Some(i)
    } else {
        position_from(ids, name, i + 1)
    }
}

/// The index of the sample whose identifier is `name`.
pub open spec fn position_of(ids: Seq<Seq<char>>, name: Seq<char>) -> Option<int> {
    position_from(ids, name, 0)
}

/// The identifiers of `ids` as sequences of characters.
pub open spec fn ids_view(ids: Seq<Vec<char>>) -> Seq<Seq<char>> {
    ids.map_values(|id: Vec<char>| id@)
}

/// A copy of the characters of `s`.
fn copy_chars(s: &[char]) -> (out: Vec<char>)
    ensures
        out@ == s@,
{
    let mut out: Vec<char> = Vec::new();
    let mut k: usize = 0;
    while k < s.len()
        invariant
            k <= s@.len(),
            out@ == s@.take(k as int),
        decreases s@.len() - k,
    {
        out.push(s[k]);
        assert(s@.take(k + 1) =~= s@.take(k as int).push(s@[k as int]));
        k += 1;
    }
    assert(s@.take(k as int) =~= s@);
    out
}

/// The identifiers of `names`, in order.
fn identifiers(sample_names: &Vec<String>) -> (ids: Vec<Vec<char>>)
    ensures
        ids_view(ids@) == sample_ids(names_view(sample_names@)),
{
    let mut ids: Vec<Vec<char>> = Vec::new();
    let mut k: usize = 0;
    while k < sample_names.len()
        invariant
            k <= sample_names@.len(),
            ids@.len() == k,
            forall|t: int| 0 <= t < k ==> (#[trigger] ids@[t])@ == sample_id(sample_names@[t]@),
        decreases sample_names@.len() - k,
    {
        let chars = chars_of(sample_names[k].as_str());
        let at = find_id_start(chars.as_slice());
        let id = copy_chars(slice_subrange(chars.as_slice(), at, chars.len()));
        ids.push(id);
        k += 1;
    }
    assert(ids_view(ids@) =~= sample_ids(names_view(sample_names@)));
    ids
}

/// The first index whose identifier occurs earlier.
fn find_repeat(ids: &Vec<Vec<char>>) -> (out: Option<usize>)
    ensures
        match out {
            Some(j) => first_repeat(ids_view(ids@)) == Some(j as int) && j < ids@.len(),
            None => first_repeat(ids_view(ids@)) is None,
        },
{
    let ghost view = ids_view(ids@);
    let mut j: usize = 0;
    while j < ids.len()
        invariant
            j <= ids@.len(),
            view == ids_view(ids@),
            first_repeat(view) == first_repeat_from(view, j as int),
        decreases ids@.len() - j,
    {
        let mut i: usize = 0;
        while i < j
            invariant
                i <= j < ids@.len(),
                view == ids_view(ids@),
                first_repeat(view) == first_repeat_from(view, j as int),
                forall|t: int| 0 <= t < i ==> #[trigger] view[t] != view[j as int],
            decreases j - i,
        {
            if same_chars(ids[i].as_slice(), ids[j].as_slice()) {
                assert(view[i as int] == view[j as int]);
                assert(repeats_earlier(view, j as int));
                return Some(j);
            }
            i += 1;
        }
        assert(!repeats_earlier(view, j as int));
        j += 1;
    }
    None
}

/// The index of the identifier `name` among `ids`.
fn find_position(ids: &Vec<Vec<char>>, name: &[char]) -> (out: Option<usize>)
    ensures
        match out {
            Some(i) => position_of(ids_view(ids@), name@) == Some(i as int) && i < ids@.len(),
            None => position_of(ids_view(ids@), name@) is None,
        },
{
    let ghost view = ids_view(ids@);
    let mut i: usize = 0;
    while i < ids.len()
        invariant
            i <= ids@.len(),
            view == ids_view(ids@),
            position_of(view, name@) == position_from(view, name@, i as int),
        decreases ids@.len() - i,
    {
        if same_chars(ids[i].as_slice(), name) {
            return Some(i);
        }
        i += 1;
    }
    None
}

/// The haplotype that a configured sample contributes to `group`: the left
/// one, index 0, where the group is 0 and so is the sample's left group;
/// the right one, index 1, where the group is 1 and so is its right group;
/// none where the sample is not among `ids`.
pub open spec fn haplotype_of(ids: Seq<Seq<char>>, sample: SampleGroupsView, group: u8) -> Option<
    (int, int),
> {
    match position_of(ids, sample.name) {
        None => None,
        Some(i) => if group == 0 && sample.left == 0 {
            Some((i, 0int))
        } else if group == 1 && sample.right == 1 {
            Some((i, 1int))
        } else {
            None
        },
    }
}

/// The haplotypes of `group`, as pairs of a sample index and an allele
/// index, in the order of `samples`.
pub open spec fn selection(ids: Seq<Seq<char>>, samples: Seq<SampleGroupsView>, group: u8) -> Seq<
    (int, int),
>
    decreases samples.len(),
{
    if samples.len() == 0 {
        Seq::empty()
    } else {
        match haplotype_of(ids, samples.last(), group) {
            Some(h) => selection(ids, samples.drop_last(), group).push(h),
            None => selection(ids, samples.drop_last(), group),
        }
    }
}

/// The indices of the configured samples that are not among `ids`.
pub open spec fn unmatched(ids: Seq<Seq<char>>, samples: Seq<SampleGroupsView>) -> Seq<int>
    decreases samples.len(),
{
    if samples.len() == 0 {
        Seq::empty()
    } else if position_of(ids, samples.last().name) is None {
        unmatched(ids, samples.drop_last()).push(samples.len() - 1)
    } else {
        unmatched(ids, samples.drop_last())
    }
}

/// The slot of haplotype `h` at `v`: the single allele at its allele index
/// in its sample's call, or nothing where the call or the allele is absent.
pub open spec fn pick(v: VariantView, h: (int, int)) -> Option<Seq<u8>> {
    if 0 <= h.0 < v.genotypes.len() && v.genotypes[h.0] is Some && 0 <= h.1
        < v.genotypes[h.0]->0.len() {
        Some(seq![v.genotypes[h.0]->0[h.1]])
    } else {
        None
    }
}

/// `v` restricted to the haplotypes `chosen`, one slot each, in their order.
pub open spec fn reduce_variant(v: VariantView, chosen: Seq<(int, int)>) -> VariantView {
    VariantView {
        position: v.position,
        genotypes: Seq::new(chosen.len(), |t: int| pick(v, chosen[t])),
    }
}

/// Every variant of `variants` restricted to the haplotypes `chosen`.
pub open spec fn reduce(variants: Seq<VariantView>, chosen: Seq<(int, int)>) -> Seq<VariantView> {
    variants.map_values(|v: VariantView| reduce_variant(v, chosen))
}

/// The haplotypes of `chosen` as pairs of integers.
pub open spec fn chosen_view(chosen: Seq<(usize, usize)>) -> Seq<(int, int)> {
    chosen.map_values(|h: (usize, usize)| (h.0 as int, h.1 as int))
}

/// The indices of `indices` as integers.
pub open spec fn indices_view(indices: Seq<usize>) -> Seq<int> {
    indices.map_values(|i: usize| i as int)
}

/// Selects the haplotypes of `group` among the samples with the
/// identifiers `ids`.
fn select_haplotypes(ids: &Vec<Vec<char>>, samples: &Vec<SampleGroups>, group: u8) -> (chosen: Vec<
    (usize, usize),
>)
    ensures
        chosen_view(chosen@) == selection(ids_view(ids@), samples_view(samples@), group),
        chosen@.len() <= samples@.len(),
{
    let ghost view = ids_view(ids@);
    let ghost all = samples_view(samples@);
    let mut chosen: Vec<(usize, usize)> = Vec::new();
    let mut k: usize = 0;
    while k < samples.len()
        invariant
            view == ids_view(ids@),
            all == samples_view(samples@),
            k <= samples@.len(),
            chosen@.len() <= k,
            chosen_view(chosen@) == selection(view, all.take(k as int), group),
        decreases samples@.len() - k,
    {
        proof {
            assert(all.take(k + 1).drop_last() =~= all.take(k as int));
            assert(all.take(k + 1).last() == samples@[k as int]@);
        }
        let sample = &samples[k];
        let name = chars_of(sample.name.as_str());
        let ghost chosen_before = chosen_view(chosen@);
        match find_position(ids, name.as_slice()) {
            Some(i) => {
                if group == 0 && sample.left == 0 {
                    chosen.push((i, 0));
                    assert(chosen_view(chosen@) =~= chosen_before.push((i as int, 0int)));
                } else if group == 1 && sample.right == 1 {
                    chosen.push((i, 1));
                    assert(chosen_view(chosen@) =~= chosen_before.push((i as int, 1int)));
                }
            },
            None => {},
        }
        k += 1;
    }
    assert(all.take(k as int) =~= all);
    chosen
}

/// The configured samples, by index, whose name is the identifier of no
/// sample of the variant file: the filter passes over them.
pub fn unmatched_samples(sample_names: &Vec<String>, sample_filter: &Vec<SampleGroups>) -> (out:
    Vec<usize>)
    ensures
        indices_view(out@) == unmatched(
            sample_ids(names_view(sample_names@)),
            samples_view(sample_filter@),
        ),
{
    let ids = identifiers(sample_names);
    let ghost view = ids_view(ids@);
    let ghost all = samples_view(sample_filter@);
    let mut left_out: Vec<usize> = Vec::new();
    let mut k: usize = 0;
    while k < sample_filter.len()
        invariant
            view == ids_view(ids@),
            all == samples_view(sample_filter@),
            k <= sample_filter@.len(),
            indices_view(left_out@) == unmatched(view, all.take(k as int)),
        decreases sample_filter@.len() - k,
    {
        proof {
            assert(all.take(k + 1).drop_last() =~= all.take(k as int));
            assert(all.take(k + 1).last() == sample_filter@[k as int]@);
        }
        let name = chars_of(sample_filter[k].name.as_str());
        let ghost left_before = indices_view(left_out@);
        if find_position(&ids, name.as_slice()).is_none() {
            left_out.push(k);
            assert(indices_view(left_out@) =~= left_before.push(k as int));
        }
        k += 1;
    }
    assert(all.take(k as int) =~= all);
    left_out
}

/// Restricts `v` to the haplotypes `chosen`.
fn reduce_one(v: &Variant, chosen: &Vec<(usize, usize)>) -> (out: Variant)
    ensures
        out@ == reduce_variant(v@, chosen_view(chosen@)),
{
    let ghost picks = chosen_view(chosen@);
    let mut genotypes: Vec<Option<Vec<u8>>> = Vec::new();
    let mut t: usize = 0;
    while t < chosen.len()
        invariant
            picks == chosen_view(chosen@),
            t <= chosen@.len(),
            genotypes@.len() == t,
            forall|x: int| 0 <= x < t ==> slot_view(#[trigger] genotypes@[x]) == pick(v@, picks[x]),
        decreases chosen@.len() - t,
    {
        let (i, allele) = chosen[t];
        let mut slot: Option<Vec<u8>> = None;
        if i < v.genotypes.len() {
            match &v.genotypes[i] {
                Some(alleles) => {
                    if allele < alleles.len() {
                        let mut one: Vec<u8> = Vec::new();
                        one.push(alleles[allele]);
                        assert(one@ =~= seq![alleles@[allele as int]]);
                        slot = Some(one);
                    }
                },
                None => {},
            }
        }
        assert(slot_view(slot) == pick(v@, picks[t as int]));
        genotypes.push(slot);
        t += 1;
    }
    let out = Variant { position: v.position, genotypes };
    assert(out@.genotypes =~= reduce_variant(v@, picks).genotypes);
    out
}

/// Restricts every variant of `variants` to the haplotypes `chosen`.
fn reduce_variants(variants: &Vec<Variant>, chosen: &Vec<(usize, usize)>) -> (out: Vec<Variant>)
    ensures
        variants_view(out@) == reduce(variants_view(variants@), chosen_view(chosen@)),
{
    let mut out: Vec<Variant> = Vec::new();
    let mut k: usize = 0;
    while k < variants.len()
        invariant
            k <= variants@.len(),
            out@.len() == k,
            forall|x: int|
                0 <= x < k ==> (#[trigger] out@[x])@ == reduce_variant(
                    variants@[x]@,
                    chosen_view(chosen@),
                ),
        decreases variants@.len() - k,
    {
        out.push(reduce_one(&variants[k], chosen));
        k += 1;
    }
    assert(variants_view(out@) =~= reduce(variants_view(variants@), chosen_view(chosen@)));
    out
}

/// The diversity of one haplotype group over one region, in whole numbers.
#[derive(Debug)]
pub struct GroupDiversity {
    /// The number of segregating sites among the reduced variants.
    pub segregating_sites: usize,
    /// The number of haplotypes in the group.
    pub haplotypes: usize,
    /// The number of unordered pairs of haplotypes.
    pub comparisons: usize,
    /// The differences summed over all pairs of haplotypes.
    pub total_pairwise_differences: u128,
    /// The length of the region.
    pub sequence_length: i64,
}

/// The diversity of one group as a mathematical value.
pub struct GroupDiversityView {
    pub segregating_sites: nat,
    pub haplotypes: nat,
    pub comparisons: int,
    pub total_pairwise_differences: int,
    pub sequence_length: int,
}

impl View for GroupDiversity {
    type V = GroupDiversityView;

    open spec fn view(&self) -> GroupDiversityView {
        GroupDiversityView {
            segregating_sites: self.segregating_sites as nat,
            haplotypes: self.haplotypes as nat,
            comparisons: self.comparisons as int,
            total_pairwise_differences: self.total_pairwise_differences as int,
            sequence_length: self.sequence_length as int,
        }
    }
}

/// The diversity of the haplotypes of `group`: a failure where two sample
/// names have the same identifier, where the group has no haplotype, and
/// where it has only one; else the counts over the variants reduced to the
/// group's haplotypes, and the length of `[start, end]`.
pub open spec fn group_diversity(
    variants: Seq<VariantView>,
    names: Seq<Seq<char>>,
    group: u8,
    samples: Seq<SampleGroupsView>,
    start: int,
    end: int,
) -> Result<GroupDiversityView, VcfErrorView> {
    let ids = sample_ids(names);
    match first_repeat(ids) {
        Some(j) => Err(VcfErrorView::Parse("Duplicate sample ID '"@ + ids[j] + "' in VCF."@)),
        None => {
            let chosen = selection(ids, samples, group);
            if chosen.len() == 0 {
                Err(
                    VcfErrorView::Parse(
                        "No haplotypes found for the specified group "@ + decimal_text(
                            group as nat,
                        ),
                    ),
                )
            } else if chosen.len() <= 1 {
                Err(VcfErrorView::Parse("Not enough haplotypes for calculation"@))
            } else {
                let reduced = reduce(variants, chosen);
                Ok(
                    GroupDiversityView {
                        segregating_sites: segregating_count(reduced),
                        haplotypes: chosen.len(),
                        comparisons: pair_count(chosen.len() as int),
                        total_pairwise_differences: total_differences(
                            all_pairs(reduced, chosen.len() as int),
                        ),
                        sequence_length: end - start + 1,
                    },
                )
            }
        },
    }
}

/// The outcome of `process_variants` as a mathematical value.
pub open spec fn diversity_view(out: Result<GroupDiversity, VcfError>) -> Result<
    GroupDiversityView,
    VcfErrorView,
> {
    match out {
        Ok(d) => Ok(d@),
        Err(e) => Err(e@),
    }
}

/// The number of unordered pairs among `n` haplotypes.
pub fn comparisons(n: usize) -> (out: usize)
    requires
        pair_count(n as int) <= usize::MAX,
    ensures
        out == pair_count(n as int),
{
    if n == 0 {
        assert(0int * (0 - 1) == 0) by (nonlinear_arith);
        0
    } else if n % 2 == 0 {
        let half: usize = n / 2;
        assert(n * (n - 1) / 2 == half * (n - 1)) by (nonlinear_arith)
            requires
                n == 2 * half,
        ;
        half * (n - 1)
    } else {
        let half: usize = (n - 1) / 2;
        assert(n * (n - 1) / 2 == n * half) by (nonlinear_arith)
            requires
                n - 1 == 2 * half,
        ;
        n * half
    }
}

/// Reduces `variants` to the haplotypes that `sample_filter` assigns to
/// `haplotype_group`, and computes their diversity over the region.
pub fn process_variants(
    variants: &Vec<Variant>,
    sample_names: &Vec<String>,
    haplotype_group: u8,
    sample_filter: &Vec<SampleGroups>,
    region_start: i64,
    region_end: i64,
) -> (out: Result<GroupDiversity, VcfError>)
    requires
        pair_count(sample_filter@.len() as int) <= usize::MAX,
        i64::MIN <= region_end - region_start + 1 <= i64::MAX,
    ensures
        diversity_view(out) == group_diversity(
            variants_view(variants@),
            names_view(sample_names@),
            haplotype_group,
            samples_view(sample_filter@),
            region_start as int,
            region_end as int,
        ),
{
    let ids = identifiers(sample_names);
    match find_repeat(&ids) {
        Some(j) => {
            let id = extract_sample_id(sample_names[j].as_str());
            let text = "Duplicate sample ID '".to_owned().concat(id).concat("' in VCF.");
            return Err(VcfError::Parse(text));
        },
        None => {},
    }
    let chosen = select_haplotypes(&ids, sample_filter, haplotype_group);
    if chosen.len() == 0 {
        let group = u8_to_string(haplotype_group);
        let text = "No haplotypes found for the specified group ".to_owned().concat(
            group.as_str(),
        );
        return Err(VcfError::Parse(text));
    }
    let n = chosen.len();
    if n <= 1 {
        return Err(VcfError::parse("Not enough haplotypes for calculation"));
    }
    let reduced = reduce_variants(variants, &chosen);
    let segregating_sites = count_segregating_sites(&reduced);
    proof {
        lemma_pair_count_monotone(n as int, sample_filter@.len() as int);
        assert forall|m: int| 0 <= m < variants_view(reduced@).len() implies n <= (
        #[trigger] variants_view(reduced@)[m]).genotypes.len() by {}
    }
    let pairs = calculate_pairwise_differences(&reduced, n);
    let total = total_pairwise_differences(&pairs);
    let length: i128 = region_end as i128 - region_start as i128 + 1;
    Ok(
        GroupDiversity {
            segregating_sites,
            haplotypes: n,
            comparisons: comparisons(n),
            total_pairwise_differences: total,
            sequence_length: length as i64,
        },
    )
}

/// More samples never make fewer pairs.
pub proof fn lemma_pair_count_monotone(a: int, b: int)
    requires
        0 <= a <= b,
    ensures
        0 <= pair_count(a) <= pair_count(b),
{
    assert(a * (a - 1) <= b * (b - 1)) by (nonlinear_arith)
        requires
            0 <= a <= b,
    ;
    assert(0 <= a * (a - 1)) by (nonlinear_arith)
        requires
            0 <= a,
    ;
}

} // verus!
