//! The batch mode: a cache of ingested chromosomes, and the statistics of
//! both haplotype groups for one configuration entry.

use crate::config::{ConfigEntry, ConfigEntryView};
use crate::error::{VcfError, VcfErrorView};
use crate::haplotype::{
    group_diversity, process_variants, GroupDiversity, GroupDiversityView,
};
use crate::header::names_view;
use crate::diversity::pair_count;
use crate::ingest::Ingested;
use crate::line::same_chars;
use crate::region::{filter_region, within};
use crate::text::chars_of;
use crate::variant::{variants_view, Variant, VariantView};
use vstd::prelude::*;

verus! {

/// What was ingested for one chromosome.
#[derive(Debug)]
pub struct CachedChromosome {
    pub name: String,
    pub data: Ingested,
}

/// The chromosomes ingested so far, each held once.
#[derive(Debug)]
pub struct VariantCache {
    pub entries: Vec<CachedChromosome>,
}

impl VariantCache {
    /// No chromosome is held twice.
    pub open spec fn wf(&self) -> bool {
        forall|i: int, j: int|
            0 <= i < j < self.entries@.len() ==> (#[trigger] self.entries@[i]).name@ != (
            #[trigger] self.entries@[j]).name@
    }

    /// Whether the chromosome `name` is held.
    pub open spec fn holds(&self, name: Seq<char>) -> bool {
        exists|i: int| 0 <= i < self.entries@.len() && (#[trigger] self.entries@[i]).name@ == name
    }

    /// An empty cache.
    pub fn new() -> (cache: VariantCache)
        ensures
            cache.wf(),
            cache.entries@.len() == 0,
    {
        VariantCache { entries: Vec::new() }
    }

    /// Where the chromosome `name` is held, if it is.
    pub fn find(&self, name: &str) -> (out: Option<usize>)
        ensures
            out is Some <==> self.holds(name@),
            out matches Some(i) ==> i < self.entries@.len() && self.entries@[i as int].name@
                == name@,
    {
        let wanted = chars_of(name);
        let mut i: usize = 0;
        while i < self.entries.len()
            invariant
                i <= self.entries@.len(),
                wanted@ == name@,
                forall|t: int| 0 <= t < i ==> (#[trigger] self.entries@[t]).name@ != name@,
            decreases self.entries@.len() - i,
        {
            let held = chars_of(self.entries[i].name.as_str());
            if same_chars(held.as_slice(), wanted.as_slice()) {
                return Some(i);
            }
            i += 1;
        }
        None
    }

    /// Holds `data` for the chromosome `name` from now on, and says where.
    pub fn store(&mut self, name: String, data: Ingested) -> (at: usize)
        requires
            old(self).wf(),
            !old(self).holds(name@),
        ensures
            final(self).wf(),
            at == old(self).entries@.len(),
            final(self).entries@ == old(self).entries@.push(CachedChromosome { name, data }),
    {
        let at = self.entries.len();
        self.entries.push(CachedChromosome { name, data });
        at
    }

    /// What is held at index `at`.
    pub fn get(&self, at: usize) -> (data: &Ingested)
        requires
            at < self.entries@.len(),
        ensures
            *data == self.entries@[at as int].data,
    {
        &self.entries[at].data
    }
}

/// The statistics of one haplotype group over one region, in whole
/// numbers: Watterson's theta is `segregating_sites` over the harmonic
/// number of `haplotypes - 1` over `sequence_length`, and the nucleotide
/// diversity is `total_pairwise_differences` over `comparisons` over
/// `sequence_length`.
#[derive(Debug)]
pub struct RegionStats {
    pub chr: String,
    pub region_start: i64,
    pub region_end: i64,
    pub sequence_length: i64,
    pub segregating_sites: usize,
    pub haplotypes: usize,
    pub comparisons: usize,
    pub total_pairwise_differences: u128,
}

/// The statistics of one group over one region as a mathematical value.
pub struct RegionStatsView {
    pub chr: Seq<char>,
    pub region_start: int,
    pub region_end: int,
    pub diversity: GroupDiversityView,
}

impl View for RegionStats {
    type V = RegionStatsView;

    open spec fn view(&self) -> RegionStatsView {
        RegionStatsView {
            chr: self.chr@,
            region_start: self.region_start as int,
            region_end: self.region_end as int,
            diversity: GroupDiversityView {
                segregating_sites: self.segregating_sites as nat,
                haplotypes: self.haplotypes as nat,
                comparisons: self.comparisons as int,
                total_pairwise_differences: self.total_pairwise_differences as int,
                sequence_length: self.sequence_length as int,
            },
        }
    }
}

/// The statistics of `group` for `entry`: those of the variants inside the
/// entry's region, reduced to the group's haplotypes.
pub open spec fn region_stats(
    entry: ConfigEntryView,
    variants: Seq<VariantView>,
    names: Seq<Seq<char>>,
    group: u8,
) -> Result<RegionStatsView, VcfErrorView> {
    match group_diversity(
        within(variants, entry.start, entry.end),
        names,
        group,
        entry.samples,
        entry.start,
        entry.end,
    ) {
        Ok(d) => Ok(
            RegionStatsView {
                chr: entry.seqname,
                region_start: entry.start,
                region_end: entry.end,
                diversity: d,
            },
        ),
        Err(e) => Err(e),
    }
}

/// The outcome of one group as a mathematical value.
pub open spec fn stats_view(out: Result<RegionStats, VcfError>) -> Result<
    RegionStatsView,
    VcfErrorView,
> {
    match out {
        Ok(s) => Ok(s@),
        Err(e) => Err(e@),
    }
}

/// What the two groups of one entry gave.
#[derive(Debug)]
pub struct EntryOutcome {
    pub first: Result<RegionStats, VcfError>,
    pub second: Result<RegionStats, VcfError>,
}

impl EntryOutcome {
    /// The output row of the entry: the statistics of both groups where
    /// both were computed, else none.
    pub fn row(self) -> (out: Option<(RegionStats, RegionStats)>)
        ensures
            out is Some <==> self.first is Ok && self.second is Ok,
            out matches Some(pair) ==> self.first == Ok::<_, VcfError>(pair.0) && self.second
                == Ok::<_, VcfError>(pair.1),
    {
        match (self.first, self.second) {
            (Ok(a), Ok(b)) => Some((a, b)),
            _ => None,
        }
    }
}

/// The statistics of `entry` with the counts of `diversity`.
fn stats_of(entry: &ConfigEntry, diversity: &GroupDiversity) -> (out: RegionStats)
    ensures
        out@ == (RegionStatsView {
            chr: entry@.seqname,
            region_start: entry@.start,
            region_end: entry@.end,
            diversity: diversity@,
        }),
{
    RegionStats {
        chr: entry.seqname.clone(),
        region_start: entry.start,
        region_end: entry.end,
        sequence_length: diversity.sequence_length,
        segregating_sites: diversity.segregating_sites,
        haplotypes: diversity.haplotypes,
        comparisons: diversity.comparisons,
        total_pairwise_differences: diversity.total_pairwise_differences,
    }
}

/// Computes the statistics of group 0 and of group 1 for `entry` from the
/// variants and sample names of its chromosome.
pub fn process_entry(entry: &ConfigEntry, variants: &Vec<Variant>, sample_names: &Vec<String>) -> (out:
    EntryOutcome)
    requires
        pair_count(entry.samples@.len() as int) <= usize::MAX,
        i64::MIN <= entry.end - entry.start + 1 <= i64::MAX,
    ensures
        stats_view(out.first) == region_stats(
            entry@,
            variants_view(variants@),
            names_view(sample_names@),
            0,
        ),
        stats_view(out.second) == region_stats(
            entry@,
            variants_view(variants@),
            names_view(sample_names@),
            1,
        ),
{
    let region_variants = filter_region(variants, entry.start, entry.end);
    let first = match process_variants(
        &region_variants,
        sample_names,
        0,
        &entry.samples,
        entry.start,
        entry.end,
    ) {
        Ok(d) => Ok(stats_of(entry, &d)),
        Err(e) => Err(e),
    };
    let second = match process_variants(
        &region_variants,
        sample_names,
        1,
        &entry.samples,
        entry.start,
        entry.end,
    ) {
        Ok(d) => Ok(stats_of(entry, &d)),
        Err(e) => Err(e),
    };
    EntryOutcome { first, second }
}

} // verus!
