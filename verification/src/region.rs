//! Regions: the `start-end` notation, the variants inside a region, and
//! the length of the sequence that a run covers.

use crate::error::{VcfError, VcfErrorView};
use crate::genotype::{find_delimiter, scan_to, Delimiter};
use crate::text::{chars_of, parse_i64, read_i64};
use crate::variant::{variants_view, Variant, VariantView};
use vstd::prelude::*;
use vstd::slice::slice_subrange;

verus! {

/// What `region` means as `start-end`: exactly one dash, an integer on
/// each side of it, and the start below the end.
pub open spec fn region_of(region: Seq<char>) -> Result<(i64, i64), VcfErrorView> {
    let dash = scan_to(region, 0, Delimiter::Dash);
    if dash >= region.len() || scan_to(region, dash + 1, Delimiter::Dash) < region.len() {
        Err(VcfErrorView::InvalidRegion("Invalid region format. Use start-end"@))
    } else {
        match parse_i64(region.take(dash)) {
            None => Err(VcfErrorView::InvalidRegion("Invalid start position"@)),
            Some(start) => match parse_i64(region.skip(dash + 1)) {
                None => Err(VcfErrorView::InvalidRegion("Invalid end position"@)),
                Some(end) => if start >= end {
                    Err(
                        VcfErrorView::InvalidRegion(
                            "Start position must be less than end position"@,
                        ),
                    )
                } else {
                    Ok((start, end))
                },
            },
        }
    }
}

/// The outcome of `parse_region` as a mathematical value.
pub open spec fn region_view(out: Result<(i64, i64), VcfError>) -> Result<
    (i64, i64),
    VcfErrorView,
> {
    match out {
        Ok(bounds) => Ok(bounds),
        Err(e) => Err(e@),
    }
}

/// Reads a region written as `start-end`.
pub fn parse_region(region: &str) -> (out: Result<(i64, i64), VcfError>)
    ensures
        region_view(out) == region_of(region@),
{
    let chars = chars_of(region);
    let chars = chars.as_slice();
    let dash = find_delimiter(chars, 0, Delimiter::Dash);
    if dash >= chars.len() || find_delimiter(chars, dash + 1, Delimiter::Dash) < chars.len() {
        return Err(VcfError::InvalidRegion("Invalid region format. Use start-end".to_owned()));
    }
    let start = match read_i64(slice_subrange(chars, 0, dash)) {
        Some(start) => start,
        None => {
            return Err(VcfError::InvalidRegion("Invalid start position".to_owned()));
        },
    };
    let end = match read_i64(slice_subrange(chars, dash + 1, chars.len())) {
        Some(end) => end,
        None => {
            return Err(VcfError::InvalidRegion("Invalid end position".to_owned()));
        },
    };
    if start >= end {
        return Err(
            VcfError::InvalidRegion("Start position must be less than end position".to_owned()),
        );
    }
    Ok((start, end))
}

/// Whether `v` lies in the inclusive region `[start, end]`.
pub open spec fn in_region(v: VariantView, start: int, end: int) -> bool {
    start <= v.position <= end
}

/// The variants of `variants` inside `[start, end]`, in their order.
pub open spec fn within(variants: Seq<VariantView>, start: int, end: int) -> Seq<VariantView>
    decreases variants.len(),
{
    if variants.len() == 0 {
        Seq::empty()
    } else if in_region(variants.last(), start, end) {
        within(variants.drop_last(), start, end).push(variants.last())
    } else {
        within(variants.drop_last(), start, end)
    }
}

/// Copies of the variants of `variants` inside `[start, end]`.
pub fn filter_region(variants: &Vec<Variant>, start: i64, end: i64) -> (out: Vec<Variant>)
    ensures
        variants_view(out@) == within(variants_view(variants@), start as int, end as int),
{
    let ghost vs = variants_view(variants@);
    let mut out: Vec<Variant> = Vec::new();
    let mut k: usize = 0;
    while k < variants.len()
        invariant
            vs == variants_view(variants@),
            k <= variants@.len(),
            variants_view(out@) == within(vs.take(k as int), start as int, end as int),
        decreases variants@.len() - k,
    {
        proof {
            assert(vs.take(k + 1).drop_last() =~= vs.take(k as int));
            assert(vs.take(k + 1).last() == variants@[k as int]@);
        }
        let v = &variants[k];
        if v.position >= start && v.position <= end {
            let ghost before = variants_view(out@);
            out.push(v.clone());
            assert(variants_view(out@) =~= before.push(v@));
        }
        k += 1;
    }
    assert(vs.take(k as int) =~= vs);
    out
}

/// Whether `m` is the largest position among `variants`.
pub open spec fn is_max_position(variants: Seq<VariantView>, m: int) -> bool {
    &&& exists|k: int| 0 <= k < variants.len() && (#[trigger] variants[k]).position == m
    &&& forall|k: int| 0 <= k < variants.len() ==> (#[trigger] variants[k]).position <= m
}

/// The largest position among `variants`, whatever their order.
pub fn max_position(variants: &Vec<Variant>) -> (out: Option<i64>)
    ensures
        out is None <==> variants@.len() == 0,
        out matches Some(m) ==> is_max_position(variants_view(variants@), m as int),
{
    if variants.len() == 0 {
        return None;
    }
    let ghost vs = variants_view(variants@);
    let mut m: i64 = variants[0].position;
    let mut k: usize = 1;
    assert(vs[0].position == m);
    while k < variants.len()
        invariant
            vs == variants_view(variants@),
            1 <= k <= variants@.len(),
            exists|t: int| 0 <= t < k && (#[trigger] vs[t]).position == m,
            forall|t: int| 0 <= t < k ==> (#[trigger] vs[t]).position <= m,
        decreases variants@.len() - k,
    {
        if variants[k].position > m {
            m = variants[k].position;
            assert(vs[k as int].position == m);
        }
        k += 1;
    }
    Some(m)
}

/// The length of the sequence that a run covers, and whether it may be
/// too small.
#[derive(Debug, Clone, Copy)]
pub struct LengthEstimate {
    pub length: i64,
    pub may_be_underestimated: bool,
}

/// The last position that counts where no region end was given: the
/// larger of the contig length and the largest position observed.
pub open spec fn covered_end(observed: Option<i64>, contig_length: int) -> int {
    let seen = match observed {
        Some(m) => m as int,
        None => 0,
    };
    if seen >= contig_length {
        seen
    } else {
        contig_length
    }
}

/// The sequence length of the region from `start` on. With an explicit
/// `end` it is `end - start + 1`. An `end` of `i64::MAX` stands for none
/// given: the region then ends at `covered_end`.
pub open spec fn sequence_length_of(
    observed: Option<i64>,
    contig_length: int,
    start: int,
    end: int,
) -> int {
    if end == i64::MAX {
        covered_end(observed, contig_length) - start + 1
    } else {
        end - start + 1
    }
}

/// The sequence length of a run over `[start, end]`, where `observed` is
/// the largest variant position seen, if any. The estimate may be too
/// small where no end was given and no variant reaches the contig length.
pub fn sequence_length(observed: Option<i64>, contig_length: i64, start: i64, end: i64) -> (out:
    LengthEstimate)
    requires
        i64::MIN <= sequence_length_of(observed, contig_length as int, start as int, end as int)
            <= i64::MAX,
    ensures
        out.length == sequence_length_of(observed, contig_length as int, start as int, end as int),
        out.may_be_underestimated == (end == i64::MAX && (match observed {
            Some(m) => m,
            None => 0,
        }) < contig_length),
{
    let seen: i64 = match observed {
        Some(m) => m,
        None => 0,
    };
    if end == i64::MAX {
        let last: i64 = if seen >= contig_length {
            seen
        } else {
            contig_length
        };
        let length: i128 = last as i128 - start as i128 + 1;
        LengthEstimate { length: length as i64, may_be_underestimated: seen < contig_length }
    } else {
        let length: i128 = end as i128 - start as i128 + 1;
        LengthEstimate { length: length as i64, may_be_underestimated: false }
    }
}

} // verus!
