//! The line parser: one data line of a variant file, filtered by
//! chromosome and region.

use crate::error::{VcfError, VcfErrorView};
use crate::genotype::{find_delimiter, parse_genotype, read_genotype, scan_to, Delimiter};
use crate::text::{chars_of, parse_i64, read_i64, split_whitespace, tokens};
use crate::variant::{
    account_of_variant, missing_slots, slot_view, slots_view, MissingDataInfo, MissingDataView,
    Variant, VariantView,
};
use std::collections::HashSet;
use vstd::prelude::*;
use vstd::slice::slice_subrange;

verus! {

/// Whether `s` begins with `chr`.
pub open spec fn has_chr_prefix(s: Seq<char>) -> bool {
    s.len() >= 3 && s[0] == 'c' && s[1] == 'h' && s[2] == 'r'
}

/// A chromosome name without its leading `chr` prefixes.
pub open spec fn strip_chr(s: Seq<char>) -> Seq<char>
    decreases s.len(),
{
    if has_chr_prefix(s) {
        strip_chr(s.skip(3))
    } else {
        s
    }
}

/// Two chromosome names are the same where they agree, case and all,
/// once the `chr` prefix is taken off both.
pub open spec fn same_chromosome(a: Seq<char>, b: Seq<char>) -> bool {
    strip_chr(a) == strip_chr(b)
}

/// The number of characters that the leading `chr` prefixes of `s` take.
fn chr_offset(s: &[char]) -> (k: usize)
    ensures
        k <= s@.len(),
        s@.skip(k as int) == strip_chr(s@),
{
    let mut k: usize = 0;
    assert(s@.skip(0) =~= s@);
    while s.len() - k >= 3 && s[k] == 'c' && s[k + 1] == 'h' && s[k + 2] == 'r'
        invariant
            k <= s@.len(),
            strip_chr(s@) == strip_chr(s@.skip(k as int)),
        decreases s@.len() - k,
    {
        assert(s@.skip(k as int).skip(3) =~= s@.skip(k + 3));
        k += 3;
    }
    k
}

/// Whether two slices hold the same characters.
pub fn same_chars(a: &[char], b: &[char]) -> (same: bool)
    ensures
        same == (a@ == b@),
{
    if a.len() != b.len() {
        return false;
    }
    let mut k: usize = 0;
    while k < a.len()
        invariant
            a@.len() == b@.len(),
            k <= a@.len(),
            forall|t: int| 0 <= t < k ==> a@[t] == b@[t],
        decreases a@.len() - k,
    {
        if a[k] != b[k] {
            return false;
        }
        k += 1;
    }
    assert(a@ =~= b@);
    true
}

/// Whether `a` and `b` name the same chromosome.
pub fn is_same_chromosome(a: &[char], b: &[char]) -> (same: bool)
    ensures
        same == same_chromosome(a@, b@),
{
    let ka = chr_offset(a);
    let kb = chr_offset(b);
    let ta = slice_subrange(a, ka, a.len());
    let tb = slice_subrange(b, kb, b.len());
    assert(ta@ =~= a@.skip(ka as int));
    assert(tb@ =~= b@.skip(kb as int));
    same_chars(ta, tb)
}

/// Whether `line` is a header or meta line: it begins with `#`.
pub open spec fn is_meta_line(line: Seq<char>) -> bool {
    line.len() > 0 && line[0] == '#'
}

/// A variant read from a line, with the account of its missing calls.
#[derive(Debug)]
pub struct ParsedVariant {
    pub variant: Variant,
    pub missing: MissingDataInfo,
    /// Whether the line names more than one alternate allele.
    pub multi_allelic: bool,
}

/// A parsed variant as a mathematical value.
pub struct ParsedVariantView {
    pub variant: VariantView,
    pub missing: MissingDataView,
    pub multi_allelic: bool,
}

impl View for ParsedVariant {
    type V = ParsedVariantView;

    open spec fn view(&self) -> ParsedVariantView {
        ParsedVariantView {
            variant: self.variant@,
            missing: self.missing@,
            multi_allelic: self.multi_allelic,
        }
    }
}

/// The genotype slots that the sample cells of a data line stand for: the
/// tenth field and those after it.
pub open spec fn genotypes_of(fields: Seq<Seq<char>>) -> Seq<Option<Seq<u8>>> {
    fields.skip(9).map_values(|f: Seq<char>| parse_genotype(f))
}

/// What a line yields for the chromosome `chr` and the region
/// `[start, end]`: nothing for a header or meta line, for another
/// chromosome and for a position outside the region; a failure for fewer
/// than ten fields or a position that is no integer; else the variant.
pub open spec fn parse_line(line: Seq<char>, chr: Seq<char>, start: int, end: int) -> Result<
    Option<ParsedVariantView>,
    VcfErrorView,
> {
    let fields = tokens(line);
    if is_meta_line(line) {
        Ok(None)
    } else if fields.len() < 10 {
        Err(VcfErrorView::Parse("Invalid VCF line format"@))
    } else if !same_chromosome(fields[0], chr) {
        Ok(None)
    } else {
        match parse_i64(fields[1]) {
            None => Err(VcfErrorView::Parse("Invalid position"@)),
            Some(pos) => if pos < start || pos > end {
                Ok(None)
            } else {
                let variant = VariantView { position: pos as int, genotypes: genotypes_of(fields) };
                Ok(
                    Some(
                        ParsedVariantView {
                            variant,
                            missing: account_of_variant(variant),
                            multi_allelic: scan_to(fields[4], 0, Delimiter::Comma)
                                < fields[4].len(),
                        },
                    ),
                )
            },
        }
    }
}

/// The outcome of `parse_variant` as a mathematical value.
pub open spec fn outcome_view(out: Result<Option<ParsedVariant>, VcfError>) -> Result<
    Option<ParsedVariantView>,
    VcfErrorView,
> {
    match out {
        Ok(Some(p)) => Ok(Some(p@)),
        Ok(None) => Ok(None),
        Err(e) => Err(e@),
    }
}

/// The account of one variant at `position` with `total` slots, `missing`
/// of them without a call.
fn account_for(position: i64, total: usize, missing: usize) -> (info: MissingDataInfo)
    ensures
        info@ == (MissingDataView {
            total: total as nat,
            missing: missing as nat,
            positions: if missing > 0 {
                set![position as int]
            } else {
                Set::empty()
            },
        }),
{
    broadcast use vstd::std_specs::hash::group_hash_axioms;

    let mut positions: HashSet<i64> = HashSet::new();
    if missing > 0 {
        positions.insert(position);
        assert(positions@ =~= set![position]);
    }
    let info = MissingDataInfo {
        total_data_points: total as u128,
        missing_data_points: missing as u128,
        positions_with_missing: positions,
    };
    assert(info@.positions =~= if missing > 0 {
        set![position as int]
    } else {
        Set::empty()
    });
    info
}

/// Parses one line of a variant file for the chromosome `chr` and the
/// region `[start, end]`.
pub fn parse_variant(line: &str, chr: &str, start: i64, end: i64) -> (out: Result<
    Option<ParsedVariant>,
    VcfError,
>)
    ensures
        outcome_view(out) == parse_line(line@, chr@, start as int, end as int),
{
    let chars = chars_of(line);
    let chars = chars.as_slice();
    if chars.len() > 0 && chars[0] == '#' {
        return Ok(None);
    }
    let ranges = split_whitespace(chars);
    if ranges.len() < 10 {
        return Err(VcfError::parse("Invalid VCF line format"));
    }
    let ghost fields = tokens(line@);
    let target = chars_of(chr);
    let name = slice_subrange(chars, ranges[0].0, ranges[0].1);
    if !is_same_chromosome(name, target.as_slice()) {
        return Ok(None);
    }
    let pos = match read_i64(slice_subrange(chars, ranges[1].0, ranges[1].1)) {
        Some(pos) => pos,
        None => {
            return Err(VcfError::parse("Invalid position"));
        },
    };
    if pos < start || pos > end {
        return Ok(None);
    }
    let alt = slice_subrange(chars, ranges[4].0, ranges[4].1);
    let multi_allelic = find_delimiter(alt, 0, Delimiter::Comma) < alt.len();
    let mut genotypes: Vec<Option<Vec<u8>>> = Vec::new();
    let mut missing: usize = 0;
    let mut k: usize = 9;
    while k < ranges.len()
        invariant
            9 <= k <= ranges@.len(),
            fields == tokens(chars@),
            ranges@.len() == fields.len(),
            forall|t: int|
                0 <= t < ranges@.len() ==> {
                    &&& (#[trigger] ranges@[t]).0 < ranges@[t].1 <= chars@.len()
                    &&& chars@.subrange(ranges@[t].0 as int, ranges@[t].1 as int) == fields[t]
                },
            genotypes@.len() == k - 9,
            forall|t: int|
                0 <= t < k - 9 ==> slot_view(#[trigger] genotypes@[t]) == parse_genotype(
                    fields[9 + t],
                ),
            missing == missing_slots(slots_view(genotypes@)),
            missing <= k - 9,
        decreases ranges@.len() - k,
    {
        let slot = read_genotype(slice_subrange(chars, ranges[k].0, ranges[k].1));
        let ghost before = slots_view(genotypes@);
        if slot.is_none() {
            missing += 1;
        }
        genotypes.push(slot);
        assert(slots_view(genotypes@).drop_last() =~= before);
        k += 1;
    }
    let total = genotypes.len();
    let variant = Variant { position: pos, genotypes };
    assert(variant@.genotypes =~= genotypes_of(fields));
    let info = account_for(pos, total, missing);
    Ok(Some(ParsedVariant { variant, missing: info, multi_allelic }))
}

} // verus!
