//! Ingestion: the buffer that collects parsed variants with the account of
//! their missing calls, and the lines of a variant file read in order.

use crate::error::{VcfError, VcfErrorView};
use crate::header::{header_line, names_view, read_header_line, HeaderStep, HeaderStepView};
use crate::line::{parse_line, parse_variant, ParsedVariant, ParsedVariantView};
use crate::variant::{
    account_of, account_of_variant, lemma_account_bounded, variants_view, MissingDataInfo,
    MissingDataView, Variant, VariantView,
};
use vstd::prelude::*;

verus! {

/// The variants collected so far and the account of their missing calls.
#[derive(Debug)]
pub struct VariantBuffer {
    pub variants: Vec<Variant>,
    pub missing: MissingDataInfo,
}

impl VariantBuffer {
    /// The account is that of the variants held, no more and no less.
    pub open spec fn wf(&self) -> bool {
        self.missing@ == account_of(variants_view(self.variants@))
    }

    /// An empty buffer.
    pub fn new() -> (buffer: VariantBuffer)
        ensures
            buffer.wf(),
            buffer.variants@.len() == 0,
    {
        VariantBuffer { variants: Vec::new(), missing: MissingDataInfo::new() }
    }

    /// Appends a parsed variant and adds its account to the buffer's.
    pub fn collect(&mut self, parsed: ParsedVariant)
        requires
            old(self).wf(),
            parsed.missing@ == account_of_variant(parsed.variant@),
        ensures
            final(self).wf(),
            variants_view(final(self).variants@) == variants_view(old(self).variants@).push(
                parsed.variant@,
            ),
    {
        let held = self.variants.len();
        proof {
            lemma_account_bounded(self.variants@);
            assert(parsed.variant@.genotypes.len() == parsed.variant.genotypes.len());
            crate::variant::lemma_missing_slots(parsed.variant@.genotypes);
            assert(self.variants@.len() * usize::MAX <= usize::MAX * usize::MAX)
                by (nonlinear_arith)
                requires
                    self.variants@.len() <= usize::MAX,
            ;
            assert(usize::MAX * usize::MAX + usize::MAX <= u128::MAX) by (nonlinear_arith)
                requires
                    usize::MAX <= 0xffff_ffff_ffff_ffff,
            ;
        }
        let ghost before = variants_view(self.variants@);
        self.missing.merge(&parsed.missing);
        self.variants.push(parsed.variant);
        proof {
            assert(variants_view(self.variants@) =~= before.push(parsed.variant@));
            assert(variants_view(self.variants@).drop_last() =~= before);
        }
    }
}

/// The sample names that the header among `lines` gives, read from line `i`
/// on, and the index of the first data line. Lines before the header line
/// are skipped; where no header line comes, there are no names and no data.
pub open spec fn header_scan(lines: Seq<Seq<char>>, i: int) -> Result<
    (Seq<Seq<char>>, int),
    VcfErrorView,
>
    decreases lines.len() - i,
{
    if i < 0 || i >= lines.len() {
        Ok((Seq::empty(), lines.len() as int))
    } else {
        match header_line(lines[i]) {
            Err(e) => Err(e),
            Ok(HeaderStepView::Samples(names)) => Ok((names, i + 1)),
            Ok(HeaderStepView::Skip) => header_scan(lines, i + 1),
        }
    }
}

/// The parsed variants followed by those still to come.
pub open spec fn join(
    done: Seq<ParsedVariantView>,
    rest: Result<Seq<ParsedVariantView>, VcfErrorView>,
) -> Result<Seq<ParsedVariantView>, VcfErrorView> {
    match rest {
        Ok(more) => Ok(done + more),
        Err(e) => Err(e),
    }
}

/// What the data lines from line `i` on yield, in order: the variants of
/// the lines that pass the filter, or the failure of the first line that
/// fails.
pub open spec fn data_scan(lines: Seq<Seq<char>>, i: int, chr: Seq<char>, start: int, end: int)
    -> Result<Seq<ParsedVariantView>, VcfErrorView>
    decreases lines.len() - i,
{
    if i < 0 || i >= lines.len() {
        Ok(Seq::empty())
    } else {
        match parse_line(lines[i], chr, start, end) {
            Err(e) => Err(e),
            Ok(None) => data_scan(lines, i + 1, chr, start, end),
            Ok(Some(p)) => join(seq![p], data_scan(lines, i + 1, chr, start, end)),
        }
    }
}

/// The positions of the parsed variants that name more than one alternate
/// allele, in order.
pub open spec fn flagged(parsed: Seq<ParsedVariantView>) -> Seq<int>
    decreases parsed.len(),
{
    if parsed.len() == 0 {
        Seq::empty()
    } else if parsed.last().multi_allelic {
        flagged(parsed.drop_last()).push(parsed.last().variant.position)
    } else {
        flagged(parsed.drop_last())
    }
}

/// What the ingestion of a variant file yields.
#[derive(Debug)]
pub struct Ingested {
    pub variants: Vec<Variant>,
    pub sample_names: Vec<String>,
    /// The contig length that the header announces; 0 where it gives none.
    pub contig_length: i64,
    pub missing: MissingDataInfo,
    /// The positions of the multi-allelic sites, for a warning.
    pub multi_allelic: Vec<i64>,
}

/// What an ingestion yields as a mathematical value.
pub struct IngestedView {
    pub variants: Seq<VariantView>,
    pub sample_names: Seq<Seq<char>>,
    pub contig_length: int,
    pub missing: MissingDataView,
    pub multi_allelic: Seq<int>,
}

impl View for Ingested {
    type V = IngestedView;

    open spec fn view(&self) -> IngestedView {
        IngestedView {
            variants: variants_view(self.variants@),
            sample_names: names_view(self.sample_names@),
            contig_length: self.contig_length as int,
            missing: self.missing@,
            multi_allelic: self.multi_allelic@.map_values(|p: i64| p as int),
        }
    }
}

/// The variants of `parsed`, in order.
pub open spec fn parsed_variants(parsed: Seq<ParsedVariantView>) -> Seq<VariantView> {
    parsed.map_values(|p: ParsedVariantView| p.variant)
}

/// What the lines of a variant file yield for the chromosome `chr` and the
/// region `[start, end]`: the failure of the header line or of the first
/// data line that fails, else the variants in the order of the lines, the
/// sample names and the account of the missing calls.
pub open spec fn ingested(lines: Seq<Seq<char>>, chr: Seq<char>, start: int, end: int) -> Result<
    IngestedView,
    VcfErrorView,
> {
    match header_scan(lines, 0) {
        Err(e) => Err(e),
        Ok((names, next)) => match data_scan(lines, next, chr, start, end) {
            Err(e) => Err(e),
            Ok(parsed) => Ok(
                IngestedView {
                    variants: parsed_variants(parsed),
                    sample_names: names,
                    contig_length: 0,
                    missing: account_of(parsed_variants(parsed)),
                    multi_allelic: flagged(parsed),
                },
            ),
        },
    }
}

/// The outcome of `process_lines` as a mathematical value.
pub open spec fn ingested_view(out: Result<Ingested, VcfError>) -> Result<
    IngestedView,
    VcfErrorView,
> {
    match out {
        Ok(x) => Ok(x@),
        Err(e) => Err(e@),
    }
}

/// Ingests the lines of a variant file one after the other: the header
/// first, then every data line through the line parser.
pub fn process_lines(lines: &Vec<String>, chr: &str, start: i64, end: i64) -> (out: Result<
    Ingested,
    VcfError,
>)
    ensures
        ingested_view(out) == ingested(names_view(lines@), chr@, start as int, end as int),
{
    let ghost text = names_view(lines@);
    let mut sample_names: Vec<String> = Vec::new();
    let mut i: usize = 0;
    let mut in_header = true;
    assert(names_view(sample_names@) =~= Seq::<Seq<char>>::empty());
    while in_header && i < lines.len()
        invariant
            text == names_view(lines@),
            i <= lines@.len(),
            in_header ==> header_scan(text, 0) == header_scan(text, i as int),
            !in_header ==> header_scan(text, 0) == Ok::<_, VcfErrorView>(
                (names_view(sample_names@), i as int),
            ),
            in_header ==> names_view(sample_names@) == Seq::<Seq<char>>::empty(),
        decreases lines@.len() - i,
    {
        assert(text[i as int] == lines@[i as int]@);
        match read_header_line(lines[i].as_str()) {
            Err(e) => {
                return Err(e);
            },
            Ok(HeaderStep::Samples(names)) => {
                sample_names = names;
                in_header = false;
            },
            Ok(HeaderStep::Skip) => {},
        }
        i += 1;
    }
    let ghost first = i as int;
    assert(header_scan(text, 0) == Ok::<_, VcfErrorView>((names_view(sample_names@), first)));
    let mut buffer = VariantBuffer::new();
    let mut multi_allelic: Vec<i64> = Vec::new();
    let ghost mut done: Seq<ParsedVariantView> = Seq::empty();
    assert(parsed_variants(done) =~= variants_view(buffer.variants@));
    assert(multi_allelic@.map_values(|p: i64| p as int) =~= flagged(done));
    while i < lines.len()
        invariant
            text == names_view(lines@),
            first <= i <= lines@.len(),
            header_scan(text, 0) == Ok::<_, VcfErrorView>((names_view(sample_names@), first)),
            buffer.wf(),
            parsed_variants(done) == variants_view(buffer.variants@),
            multi_allelic@.map_values(|p: i64| p as int) == flagged(done),
            data_scan(text, first, chr@, start as int, end as int) == join(
                done,
                data_scan(text, i as int, chr@, start as int, end as int),
            ),
        decreases lines@.len() - i,
    {
        assert(text[i as int] == lines@[i as int]@);
        match parse_variant(lines[i].as_str(), chr, start, end) {
            Err(e) => {
                return Err(e);
            },
            Ok(None) => {},
            Ok(Some(parsed)) => {
                let ghost p = parsed@;
                let ghost rest = data_scan(text, i + 1, chr@, start as int, end as int);
                let ghost flags = multi_allelic@.map_values(|p: i64| p as int);
                proof {
                    if rest is Ok {
                        assert(done + (seq![p] + rest->Ok_0) =~= done.push(p) + rest->Ok_0);
                    }
                    assert(done.push(p).drop_last() =~= done);
                }
                if parsed.multi_allelic {
                    multi_allelic.push(parsed.variant.position);
                    assert(multi_allelic@.map_values(|p: i64| p as int) =~= flags.push(
                        p.variant.position,
                    ));
                }
                buffer.collect(parsed);
                proof {
                    assert(parsed_variants(done.push(p)) =~= parsed_variants(done).push(
                        p.variant,
                    ));
                    done = done.push(p);
                }
            },
        }
        i += 1;
    }
    proof {
        assert(done + Seq::<ParsedVariantView>::empty() =~= done);
    }
    Ok(
        Ingested {
            variants: buffer.variants,
            sample_names,
            contig_length: 0,
            missing: buffer.missing,
            multi_allelic,
        },
    )
}

} // verus!
