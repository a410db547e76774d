//! The header of a variant file: the mandatory columns and the sample
//! names after them.

use crate::error::{VcfError, VcfErrorView};
use crate::line::same_chars;
use crate::text::{chars_of, split_whitespace, tokens};
use vstd::prelude::*;
use vstd::slice::slice_subrange;
use vstd::string::StrSliceExecFns;

verus! {

/// The nine columns that every header line names first, in order.
pub open spec fn required_columns() -> Seq<Seq<char>> {
    seq![
        "#CHROM"@,
        "POS"@,
        "ID"@,
        "REF"@,
        "ALT"@,
        "QUAL"@,
        "FILTER"@,
        "INFO"@,
        "FORMAT"@,
    ]
}

/// The name of the mandatory column `k`.
fn required_column(k: usize) -> (name: &'static str)
    requires
        k < 9,
    ensures
        name@ == required_columns()[k as int],
{
    if k == 0 {
        "#CHROM"
    } else if k == 1 {
        "POS"
    } else if k == 2 {
        "ID"
    } else if k == 3 {
        "REF"
    } else if k == 4 {
        "ALT"
    } else if k == 5 {
        "QUAL"
    } else if k == 6 {
        "FILTER"
    } else if k == 7 {
        "INFO"
    } else {
        "FORMAT"
    }
}

/// A header line is valid where its first nine tokens are the mandatory
/// column names.
pub open spec fn header_is_valid(header: Seq<char>) -> bool {
    tokens(header).len() >= 9 && tokens(header).take(9) == required_columns()
}

/// The strings of `names` as sequences of characters.
pub open spec fn names_view(names: Seq<String>) -> Seq<Seq<char>> {
    names.map_values(|s: String| s@)
}

/// Checks that `header` begins with the mandatory column names.
pub fn validate_vcf_header(header: &str) -> (out: Result<(), VcfError>)
    ensures
        out is Ok <==> header_is_valid(header@),
        out matches Err(e) ==> e@ == VcfErrorView::InvalidVcfFormat("Invalid VCF header format"@),
{
    let chars = chars_of(header);
    let chars = chars.as_slice();
    let ranges = split_whitespace(chars);
    let ghost fields = tokens(header@);
    let mut valid = ranges.len() >= 9;
    let mut k: usize = 0;
    while valid && k < 9
        invariant
            k <= 9,
            fields == tokens(chars@),
            ranges@.len() == fields.len(),
            valid ==> fields.len() >= 9,
            !valid ==> !header_is_valid(chars@),
            forall|t: int|
                0 <= t < ranges@.len() ==> {
                    &&& (#[trigger] ranges@[t]).0 < ranges@[t].1 <= chars@.len()
                    &&& chars@.subrange(ranges@[t].0 as int, ranges@[t].1 as int) == fields[t]
                },
            forall|t: int| 0 <= t < k ==> fields[t] == required_columns()[t],
        decreases 9 - k + if valid { 1int } else { 0int },
    {
        let name = chars_of(required_column(k));
        let field = slice_subrange(chars, ranges[k].0, ranges[k].1);
        if same_chars(field, name.as_slice()) {
            k += 1;
        } else {
            assert(fields.take(9)[k as int] != required_columns()[k as int]);
            valid = false;
        }
    }
    if valid {
        assert(fields.take(9) =~= required_columns());
        Ok(())
    } else {
        Err(VcfError::InvalidVcfFormat("Invalid VCF header format".to_owned()))
    }
}

/// The sample names of a header line: every token after the ninth.
pub open spec fn sample_names(header: Seq<char>) -> Seq<Seq<char>> {
    if tokens(header).len() >= 9 {
        tokens(header).skip(9)
    } else {
        Seq::empty()
    }
}

/// The sample names of a header line: every token after the ninth.
pub fn header_sample_names(header: &str) -> (names: Vec<String>)
    ensures
        names_view(names@) == sample_names(header@),
{
    let chars = chars_of(header);
    let chars = chars.as_slice();
    let ranges = split_whitespace(chars);
    let ghost fields = tokens(header@);
    let mut names: Vec<String> = Vec::new();
    if ranges.len() < 9 {
        assert(names_view(names@) =~= Seq::empty());
        return names;
    }
    let mut k: usize = 9;
    while k < ranges.len()
        invariant
            9 <= k <= ranges@.len(),
            chars@ == header@,
            fields == tokens(chars@),
            ranges@.len() == fields.len(),
            forall|t: int|
                0 <= t < ranges@.len() ==> {
                    &&& (#[trigger] ranges@[t]).0 < ranges@[t].1 <= chars@.len()
                    &&& chars@.subrange(ranges@[t].0 as int, ranges@[t].1 as int) == fields[t]
                },
            names@.len() == k - 9,
            forall|t: int| 0 <= t < k - 9 ==> (#[trigger] names@[t])@ == fields[9 + t],
        decreases ranges@.len() - k,
    {
        let name = header.substring_char(ranges[k].0, ranges[k].1);
        names.push(name.to_owned());
        k += 1;
    }
    assert(names_view(names@) =~= fields.skip(9));
    names
}

/// What a line read before the data lines means.
#[derive(Debug)]
pub enum HeaderStep {
    /// A meta line, or a line that is not part of the header: read on.
    Skip,
    /// The header line, with the sample names it gives: the data follow.
    Samples(Vec<String>),
}

/// The meaning of a header line as a mathematical value.
pub enum HeaderStepView {
    Skip,
    Samples(Seq<Seq<char>>),
}

impl View for HeaderStep {
    type V = HeaderStepView;

    open spec fn view(&self) -> HeaderStepView {
        match self {
            HeaderStep::Skip => HeaderStepView::Skip,
            HeaderStep::Samples(names) => HeaderStepView::Samples(names_view(names@)),
        }
    }
}

/// What a line read before the data lines means: a line that begins with
/// `##` is skipped, one that begins with `#CHROM` is the header line and
/// must be valid, any other line is skipped.
pub open spec fn header_line(line: Seq<char>) -> Result<HeaderStepView, VcfErrorView> {
    if "##"@.is_prefix_of(line) {
        Ok(HeaderStepView::Skip)
    } else if "#CHROM"@.is_prefix_of(line) {
        if header_is_valid(line) {
            Ok(HeaderStepView::Samples(sample_names(line)))
        } else {
            Err(VcfErrorView::InvalidVcfFormat("Invalid VCF header format"@))
        }
    } else {
        Ok(HeaderStepView::Skip)
    }
}

/// The outcome of `read_header_line` as a mathematical value.
pub open spec fn header_step_view(out: Result<HeaderStep, VcfError>) -> Result<
    HeaderStepView,
    VcfErrorView,
> {
    match out {
        Ok(step) => Ok(step@),
        Err(e) => Err(e@),
    }
}

/// Whether `s` begins with the characters of `prefix`.
pub fn starts_with(s: &[char], prefix: &str) -> (b: bool)
    ensures
        b == prefix@.is_prefix_of(s@),
{
    let p = chars_of(prefix);
    if p.len() > s.len() {
        return false;
    }
    let head = slice_subrange(s, 0, p.len());
    let b = same_chars(head, p.as_slice());
    assert(prefix@.is_prefix_of(s@) == (s@.subrange(0, p@.len() as int) =~= prefix@));
    b
}

/// Reads one line that precedes the data lines.
pub fn read_header_line(line: &str) -> (out: Result<HeaderStep, VcfError>)
    ensures
        header_step_view(out) == header_line(line@),
{
    let chars = chars_of(line);
    if starts_with(chars.as_slice(), "##") {
        Ok(HeaderStep::Skip)
    } else if starts_with(chars.as_slice(), "#CHROM") {
        match validate_vcf_header(line) {
            Ok(()) => Ok(HeaderStep::Samples(header_sample_names(line))),
            Err(e) => Err(e),
        }
    } else {
        Ok(HeaderStep::Skip)
    }
}

} // verus!
