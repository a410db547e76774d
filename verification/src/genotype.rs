//! Genotype cells: the call before the first colon, read as allele codes.

use crate::text::{
    decimal_text, is_digit, lemma_decimal_text, lemma_parse_u8_decimal_text, parse_u8,
    read_u8,
};
use crate::variant::slot_view;
use vstd::prelude::*;
use vstd::slice::slice_subrange;

verus! {

/// The characters at which a piece of text is cut.
#[derive(Debug, Clone, Copy)]
pub enum Delimiter {
    /// `:` between the subfields of a genotype cell.
    Colon,
    /// `|` or `/` between the alleles of a call.
    Allele,
    /// `,` between alternate alleles.
    Comma,
    /// `-` between the bounds of a region.
    Dash,
    /// `|` between the two groups of a configured sample.
    Bar,
}

/// Whether `c` is a delimiter of `kind`.
pub open spec fn is_delimiter(kind: Delimiter, c: char) -> bool {
    match kind {
        Delimiter::Colon => c == ':',
        Delimiter::Allele => c == '|' || c == '/',
        Delimiter::Comma => c == ',',
        Delimiter::Dash => c == '-',
        Delimiter::Bar => c == '|',
    }
}

/// The index of the first delimiter of `kind` at or after `i`, or the
/// length of `s` where there is none.
pub open spec fn scan_to(s: Seq<char>, i: int, kind: Delimiter) -> int
    decreases s.len() - i,
{
    if i < 0 || i >= s.len() || is_delimiter(kind, s[i]) {
        i
    } else {
        scan_to(s, i + 1, kind)
    }
}

/// A scan ends inside the text, passes no delimiter, and stops at one or
/// at the end.
pub proof fn lemma_scan_to(s: Seq<char>, i: int, kind: Delimiter)
    requires
        0 <= i <= s.len(),
    ensures
        i <= scan_to(s, i, kind) <= s.len(),
        forall|k: int| i <= k < scan_to(s, i, kind) ==> !is_delimiter(kind, #[trigger] s[k]),
        scan_to(s, i, kind) < s.len() ==> is_delimiter(kind, s[scan_to(s, i, kind)]),
    decreases s.len() - i,
{
    if i < s.len() && !is_delimiter(kind, s[i]) {
        lemma_scan_to(s, i + 1, kind);
    }
}

/// Whether `c` is a delimiter of `kind`.
pub fn char_is_delimiter(kind: Delimiter, c: char) -> (b: bool)
    ensures
        b == is_delimiter(kind, c),
{
    match kind {
        Delimiter::Colon => c == ':',
        Delimiter::Allele => c == '|' || c == '/',
        Delimiter::Comma => c == ',',
        Delimiter::Dash => c == '-',
        Delimiter::Bar => c == '|',
    }
}

/// The index of the first delimiter of `kind` at or after `from`.
pub fn find_delimiter(s: &[char], from: usize, kind: Delimiter) -> (at: usize)
    requires
        from <= s@.len(),
    ensures
        at == scan_to(s@, from as int, kind),
        from <= at <= s@.len(),
{
    let mut i: usize = from;
    while i < s.len() && !char_is_delimiter(kind, s[i])
        invariant
            from <= i <= s@.len(),
            scan_to(s@, from as int, kind) == scan_to(s@, i as int, kind),
        decreases s@.len() - i,
    {
        i += 1;
    }
    i
}

/// The genotype call of a sample cell: what stands before its first colon.
pub open spec fn genotype_call(field: Seq<char>) -> Seq<char> {
    field.take(scan_to(field, 0, Delimiter::Colon))
}

/// The three ways to write that a call is missing.
pub open spec fn is_missing_call(call: Seq<char>) -> bool {
    ||| call == seq!['.']
    ||| call == seq!['.', '/', '.']
    ||| call == seq!['.', '|', '.']
}

/// The allele codes that `call` writes from index `i` on, separated by `|`
/// or `/`; `None` where a piece is no `u8`.
pub open spec fn alleles_from(call: Seq<char>, i: int) -> Option<Seq<u8>>
    decreases call.len() - i,
{
    if i < 0 || i > call.len() {
        None
    } else {
        proof {
            lemma_scan_to(call, i, Delimiter::Allele);
        }
        let e = scan_to(call, i, Delimiter::Allele);
        match parse_u8(call.subrange(i, e)) {
            None => None,
            Some(a) => if e >= call.len() {
                Some(seq![a])
            } else {
                match alleles_from(call, e + 1) {
                    Some(rest) => Some(seq![a] + rest),
                    None => None,
                }
            },
        }
    }
}

/// The slot that a sample cell stands for: `None` where the call is
/// written as missing or cannot be read, else its allele codes in order.
pub open spec fn parse_genotype(field: Seq<char>) -> Option<Seq<u8>> {
    let call = genotype_call(field);
    if is_missing_call(call) {
        None
    } else {
        alleles_from(call, 0)
    }
}

/// The alleles read so far followed by those still to read.
pub open spec fn prepend(done: Seq<u8>, rest: Option<Seq<u8>>) -> Option<Seq<u8>> {
    match rest {
        Some(r) => Some(done + r),
        None => None,
    }
}

/// Whether `call` is one of the three ways to write a missing call.
fn call_is_missing(call: &[char]) -> (b: bool)
    ensures
        b == is_missing_call(call@),
{
    if call.len() == 1 {
        let b = call[0] == '.';
        assert(b == (call@ =~= seq!['.']));
        b
    } else if call.len() == 3 {
        let b = call[0] == '.' && (call[1] == '/' || call[1] == '|') && call[2] == '.';
        assert((call@ =~= seq!['.', '/', '.']) == (call@[0] == '.' && call@[1] == '/' && call@[2]
            == '.'));
        assert((call@ =~= seq!['.', '|', '.']) == (call@[0] == '.' && call@[1] == '|' && call@[2]
            == '.'));
        b
    } else {
        false
    }
}

/// Reads the genotype slot of one sample cell.
pub fn read_genotype(field: &[char]) -> (slot: Option<Vec<u8>>)
    ensures
        slot_view(slot) == parse_genotype(field@),
{
    let colon = find_delimiter(field, 0, Delimiter::Colon);
    let call = slice_subrange(field, 0, colon);
    if call_is_missing(call) {
        return None;
    }
    let mut alleles: Vec<u8> = Vec::new();
    let mut i: usize = 0;
    loop
        invariant
            i <= call@.len(),
            call@ == genotype_call(field@),
            !is_missing_call(call@),
            alleles_from(call@, 0) == prepend(alleles@, alleles_from(call@, i as int)),
        decreases call@.len() - i,
    {
        let e = find_delimiter(call, i, Delimiter::Allele);
        let piece = slice_subrange(call, i, e);
        match read_u8(piece) {
            None => {
                return None;
            },
            Some(a) => {
                let ghost before = alleles@;
                alleles.push(a);
                if e >= call.len() {
                    assert(before + seq![a] =~= alleles@);
                    return Some(alleles);
                }
                proof {
                    let rest = alleles_from(call@, e + 1);
                    if rest is Some {
                        assert(before + (seq![a] + rest->0) =~= alleles@ + rest->0);
                    }
                }
                i = e + 1;
            },
        }
    }
}

/// The character that separates the alleles of a phased or of an unphased
/// call.
pub open spec fn allele_separator(phased: bool) -> char {
    if phased {
        '|'
    } else {
        '/'
    }
}

/// The call that writes `alleles` in order, in base ten, with a separator
/// between two of them.
pub open spec fn genotype_text(alleles: Seq<u8>, phased: bool) -> Seq<char>
    decreases alleles.len(),
{
    if alleles.len() == 0 {
        Seq::empty()
    } else if alleles.len() == 1 {
        decimal_text(alleles[0] as nat)
    } else {
        decimal_text(alleles[0] as nat) + seq![allele_separator(phased)] + genotype_text(
            alleles.drop_first(),
            phased,
        )
    }
}

/// A scan ends at `e` where no delimiter stands before `e` and one stands
/// at `e`, or the text ends there.
pub proof fn lemma_scan_to_first(s: Seq<char>, i: int, e: int, kind: Delimiter)
    requires
        0 <= i <= e <= s.len(),
        forall|k: int| i <= k < e ==> !is_delimiter(kind, #[trigger] s[k]),
        e == s.len() || is_delimiter(kind, s[e]),
    ensures
        scan_to(s, i, kind) == e,
    decreases e - i,
{
    if i < e {
        lemma_scan_to_first(s, i + 1, e, kind);
    }
}

/// A scan of a text that follows a prefix goes as the scan of the text
/// alone.
pub proof fn lemma_scan_to_shift(pre: Seq<char>, s: Seq<char>, i: int, kind: Delimiter)
    requires
        0 <= i <= s.len(),
    ensures
        scan_to(pre + s, pre.len() + i, kind) == pre.len() + scan_to(s, i, kind),
    decreases s.len() - i,
{
    if i < s.len() {
        assert((pre + s)[pre.len() + i] == s[i]);
        if !is_delimiter(kind, s[i]) {
            lemma_scan_to_shift(pre, s, i + 1, kind);
        }
    }
}

/// The alleles of a text that follows a prefix are those of the text
/// alone.
pub proof fn lemma_alleles_shift(pre: Seq<char>, s: Seq<char>, i: int)
    requires
        0 <= i <= s.len(),
    ensures
        alleles_from(pre + s, pre.len() + i) == alleles_from(s, i),
    decreases s.len() - i,
{
    lemma_scan_to(s, i, Delimiter::Allele);
    lemma_scan_to_shift(pre, s, i, Delimiter::Allele);
    let e = scan_to(s, i, Delimiter::Allele);
    assert((pre + s).subrange(pre.len() + i, pre.len() + e) =~= s.subrange(i, e));
    if e < s.len() {
        lemma_alleles_shift(pre, s, e + 1);
    }
}

/// The text of a call begins with a digit and holds digits and its
/// separator only.
pub proof fn lemma_genotype_text_chars(alleles: Seq<u8>, phased: bool)
    requires
        alleles.len() > 0,
    ensures
        genotype_text(alleles, phased).len() > 0,
        is_digit(genotype_text(alleles, phased)[0]),
        forall|k: int|
            0 <= k < genotype_text(alleles, phased).len() ==> is_digit(
                #[trigger] genotype_text(alleles, phased)[k],
            ) || genotype_text(alleles, phased)[k] == allele_separator(phased),
    decreases alleles.len(),
{
    lemma_decimal_text(alleles[0] as nat);
    if alleles.len() > 1 {
        lemma_genotype_text_chars(alleles.drop_first(), phased);
        let d = decimal_text(alleles[0] as nat);
        let rest = genotype_text(alleles.drop_first(), phased);
        let text = genotype_text(alleles, phased);
        assert(text[0] == d[0]);
        assert forall|k: int| 0 <= k < text.len() implies is_digit(#[trigger] text[k]) || text[k]
            == allele_separator(phased) by {
            if k < d.len() {
                assert(text[k] == d[k]);
            } else if k > d.len() {
                assert(text[k] == rest[k - d.len() - 1]);
            }
        }
    }
}

/// The alleles written as a call are read back from it, in order.
pub proof fn lemma_alleles_of_text(alleles: Seq<u8>, phased: bool)
    requires
        alleles.len() > 0,
    ensures
        alleles_from(genotype_text(alleles, phased), 0) == Some(alleles),
    decreases alleles.len(),
{
    let d = decimal_text(alleles[0] as nat);
    let text = genotype_text(alleles, phased);
    lemma_decimal_text(alleles[0] as nat);
    lemma_parse_u8_decimal_text(alleles[0]);
    assert forall|k: int| 0 <= k < d.len() implies !is_delimiter(
        Delimiter::Allele,
        #[trigger] text[k],
    ) by {
        assert(text[k] == d[k]);
        assert(is_digit(d[k]));
    }
    if alleles.len() == 1 {
        lemma_scan_to_first(text, 0, d.len() as int, Delimiter::Allele);
        assert(text.subrange(0, d.len() as int) =~= d);
        assert(seq![alleles[0]] =~= alleles);
    } else {
        let pre = d + seq![allele_separator(phased)];
        let rest = genotype_text(alleles.drop_first(), phased);
        assert(text =~= pre + rest);
        assert(text[d.len() as int] == allele_separator(phased));
        lemma_scan_to_first(text, 0, d.len() as int, Delimiter::Allele);
        assert(text.subrange(0, d.len() as int) =~= d);
        lemma_alleles_of_text(alleles.drop_first(), phased);
        lemma_alleles_shift(pre, rest, 0);
        assert(seq![alleles[0]] + alleles.drop_first() =~= alleles);
    }
}

/// A genotype cell that writes `alleles`, in any of the two notations,
/// gives back exactly these alleles, in order.
pub proof fn lemma_genotype_round_trip(alleles: Seq<u8>, phased: bool)
    requires
        alleles.len() > 0,
    ensures
        parse_genotype(genotype_text(alleles, phased)) == Some(alleles),
{
    let text = genotype_text(alleles, phased);
    lemma_genotype_text_chars(alleles, phased);
    lemma_alleles_of_text(alleles, phased);
    assert forall|k: int| 0 <= k < text.len() implies !is_delimiter(
        Delimiter::Colon,
        #[trigger] text[k],
    ) by {
        assert(is_digit(text[k]) || text[k] == allele_separator(phased));
    }
    lemma_scan_to_first(text, 0, text.len() as int, Delimiter::Colon);
    assert(text.take(text.len() as int) =~= text);
    assert(!is_missing_call(text)) by {
        assert(is_digit(text[0]));
        assert(seq!['.'][0] == '.');
        assert(seq!['.', '/', '.'][0] == '.');
        assert(seq!['.', '|', '.'][0] == '.');
    }
}

} // verus!
