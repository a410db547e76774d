//! The text of a data line written from known values, and the law that
//! the line parser reads these values back.

use crate::error::VcfErrorView;
use crate::genotype::{
    genotype_text, lemma_genotype_round_trip, lemma_genotype_text_chars, lemma_scan_to_first,
    parse_genotype, Delimiter,
};
use crate::line::{genotypes_of, parse_line, same_chromosome, ParsedVariantView};
use crate::text::{
    decimal_text, is_digit, is_whitespace, lemma_decimal_text, lemma_parse_i64_decimal_text,
    lemma_token_end, token_end, tokens, tokens_from,
};
use crate::variant::{account_of_variant, VariantView};
use vstd::prelude::*;

verus! {

/// A word is a text that is not empty and holds no whitespace.
pub open spec fn is_word(w: Seq<char>) -> bool {
    w.len() > 0 && forall|k: int| 0 <= k < w.len() ==> !is_whitespace(#[trigger] w[k])
}

/// The words of `words` with a tab between two of them.
pub open spec fn join_words(words: Seq<Seq<char>>) -> Seq<char>
    decreases words.len(),
{
    if words.len() == 0 {
        Seq::empty()
    } else if words.len() == 1 {
        words[0]
    } else {
        words[0] + seq!['\t'] + join_words(words.drop_first())
    }
}

/// A token ends at `e` where no whitespace stands before `e` and the text
/// ends at `e` or whitespace stands there.
pub proof fn lemma_token_end_first(s: Seq<char>, i: int, e: int)
    requires
        0 <= i <= e <= s.len(),
        forall|k: int| i <= k < e ==> !is_whitespace(#[trigger] s[k]),
        e == s.len() || is_whitespace(s[e]),
    ensures
        token_end(s, i) == e,
    decreases e - i,
{
    if i < e {
        lemma_token_end_first(s, i + 1, e);
    }
}

/// The tokens of a text that follows a prefix are those of the text alone.
pub proof fn lemma_tokens_shift(pre: Seq<char>, s: Seq<char>, i: int)
    requires
        0 <= i <= s.len(),
    ensures
        tokens_from(pre + s, pre.len() + i) == tokens_from(s, i),
    decreases s.len() - i,
{
    if i < s.len() {
        assert((pre + s)[pre.len() + i] == s[i]);
        if is_whitespace(s[i]) {
            lemma_tokens_shift(pre, s, i + 1);
        } else {
            lemma_token_end(s, i);
            let e = token_end(s, i);
            assert forall|k: int| pre.len() + i <= k < pre.len() + e implies !is_whitespace(
                #[trigger] (pre + s)[k],
            ) by {
                assert((pre + s)[k] == s[k - pre.len()]);
            }
            if e < s.len() {
                assert((pre + s)[pre.len() + e] == s[e]);
            }
            lemma_token_end_first(pre + s, pre.len() + i, pre.len() + e);
            assert((pre + s).subrange(pre.len() + i, pre.len() + e) =~= s.subrange(i, e));
            lemma_tokens_shift(pre, s, e);
        }
    }
}

/// The tokens of words joined by tabs are these words.
pub proof fn lemma_tokens_of_joined(words: Seq<Seq<char>>)
    requires
        forall|k: int| 0 <= k < words.len() ==> is_word(#[trigger] words[k]),
    ensures
        tokens(join_words(words)) == words,
    decreases words.len(),
{
    if words.len() == 0 {
        assert(tokens(join_words(words)) =~= words);
    } else {
        let w = words[0];
        let text = join_words(words);
        assert(is_word(w));
        assert forall|k: int| 0 <= k < w.len() implies !is_whitespace(#[trigger] text[k]) by {
            assert(text[k] == w[k]);
        }
        if words.len() == 1 {
            lemma_token_end_first(text, 0, w.len() as int);
            assert(text.subrange(0, w.len() as int) =~= w);
            assert(tokens_from(text, w.len() as int) =~= Seq::<Seq<char>>::empty());
            assert(seq![w] + Seq::<Seq<char>>::empty() =~= words);
        } else {
            let rest = words.drop_first();
            let tail = join_words(rest);
            let pre = w + seq!['\t'];
            assert(text =~= pre + tail);
            assert(text[w.len() as int] == '\t');
            lemma_token_end_first(text, 0, w.len() as int);
            assert(text.subrange(0, w.len() as int) =~= w);
            assert forall|k: int| 0 <= k < rest.len() implies is_word(#[trigger] rest[k]) by {
                assert(rest[k] == words[k + 1]);
            }
            lemma_tokens_of_joined(rest);
            lemma_tokens_shift(pre, tail, 0);
            assert(tokens_from(text, w.len() as int) == tokens_from(text, w.len() as int + 1));
            assert(seq![w] + rest =~= words);
        }
    }
}

/// How a genotype slot is written: its alleles as a call, or `./.` where
/// the call is missing.
pub open spec fn slot_text(slot: Option<Seq<u8>>, phased: bool) -> Seq<char> {
    match slot {
        Some(alleles) => genotype_text(alleles, phased),
        None => seq!['.', '/', '.'],
    }
}

/// The fields of a data line for the chromosome `chrom`, the position
/// `position` and the genotype slots `slots`.
pub open spec fn data_fields(
    chrom: Seq<char>,
    position: nat,
    slots: Seq<Option<Seq<u8>>>,
    phased: bool,
) -> Seq<Seq<char>> {
    seq![
        chrom,
        decimal_text(position),
        seq!['.'],
        seq!['A'],
        seq!['G'],
        seq!['.'],
        seq!['.'],
        seq!['.'],
        seq!['G', 'T'],
    ] + slots.map_values(|slot: Option<Seq<u8>>| slot_text(slot, phased))
}

/// A data line written from known values.
pub open spec fn data_line(
    chrom: Seq<char>,
    position: nat,
    slots: Seq<Option<Seq<u8>>>,
    phased: bool,
) -> Seq<char> {
    join_words(data_fields(chrom, position, slots, phased))
}

/// A slot that is written is read back: its alleles in order, or nothing
/// where it is missing.
pub proof fn lemma_slot_round_trip(slot: Option<Seq<u8>>, phased: bool)
    requires
        slot matches Some(alleles) ==> alleles.len() > 0,
    ensures
        is_word(slot_text(slot, phased)),
        parse_genotype(slot_text(slot, phased)) == slot,
{
    let text = slot_text(slot, phased);
    match slot {
        Some(alleles) => {
            lemma_genotype_text_chars(alleles, phased);
            lemma_genotype_round_trip(alleles, phased);
            assert forall|k: int| 0 <= k < text.len() implies !is_whitespace(#[trigger] text[k]) by {
                assert(is_digit(text[k]) || text[k] == '|' || text[k] == '/');
            }
        },
        None => {
            lemma_scan_to_first(text, 0, 3, Delimiter::Colon);
            assert(text.take(3) =~= text);
        },
    }
}

/// Parsing a line written from known values gives these values back: the
/// position, and every genotype slot with its alleles in their order.
pub proof fn lemma_line_round_trip(
    chrom: Seq<char>,
    position: i64,
    slots: Seq<Option<Seq<u8>>>,
    phased: bool,
    start: int,
    end: int,
)
    requires
        is_word(chrom),
        chrom[0] != '#',
        0 <= position,
        start <= position <= end,
        slots.len() >= 1,
        forall|k: int|
            0 <= k < slots.len() ==> ((#[trigger] slots[k]) matches Some(alleles)
                ==> alleles.len() > 0),
    ensures
        parse_line(data_line(chrom, position as nat, slots, phased), chrom, start, end) == Ok::<
            _,
            VcfErrorView,
        >(
            Some(
                ParsedVariantView {
                    variant: VariantView { position: position as int, genotypes: slots },
                    missing: account_of_variant(
                        VariantView { position: position as int, genotypes: slots },
                    ),
                    multi_allelic: false,
                },
            ),
        ),
{
    let fields = data_fields(chrom, position as nat, slots, phased);
    let line = data_line(chrom, position as nat, slots, phased);
    lemma_decimal_text(position as nat);
    lemma_parse_i64_decimal_text(position);
    assert forall|k: int| 0 <= k < fields.len() implies is_word(#[trigger] fields[k]) by {
        if k == 1 {
            let d = decimal_text(position as nat);
            assert forall|t: int| 0 <= t < d.len() implies !is_whitespace(#[trigger] d[t]) by {
                assert(is_digit(d[t]));
            }
        } else if k >= 9 {
            assert(fields[k] == slot_text(slots[k - 9], phased));
            lemma_slot_round_trip(slots[k - 9], phased);
        }
    }
    lemma_tokens_of_joined(fields);
    assert(line[0] == chrom[0]) by {
        assert(fields.drop_first().len() > 0);
        assert(line =~= fields[0] + seq!['\t'] + join_words(fields.drop_first()));
    }
    assert(same_chromosome(fields[0], chrom));
    lemma_scan_to_first(fields[4], 0, 1, Delimiter::Comma);
    assert(genotypes_of(fields) =~= slots) by {
        assert forall|k: int| 0 <= k < slots.len() implies genotypes_of(fields)[k] == slots[k] by {
            assert(fields.skip(9)[k] == slot_text(slots[k], phased));
            lemma_slot_round_trip(slots[k], phased);
        }
    }
}

} // verus!
