//! Which file of a folder belongs to a chromosome, by its name.

use crate::error::{VcfError, VcfErrorView};
use crate::header::names_view;
use crate::line::same_chars;
use crate::text::{chars_of, is_digit};
use vstd::prelude::*;
use vstd::slice::slice_subrange;

verus! {

/// Whether `s` holds the characters of `part` from index `at` on.
pub open spec fn holds_at(s: Seq<char>, at: int, part: Seq<char>) -> bool {
    0 <= at && at + part.len() <= s.len() && s.subrange(at, at + part.len()) == part
}

/// Whether `s` holds the characters of `part` from index `at` on.
fn has_at(s: &[char], at: usize, part: &[char]) -> (b: bool)
    ensures
        b == holds_at(s@, at as int, part@),
{
    if at > s.len() || part.len() > s.len() - at {
        return false;
    }
    same_chars(slice_subrange(s, at, at + part.len()), part)
}

/// Whether the file called `file` may hold the variants of the chromosome
/// `chr`: its name begins with the chromosome's name, with or without a
/// `chr` before it, ends in `.vcf` or `.vcf.gz`, and has a character that
/// is no digit at the index that `chr` and the name take in bytes.
pub open spec fn is_vcf_candidate(file: Seq<char>, chr: Seq<char>, chr_bytes: int) -> bool {
    &&& (holds_at(file, 0, "chr"@) && holds_at(file, 3, chr)) || holds_at(file, 0, chr)
    &&& holds_at(file, file.len() - 4, ".vcf"@) || holds_at(file, file.len() - 7, ".vcf.gz"@)
    &&& 3 + chr_bytes < file.len() && !is_digit(file[3 + chr_bytes])
}

/// Whether the file called `file_name` may hold the variants of `chr`.
pub fn file_matches(file_name: &str, chr: &str) -> (b: bool)
    ensures
        b == is_vcf_candidate(file_name@, chr@, chr.len() as int),
{
    let file = chars_of(file_name);
    let file = file.as_slice();
    let name = chars_of(chr);
    let name = name.as_slice();
    let prefix = chars_of("chr");
    let short = chars_of(".vcf");
    let long = chars_of(".vcf.gz");
    proof {
        reveal_strlit("chr");
        reveal_strlit(".vcf");
        reveal_strlit(".vcf.gz");
    }
    let begins = (has_at(file, 0, prefix.as_slice()) && has_at(file, 3, name)) || has_at(
        file,
        0,
        name,
    );
    let ends = (file.len() >= 4 && has_at(file, file.len() - 4, short.as_slice())) || (file.len()
        >= 7 && has_at(file, file.len() - 7, long.as_slice()));
    let bytes = chr.len();
    if bytes >= file.len() || file.len() - bytes <= 3 {
        return false;
    }
    let c: u32 = file[bytes + 3] as u32;
    begins && ends && (c < 0x30 || c > 0x39)
}

/// The first index at or after `i` whose file may hold the variants of
/// `chr`.
pub open spec fn first_candidate(files: Seq<Seq<char>>, chr: Seq<char>, chr_bytes: int, i: int)
    -> Option<int>
    decreases files.len() - i,
{
    if i < 0 || i >= files.len() {
        None
    } else if is_vcf_candidate(files[i], chr, chr_bytes) {
        Some(i)
    } else {
        first_candidate(files, chr, chr_bytes, i + 1)
    }
}

/// Chooses among the file names of a folder the file of the chromosome
/// `chr`: the first that matches, and a failure where none does.
pub fn choose_vcf_file(file_names: &Vec<String>, chr: &str) -> (out: Result<usize, VcfError>)
    ensures
        match out {
            Ok(i) => first_candidate(
                names_view(file_names@),
                chr@,
                chr.len() as int,
                0,
            ) == Some(i as int) && i < file_names@.len(),
            Err(e) => e@ == VcfErrorView::NoVcfFiles && first_candidate(
                names_view(file_names@),
                chr@,
                chr.len() as int,
                0,
            ) is None,
        },
{
    let ghost files = names_view(file_names@);
    let ghost bytes = chr.len() as int;
    let mut i: usize = 0;
    while i < file_names.len()
        invariant
            i <= file_names@.len(),
            files == names_view(file_names@),
            bytes == chr.len(),
            first_candidate(files, chr@, bytes, 0) == first_candidate(files, chr@, bytes, i as int),
        decreases file_names@.len() - i,
    {
        assert(files[i as int] == file_names@[i as int]@);
        if file_matches(file_names[i].as_str(), chr) {
            return Ok(i);
        }
        i += 1;
    }
    Err(VcfError::NoVcfFiles)
}

} // verus!
