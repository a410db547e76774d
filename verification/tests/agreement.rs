//! The library's readers agree with the functions of std that do the same
//! work, on texts drawn from small alphabets.

use vcf_diversity::config::read_cell;
use vcf_diversity::files::file_matches;
use vcf_diversity::genotype::read_genotype;
use vcf_diversity::haplotype::extract_sample_id;
use vcf_diversity::line::{is_same_chromosome, parse_variant};
use vcf_diversity::region::parse_region;
use vcf_diversity::text::split_whitespace;

/// A small generator of reproducible numbers.
struct Draw(u64);

impl Draw {
    fn next(&mut self) -> u64 {
        self.0 = self.0.wrapping_mul(6364136223846793005).wrapping_add(1442695040888963407);
        self.0 >> 33
    }

    fn text(&mut self, alphabet: &[char], longest: u64) -> String {
        let len = self.next() % (longest + 1);
        (0..len).map(|_| alphabet[(self.next() % alphabet.len() as u64) as usize]).collect()
    }
}

fn chars(s: &str) -> Vec<char> {
    s.chars().collect()
}

#[test]
fn tokens_agree_with_split_whitespace() {
    let alphabet = [' ', '\t', '\n', '\u{a0}', '\u{3000}', 'a', 'b', '#', '\u{e9}', '0'];
    let mut draw = Draw(1);
    for _ in 0..3000 {
        let text = draw.text(&alphabet, 12);
        let all = chars(&text);
        let got: Vec<String> =
            split_whitespace(&all).iter().map(|(a, b)| all[*a..*b].iter().collect()).collect();
        let expected: Vec<String> = text.split_whitespace().map(String::from).collect();
        assert_eq!(got, expected, "{:?}", text);
    }
}

#[test]
fn chromosomes_agree_with_trimmed_names() {
    let alphabet = ['c', 'h', 'r', '1', 'X', 'C'];
    let mut draw = Draw(2);
    for _ in 0..5000 {
        let a = draw.text(&alphabet, 8);
        let b = draw.text(&alphabet, 8);
        let expected = a.trim_start_matches("chr") == b.trim_start_matches("chr");
        assert_eq!(is_same_chromosome(&chars(&a), &chars(&b)), expected, "{:?} {:?}", a, b);
    }
}

#[test]
fn identifiers_agree_with_the_last_piece() {
    let alphabet = ['_', 'a', 'B', '1', '\u{e9}'];
    let mut draw = Draw(3);
    for _ in 0..3000 {
        let name = draw.text(&alphabet, 9);
        let expected = name.rsplit('_').next().unwrap_or(&name);
        assert_eq!(extract_sample_id(&name), expected, "{:?}", name);
    }
}

fn genotype_by_std(cell: &str) -> Option<Vec<u8>> {
    let call = cell.split(':').next().unwrap_or(".");
    if call == "." || call == "./." || call == ".|." {
        return None;
    }
    call.split(|c| c == '|' || c == '/').map(|allele| allele.parse::<u8>().ok()).collect()
}

#[test]
fn genotypes_agree_with_split_and_parse() {
    let alphabet = ['0', '1', '2', '5', '|', '/', '.', ':', '+', '-', 'x'];
    let mut draw = Draw(4);
    for _ in 0..20000 {
        let cell = draw.text(&alphabet, 7);
        assert_eq!(read_genotype(&chars(&cell)), genotype_by_std(&cell), "{:?}", cell);
    }
}

fn line_by_std(line: &str, chr: &str, start: i64, end: i64) -> Result<Option<(i64, Vec<Option<Vec<u8>>>, bool)>, String> {
    if line.starts_with('#') {
        return Ok(None);
    }
    let fields: Vec<&str> = line.split_whitespace().collect();
    if fields.len() < 10 {
        return Err("Invalid VCF line format".to_string());
    }
    if fields[0].trim_start_matches("chr") != chr.trim_start_matches("chr") {
        return Ok(None);
    }
    let pos: i64 = fields[1].parse().map_err(|_| "Invalid position".to_string())?;
    if pos < start || pos > end {
        return Ok(None);
    }
    let multi = fields[4].split(',').count() > 1;
    Ok(Some((pos, fields[9..].iter().map(|cell| genotype_by_std(cell)).collect(), multi)))
}

#[test]
fn lines_agree_with_split_and_parse() {
    let names = ["1", "chr1", "2", "chrchr1", "#1"];
    let positions = ["5", "-3", "50", "+7", "x", "", "9223372036854775808"];
    let alts = ["G", "G,T", ",", "."];
    let cells = ["0|1", "./.", ".", "1/1:3", "2", "0|", "x", ".|.", "10|255", "0|256"];
    let gaps = [" ", "\t", "  ", " \t"];
    let mut draw = Draw(5);
    for _ in 0..4000 {
        let mut pick = |items: &[&str]| items[(draw.next() % items.len() as u64) as usize].to_string();
        let gap = pick(&gaps);
        let mut fields = vec![pick(&names), pick(&positions), ".".into(), "A".into(), pick(&alts)];
        fields.extend([".".to_string(), ".".to_string(), ".".to_string(), "GT".to_string()]);
        let samples = draw.next() % 5;
        for _ in 0..samples {
            let mut pick = |items: &[&str]| {
                items[(draw.next() % items.len() as u64) as usize].to_string()
            };
            fields.push(pick(&cells));
        }
        let fields: Vec<String> = fields.into_iter().filter(|f| !f.is_empty()).collect();
        let line = fields.join(&gap);
        let got = match parse_variant(&line, "chr1", 1, 20) {
            Ok(Some(p)) => Ok(Some((p.variant.position, p.variant.genotypes, p.multi_allelic))),
            Ok(None) => Ok(None),
            Err(e) => Err(match e {
                vcf_diversity::error::VcfError::Parse(text) => text,
                other => panic!("unexpected: {:?}", other),
            }),
        };
        assert_eq!(got, line_by_std(&line, "chr1", 1, 20), "{:?}", line);
    }
}

fn cell_by_std(field: &str) -> Option<(u8, u8)> {
    if !field.contains('|') {
        return None;
    }
    let mut parts = field.split('|');
    let left: String =
        parts.next().unwrap_or("").chars().take_while(|c| c.is_digit(10)).collect();
    let right: String =
        parts.next().unwrap_or("").chars().take_while(|c| c.is_digit(10)).collect();
    match (left.parse::<u8>(), right.parse::<u8>()) {
        (Ok(l), Ok(r)) if l <= 1 && r <= 1 => Some((l, r)),
        _ => None,
    }
}

#[test]
fn cells_agree_with_split_and_parse() {
    let alphabet = ['0', '1', '2', '|', '/', '_', 'a', '+'];
    let mut draw = Draw(6);
    for _ in 0..20000 {
        let cell = draw.text(&alphabet, 6);
        assert_eq!(read_cell(&chars(&cell)), cell_by_std(&cell), "{:?}", cell);
    }
}

fn file_by_std(file_name: &str, chr: &str) -> bool {
    let chr_pattern = format!("chr{}", chr);
    (file_name.starts_with(&chr_pattern) || file_name.starts_with(chr))
        && (file_name.ends_with(".vcf") || file_name.ends_with(".vcf.gz"))
        && file_name.chars().nth(chr_pattern.len()).map_or(false, |c| !c.is_ascii_digit())
}

#[test]
fn files_agree_with_prefix_and_suffix_tests() {
    let stems = ["chr1", "chr10", "1", "10", "chrX", "chr", "", "chr1_a", "1abc", "chr\u{e9}"];
    let ends = [".vcf", ".vcf.gz", ".txt", "", ".vcf.g", "x.vcf", ".gz"];
    let names = ["1", "10", "X", "", "\u{e9}", "chr1"];
    for stem in stems {
        for end in ends {
            for chr in names {
                let file = format!("{}{}", stem, end);
                assert_eq!(file_matches(&file, chr), file_by_std(&file, chr), "{:?} {:?}", file, chr);
            }
        }
    }
}

fn region_by_std(region: &str) -> Result<(i64, i64), String> {
    let parts: Vec<&str> = region.split('-').collect();
    if parts.len() != 2 {
        return Err("Invalid region format. Use start-end".to_string());
    }
    let start: i64 = parts[0].parse().map_err(|_| "Invalid start position".to_string())?;
    let end: i64 = parts[1].parse().map_err(|_| "Invalid end position".to_string())?;
    if start >= end {
        return Err("Start position must be less than end position".to_string());
    }
    Ok((start, end))
}

#[test]
fn regions_agree_with_split_and_parse() {
    let alphabet = ['0', '1', '9', '-', '+', ' ', 'a'];
    let mut draw = Draw(7);
    for _ in 0..20000 {
        let region = draw.text(&alphabet, 7);
        let got = parse_region(&region).map_err(|e| match e {
            vcf_diversity::error::VcfError::InvalidRegion(text) => text,
            other => panic!("unexpected: {:?}", other),
        });
        assert_eq!(got, region_by_std(&region), "{:?}", region);
    }
}
