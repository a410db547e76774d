//! Character-level helpers: a string as a vector of characters, whitespace
//! tokens, and decimal numbers.

use vstd::prelude::*;
use vstd::std_specs::iter::IteratorSpec;
use vstd::string::StringExecFns;

verus! {

/// The characters of `s`, in order.
pub fn chars_of(s: &str) -> (out: Vec<char>)
    ensures
        out@ == s@,
{
    let mut out: Vec<char> = Vec::new();
    for c in it: s.chars()
        invariant
            out@ == it.seq().take(it.index() as int),
    {
        out.push(c);
    }
    out
}

/// Whether `c` has the Unicode property White_Space.
pub open spec fn is_whitespace(c: char) -> bool {
    let u = c as u32;
    ||| 0x09 <= u <= 0x0D
    ||| u == 0x20
    ||| u == 0x85
    ||| u == 0xA0
    ||| u == 0x1680
    ||| 0x2000 <= u <= 0x200A
    ||| u == 0x2028
    ||| u == 0x2029
    ||| u == 0x202F
    ||| u == 0x205F
    ||| u == 0x3000
}

/// Whether `c` has the Unicode property White_Space.
pub fn char_is_whitespace(c: char) -> (b: bool)
    ensures
        b == is_whitespace(c),
{
    let u: u32 = c as u32;
    (0x09 <= u && u <= 0x0D) || u == 0x20 || u == 0x85 || u == 0xA0 || u == 0x1680 || (0x2000 <= u
        && u <= 0x200A) || u == 0x2028 || u == 0x2029 || u == 0x202F || u == 0x205F || u == 0x3000
}

/// The index at which the run of non-whitespace characters that starts at
/// `i` ends: the first whitespace at or after `i`, or the length of `s`.
pub open spec fn token_end(s: Seq<char>, i: int) -> int
    decreases s.len() - i,
{
    if i < 0 || i >= s.len() || is_whitespace(s[i]) {
        i
    } else {
        token_end(s, i + 1)
    }
}

/// A token ends inside the text, holds no whitespace, and is followed by
/// whitespace or by the end.
pub proof fn lemma_token_end(s: Seq<char>, i: int)
    requires
        0 <= i <= s.len(),
    ensures
        i <= token_end(s, i) <= s.len(),
        i < s.len() && !is_whitespace(s[i]) ==> i < token_end(s, i),
        forall|k: int| i <= k < token_end(s, i) ==> !is_whitespace(#[trigger] s[k]),
        token_end(s, i) < s.len() ==> is_whitespace(s[token_end(s, i)]),
    decreases s.len() - i,
{
    if i < s.len() && !is_whitespace(s[i]) {
        lemma_token_end(s, i + 1);
    }
}

/// The whitespace-separated tokens of `s` from index `i` on.
pub open spec fn tokens_from(s: Seq<char>, i: int) -> Seq<Seq<char>>
    decreases s.len() - i,
{
    if i < 0 || i >= s.len() {
        Seq::empty()
    } else if is_whitespace(s[i]) {
        tokens_from(s, i + 1)
    } else {
        proof {
            lemma_token_end(s, i);
        }
        seq![s.subrange(i, token_end(s, i))] + tokens_from(s, token_end(s, i))
    }
}

/// The maximal runs of non-whitespace characters of `s`, in order.
pub open spec fn tokens(s: Seq<char>) -> Seq<Seq<char>> {
    tokens_from(s, 0)
}

/// The tokens of `chars` as index ranges: the half-open range `k` holds
/// token `k`.
pub fn split_whitespace(chars: &[char]) -> (ranges: Vec<(usize, usize)>)
    ensures
        ranges@.len() == tokens(chars@).len(),
        forall|k: int|
            0 <= k < ranges@.len() ==> {
                &&& (#[trigger] ranges@[k]).0 < ranges@[k].1 <= chars@.len()
                &&& chars@.subrange(ranges@[k].0 as int, ranges@[k].1 as int) == tokens(chars@)[k]
            },
{
    let mut ranges: Vec<(usize, usize)> = Vec::new();
    let mut i: usize = 0;
    let ghost mut done: Seq<Seq<char>> = Seq::empty();
    while i < chars.len()
        invariant
            0 <= i <= chars@.len(),
            done.len() == ranges@.len(),
            tokens(chars@) == done + tokens_from(chars@, i as int),
            forall|k: int|
                0 <= k < ranges@.len() ==> {
                    &&& (#[trigger] ranges@[k]).0 < ranges@[k].1 <= chars@.len()
                    &&& chars@.subrange(ranges@[k].0 as int, ranges@[k].1 as int) == done[k]
                },
        decreases chars@.len() - i,
    {
        if char_is_whitespace(chars[i]) {
            i += 1;
        } else {
            let start: usize = i;
            while i < chars.len() && !char_is_whitespace(chars[i])
                invariant
                    start <= i <= chars@.len(),
                    token_end(chars@, start as int) == token_end(chars@, i as int),
                decreases chars@.len() - i,
            {
                i += 1;
            }
            proof {
                lemma_token_end(chars@, start as int);
                let tok = chars@.subrange(start as int, i as int);
                assert(done + (seq![tok] + tokens_from(chars@, i as int)) =~= done.push(tok)
                    + tokens_from(chars@, i as int));
                done = done.push(tok);
            }
            ranges.push((start, i));
        }
    }
    proof {
        assert(done + tokens_from(chars@, i as int) =~= done);
    }
    ranges
}

/// Whether `c` is one of the ten ASCII digits.
pub open spec fn is_digit(c: char) -> bool {
    0x30 <= c as u32 <= 0x39
}

/// The value of the ASCII digit `c`.
pub open spec fn digit_value(c: char) -> int {
    c as u32 - 0x30
}

/// Whether `s` holds ASCII digits only.
pub open spec fn all_digits(s: Seq<char>) -> bool {
    forall|i: int| 0 <= i < s.len() ==> is_digit(#[trigger] s[i])
}

/// The number that the digits of `s` write in base ten.
pub open spec fn digits_value(s: Seq<char>) -> int
    decreases s.len(),
{
    if s.len() == 0 {
        0
    } else {
        digits_value(s.drop_last()) * 10 + digit_value(s.last())
    }
}

/// A longer digit string never writes a smaller number than its prefix.
pub proof fn lemma_digits_value_prefix(s: Seq<char>, k: int)
    requires
        all_digits(s),
        0 <= k <= s.len(),
    ensures
        0 <= digits_value(s.take(k)) <= digits_value(s),
    decreases s.len(),
{
    if s.len() == 0 {
        assert(s.take(k) =~= s);
    } else if k == s.len() {
        assert(s.take(k) =~= s);
        lemma_digits_value_prefix(s.drop_last(), k - 1);
    } else {
        assert(s.drop_last().take(k) =~= s.take(k));
        lemma_digits_value_prefix(s.drop_last(), k);
    }
}

/// The integer that `s` writes as an optional sign followed by at least
/// one digit, and nothing else.
pub open spec fn parse_decimal(s: Seq<char>) -> Option<int> {
    if s.len() == 0 {
        None
    } else {
        let signed = s[0] == '-' || s[0] == '+';
        let body = if signed {
            s.drop_first()
        } else {
            s
        };
        if body.len() == 0 || !all_digits(body) {
            None
        } else if s[0] == '-' {
            Some(-digits_value(body))
        } else {
            Some(digits_value(body))
        }
    }
}

/// What `s` parses to as an `i64`: its decimal value where that fits.
pub open spec fn parse_i64(s: Seq<char>) -> Option<i64> {
    match parse_decimal(s) {
        Some(v) => if i64::MIN <= v <= i64::MAX {
            Some(v as i64)
        } else {
            None
        },
        None => None,
    }
}

/// What `s` parses to as a `u8`: its decimal value where that fits; a
/// minus sign is not accepted.
pub open spec fn parse_u8(s: Seq<char>) -> Option<u8> {
    if s.len() > 0 && s[0] == '-' {
        None
    } else {
        match parse_decimal(s) {
            Some(v) => if v <= u8::MAX {
                Some(v as u8)
            } else {
                None
            },
            None => None,
        }
    }
}

/// The value of the digit string `s[from..]` where it is not empty, holds
/// digits only and is at most `limit`.
fn read_magnitude(s: &[char], from: usize, limit: u64) -> (out: Option<u64>)
    requires
        from <= s@.len(),
        9 <= limit <= 0x8000_0000_0000_0000,
    ensures
        match out {
            Some(m) => from < s@.len() && all_digits(s@.skip(from as int)) && m == digits_value(
                s@.skip(from as int),
            ) && m <= limit,
            None => !(from < s@.len() && all_digits(s@.skip(from as int)) && digits_value(
                s@.skip(from as int),
            ) <= limit),
        },
{
    let ghost body = s@.skip(from as int);
    if from >= s.len() {
        return None;
    }
    let mut acc: u64 = 0;
    let mut i: usize = from;
    while i < s.len()
        invariant
            from <= i <= s@.len(),
            body == s@.skip(from as int),
            all_digits(body.take(i - from)),
            acc == digits_value(body.take(i - from)),
            acc <= limit,
            9 <= limit <= 0x8000_0000_0000_0000,
        decreases s@.len() - i,
    {
        let u: u32 = s[i] as u32;
        if u < 0x30 || u > 0x39 {
            assert(!is_digit(body[i - from]));
            return None;
        }
        let d: u64 = (u - 0x30) as u64;
        proof {
            assert(body.take(i - from + 1).drop_last() =~= body.take(i - from));
            assert(body.take(i - from + 1).last() == s@[i as int]);
        }
        if acc > (limit - d) / 10 {
            proof {
                if all_digits(body) {
                    lemma_digits_value_prefix(body, i - from + 1);
                }
            }
            return None;
        }
        acc = acc * 10 + d;
        i += 1;
    }
    proof {
        assert(body.take(i - from) =~= body);
    }
    Some(acc)
}

/// Reads `s` as an `i64`.
pub fn read_i64(s: &[char]) -> (out: Option<i64>)
    ensures
        out == parse_i64(s@),
{
    if s.len() == 0 {
        return None;
    }
    let first: char = s[0];
    proof {
        assert(s@.skip(1) =~= s@.drop_first());
        assert(s@.skip(0) =~= s@);
    }
    if first == '-' {
        match read_magnitude(s, 1, 0x8000_0000_0000_0000) {
            Some(m) => {
                if m == 0x8000_0000_0000_0000 {
                    Some(i64::MIN)
                } else {
                    Some(-(m as i64))
                }
            },
            None => None,
        }
    } else {
        let from: usize = if first == '+' {
            1
        } else {
            0
        };
        match read_magnitude(s, from, 0x7fff_ffff_ffff_ffff) {
            Some(m) => Some(m as i64),
            None => None,
        }
    }
}

/// Reads `s` as a `u8`.
pub fn read_u8(s: &[char]) -> (out: Option<u8>)
    ensures
        out == parse_u8(s@),
{
    if s.len() == 0 {
        return None;
    }
    let first: char = s[0];
    proof {
        assert(s@.skip(1) =~= s@.drop_first());
        assert(s@.skip(0) =~= s@);
    }
    if first == '-' {
        return None;
    }
    let from: usize = if first == '+' {
        1
    } else {
        0
    };
    match read_magnitude(s, from, 255) {
        Some(m) => Some(m as u8),
        None => None,
    }
}

/// The ASCII digit that writes `d`.
pub open spec fn digit_char(d: int) -> char {
    if d == 0 {
        '0'
    } else if d == 1 {
        '1'
    } else if d == 2 {
        '2'
    } else if d == 3 {
        '3'
    } else if d == 4 {
        '4'
    } else if d == 5 {
        '5'
    } else if d == 6 {
        '6'
    } else if d == 7 {
        '7'
    } else if d == 8 {
        '8'
    } else {
        '9'
    }
}

/// The number `n` written in base ten, without a sign or leading zeros.
pub open spec fn decimal_text(n: nat) -> Seq<char>
    decreases n,
{
    if n < 10 {
        seq![digit_char(n as int)]
    } else {
        decimal_text(n / 10).push(digit_char((n % 10) as int))
    }
}

/// The text of a number consists of digits and writes that number.
pub proof fn lemma_decimal_text(n: nat)
    ensures
        decimal_text(n).len() > 0,
        all_digits(decimal_text(n)),
        digits_value(decimal_text(n)) == n,
    decreases n,
{
    if n < 10 {
        let s = decimal_text(n);
        assert(s.drop_last() =~= Seq::<char>::empty());
        assert(digits_value(s.drop_last()) == 0);
    } else {
        lemma_decimal_text(n / 10);
        let s = decimal_text(n);
        assert(s.drop_last() =~= decimal_text(n / 10));
    }
}

/// A number that fits in a `u8` is read back from its text.
pub proof fn lemma_parse_u8_decimal_text(a: u8)
    ensures
        parse_u8(decimal_text(a as nat)) == Some(a),
{
    lemma_decimal_text(a as nat);
}

/// A number that fits in an `i64` and is not negative is read back from
/// its text.
pub proof fn lemma_parse_i64_decimal_text(a: i64)
    requires
        a >= 0,
    ensures
        parse_i64(decimal_text(a as nat)) == Some(a),
{
    lemma_decimal_text(a as nat);
}

/// The ASCII digit that writes `d`, as a string.
fn digit_text(d: u8) -> (out: &'static str)
    requires
        d < 10,
    ensures
        out@ == seq![digit_char(d as int)],
{
    proof {
        reveal_strlit("0");
        reveal_strlit("1");
        reveal_strlit("2");
        reveal_strlit("3");
        reveal_strlit("4");
        reveal_strlit("5");
        reveal_strlit("6");
        reveal_strlit("7");
        reveal_strlit("8");
        reveal_strlit("9");
    }
    let out = if d == 0 {
        "0"
    } else if d == 1 {
        "1"
    } else if d == 2 {
        "2"
    } else if d == 3 {
        "3"
    } else if d == 4 {
        "4"
    } else if d == 5 {
        "5"
    } else if d == 6 {
        "6"
    } else if d == 7 {
        "7"
    } else if d == 8 {
        "8"
    } else {
        "9"
    };
    assert(out@ =~= seq![digit_char(d as int)]);
    out
}

/// Writes `n` in base ten.
pub fn number_to_string(n: u128) -> (out: String)
    ensures
        out@ == decimal_text(n as nat),
    decreases n,
{
    if n < 10 {
        digit_text(n as u8).to_owned()
    } else {
        number_to_string(n / 10).concat(digit_text((n % 10) as u8))
    }
}

/// Writes `x` in base ten.
pub fn u8_to_string(x: u8) -> (out: String)
    ensures
        out@ == decimal_text(x as nat),
{
    number_to_string(x as u128)
}

} // verus!
