//! Decimal numbers as text, and the search by regular expression that the
//! text forms of tiles, metatiles and bounding boxes are matched with.

use vstd::prelude::*;
use vstd::string::{StrSliceExecFns, StringExecFns};

verus! {

/// Whether `c` is one of the ten decimal digits.
pub open spec fn is_digit(c: char) -> bool {
    '0' <= c && c <= '9'
}

/// The number a decimal digit stands for.
pub open spec fn digit_value(c: char) -> nat {
    (c as u32 - '0' as u32) as nat
}

/// The character of a digit below ten.
pub open spec fn digit_char(d: nat) -> char {
    ('0' as u32 + d as u32) as char
}

/// Whether `s` is a decimal number: at least one character, all digits.
pub open spec fn is_decimal(s: Seq<char>) -> bool {
    s.len() > 0 && forall|i: int| 0 <= i < s.len() ==> is_digit(#[trigger] s[i])
}

/// The number that a string of digits writes, leading zeros allowed.
pub open spec fn decimal_value(s: Seq<char>) -> nat
    decreases s.len(),
{
    if s.len() == 0 {
        0
    } else {
        10 * decimal_value(s.drop_last()) + digit_value(s.last())
    }
}

/// What parsing `s` as a 64-bit decimal number gives.
pub open spec fn decimal_number(s: Seq<char>) -> Option<u64> {
    if is_decimal(s) && decimal_value(s) <= u64::MAX {
        Some(decimal_value(s) as u64)
    } else {
        None
    }
}

/// The decimal digits of `n`, without leading zeros.
pub open spec fn decimal_digits(n: nat) -> Seq<char>
    decreases n,
{
    if n < 10 {
        seq![digit_char(n)]
    } else {
        decimal_digits(n / 10).push(digit_char(n % 10))
    }
}

/// The decimal digits of `n`, with zeros in front up to `width` characters.
pub open spec fn zero_padded(n: nat, width: nat) -> Seq<char> {
    let digits = decimal_digits(n);
    if digits.len() >= width {
        digits
    } else {
        Seq::new((width - digits.len()) as nat, |i: int| '0') + digits
    }
}

/// A number written by a prefix of a digit string is at most the number
/// written by the whole string.
pub proof fn lemma_decimal_prefix(s: Seq<char>, i: int)
    requires
        0 <= i <= s.len(),
    ensures
        decimal_value(s.take(i)) <= decimal_value(s),
    decreases s.len(),
{
    if i == s.len() {
        assert(s.take(i) =~= s);
    } else {
        lemma_decimal_prefix(s.drop_last(), i);
        assert(s.drop_last().take(i) =~= s.take(i));
    }
}

/// Reading back the digits of a number gives the number.
pub proof fn lemma_decimal_digits_value(n: nat)
    ensures
        is_decimal(decimal_digits(n)),
        decimal_value(decimal_digits(n)) == n,
    decreases n,
{
    if n < 10 {
        let s = decimal_digits(n);
        assert(decimal_value(s.drop_last()) == 0);
    } else {
        lemma_decimal_digits_value(n / 10);
        let s = decimal_digits(n);
        assert(s.drop_last() =~= decimal_digits(n / 10));
    }
}

/// Parses a string of decimal digits. Nothing comes back where the string is
/// empty, holds another character, or writes a number beyond 64 bits.
pub fn parse_decimal(s: &str) -> (r: Option<u64>)
    ensures
        r == decimal_number(s@),
{
    let n: usize = s.unicode_len();
    if n == 0 {
        return None;
    }
    let mut acc: u64 = 0;
    let mut i: usize = 0;
    while i < n
        invariant
            i <= n,
            n == s@.len(),
            forall|k: int| 0 <= k < i ==> is_digit(#[trigger] s@[k]),
            acc as nat == decimal_value(s@.take(i as int)),
        decreases n - i,
    {
        let c: char = s.get_char(i);
        if !(c >= '0' && c <= '9') {
            return None;
        }
        let d: u64 = (c as u32 - '0' as u32) as u64;
        proof {
            let next = s@.take(i + 1);
            assert(next.drop_last() =~= s@.take(i as int));
            lemma_decimal_prefix(s@, i + 1);
        }
        if acc > (u64::MAX - d) / 10 {
            return None;
        }
        acc = acc * 10 + d;
        i = i + 1;
    }
    proof {
        assert(s@.take(n as int) =~= s@);
    }
    Some(acc)
}

/// The characters that digits stand for, the last digit first.
pub open spec fn reversed_digit_chars(digits: Seq<u32>) -> Seq<char> {
    Seq::new(digits.len(), |i: int| digit_char(digits[digits.len() - 1 - i] as nat))
}

/// The text of one decimal digit.
fn digit_str(d: u32) -> (s: &'static str)
    requires
        d < 10,
    ensures
        s@ == seq![digit_char(d as nat)],
{
    proof {
        reveal_strlit("0");
        reveal_strlit("1");
        reveal_strlit("2");
        reveal_strlit("3");
        reveal_strlit("4");
        reveal_strlit("5");
        reveal_strlit("6");
        reveal_strlit("7");
        reveal_strlit("8");
        reveal_strlit("9");
    }
    let s = match d {
        0 => "0",
        1 => "1",
        2 => "2",
        3 => "3",
        4 => "4",
        5 => "5",
        6 => "6",
        7 => "7",
        8 => "8",
        _ => "9",
    };
    s
}

/// The digits of `n`, the last digit first.
fn digits_of(n: u32) -> (digits: Vec<u32>)
    ensures
        digits@.len() >= 1,
        forall|i: int| 0 <= i < digits@.len() ==> digits@[i] < 10,
        reversed_digit_chars(digits@) == decimal_digits(n as nat),
{
    let mut digits: Vec<u32> = Vec::new();
    let mut rest: u32 = n;
    while rest >= 10
        invariant
            forall|i: int| 0 <= i < digits@.len() ==> digits@[i] < 10,
            decimal_digits(rest as nat) + reversed_digit_chars(digits@) == decimal_digits(n as nat),
        decreases rest,
    {
        digits.push(rest % 10);
        rest = rest / 10;
    }
    digits.push(rest);
    digits
}

/// The decimal digits of `n`, zero-padded to at least `width` characters.
pub fn decimal_string(n: u32, width: usize) -> (s: String)
    ensures
        s@ == zero_padded(n as nat, width as nat),
{
    let digits = digits_of(n);
    let count: usize = digits.len();
    let mut out = String::new();
    let mut filled: usize = count;
    while filled < width
        invariant
            count <= filled,
            filled <= width || filled == count,
            out@ == Seq::new((filled - count) as nat, |i: int| '0'),
        decreases width - filled,
    {
        proof {
            reveal_strlit("0");
        }
        out.append("0");
        filled = filled + 1;
    }
    let ghost padding = out@;
    let mut left: usize = count;
    while left > 0
        invariant
            left <= count,
            count == digits@.len(),
            forall|i: int| 0 <= i < digits@.len() ==> digits@[i] < 10,
            out@ == padding + reversed_digit_chars(digits@).take(count - left),
        decreases left,
    {
        left = left - 1;
        out.append(digit_str(digits[left]));
    }
    out
}

/// What the regex engine captures when the regular expression `pattern` is
/// searched for in `text`: nothing where the pattern is not a regular
/// expression or matches nowhere, else the leftmost match's capture groups
/// by number, group 0 being the match itself, each absent where the group
/// took no part.
pub uninterp spec fn regex_captures(pattern: Seq<char>, text: Seq<char>) -> Option<
    Seq<Option<Seq<char>>>,
>;

/// Searches `text` for the regular expression `pattern` and hands back the
/// capture groups of the leftmost match as owned strings.
///
/// The work is `regex::Regex::new` followed by `regex::Regex::captures`;
/// the groups are read with `regex::Captures::iter` and
/// `regex::Match::as_str`. The contract only names the outcome: it is what
/// the engine gives for this pattern and this text.
#[verifier::external_body]
pub(crate) fn captures(pattern: &str, text: &str) -> (r: Option<Vec<Option<String>>>)
    ensures
        r.deep_view() == regex_captures(pattern@, text@),
{
    match regex::Regex::new(pattern) {
        Err(_) => None,
        Ok(re) => re.captures(text).map(
            |found| found.iter().map(|group| group.map(|m| m.as_str().to_string())).collect(),
        ),
    }
}

/// The number that capture group `i` writes, where the group took part in
/// the match and is a decimal number within 64 bits.
pub open spec fn group_number(groups: Seq<Option<Seq<char>>>, i: int) -> Option<u64> {
    if 0 <= i < groups.len() && groups[i] is Some {
        decimal_number(groups[i].unwrap())
    } else {
        None
    }
}

/// Reads capture group `i` as a decimal number.
pub fn group_value(groups: &Vec<Option<String>>, i: usize) -> (r: Option<u64>)
    ensures
        r == group_number(groups.deep_view(), i as int),
{
    if i >= groups.len() {
        return None;
    }
    match &groups[i] {
        None => None,
        Some(s) => parse_decimal(s.as_str()),
    }
}

} // verus!
