//! Small verified text helpers shared by the record-format parsers: string
//! equality, decimal rendering, and decimal parsing.

use vstd::prelude::*;

verus! {

/// Whether two string slices hold the same characters.
pub fn str_eq(a: &str, b: &str) -> (r: bool)
    ensures
        r == (a@ == b@),
{
    let owned_a = String::from_str(a);
    let owned_b = String::from_str(b);
    owned_a == owned_b
}

/// The decimal digit character for `d`.
pub open spec fn digit_char(d: int) -> char {
    if d == 0 {
        '0'
    } else if d == 1 {
        '1'
    } else if d == 2 {
        '2'
    } else if d == 3 {
        '3'
    } else if d == 4 {
        '4'
    } else if d == 5 {
        '5'
    } else if d == 6 {
        '6'
    } else if d == 7 {
        '7'
    } else if d == 8 {
        '8'
    } else {
        '9'
    }
}

/// The value of a decimal digit character, or 10 for any other character.
pub open spec fn char_digit(c: char) -> int {
    if c == '0' {
        0
    } else if c == '1' {
        1
    } else if c == '2' {
        2
    } else if c == '3' {
        3
    } else if c == '4' {
        4
    } else if c == '5' {
        5
    } else if c == '6' {
        6
    } else if c == '7' {
        7
    } else if c == '8' {
        8
    } else if c == '9' {
        9
    } else {
        10
    }
}

/// The decimal rendering of a non-negative integer, most significant digit
/// first, with no leading zeros.
pub open spec fn spec_decimal(v: int) -> Seq<char>
    decreases v,
{
    if v < 10 {
        seq![digit_char(v)]
    } else {
        spec_decimal(v / 10).push(digit_char(v % 10))
    }
}

/// The decimal rendering of an integer: a leading minus sign when negative.
pub open spec fn spec_decimal_signed(v: int) -> Seq<char> {
    if v < 0 {
        seq!['-'] + spec_decimal(-v)
    } else {
        spec_decimal(v)
    }
}

/// One decimal digit as a string.
fn digit_string(d: u32) -> (r: String)
    requires
        d < 10,
    ensures
        r@ == seq![digit_char(d as int)],
{
    let r = match d {
        0 => String::from_str("0"),
        1 => String::from_str("1"),
        2 => String::from_str("2"),
        3 => String::from_str("3"),
        4 => String::from_str("4"),
        5 => String::from_str("5"),
        6 => String::from_str("6"),
        7 => String::from_str("7"),
        8 => String::from_str("8"),
        _ => String::from_str("9"),
    };
    proof {
        reveal_strlit("0");
        reveal_strlit("1");
        reveal_strlit("2");
        reveal_strlit("3");
        reveal_strlit("4");
        reveal_strlit("5");
        reveal_strlit("6");
        reveal_strlit("7");
        reveal_strlit("8");
        reveal_strlit("9");
        assert(r@ =~= seq![digit_char(d as int)]);
    }
    r
}

/// Renders `v` in decimal.
pub fn u32_to_string(v: u32) -> (r: String)
    ensures
        r@ == spec_decimal(v as int),
    decreases v,
{
    if v < 10 {
        digit_string(v)
    } else {
        let high = u32_to_string(v / 10);
        let low = digit_string(v % 10);
        let r = high.concat(low.as_str());
        proof {
            assert(r@ =~= spec_decimal(v as int));
        }
        r
    }
}

/// Renders `v` in decimal, with a leading minus sign when negative.
pub fn i32_to_string(v: i32) -> (r: String)
    ensures
        r@ == spec_decimal_signed(v as int),
{
    if v >= 0 {
        u32_to_string(v as u32)
    } else {
        let magnitude: u32 = if v == i32::MIN {
            0x8000_0000u32
        } else {
            (-v) as u32
        };
        let digits = u32_to_string(magnitude);
        let r = String::from_str("-").concat(digits.as_str());
        proof {
            reveal_strlit("-");
            assert("-"@ =~= seq!['-']);
            assert(r@ =~= spec_decimal_signed(v as int));
        }
        r
    }
}

/// The value of a run of decimal digit characters, most significant first.
pub open spec fn spec_digits_value(s: Seq<char>) -> int
    decreases s.len(),
{
    if s.len() == 0 {
        0
    } else {
        spec_digits_value(s.drop_last()) * 10 + char_digit(s.last())
    }
}

/// Whether every character of `s` is a decimal digit.
pub open spec fn all_digits(s: Seq<char>) -> bool {
    forall|i: int| 0 <= i < s.len() ==> char_digit(#[trigger] s[i]) < 10
}

/// What parsing `s` as a signed 32-bit decimal integer yields: the digits'
/// value with an optional leading minus sign, or nothing when `s` is empty,
/// holds a non-digit, or lies outside the 32-bit range.
pub open spec fn spec_parse_i32(s: Seq<char>) -> Option<i32> {
    let digits = if s.len() > 0 && s[0] == '-' {
        s.skip(1)
    } else {
        s
    };
    let negative = s.len() > 0 && s[0] == '-';
    if digits.len() == 0 || !all_digits(digits) {
        None
    } else {
        let magnitude = spec_digits_value(digits);
        let value = if negative {
            -magnitude
        } else {
            magnitude
        };
        if i32::MIN <= value <= i32::MAX {
            Some(value as i32)
        } else {
            None
        }
    }
}

proof fn lemma_digits_value_nonneg(s: Seq<char>)
    requires
        all_digits(s),
    ensures
        spec_digits_value(s) >= 0,
    decreases s.len(),
{
    if s.len() > 0 {
        assert(all_digits(s.drop_last())) by {
            assert(forall|i: int|
                0 <= i < s.len() - 1 ==> #[trigger] s.drop_last()[i] == s[i]);
        }
        lemma_digits_value_nonneg(s.drop_last());
    }
}

proof fn lemma_digits_value_prefix(s: Seq<char>, i: int)
    requires
        all_digits(s),
        0 <= i <= s.len(),
    ensures
        spec_digits_value(s.take(i)) <= spec_digits_value(s),
    decreases s.len() - i,
{
    if i < s.len() {
        lemma_digits_value_prefix(s, i + 1);
        assert(s.take(i + 1).drop_last() =~= s.take(i));
        assert(s.take(i + 1).last() == s[i]);
        assert(all_digits(s.take(i))) by {
            assert(forall|j: int| 0 <= j < i ==> #[trigger] s.take(i)[j] == s[j]);
        }
        lemma_digits_value_nonneg(s.take(i));
    } else {
        assert(s.take(i) =~= s);
    }
}

/// The value of the decimal digit character at `s[i]`, or 10.
fn char_digit_at(s: &str, i: usize) -> (r: u32)
    requires
        i < s@.len(),
    ensures
        r == char_digit(s@[i as int]),
        r <= 10,
{
    let c = s.get_char(i);
    if c == '0' {
        0
    } else if c == '1' {
        1
    } else if c == '2' {
        2
    } else if c == '3' {
        3
    } else if c == '4' {
        4
    } else if c == '5' {
        5
    } else if c == '6' {
        6
    } else if c == '7' {
        7
    } else if c == '8' {
        8
    } else if c == '9' {
        9
    } else {
        10
    }
}

/// Parses `s` as a signed 32-bit decimal integer.
pub fn parse_i32(s: &str) -> (r: Option<i32>)
    ensures
        r == spec_parse_i32(s@),
{
    let n = s.unicode_len();
    let negative = n > 0 && s.get_char(0) == '-';
    let start: usize = if negative {
        1
    } else {
        0
    };
    let ghost digits: Seq<char> = if negative {
        s@.skip(1)
    } else {
        s@
    };
    proof {
        assert(digits.len() == n - start);
    }
    if n == start {
        return None;
    }
    let mut acc: u64 = 0;
    let mut i: usize = start;
    while i < n
        invariant
            start <= i <= n,
            n == s@.len(),
            negative == (s@.len() > 0 && s@[0] == '-'),
            digits == if negative {
                s@.skip(1)
            } else {
                s@
            },
            digits.len() == n - start,
            start == if negative {
                1int
            } else {
                0int
            },
            all_digits(digits.take(i - start)),
            acc == spec_digits_value(digits.take(i - start)),
            acc <= 0x8000_0000u64,
        decreases n - i,
    {
        let d = char_digit_at(s, i);
        proof {
            assert(digits[i - start] == s@[i as int]);
        }
        if d >= 10 {
            proof {
                assert(!all_digits(digits)) by {
                    assert(char_digit(digits[i - start]) >= 10);
                }
            }
            return None;
        }
        proof {
            assert(digits.take(i + 1 - start).drop_last() =~= digits.take(i - start));
            assert(digits.take(i + 1 - start).last() == digits[i - start]);
            assert(forall|j: int|
                0 <= j < i + 1 - start ==> #[trigger] digits.take(i + 1 - start)[j] == digits[j]);
        }
        acc = acc * 10 + d as u64;
        i += 1;
        if acc > 0x8000_0000u64 {
            proof {
                lemma_digits_value_prefix_overflow(digits, i - start, acc as int);
            }
            return None;
        }
    }
    proof {
        assert(digits.take(n - start) =~= digits);
    }
    if negative {
        if acc == 0x8000_0000u64 {
            Some(i32::MIN)
        } else {
            Some(-(acc as i32))
        }
    } else {
        if acc > 0x7fff_ffffu64 {
            None
        } else {
            Some(acc as i32)
        }
    }
}

/// The index of the first occurrence of `c` in `s`, or -1.
pub open spec fn find_char(s: Seq<char>, c: char) -> int
    decreases s.len(),
{
    if s.len() == 0 {
        -1
    } else if s[0] == c {
        0
    } else {
        let k = find_char(s.skip(1), c);
        if k == -1 {
            -1
        } else {
            k + 1
        }
    }
}

/// `find_char` names the first occurrence, when there is one.
pub proof fn lemma_find_char(s: Seq<char>, c: char)
    ensures
        find_char(s, c) == -1 ==> forall|j: int| 0 <= j < s.len() ==> s[j] != c,
        find_char(s, c) != -1 ==> 0 <= find_char(s, c) < s.len() && s[find_char(s, c)] == c
            && forall|j: int| 0 <= j < find_char(s, c) ==> s[j] != c,
    decreases s.len(),
{
    if s.len() > 0 && s[0] != c {
        lemma_find_char(s.skip(1), c);
        assert(forall|j: int| 1 <= j < s.len() ==> #[trigger] s[j] == s.skip(1)[j - 1]);
    }
}

/// `s` split at every occurrence of `sep`: the separators are dropped, and
/// empty pieces are kept, so the result holds one piece more than `s` holds
/// separators.
pub open spec fn spec_split(s: Seq<char>, sep: char) -> Seq<Seq<char>>
    decreases s.len(),
    via spec_split_decreases
{
    let k = find_char(s, sep);
    if k == -1 {
        seq![s]
    } else {
        seq![s.take(k)] + spec_split(s.skip(k + 1), sep)
    }
}

#[via_fn]
proof fn spec_split_decreases(s: Seq<char>, sep: char) {
    lemma_find_char(s, sep);
}

/// The views of a sequence of owned strings.
pub open spec fn strs_view(v: Seq<String>) -> Seq<Seq<char>> {
    v.map_values(|x: String| x@)
}

/// The views of a sequence of owned key–value pairs.
pub open spec fn pairs_view(v: Seq<(String, String)>) -> Seq<(Seq<char>, Seq<char>)> {
    v.map_values(|p: (String, String)| (p.0@, p.1@))
}

/// The index of the last pair of `raw` whose key reads `key`, or -1.
pub open spec fn last_key_index(raw: Seq<(Seq<char>, Seq<char>)>, key: Seq<char>) -> int
    decreases raw.len(),
{
    if raw.len() == 0 {
        -1
    } else if raw.last().0 == key {
        raw.len() - 1
    } else {
        last_key_index(raw.drop_last(), key)
    }
}

/// `last_key_index` names the last pair with the key, when there is one.
pub proof fn lemma_last_key_index(raw: Seq<(Seq<char>, Seq<char>)>, key: Seq<char>)
    ensures
        last_key_index(raw, key) == -1 ==> forall|j: int|
            0 <= j < raw.len() ==> (#[trigger] raw[j]).0 != key,
        last_key_index(raw, key) != -1 ==> 0 <= last_key_index(raw, key) < raw.len() && raw[
            last_key_index(raw, key)
        ].0 == key,
    decreases raw.len(),
{
    if raw.len() > 0 && raw.last().0 != key {
        lemma_last_key_index(raw.drop_last(), key);
        assert(forall|j: int| 0 <= j < raw.len() - 1 ==> #[trigger] raw[j] == raw.drop_last()[j]);
    }
}

/// Splits `s` at every occurrence of `sep`.
#[verifier::loop_isolation(false)]
pub fn split_str(s: &str, sep: char) -> (r: Vec<String>)
    ensures
        strs_view(r@) == spec_split(s@, sep),
    decreases s@.len(),
{
    let n = s.unicode_len();
    let mut i: usize = 0;
    while i < n
        invariant
            0 <= i <= n,
            n == s@.len(),
            forall|j: int| 0 <= j < i ==> s@[j] != sep,
        decreases n - i,
    {
        if s.get_char(i) == sep {
            proof {
                lemma_find_char(s@, sep);
            }
            let head = s.substring_char(0, i);
            let tail = s.substring_char(i + 1, n);
            let mut r: Vec<String> = Vec::new();
            r.push(String::from_str(head));
            let mut rest = split_str(tail, sep);
            r.append(&mut rest);
            proof {
                assert(strs_view(r@) =~= seq![s@.take(i as int)] + spec_split(
                    s@.skip(i + 1),
                    sep,
                ));
            }
            return r;
        }
        i += 1;
    }
    proof {
        lemma_find_char(s@, sep);
    }
    let mut r: Vec<String> = Vec::new();
    r.push(String::from_str(s));
    proof {
        assert(strs_view(r@) =~= seq![s@]);
    }
    r
}

/// Once a digit prefix's value exceeds the 32-bit range, the whole run's
/// value does too, whatever digits follow.
proof fn lemma_digits_value_prefix_overflow(digits: Seq<char>, i: int, acc: int)
    requires
        0 <= i <= digits.len(),
        all_digits(digits.take(i)),
        spec_digits_value(digits.take(i)) == acc,
        acc > 0x8000_0000,
    ensures
        !all_digits(digits) || spec_digits_value(digits) > 0x8000_0000,
{
    if all_digits(digits) {
        lemma_digits_value_prefix(digits, i);
    }
}

} // verus!
