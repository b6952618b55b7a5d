//! Small text routines that the rest of the library is built on: comparing
//! strings, writing and reading integers in decimal, and joining parts with
//! a separator.

use vstd::prelude::*;
use vstd::string::*;

verus! {

/// The character that stands for a decimal digit.
pub open spec fn digit(d: int) -> char {
    if d == 0 {
        '0'
    } else if d == 1 {
        '1'
    } else if d == 2 {
        '2'
    } else if d == 3 {
        '3'
    } else if d == 4 {
        '4'
    } else if d == 5 {
        '5'
    } else if d == 6 {
        '6'
    } else if d == 7 {
        '7'
    } else if d == 8 {
        '8'
    } else {
        '9'
    }
}

/// The decimal digits of a natural number, most significant first, without
/// leading zeros.
pub open spec fn digits(n: nat) -> Seq<char>
    decreases n,
{
    if n < 10 {
        seq![digit(n as int)]
    } else {
        digits(n / 10).push(digit((n % 10) as int))
    }
}

/// An integer written in decimal, with a leading `-` where it is negative.
pub open spec fn decimal(n: int) -> Seq<char> {
    if n < 0 {
        seq!['-'] + digits((-n) as nat)
    } else {
        digits(n as nat)
    }
}

/// The parts of a list written one after the other with `sep` between each
/// two of them.
pub open spec fn joined(parts: Seq<Seq<char>>, sep: Seq<char>) -> Seq<char>
    decreases parts.len(),
{
    if parts.len() == 0 {
        Seq::empty()
    } else if parts.len() == 1 {
        parts[0]
    } else {
        joined(parts.drop_last(), sep) + sep + parts.last()
    }
}

/// Whether two strings hold the same characters.
pub fn same_text(a: &str, b: &str) -> (same: bool)
    ensures
        same == (a@ == b@),
{
    let left = String::from_str(a);
    let right = String::from_str(b);
    left == right
}

fn digit_text(d: u64) -> (text: &'static str)
    requires
        d < 10,
    ensures
        text@ == seq![digit(d as int)],
{
    proof {
        reveal_strlit("0");
        reveal_strlit("1");
        reveal_strlit("2");
        reveal_strlit("3");
        reveal_strlit("4");
        reveal_strlit("5");
        reveal_strlit("6");
        reveal_strlit("7");
        reveal_strlit("8");
        reveal_strlit("9");
    }
    let text = match d {
        0 => "0",
        1 => "1",
        2 => "2",
        3 => "3",
        4 => "4",
        5 => "5",
        6 => "6",
        7 => "7",
        8 => "8",
        _ => "9",
    };
    assert(text@ =~= seq![digit(d as int)]);
    text
}

/// Writes a natural number in decimal.
pub fn natural_text(n: u64) -> (text: String)
    ensures
        text@ == digits(n as nat),
    decreases n,
{
    if n < 10 {
        String::from_str(digit_text(n))
    } else {
        let mut text = natural_text(n / 10);
        text.append(digit_text(n % 10));
        assert(text@ =~= digits(n as nat));
        text
    }
}

/// Writes an integer in decimal.
pub fn integer_text(n: i64) -> (text: String)
    ensures
        text@ == decimal(n as int),
{
    if n < 0 {
        let magnitude: u64 = (-(n + 1)) as u64 + 1;
        let mut text = String::from_str("-");
        let rest = natural_text(magnitude);
        text.append(rest.as_str());
        proof {
            reveal_strlit("-");
            assert(text@ =~= decimal(n as int));
        }
        text
    } else {
        natural_text(n as u64)
    }
}

/// Joins the parts of a list with a separator.
pub fn join(parts: &Vec<String>, sep: &str) -> (text: String)
    ensures
        text@ == joined(parts@.map_values(|part: String| part@), sep@),
{
    let ghost views = parts@.map_values(|part: String| part@);
    let mut text = String::new();
    let mut i: usize = 0;
    while i < parts.len()
        invariant
            i <= parts.len(),
            views == parts@.map_values(|part: String| part@),
            text@ == joined(views.take(i as int), sep@),
        decreases parts.len() - i,
    {
        proof {
            assert(views.take(i as int + 1).drop_last() =~= views.take(i as int));
            assert(views.take(i as int + 1).last() == parts@[i as int]@);
        }
        if i > 0 {
            text.append(sep);
        }
        text.append(parts[i].as_str());
        proof {
            if i == 0 {
                assert(text@ =~= parts@[0]@);
            }
        }
        i = i + 1;
    }
    proof {
        assert(views.take(parts.len() as int) =~= views);
    }
    text
}

/// The value of a decimal digit.
pub open spec fn digit_value(c: char) -> Option<int> {
    if c == '0' {
        Some(0)
    } else if c == '1' {
        Some(1)
    } else if c == '2' {
        Some(2)
    } else if c == '3' {
        Some(3)
    } else if c == '4' {
        Some(4)
    } else if c == '5' {
        Some(5)
    } else if c == '6' {
        Some(6)
    } else if c == '7' {
        Some(7)
    } else if c == '8' {
        Some(8)
    } else if c == '9' {
        Some(9)
    } else {
        None
    }
}

/// The number that a run of decimal digits stands for. An empty run, or one
/// that holds anything but digits, stands for none.
pub open spec fn digits_value(digits: Seq<char>) -> Option<int>
    decreases digits.len(),
{
    if digits.len() == 0 {
        None
    } else {
        match digit_value(digits.last()) {
            None => None,
            Some(d) => if digits.len() == 1 {
                Some(d)
            } else {
                match digits_value(digits.drop_last()) {
                    Some(v) => Some(v * 10 + d),
                    None => None,
                }
            },
        }
    }
}

/// The integer that a text stands for: digits, with `-` or `+` before them
/// or without a sign.
pub open spec fn decimal_value(text: Seq<char>) -> Option<int> {
    if text.len() > 0 && text[0] == '-' {
        match digits_value(text.drop_first()) {
            Some(v) => Some(-v),
            None => None,
        }
    } else if text.len() > 0 && text[0] == '+' {
        digits_value(text.drop_first())
    } else {
        digits_value(text)
    }
}

/// A run of digits stands for a number only if each of its beginnings does,
/// and no beginning stands for a larger number than the whole.
pub proof fn lemma_digits_prefix(digits: Seq<char>, k: int)
    requires
        1 <= k <= digits.len(),
        digits_value(digits) is Some,
    ensures
        digits_value(digits.take(k)) is Some,
        0 <= digits_value(digits.take(k))->0 <= digits_value(digits)->0,
    decreases digits.len() - k,
{
    if k == digits.len() {
        assert(digits.take(k) =~= digits);
        lemma_digits_nonnegative(digits);
    } else {
        assert(digits.drop_last().take(k) =~= digits.take(k));
        lemma_digits_prefix(digits.drop_last(), k);
        lemma_digits_nonnegative(digits.drop_last());
    }
}

pub proof fn lemma_digits_nonnegative(digits: Seq<char>)
    requires
        digits_value(digits) is Some,
    ensures
        digits_value(digits)->0 >= 0,
    decreases digits.len(),
{
    if digits.len() > 1 {
        lemma_digits_nonnegative(digits.drop_last());
    }
}

fn digit_of(c: char) -> (d: Option<u64>)
    ensures
        d is Some <==> digit_value(c) is Some,
        d matches Some(v) ==> digit_value(c) == Some(v as int),
{
    match c {
        '0' => Some(0),
        '1' => Some(1),
        '2' => Some(2),
        '3' => Some(3),
        '4' => Some(4),
        '5' => Some(5),
        '6' => Some(6),
        '7' => Some(7),
        '8' => Some(8),
        '9' => Some(9),
        _ => None,
    }
}

/// The digits of a number stand for that number.
pub proof fn lemma_digits_round_trip(n: nat)
    ensures
        digits(n).len() >= 1,
        digits_value(digits(n)) == Some(n as int),
        digit_value(digits(n)[0]) is Some,
    decreases n,
{
    if n >= 10 {
        lemma_digits_round_trip(n / 10);
        assert(digits(n).drop_last() =~= digits(n / 10));
        assert(digits(n)[0] == digits(n / 10)[0]);
    }
}

/// A number written in decimal is read back as the same number.
pub proof fn lemma_decimal_round_trip(n: int)
    ensures
        decimal_value(decimal(n)) == Some(n),
{
    if n < 0 {
        lemma_digits_round_trip((-n) as nat);
        assert(decimal(n).drop_first() =~= digits((-n) as nat));
    } else {
        lemma_digits_round_trip(n as nat);
    }
}

/// Reads the digits of a text from a position on. The result is the number
/// they stand for, where the digits are at least one, nothing but digits, and
/// the number is not above `limit`.
pub(crate) fn read_digits(text: &str, start: usize, limit: u64) -> (value: Option<u64>)
    requires
        limit <= 0xffff_ffff_ffff,
        start <= text@.len(),
    ensures
        value == match digits_value(text@.skip(start as int)) {
            Some(v) => if v <= limit {
                Some(v as u64)
            } else {
                None
            },
            None => None,
        },
        value matches Some(v) ==> v <= limit,
{
    let n = text.unicode_len();
    if start >= n {
        assert(text@.skip(start as int).len() == 0);
        return None;
    }
    let ghost all = text@.skip(start as int);
    let mut value: u64 = 0;
    let mut i: usize = start;
    while i < n
        invariant
            start <= i <= n,
            start < n,
            n == text@.len(),
            all == text@.skip(start as int),
            i > start ==> digits_value(all.take(i - start)) == Some(value as int),
            i == start ==> value == 0,
            value <= limit <= 0xffff_ffff_ffff,
        decreases n - i,
    {
        let ghost seen = all.take(i - start + 1);
        proof {
            assert(seen.drop_last() =~= all.take(i - start));
            assert(seen.last() == text@[i as int]);
        }
        let d = match digit_of(text.get_char(i)) {
            Some(d) => d,
            None => {
                proof {
                    if digits_value(all) is Some {
                        lemma_digits_prefix(all, i - start + 1);
                    }
                }
                return None;
            },
        };
        value = value * 10 + d;
        if value > limit {
            proof {
                if digits_value(all) is Some {
                    lemma_digits_prefix(all, i - start + 1);
                }
            }
            return None;
        }
        i = i + 1;
    }
    proof {
        assert(all.take(n - start) =~= all);
    }
    Some(value)
}

/// The natural number that a text stands for as a `u32` reads it: digits,
/// with `+` before them or without a sign, and a number that fits.
pub open spec fn unsigned_value(text: Seq<char>) -> Option<u32> {
    if text.len() > 0 && text[0] == '-' {
        None
    } else {
        match decimal_value(text) {
            Some(v) => if 0 <= v <= u32::MAX {
                Some(v as u32)
            } else {
                None
            },
            None => None,
        }
    }
}

/// Reads a natural number that fits a `u32`.
pub fn parse_u32(text: &str) -> (value: Option<u32>)
    ensures
        value == unsigned_value(text@),
{
    let n = text.unicode_len();
    if n == 0 {
        return None;
    }
    let first = text.get_char(0);
    if first == '-' {
        return None;
    }
    let start: usize = if first == '+' {
        1
    } else {
        0
    };
    proof {
        if start == 1 {
            assert(text@.skip(1) =~= text@.drop_first());
        } else {
            assert(text@.skip(0) =~= text@);
        }
        if digits_value(text@.skip(start as int)) is Some {
            lemma_digits_nonnegative(text@.skip(start as int));
        }
    }
    match read_digits(text, start, 4294967295) {
        Some(value) => Some(value as u32),
        None => None,
    }
}

} // verus!
