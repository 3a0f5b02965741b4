//! Unsigned decimal numbers as text: how they are read and how they are written.

use vstd::prelude::*;

verus! {

/// Whether `c` is one of the ten ASCII digits.
pub open spec fn is_digit(c: char) -> bool {
    '0' <= c && c <= '9'
}

/// The number that an ASCII digit stands for.
pub open spec fn digit_value(c: char) -> nat {
    (c as int - '0' as int) as nat
}

/// The ASCII digit that stands for `d`.
pub open spec fn digit_char(d: nat) -> char {
    if d == 0 {
        '0'
    } else if d == 1 {
        '1'
    } else if d == 2 {
        '2'
    } else if d == 3 {
        '3'
    } else if d == 4 {
        '4'
    } else if d == 5 {
        '5'
    } else if d == 6 {
        '6'
    } else if d == 7 {
        '7'
    } else if d == 8 {
        '8'
    } else {
        '9'
    }
}

/// Whether every character of `s` is a digit.
pub open spec fn all_digits(s: Seq<char>) -> bool {
    forall|i: int| 0 <= i < s.len() ==> is_digit(#[trigger] s[i])
}

/// The number that a string of digits stands for, most significant digit first.
pub open spec fn digits_value(s: Seq<char>) -> nat
    decreases s.len(),
{
    if s.len() == 0 {
        0
    } else {
        digits_value(s.drop_last()) * 10 + digit_value(s.last())
    }
}

/// What is left of `s` behind one leading plus sign, if it has one.
pub open spec fn unsigned_part(s: Seq<char>) -> Seq<char> {
    if s.len() > 0 && s[0] == '+' {
        s.drop_first()
    } else {
        s
    }
}

/// The number that `s` denotes: an optional plus sign and then at least one
/// digit, with a value of at most `max`. Any other text denotes none.
pub open spec fn parsed(s: Seq<char>, max: nat) -> Option<nat> {
    let digits = unsigned_part(s);
    if digits.len() > 0 && all_digits(digits) && digits_value(digits) <= max {
        Some(digits_value(digits))
    } else {
        None
    }
}

/// `n` in decimal, without leading zeros.
pub open spec fn decimal(n: nat) -> Seq<char>
    decreases n,
{
    if n < 10 {
        seq![digit_char(n)]
    } else {
        decimal(n / 10).push(digit_char(n % 10))
    }
}

/// `count` zeros.
pub open spec fn zeros(count: nat) -> Seq<char> {
    Seq::new(count, |i: int| '0')
}

/// `n` in decimal, with as many leading zeros as it takes to reach `width`
/// characters. A number that is wider already is not cut.
pub open spec fn zero_padded(n: nat, width: nat) -> Seq<char> {
    let text = decimal(n);
    if text.len() < width {
        zeros((width - text.len()) as nat) + text
    } else {
        text
    }
}

/// A string of digits stands for no less than any of its prefixes.
proof fn lemma_prefix_value(s: Seq<char>, n: int)
    requires
        0 <= n <= s.len(),
    ensures
        digits_value(s.take(n)) <= digits_value(s),
    decreases s.len(),
{
    if n == s.len() {
        assert(s.take(n) =~= s);
    } else {
        assert(s.drop_last().take(n) =~= s.take(n));
        lemma_prefix_value(s.drop_last(), n);
    }
}

/// Reads an unsigned decimal number of at most `max`.
pub fn parse_up_to(text: &str, max: u64) -> (r: Option<u64>)
    ensures
        match parsed(text@, max as nat) {
            Some(n) => r == Some(n as u64) && n <= max,
            None => r is None,
        },
{
    let ghost digits = unsigned_part(text@);
    let mut value: u64 = 0;
    let mut seen: usize = 0;
    let mut first: bool = true;
    let ghost mut done: int = 0;
    for c in it: text.chars()
        invariant
            it.seq() == text@,
            digits == unsigned_part(text@),
            first == (it.index() == 0),
            done == it.index() - (text@.len() - digits.len()) || (first && done == 0),
            0 <= done <= digits.len(),
            all_digits(digits.take(done)),
            value == digits_value(digits.take(done)),
            value <= max,
            seen == 0 <==> done == 0,
    {
        if first && c == '+' {
            first = false;
        } else {
            first = false;
            assert(digits[done] == c);
            if c < '0' || c > '9' {
                assert(!is_digit(digits[done]));
                return None;
            }
            let d: u64 = (c as u32 - '0' as u32) as u64;
            proof {
                assert(digits.take(done + 1).drop_last() =~= digits.take(done));
                assert(digits.take(done + 1).last() == c);
                assert(digits_value(digits.take(done + 1)) == value * 10 + d);
                lemma_prefix_value(digits, done + 1);
            }
            if d > max || value > (max - d) / 10 {
                return None;
            }
            value = value * 10 + d;
            seen = 1;
            proof {
                done = done + 1;
            }
        }
    }
    assert(digits.take(done) =~= digits);
    if seen == 0 {
        None
    } else {
        Some(value)
    }
}

/// Reads an unsigned decimal number that fits a `usize`.
pub fn parse_usize(text: &str) -> (r: Option<usize>)
    ensures
        match parsed(text@, usize::MAX as nat) {
            Some(n) => r == Some(n as usize) && n <= usize::MAX,
            None => r is None,
        },
{
    match parse_up_to(text, usize::MAX as u64) {
        Some(n) => Some(n as usize),
        None => None,
    }
}

/// Appends the digit that stands for `d`.
fn push_digit(text: &mut String, d: u8)
    requires
        d < 10,
    ensures
        final(text)@ == old(text)@.push(digit_char(d as nat)),
{
    let digit: &str = match d {
        0 => "0",
        1 => "1",
        2 => "2",
        3 => "3",
        4 => "4",
        5 => "5",
        6 => "6",
        7 => "7",
        8 => "8",
        _ => "9",
    };
    proof {
        reveal_strlit("0");
        reveal_strlit("1");
        reveal_strlit("2");
        reveal_strlit("3");
        reveal_strlit("4");
        reveal_strlit("5");
        reveal_strlit("6");
        reveal_strlit("7");
        reveal_strlit("8");
        reveal_strlit("9");
    }
    assert(digit@ =~= seq![digit_char(d as nat)]);
    text.append(digit);
    assert(text@ =~= old(text)@.push(digit_char(d as nat)));
}

/// Appends `n` in decimal.
pub fn push_decimal(text: &mut String, n: u64)
    ensures
        final(text)@ == old(text)@ + decimal(n as nat),
    decreases n,
{
    if n < 10 {
        push_digit(text, n as u8);
    } else {
        push_decimal(text, n / 10);
        push_digit(text, (n % 10) as u8);
    }
    assert(text@ =~= old(text)@ + decimal(n as nat));
}

/// `n` in decimal, filled up with leading zeros to `width` characters.
pub fn format_zero_padded(n: u64, width: u32) -> (r: String)
    ensures
        r@ == zero_padded(n as nat, width as nat),
{
    let mut digits: String = String::new();
    push_decimal(&mut digits, n);
    assert(digits@ =~= decimal(n as nat));
    let mut text: String = String::new();
    let len: usize = digits.as_str().unicode_len();
    let mut filled: usize = len;
    while filled < width as usize
        invariant
            digits@ == decimal(n as nat),
            len == digits@.len(),
            len <= filled,
            filled <= width || filled == len,
            text@ == zeros((filled - len) as nat),
        decreases width - filled,
    {
        push_digit(&mut text, 0);
        filled = filled + 1;
        assert(text@ =~= zeros((filled - len) as nat));
    }
    text.append(digits.as_str());
    assert(text@ =~= zero_padded(n as nat, width as nat));
    text
}

/// `decimal` writes digits only, at least one of them, and they stand for `n`.
pub proof fn lemma_decimal_digits(n: nat)
    ensures
        decimal(n).len() > 0,
        all_digits(decimal(n)),
        digits_value(decimal(n)) == n,
    decreases n,
{
    reveal_with_fuel(digits_value, 2);
    if n >= 10 {
        lemma_decimal_digits(n / 10);
        assert(decimal(n).drop_last() =~= decimal(n / 10));
    } else {
        assert(decimal(n).drop_last() =~= Seq::<char>::empty());
    }
}

/// Leading zeros do not change what a string of digits stands for.
proof fn lemma_leading_zeros(count: nat, s: Seq<char>)
    requires
        all_digits(s),
    ensures
        all_digits(zeros(count) + s),
        digits_value(zeros(count) + s) == digits_value(s),
    decreases count + s.len(),
{
    let t = zeros(count) + s;
    if s.len() > 0 {
        lemma_leading_zeros(count, s.drop_last());
        assert(t.drop_last() =~= zeros(count) + s.drop_last());
        assert forall|i: int| 0 <= i < t.len() implies is_digit(#[trigger] t[i]) by {
            if i >= count {
                assert(t[i] == s[i - count]);
            }
        }
    } else if count > 0 {
        let fewer = (count - 1) as nat;
        lemma_leading_zeros(fewer, s);
        assert(t.drop_last() =~= zeros(fewer) + s);
        assert(t.last() == '0');
    } else {
        assert(t =~= s);
    }
}

/// Reading gives back what writing wrote: whatever the width, a written number
/// that is at most `max` is read as itself.
pub proof fn lemma_written_number_is_read_back(n: nat, width: nat, max: nat)
    requires
        n <= max,
    ensures
        parsed(zero_padded(n, width), max) == Some(n),
        parsed(decimal(n), max) == Some(n),
{
    lemma_decimal_digits(n);
    assert(is_digit(decimal(n)[0]));
    let text = zero_padded(n, width);
    if decimal(n).len() < width {
        lemma_leading_zeros((width - decimal(n).len()) as nat, decimal(n));
    }
    assert(is_digit(text[0]));
}

/// A padded number is as wide as was asked, unless its digits alone are wider.
pub proof fn lemma_padded_width(n: nat, width: nat)
    ensures
        zero_padded(n, width).len() == if decimal(n).len() < width {
            width
        } else {
            decimal(n).len()
        },
{
}

} // verus!
