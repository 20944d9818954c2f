//! Decimal numerals: the text of a number, and the number of a text.

use vstd::prelude::*;
use vstd::string::*;

verus! {

/// Whether `c` is one of the ten ASCII digits.
pub open spec fn is_digit(c: char) -> bool {
    '0' <= c <= '9'
}

/// The number a digit stands for.
pub open spec fn digit_value(c: char) -> nat {
    (c as nat - '0' as nat) as nat
}

/// The digit that stands for a number below ten.
pub open spec fn digit_char(d: nat) -> char {
    ('0' as nat + d) as char
}

/// Whether every character of `s` is a digit.
pub open spec fn all_digits(s: Seq<char>) -> bool {
    forall|i: int| 0 <= i < s.len() ==> is_digit(#[trigger] s[i])
}

/// The number that a run of digits denotes in base ten; zero for the empty run.
pub open spec fn digits_value(s: Seq<char>) -> nat
    decreases s.len(),
{
    if s.len() == 0 {
        0
    } else {
        digits_value(s.drop_last()) * 10 + digit_value(s.last())
    }
}

/// The digits of a numeral: the text without its optional leading plus sign.
pub open spec fn numeral_digits(s: Seq<char>) -> Seq<char> {
    if s.len() > 0 && s[0] == '+' {
        s.drop_first()
    } else {
        s
    }
}

/// Whether `s` is a numeral: an optional `+` followed by one or more digits.
/// Leading zeros are allowed; a minus sign, blanks and an empty text are not.
pub open spec fn is_numeral(s: Seq<char>) -> bool {
    numeral_digits(s).len() > 0 && all_digits(numeral_digits(s))
}

/// The number that a numeral denotes.
pub open spec fn numeral_value(s: Seq<char>) -> nat {
    digits_value(numeral_digits(s))
}

/// The value of `s` where `s` is a numeral no greater than `max`, and nothing otherwise.
pub open spec fn numeral_up_to(s: Seq<char>, max: nat) -> Option<nat> {
    if is_numeral(s) && numeral_value(s) <= max {
        Some(numeral_value(s))
    } else {
        None
    }
}

/// The shortest decimal text of `n`: no sign and no leading zero.
pub open spec fn decimal(n: nat) -> Seq<char>
    decreases n,
{
    if n < 10 {
        seq![digit_char(n)]
    } else {
        decimal(n / 10).push(digit_char(n % 10))
    }
}

/// A run of digits denotes at least what any of its prefixes denotes.
pub proof fn lemma_digits_value_grows(s: Seq<char>, k: int)
    requires
        0 <= k <= s.len(),
    ensures
        digits_value(s.take(k)) <= digits_value(s),
    decreases s.len(),
{
    if k == s.len() {
        assert(s.take(k) =~= s);
    } else {
        lemma_digits_value_grows(s.drop_last(), k);
        assert(s.drop_last().take(k) =~= s.take(k));
    }
}

/// The decimal text of a number is a numeral, and denotes that number.
pub proof fn lemma_decimal_reads_back(n: nat)
    ensures
        all_digits(decimal(n)),
        digits_value(decimal(n)) == n,
        is_numeral(decimal(n)),
        numeral_value(decimal(n)) == n,
    decreases n,
{
    if n < 10 {
        assert(decimal(n).drop_last() =~= Seq::<char>::empty());
        assert(digits_value(decimal(n).drop_last()) == 0);
    } else {
        lemma_decimal_reads_back(n / 10);
        assert(decimal(n).drop_last() =~= decimal(n / 10));
    }
    assert(decimal(n)[0] != '+');
}

/// The one-character text of a digit.
fn digit_text(d: u32) -> (t: &'static str)
    requires
        d < 10,
    ensures
        t@ == seq![digit_char(d as nat)],
{
    proof {
        reveal_strlit("0");
        reveal_strlit("1");
        reveal_strlit("2");
        reveal_strlit("3");
        reveal_strlit("4");
        reveal_strlit("5");
        reveal_strlit("6");
        reveal_strlit("7");
        reveal_strlit("8");
        reveal_strlit("9");
    }
    let t = match d {
        0 => "0",
        1 => "1",
        2 => "2",
        3 => "3",
        4 => "4",
        5 => "5",
        6 => "6",
        7 => "7",
        8 => "8",
        _ => "9",
    };
    assert(t@ =~= seq![digit_char(d as nat)]);
    t
}

/// Appends the decimal text of `n` to `out`.
pub fn push_decimal(out: &mut String, n: u32)
    ensures
        final(out)@ == old(out)@ + decimal(n as nat),
    decreases n,
{
    if n >= 10 {
        push_decimal(out, n / 10);
    }
    out.append(digit_text(n % 10));
    proof {
        let before = old(out)@;
        if n >= 10 {
            assert(before + decimal(n as nat / 10) + seq![digit_char(n as nat % 10)] =~= before
                + decimal(n as nat));
        }
    }
}

/// Writes `n` in decimal.
pub fn format_decimal(n: u32) -> (text: String)
    ensures
        text@ == decimal(n as nat),
{
    let mut text = String::new();
    push_decimal(&mut text, n);
    text
}

/// Reads the numeral that `chars` holds from `start` up to `end`, where it is no greater
/// than `max`. The bound on `max` keeps ten times the running value in a machine word.
pub(crate) fn read_numeral(chars: &Vec<char>, start: usize, end: usize, max: u32) -> (value:
    Option<u32>)
    requires
        start <= end <= chars.len(),
        max <= 400_000_000,
    ensures
        match value {
            Some(v) => numeral_up_to(chars@.subrange(start as int, end as int), max as nat)
                == Some(v as nat),
            None => numeral_up_to(chars@.subrange(start as int, end as int), max as nat) is None,
        },
{
    let ghost text = chars@.subrange(start as int, end as int);
    let first: usize = if start < end && chars[start] == '+' {
        start + 1
    } else {
        start
    };
    let ghost digits = chars@.subrange(first as int, end as int);
    assert(digits =~= numeral_digits(text));
    if first == end {
        return None;
    }
    let mut acc: u32 = 0;
    let mut i: usize = first;
    while i < end
        invariant
            start <= first <= i <= end <= chars.len(),
            first < end,
            max <= 400_000_000,
            text == chars@.subrange(start as int, end as int),
            digits == chars@.subrange(first as int, end as int),
            digits == numeral_digits(text),
            all_digits(digits.take(i - first)),
            acc == digits_value(digits.take(i - first)),
            acc <= max,
        decreases end - i,
    {
        let c = chars[i];
        if !('0' <= c && c <= '9') {
            assert(!is_digit(digits[i - first]));
            return None;
        }
        let d: u32 = (c as u32) - ('0' as u32);
        let ghost next = digits.take(i - first + 1);
        assert(next.drop_last() =~= digits.take(i - first));
        assert(digits_value(next) == acc * 10 + d);
        if acc * 10 + d > max {
            proof {
                lemma_digits_value_grows(digits, i - first + 1);
            }
            return None;
        }
        acc = acc * 10 + d;
        i = i + 1;
    }
    assert(digits.take(i - first) =~= digits);
    Some(acc)
}

} // verus!
