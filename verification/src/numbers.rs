//! Decimal numbers in text.

use crate::text;
use vstd::prelude::*;
use vstd::slice::slice_subrange;

verus! {

/// The value of a decimal digit.
pub open spec fn digit_value(c: char) -> nat {
    (c as u32 - 48) as nat
}

/// The digit of a value below ten.
pub open spec fn digit_char(n: nat) -> char {
    (n + 48) as u32 as char
}

pub open spec fn all_digits(s: Seq<char>) -> bool {
    forall|i: int| 0 <= i < s.len() ==> text::is_digit(#[trigger] s[i])
}

/// The number that a sequence of decimal digits stands for.
pub open spec fn value(s: Seq<char>) -> nat
    decreases s.len(),
{
    if s.len() == 0 {
        0
    } else {
        value(s.drop_last()) * 10 + digit_value(s.last())
    }
}

/// A number without sign, as text: one plus sign at most, then at least one digit and nothing
/// else. `None` where the text has another form or the number is above `max`.
pub open spec fn parsed(s: Seq<char>, max: nat) -> Option<nat> {
    let d = if s.len() > 0 && s[0] == '+' {
        s.skip(1)
    } else {
        s
    };
    if d.len() > 0 && all_digits(d) && value(d) <= max {
        Some(value(d))
    } else {
        None
    }
}

/// The decimal digits of a number, without leading zeros.
pub open spec fn decimal(n: nat) -> Seq<char>
    decreases n,
{
    if n < 10 {
        seq![digit_char(n)]
    } else {
        decimal(n / 10).push(digit_char(n % 10))
    }
}

/// The decimal form of an integer, with a minus sign in front of a negative one.
pub open spec fn signed_decimal(n: int) -> Seq<char> {
    if n < 0 {
        seq!['-'] + decimal((-n) as nat)
    } else {
        decimal(n as nat)
    }
}

/// A longer run of digits stands for no smaller number.
proof fn lemma_value_prefix(s: Seq<char>, i: int)
    requires
        0 <= i <= s.len(),
    ensures
        value(s.take(i)) <= value(s),
    decreases s.len() - i,
{
    if i < s.len() {
        lemma_value_prefix(s, i + 1);
        assert(s.take(i + 1).drop_last() =~= s.take(i));
    } else {
        assert(s.take(i) =~= s);
    }
}

/// Writing a number and reading it back gives the number.
pub proof fn written_number_reads_back(n: nat, max: nat)
    requires
        n <= max,
    ensures
        all_digits(decimal(n)),
        decimal(n).len() > 0,
        value(decimal(n)) == n,
        parsed(decimal(n), max) == Some(n),
    decreases n,
{
    if n >= 10 {
        written_number_reads_back(n / 10, max);
        let d = decimal(n);
        assert(d.drop_last() =~= decimal(n / 10));
        assert forall|i: int| 0 <= i < d.len() implies text::is_digit(#[trigger] d[i]) by {
            if i < d.len() - 1 {
                assert(d[i] == decimal(n / 10)[i]);
            }
        }
    } else {
        assert(decimal(n).drop_last() =~= Seq::<char>::empty());
        assert(value(Seq::<char>::empty()) == 0);
    }
    assert(text::is_digit(decimal(n)[0]));
}

/// Reads a number without sign that is at most `max`.
pub fn parse_up_to(s: &str, max: u64) -> (r: Option<u64>)
    ensures
        match r {
            Some(n) => parsed(s@, max as nat) == Some(n as nat),
            None => parsed(s@, max as nat) is None,
        },
{
    let v: Vec<char> = text::chars_of(s);
    let from: usize = if v.len() > 0 && v[0] == '+' {
        1
    } else {
        0
    };
    let d: &[char] = slice_subrange(v.as_slice(), from, v.len());
    proof {
        if from == 0 {
            assert(d@ =~= s@);
        } else {
            assert(d@ =~= s@.skip(1));
        }
    }
    if d.len() == 0 {
        return None;
    }
    let mut n: u64 = 0;
    for i in 0..d.len()
        invariant
            n == value(d@.take(i as int)),
            n <= max,
            forall|j: int| 0 <= j < i ==> text::is_digit(#[trigger] d@[j]),
            parsed(s@, max as nat) is Some ==> all_digits(d@) && value(d@) <= max,
    {
        let c: char = d[i];
        if !text::digit(c) {
            return None;
        }
        let x: u64 = c as u64 - 48;
        assert(d@.take(i + 1).drop_last() =~= d@.take(i as int));
        assert(value(d@.take(i + 1)) == n * 10 + x);
        proof {
            lemma_value_prefix(d@, i + 1);
        }
        if n > max / 10 || x > max || n * 10 > max - x {
            return None;
        }
        n = n * 10 + x;
    }
    assert(d@.take(d@.len() as int) =~= d@);
    Some(n)
}

/// Reads a `u64`.
pub fn parse_u64(s: &str) -> (r: Option<u64>)
    ensures
        match r {
            Some(n) => parsed(s@, u64::MAX as nat) == Some(n as nat),
            None => parsed(s@, u64::MAX as nat) is None,
        },
{
    parse_up_to(s, u64::MAX)
}

/// Reads a `u32`.
pub fn parse_u32(s: &str) -> (r: Option<u32>)
    ensures
        match r {
            Some(n) => parsed(s@, u32::MAX as nat) == Some(n as nat),
            None => parsed(s@, u32::MAX as nat) is None,
        },
{
    match parse_up_to(s, u32::MAX as u64) {
        Some(n) => Some(n as u32),
        None => None,
    }
}

/// Reads a `u16`.
pub fn parse_u16(s: &str) -> (r: Option<u16>)
    ensures
        match r {
            Some(n) => parsed(s@, u16::MAX as nat) == Some(n as nat),
            None => parsed(s@, u16::MAX as nat) is None,
        },
{
    match parse_up_to(s, u16::MAX as u64) {
        Some(n) => Some(n as u16),
        None => None,
    }
}

/// The decimal digits of `n`.
pub fn decimal_of(n: u64) -> (r: String)
    ensures
        r@ == decimal(n as nat),
    decreases n,
{
    let c: char = ((n % 10) as u8 + 48) as char;
    let mut s: String = if n < 10 {
        String::new()
    } else {
        decimal_of(n / 10)
    };
    s.push(c);
    assert(s@ =~= decimal(n as nat));
    s
}

/// The decimal form of `n`, with its sign where it is negative.
pub fn signed_decimal_of(n: i32) -> (r: String)
    ensures
        r@ == signed_decimal(n as int),
{
    if n < 0 {
        let m: i64 = 0 - (n as i64);
        let mut s: String = String::new();
        s.push('-');
        let d: String = decimal_of(m as u64);
        let mut i: usize = 0;
        let v: Vec<char> = text::chars_of(d.as_str());
        while i < v.len()
            invariant
                i <= v@.len(),
                s@ == seq!['-'] + v@.take(i as int),
            decreases v@.len() - i,
        {
            s.push(v[i]);
            assert(v@.take(i + 1) =~= v@.take(i as int).push(v@[i as int]));
            i = i + 1;
        }
        assert(v@.take(v@.len() as int) =~= v@);
        s
    } else {
        decimal_of(n as u64)
    }
}

/// A number is written with the digits from 0 to 9 and without a leading zero, and a number of one
/// digit more is ten times as large as its first digits make, and its last digit more.
pub proof fn written_number_has_no_leading_zero(n: nat)
    ensures
        n >= 10 ==> decimal(n)[0] != '0',
        n < 10 ==> decimal(n).len() == 1 && decimal(n)[0] as int == 48 + n,
        n >= 10 ==> decimal(n).last() as int == 48 + n % 10,
        n >= 10 ==> decimal(n).drop_last() == decimal(n / 10),
    decreases n,
{
    if n >= 10 {
        written_number_has_no_leading_zero(n / 10);
        written_number_reads_back(n / 10, n);
        assert(decimal(n).drop_last() =~= decimal(n / 10));
        assert(decimal(n)[0] == decimal(n / 10)[0]);
        if n / 10 < 10 {
            assert(decimal(n / 10)[0] as int == 48 + n / 10);
        }
    }
}

/// Exactly the texts of digits that make a number up to the bound are read, with or without one plus
/// sign in front, and each as the number that its digits make.
pub proof fn numbers_are_read_by_their_digits(d: Seq<char>, max: nat)
    requires
        d.len() > 0,
        forall|i: int| 0 <= i < d.len() ==> '0' <= #[trigger] d[i] <= '9',
    ensures
        parsed(d, max) == (if value(d) <= max {
            Some(value(d))
        } else {
            None
        }),
        parsed(seq!['+'] + d, max) == parsed(d, max),
        value(d) == value(d.drop_last()) * 10 + (d.last() as int - 48),
        value(Seq::empty()) == 0,
        parsed(seq!['-'] + d, max) is None,
        parsed(d.push(' '), max) is None,
        parsed(d.push('.'), max) is None,
        parsed(Seq::empty(), max) is None,
{
    assert(d[0] != '+');
    assert(all_digits(d));
    assert((seq!['+'] + d).skip(1) =~= d);
    let m = seq!['-'] + d;
    assert(!text::is_digit(m[0]));
    let sp = d.push(' ');
    assert(sp[0] == d[0]);
    assert(!text::is_digit(sp[d.len() as int]));
    let dot = d.push('.');
    assert(dot[0] == d[0]);
    assert(!text::is_digit(dot[d.len() as int]));
    assert(d.last() == d[d.len() - 1]);
}

/// What is no text of digits, apart from one plus sign in front, is no number.
pub proof fn other_texts_are_no_numbers(s: Seq<char>, i: int, max: nat)
    requires
        0 <= i < s.len(),
        !('0' <= s[i] <= '9'),
        i > 0 || s[0] != '+',
    ensures
        parsed(s, max) is None,
{
    if s[0] == '+' {
        let d = s.skip(1);
        assert(d[i - 1] == s[i]);
        assert(!text::is_digit(d[i - 1]));
    } else {
        assert(!text::is_digit(s[i]));
    }
}

/// A negative number is written as a minus sign and the number without it.
pub proof fn negative_numbers_have_a_sign(n: int)
    requires
        n > 0,
    ensures
        signed_decimal(-n) == seq!['-'] + decimal(n as nat),
        signed_decimal(n) == decimal(n as nat),
        signed_decimal(0) == seq!['0'],
{
    assert(decimal(0) =~= seq!['0']);
}

}
