//! Numbers as text: decimal and hexadecimal rendering, and parsing of
//! unsigned decimal numbers.
use vstd::prelude::*;
use vstd::slice::slice_subrange;

verus! {

/// Whether a character is one of the ten decimal digits.
pub open spec fn is_digit(c: char) -> bool {
    '0' <= c <= '9'
}

/// The number that a decimal digit stands for.
pub open spec fn digit_value(c: char) -> int {
    c as int - '0' as int
}

/// The decimal digit of a number below ten.
pub open spec fn digit_char(n: int) -> char {
    (n + '0' as int) as char
}

/// The decimal digits of `n`, with no leading zero but for zero itself.
pub open spec fn decimal(n: nat) -> Seq<char>
    decreases n,
{
    if n < 10 {
        seq![digit_char(n as int)]
    } else {
        decimal(n / 10).push(digit_char((n % 10) as int))
    }
}

/// The number that a sequence of decimal digits stands for.
pub open spec fn digits_value(s: Seq<char>) -> int
    decreases s.len(),
{
    if s.len() == 0 {
        0
    } else {
        digits_value(s.drop_last()) * 10 + digit_value(s.last())
    }
}

/// Whether all characters are decimal digits.
pub open spec fn all_digits(s: Seq<char>) -> bool {
    forall|i: int| 0 <= i < s.len() ==> is_digit(#[trigger] s[i])
}

/// `s` without one plus sign at its front.
pub open spec fn without_plus(s: Seq<char>) -> Seq<char> {
    if s.len() > 0 && s[0] == '+' {
        s.drop_first()
    } else {
        s
    }
}

/// The unsigned number that `s` denotes: at least one decimal digit, a plus
/// sign allowed in front, and a value of at most `max`.
pub open spec fn parsed(s: Seq<char>, max: int) -> Option<int> {
    let d = without_plus(s);
    if d.len() > 0 && all_digits(d) && digits_value(d) <= max {
        Some(digits_value(d))
    } else {
        None
    }
}

/// The upper-case hexadecimal digit of a number below sixteen.
pub open spec fn hex_char(n: int) -> char {
    if n < 10 {
        digit_char(n)
    } else {
        (n - 10 + 'A' as int) as char
    }
}

/// The two upper-case hexadecimal digits of a byte.
pub open spec fn hex_byte(b: u8) -> Seq<char> {
    seq![hex_char(b as int / 16), hex_char(b as int % 16)]
}

proof fn lemma_digits_value_grows(s: Seq<char>, n: int)
    requires
        all_digits(s),
        0 <= n <= s.len(),
    ensures
        0 <= digits_value(s.take(n)) <= digits_value(s),
    decreases s.len(),
{
    if s.len() > 0 {
        let t = s.drop_last();
        assert(all_digits(t)) by {
            assert forall|i: int| 0 <= i < t.len() implies is_digit(#[trigger] t[i]) by {
                assert(t[i] == s[i]);
            }
        }
        assert(is_digit(s.last()));
        if n == s.len() {
            assert(s.take(n) == s);
            lemma_digits_value_grows(t, t.len() as int);
            assert(t.take(t.len() as int) == t);
        } else {
            lemma_digits_value_grows(t, n);
            assert(t.take(n) == s.take(n));
        }
    } else {
        assert(s.take(n) == s);
    }
}

/// The decimal rendering of a number is made of digits, and denotes the number.
pub proof fn lemma_decimal_digits(n: nat)
    ensures
        decimal(n).len() > 0,
        all_digits(decimal(n)),
        digits_value(decimal(n)) == n,
        decimal(n)[0] != '+',
    decreases n,
{
    if n < 10 {
        let s = decimal(n);
        assert(s.drop_last() == Seq::<char>::empty());
        assert(digits_value(s.drop_last()) == 0);
    } else {
        let s = decimal(n);
        let t = decimal(n / 10);
        lemma_decimal_digits(n / 10);
        assert(s.drop_last() == t);
        assert(s[0] == t[0]);
        assert forall|i: int| 0 <= i < s.len() implies is_digit(#[trigger] s[i]) by {
            if i < t.len() {
                assert(s[i] == t[i]);
            }
        }
    }
}

/// Parsing undoes rendering: the decimal digits of a number that is not too
/// large denote that number.
pub proof fn parsed_inverts_decimal(n: nat, max: int)
    requires
        n <= max,
    ensures
        parsed(decimal(n), max) == Some(n as int),
{
    lemma_decimal_digits(n);
}

/// Two numbers with the same decimal digits are equal.
pub proof fn decimal_is_injective(a: nat, b: nat)
    requires
        decimal(a) == decimal(b),
    ensures
        a == b,
{
    lemma_decimal_digits(a);
    lemma_decimal_digits(b);
}

fn digit_of(n: u8) -> (c: char)
    requires
        n < 10,
    ensures
        c == digit_char(n as int),
        is_digit(c),
{
    (48u8 + n) as char
}

/// Appends the decimal digits of a number.
pub fn push_decimal(out: &mut String, n: u64)
    ensures
        final(out)@ == old(out)@ + decimal(n as nat),
    decreases n,
{
    if n >= 10 {
        push_decimal(out, n / 10);
    }
    let ghost before = out@;
    out.push(digit_of((n % 10) as u8));
    assert(n >= 10 ==> before.push(digit_char(n as int % 10)) =~= old(out)@ + decimal(n as nat));
    assert(n < 10 ==> before.push(digit_char(n as int)) =~= old(out)@ + decimal(n as nat));
}

/// The decimal digits of a number.
pub fn to_decimal(n: u64) -> (r: String)
    ensures
        r@ == decimal(n as nat),
{
    let mut r = String::new();
    push_decimal(&mut r, n);
    assert(Seq::<char>::empty() + decimal(n as nat) =~= decimal(n as nat));
    r
}

fn hex_of(n: u8) -> (c: char)
    requires
        n < 16,
    ensures
        c == hex_char(n as int),
{
    if n < 10 {
        digit_of(n)
    } else {
        (55u8 + n) as char
    }
}

/// Appends the two hexadecimal digits of a byte.
pub fn push_hex(out: &mut String, b: u8)
    ensures
        final(out)@ == old(out)@ + hex_byte(b),
{
    out.push(hex_of(b / 16));
    out.push(hex_of(b % 16));
    assert(out@ =~= old(out)@ + hex_byte(b));
}

fn digit(c: char) -> (r: bool)
    ensures
        r == is_digit(c),
{
    '0' <= c && c <= '9'
}

/// Parses an unsigned decimal number of at most `max`.
pub fn parse_max(s: &[char], max: u64) -> (r: Option<u64>)
    ensures
        r is Some == parsed(s@, max as int) is Some,
        r is Some ==> r->0 == parsed(s@, max as int)->0,
{
    let mut start: usize = 0;
    if s.len() > 0 && s[0] == '+' {
        start = 1;
    }
    let d = slice_subrange(s, start, s.len());
    assert(d@ == without_plus(s@));
    if d.len() == 0 {
        return None;
    }
    let mut v: u64 = 0;
    for i in 0..d.len()
        invariant
            d@ == without_plus(s@),
            d@.len() > 0,
            forall|j: int| 0 <= j < i ==> is_digit(#[trigger] d@[j]),
            v == digits_value(d@.take(i as int)),
            v <= max,
    {
        if !digit(d[i]) {
            assert(!is_digit(d@[i as int]));
            return None;
        }
        let x: u64 = (d[i] as u32 - '0' as u32) as u64;
        assert(d@.take(i + 1).drop_last() == d@.take(i as int));
        assert(digits_value(d@.take(i + 1)) == v * 10 + x);
        if v > max / 10 || x > max - v * 10 {
            proof {
                if all_digits(d@) {
                    lemma_digits_value_grows(d@, i + 1);
                }
            }
            return None;
        }
        v = v * 10 + x;
    }
    assert(d@.take(d@.len() as int) == d@);
    Some(v)
}

/// Parses an unsigned decimal number of 64 bits.
pub fn parse_u64(s: &[char]) -> (r: Option<u64>)
    ensures
        r is Some == parsed(s@, u64::MAX as int) is Some,
        r is Some ==> r->0 == parsed(s@, u64::MAX as int)->0,
{
    parse_max(s, u64::MAX)
}

/// Parses an unsigned decimal number of 32 bits.
pub fn parse_u32(s: &[char]) -> (r: Option<u32>)
    ensures
        r is Some == parsed(s@, u32::MAX as int) is Some,
        r is Some ==> r->0 == parsed(s@, u32::MAX as int)->0,
{
    match parse_max(s, u32::MAX as u64) {
        Some(v) => Some(v as u32),
        None => None,
    }
}

/// A decimal number is written in base ten: its last digit is the remainder by ten, and
/// the digits before it are those of the quotient.
pub proof fn digits_are_of_base_ten(n: nat)
    ensures
        decimal(n).len() >= 1,
        decimal(n).last() as int == 48 + n % 10,
        n < 10 ==> decimal(n).len() == 1,
        n >= 10 ==> decimal(n).drop_last() == decimal(n / 10),
{
    if n >= 10 {
        assert(decimal(n).drop_last() =~= decimal(n / 10));
    }
}

/// A byte is written as two digits to base sixteen: from `0` to `9` and from `A` to
/// `F`.
pub proof fn bytes_are_of_base_sixteen(b: u8)
    ensures
        hex_byte(b).len() == 2,
        ({
            let value = |c: char|
                if c as int <= 57 {
                    c as int - 48
                } else {
                    c as int - 55
                };
            b == 16 * value(hex_byte(b)[0]) + value(hex_byte(b)[1])
        }),
        forall|i: int|
            0 <= i < 2 ==> 48 <= #[trigger] hex_byte(b)[i] as int <= 57 || 65 <= hex_byte(
                b,
            )[i] as int <= 70,
{
}

} // verus!
