//! Numbers as text: decimal and hexadecimal digits, and reading a port.
use vstd::prelude::*;
use vstd::slice::slice_subrange;

verus! {

/// The character for a digit below sixteen.
pub open spec fn digit_char(d: nat) -> char {
    if d < 10 {
        ((48 + d) as u32) as char
    } else {
        ((87 + d) as u32) as char
    }
}

/// The shortest decimal notation of `n`.
pub open spec fn decimal(n: nat) -> Seq<char>
    decreases n,
{
    if n < 10 {
        seq![digit_char(n)]
    } else {
        decimal(n / 10).push(digit_char(n % 10))
    }
}

/// The shortest hexadecimal notation of `n`, in lower case.
pub open spec fn hex(n: nat) -> Seq<char>
    decreases n,
{
    if n < 16 {
        seq![digit_char(n)]
    } else {
        hex(n / 16).push(digit_char(n % 16))
    }
}

/// The two hexadecimal digits of a byte, in lower case.
pub open spec fn hex_byte(b: u8) -> Seq<char> {
    seq![digit_char((b / 16) as nat), digit_char((b % 16) as nat)]
}

/// Whether `c` is an ASCII decimal digit.
pub open spec fn is_digit(c: char) -> bool {
    '0' <= c && c <= '9'
}

/// The number that a sequence of decimal digits stands for.
pub open spec fn decimal_value(s: Seq<char>) -> nat
    decreases s.len(),
{
    if s.len() == 0 {
        0
    } else {
        decimal_value(s.drop_last()) * 10 + (s.last() as u32 - 48) as nat
    }
}

/// The digits of a number that may have a plus sign in front.
pub open spec fn unsigned_digits(s: Seq<char>) -> Seq<char> {
    if s.len() > 0 && s[0] == '+' {
        s.skip(1)
    } else {
        s
    }
}

/// The 16-bit number that `s` spells out: an optional plus sign, then one or more
/// decimal digits and nothing else, whose value fits.
pub open spec fn parse_u16_of(s: Seq<char>) -> Option<u16> {
    let digits = unsigned_digits(s);
    if digits.len() > 0 && (forall|i: int| 0 <= i < digits.len() ==> is_digit(#[trigger] digits[i]))
        && decimal_value(digits) <= u16::MAX {
        Some(decimal_value(digits) as u16)
    } else {
        None
    }
}

/// Decimal notation consists of digits and stands for the number that it was made from.
pub proof fn lemma_decimal(n: nat)
    ensures
        decimal(n).len() > 0,
        forall|i: int| 0 <= i < decimal(n).len() ==> is_digit(#[trigger] decimal(n)[i]),
        decimal_value(decimal(n)) == n,
    decreases n,
{
    if n < 10 {
        let s = decimal(n);
        assert(s.drop_last() == Seq::<char>::empty());
        assert(decimal_value(s.drop_last()) == 0);
    } else {
        lemma_decimal(n / 10);
        let s = decimal(n);
        assert(s.drop_last() == decimal(n / 10));
    }
}

/// A port survives being written in decimal and read back.
pub proof fn lemma_port_round_trip(port: u16)
    ensures
        parse_u16_of(decimal(port as nat)) == Some(port),
{
    lemma_decimal(port as nat);
    assert(is_digit(decimal(port as nat)[0]));
}

/// The character for a digit below sixteen.
fn to_digit_char(d: u8) -> (r: char)
    requires
        d < 16,
    ensures
        r == digit_char(d as nat),
{
    if d < 10 {
        (48 + d) as char
    } else {
        (87 + d) as char
    }
}

/// Appends the decimal notation of `n` to `out`.
pub fn push_decimal(out: &mut Vec<char>, n: u128)
    ensures
        final(out)@ == old(out)@ + decimal(n as nat),
    decreases n,
{
    if n >= 10 {
        push_decimal(out, n / 10);
        out.push(to_digit_char((n % 10) as u8));
        assert(out@ =~= old(out)@ + decimal(n as nat));
    } else {
        out.push(to_digit_char(n as u8));
        assert(out@ =~= old(out)@ + decimal(n as nat));
    }
}

/// Appends the hexadecimal notation of `n` to `out`.
pub fn push_hex(out: &mut Vec<char>, n: u32)
    ensures
        final(out)@ == old(out)@ + hex(n as nat),
    decreases n,
{
    if n >= 16 {
        push_hex(out, n / 16);
        out.push(to_digit_char((n % 16) as u8));
        assert(out@ =~= old(out)@ + hex(n as nat));
    } else {
        out.push(to_digit_char(n as u8));
        assert(out@ =~= old(out)@ + hex(n as nat));
    }
}

/// Appends the two hexadecimal digits of `b` to `out`.
pub fn push_hex_byte(out: &mut Vec<char>, b: u8)
    ensures
        final(out)@ == old(out)@ + hex_byte(b),
{
    out.push(to_digit_char(b / 16));
    out.push(to_digit_char(b % 16));
    assert(out@ =~= old(out)@ + hex_byte(b));
}

/// Reads a 16-bit number.
pub fn parse_u16(cs: &[char]) -> (r: Option<u16>)
    ensures
        r == parse_u16_of(cs@),
{
    let start: usize = if cs.len() > 0 && cs[0] == '+' {
        1
    } else {
        0
    };
    let digits = slice_subrange(cs, start, cs.len());
    assert(digits@ == unsigned_digits(cs@));
    let n: usize = digits.len();
    if n == 0 {
        return None;
    }
    let mut value: u32 = 0;
    let mut i: usize = 0;
    let mut fits: bool = true;
    while i < n
        invariant
            i <= n,
            n == digits@.len(),
            digits@ == unsigned_digits(cs@),
            forall|j: int| 0 <= j < i ==> is_digit(#[trigger] digits@[j]),
            fits ==> value == decimal_value(digits@.take(i as int)) && value <= u16::MAX,
            !fits ==> decimal_value(digits@.take(i as int)) > u16::MAX,
        decreases n - i,
    {
        let c: char = digits[i];
        if !('0' <= c && c <= '9') {
            assert(!is_digit(digits@[i as int]));
            return None;
        }
        assert(digits@.take(i + 1).drop_last() == digits@.take(i as int));
        if fits {
            value = value * 10 + (c as u32 - 48);
            fits = value <= 65535;
        }
        i = i + 1;
    }
    assert(digits@.take(n as int) == digits@);
    if fits {
        Some(value as u16)
    } else {
        None
    }
}

/// Decimal notation is the shortest: it begins with a zero only where it is one.
pub proof fn law_decimal_is_shortest(n: nat)
    ensures
        decimal(n)[0] == '0' ==> n == 0 && decimal(n).len() == 1,
        decimal(n).len() > 0,
        decimal_value(decimal(n)) == n,
        forall|i: int|
            0 <= i < decimal(n).len() ==> '0' <= #[trigger] decimal(n)[i] && decimal(n)[i] <= '9',
    decreases n,
{
    lemma_decimal(n);
    assert forall|i: int| 0 <= i < decimal(n).len() implies '0' <= #[trigger] decimal(n)[i]
        && decimal(n)[i] <= '9' by {
        assert(is_digit(decimal(n)[i]));
    }
    if n >= 10 {
        law_decimal_is_shortest(n / 10);
        lemma_decimal(n / 10);
        assert(decimal(n)[0] == decimal(n / 10)[0]);
    }
}

/// The value of digits is counted in tens.
pub proof fn law_digits_count_in_tens(s: Seq<char>, d: nat)
    requires
        d < 10,
    ensures
        decimal_value(Seq::<char>::empty()) == 0,
        decimal_value(s.push(((48 + d) as u32) as char)) == decimal_value(s) * 10 + d,
{
    let c = ((48 + d) as u32) as char;
    assert(s.push(c).drop_last() =~= s);
}

/// Hexadecimal notation is counted in sixteens, its digits are the ten of decimal notation and
/// six small letters, and a byte has two of them.
pub proof fn law_hex_counts_in_sixteens(n: nat, d: nat, b: u8)
    requires
        d < 16,
    ensures
        hex(d) == seq!["0123456789abcdef"@[d as int]],
        n > 0 ==> hex(n * 16 + d) == hex(n).push("0123456789abcdef"@[d as int]),
        hex_byte(b) == seq![
            "0123456789abcdef"@[(b / 16) as int],
            "0123456789abcdef"@[(b % 16) as int],
        ],
{
    lemma_digit_char(d);
    lemma_digit_char((b / 16) as nat);
    lemma_digit_char((b % 16) as nat);
    if n > 0 {
        assert((n * 16 + d) / 16 == n && (n * 16 + d) % 16 == d);
    }
}

/// The characters for the digits.
proof fn lemma_digit_char(d: nat)
    requires
        d < 16,
    ensures
        digit_char(d) == "0123456789abcdef"@[d as int],
{
    reveal_strlit("0123456789abcdef");
    assert(d == 0 || d == 1 || d == 2 || d == 3 || d == 4 || d == 5 || d == 6 || d == 7 || d == 8
        || d == 9 || d == 10 || d == 11 || d == 12 || d == 13 || d == 14 || d == 15);
}

/// A number that fits is read from its decimal notation, behind a plus sign or not, and one
/// that does not fit is read from neither.
pub proof fn law_numbers_that_fit_are_read(n: nat)
    ensures
        n <= 65535 ==> parse_u16_of(decimal(n)) == Some(n as u16) && parse_u16_of(
            seq!['+'] + decimal(n),
        ) == Some(n as u16),
        n > 65535 ==> parse_u16_of(decimal(n)) is None && parse_u16_of(seq!['+'] + decimal(n))
            is None,
        parse_u16_of(Seq::<char>::empty()) is None,
        parse_u16_of(seq!['+']) is None,
{
    lemma_decimal(n);
    let digits = decimal(n);
    assert(is_digit(digits[0]));
    let signed = seq!['+'] + digits;
    assert(signed[0] == '+');
    assert(signed.skip(1) =~= digits);
    assert(seq!['+'].skip(1).len() == 0);
}

/// Only digits, behind a plus sign or not, are read.
pub proof fn law_only_digits_are_read(s: Seq<char>, i: int)
    requires
        0 <= i < s.len(),
        !('0' <= s[i] && s[i] <= '9'),
        i > 0 || s[0] != '+',
    ensures
        parse_u16_of(s) is None,
{
    let digits = unsigned_digits(s);
    if s[0] == '+' {
        assert(digits[i - 1] == s[i]);
        assert(!is_digit(digits[i - 1]));
    } else {
        assert(!is_digit(digits[i]));
    }
}

/// A zero in front of digits does not change what is read, behind a plus sign or not.
pub proof fn law_leading_zero_does_not_count(digits: Seq<char>)
    requires
        digits.len() > 0,
        forall|i: int| 0 <= i < digits.len() ==> '0' <= #[trigger] digits[i] && digits[i] <= '9',
    ensures
        parse_u16_of(seq!['0'] + digits) == parse_u16_of(digits),
        parse_u16_of(seq!['+', '0'] + digits) == parse_u16_of(digits),
{
    let longer = seq!['0'] + digits;
    let signed = seq!['+', '0'] + digits;
    lemma_leading_zero(digits);
    assert(longer[0] == '0' && signed[0] == '+');
    assert(signed.skip(1) =~= longer);
    assert('0' <= digits[0] && digits[0] <= '9');
    assert forall|i: int| 0 <= i < longer.len() implies is_digit(#[trigger] longer[i]) by {
        if i > 0 {
            assert(longer[i] == digits[i - 1]);
        }
    }
    assert forall|i: int| 0 <= i < digits.len() implies is_digit(#[trigger] digits[i]) by {}
}

/// A zero in front of digits does not change their value.
proof fn lemma_leading_zero(digits: Seq<char>)
    ensures
        decimal_value(seq!['0'] + digits) == decimal_value(digits),
    decreases digits.len(),
{
    let longer = seq!['0'] + digits;
    if digits.len() == 0 {
        assert(longer.drop_last() =~= Seq::<char>::empty());
        assert(longer.last() == '0');
        assert(decimal_value(longer.drop_last()) == 0);
    } else {
        assert(longer.drop_last() =~= seq!['0'] + digits.drop_last());
        assert(longer.last() == digits.last());
        lemma_leading_zero(digits.drop_last());
    }
}

} // verus!
