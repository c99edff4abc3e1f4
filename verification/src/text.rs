//! Small helpers for building and reading text.
use vstd::prelude::*;

verus! {

/// `String::push` of the standard library appends the given character to the
/// end of the string and leaves the characters before it untouched.
pub assume_specification[ String::push ](s: &mut String, c: char)
    ensures
        final(s)@ == old(s)@.push(c),
;

/// The characters of `text`, in order.
pub fn characters(text: &str) -> (chars: Vec<char>)
    ensures
        chars@ == text@,
{
    let mut chars: Vec<char> = Vec::new();
    for c in it: text.chars()
        invariant
            chars@ == it.seq().take(it.index() as int),
    {
        chars.push(c);
    }
    chars
}

/// The text made of the characters `chars[from..to]`.
pub fn slice_text(chars: &Vec<char>, from: usize, to: usize) -> (text: String)
    requires
        from <= to <= chars.len(),
    ensures
        text@ == chars@.subrange(from as int, to as int),
{
    let mut text = String::new();
    let mut i: usize = from;
    while i < to
        invariant
            from <= i <= to <= chars.len(),
            text@ == chars@.subrange(from as int, i as int),
        decreases to - i,
    {
        text.push(chars[i]);
        i += 1;
    }
    text
}

/// The number that the digit `c` stands for; for any other character, its
/// distance from `'0'` in 32-bit wrapping arithmetic.
pub open spec fn digit_value(c: char) -> u32 {
    (c as u32).wrapping_sub('0' as u32)
}

/// The number that `digits` spells in decimal, read left to right as
/// `value * 10 + digit` in 32-bit wrapping arithmetic.
pub open spec fn decimal_value(digits: Seq<char>) -> u32
    decreases digits.len(),
{
    if digits.len() == 0 {
        0
    } else {
        decimal_value(digits.drop_last()).wrapping_mul(10).wrapping_add(digit_value(digits.last()))
    }
}

/// Reads `digits` as a decimal number.
pub fn read_decimal(digits: &str) -> (value: u32)
    ensures
        value == decimal_value(digits@),
{
    let mut value: u32 = 0;
    for c in it: digits.chars()
        invariant
            it.seq() == digits@,
            value == decimal_value(digits@.take(it.index() as int)),
    {
        proof {
            let prefix = digits@.take(it.index() as int + 1);
            assert(prefix.drop_last() =~= digits@.take(it.index() as int));
            assert(prefix.last() == c);
        }
        value = value.wrapping_mul(10).wrapping_add((c as u32).wrapping_sub('0' as u32));
    }
    assert(digits@.take(digits@.len() as int) =~= digits@);
    value
}

/// The character that stands for the digit `d`.
pub open spec fn digit_char(d: nat) -> char
    recommends
        d < 10,
{
    (d + '0' as nat) as char
}

/// The decimal text of `n`, without leading zeros.
pub open spec fn decimal_digits(n: nat) -> Seq<char>
    decreases n,
{
    if n < 10 {
        seq![digit_char(n)]
    } else {
        decimal_digits(n / 10).push(digit_char(n % 10))
    }
}

/// Appends the decimal text of `n` to `out`.
pub fn push_decimal(out: &mut String, n: u32)
    ensures
        final(out)@ == old(out)@ + decimal_digits(n as nat),
    decreases n,
{
    if n >= 10 {
        push_decimal(out, n / 10);
    }
    let digit: u8 = (n % 10) as u8;
    out.push((digit + 48u8) as char);
    assert(out@ =~= old(out)@ + decimal_digits(n as nat));
}

} // verus!
