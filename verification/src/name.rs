//! Names for new memory objects: a slash and two random 64-bit numbers in
//! lower-case hexadecimal.

use vstd::prelude::*;

verus! {

/// Appends one character to a string.
///
/// Stands for `String::push` of the standard library, which is documented to
/// append the given character to the end of the string.
pub assume_specification[ String::push ](text: &mut String, ch: char)
    ensures
        final(text)@ == old(text)@.push(ch),
;

/// Draws one 64-bit number from the thread's random generator.
///
/// Stands for `rand::random::<u64>()`, which samples the thread-local
/// generator seeded by the operating system. Nothing is claimed of the number
/// drawn. The generator panics if the operating system cannot seed it.
#[verifier::external_body]
fn random_word() -> (word: u64) {
    rand::random::<u64>()
}

/// The sixteen hexadecimal digits, in order of their value.
pub const HEX_DIGITS: &'static str = "0123456789abcdef";

/// The lower-case hexadecimal digit for a value below sixteen: the character
/// at that place among the sixteen digits.
pub open spec fn hex_char(digit: nat) -> char
    recommends
        digit < 16,
{
    HEX_DIGITS@[digit as int]
}

/// A number in lower-case hexadecimal, without leading zeros.
pub open spec fn hex_text(value: nat) -> Seq<char>
    decreases value,
{
    if value < 16 {
        seq![hex_char(value)]
    } else {
        hex_text(value / 16).push(hex_char(value % 16))
    }
}

/// The name made of the two numbers `a` and `b`.
pub open spec fn object_name(a: u64, b: u64) -> Seq<char> {
    seq!['/'] + hex_text(a as nat) + hex_text(b as nat)
}

/// The lower-case hexadecimal digit for a value below sixteen.
pub fn hex_digit(digit: u8) -> (ch: char)
    requires
        digit < 16,
    ensures
        ch == hex_char(digit as nat),
{
    proof {
        reveal_strlit("0123456789abcdef");
    }
    if digit == 0 {
        '0'
    } else if digit == 1 {
        '1'
    } else if digit == 2 {
        '2'
    } else if digit == 3 {
        '3'
    } else if digit == 4 {
        '4'
    } else if digit == 5 {
        '5'
    } else if digit == 6 {
        '6'
    } else if digit == 7 {
        '7'
    } else if digit == 8 {
        '8'
    } else if digit == 9 {
        '9'
    } else if digit == 10 {
        'a'
    } else if digit == 11 {
        'b'
    } else if digit == 12 {
        'c'
    } else if digit == 13 {
        'd'
    } else if digit == 14 {
        'e'
    } else {
        'f'
    }
}

/// Appends `value` in lower-case hexadecimal to `text`.
pub fn push_hex(text: &mut String, value: u64)
    ensures
        final(text)@ == old(text)@ + hex_text(value as nat),
    decreases value,
{
    if value >= 16 {
        push_hex(text, value / 16);
    }
    let digit: u8 = (value % 16) as u8;
    text.push(hex_digit(digit));
    assert(text@ =~= old(text)@ + hex_text(value as nat));
}

/// The name of a memory object made of the two numbers `a` and `b`.
pub fn name_from(a: u64, b: u64) -> (name: String)
    ensures
        name@ == object_name(a, b),
{
    let mut name = String::new();
    name.push('/');
    push_hex(&mut name, a);
    push_hex(&mut name, b);
    assert(name@ =~= object_name(a, b));
    name
}

/// A name made of two numbers drawn at random.
pub fn fresh_name() -> (name: String)
    ensures
        exists|a: u64, b: u64| name@ == object_name(a, b),
{
    let a: u64 = random_word();
    let b: u64 = random_word();
    name_from(a, b)
}

} // verus!
