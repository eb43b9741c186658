//! Bytes as text: hexadecimal digits, and byte strings with what is not ASCII
//! written in hexadecimal.
use vstd::prelude::*;

verus! {

/// `String::push` appends one character at the end.
pub assume_specification[ String::push ](s: &mut String, ch: char)
    ensures
        final(s)@ == old(s)@.push(ch),
;

/// The hexadecimal digit for `n`, a capital letter from ten on where `upper`
/// holds and a small one where not.
pub open spec fn hex_digit(n: int, upper: bool) -> char {
    if n < 10 {
        (0x30 + n) as char
    } else if upper {
        (0x41 + n - 10) as char
    } else {
        (0x61 + n - 10) as char
    }
}

/// The two hexadecimal digits of a byte, the higher one first.
pub open spec fn hex_byte(b: u8, upper: bool) -> Seq<char> {
    seq![hex_digit(b as int / 16, upper), hex_digit(b as int % 16, upper)]
}

/// A byte as text: the character itself where it is ASCII, else its two
/// hexadecimal digits in capitals.
pub open spec fn escaped_byte(b: u8) -> Seq<char> {
    if b < 0x80 {
        seq![b as char]
    } else {
        hex_byte(b, true)
    }
}

/// A byte string as text: each byte as `escaped_byte` gives it, one space
/// between two bytes.
pub open spec fn escaped(bytes: Seq<u8>) -> Seq<char>
    decreases bytes.len(),
{
    if bytes.len() == 0 {
        Seq::empty()
    } else if bytes.len() == 1 {
        escaped_byte(bytes[0])
    } else {
        escaped(bytes.drop_last()) + seq![' '] + escaped_byte(bytes.last())
    }
}

/// What is said of a file that does not start with the bytes `expected`:
/// those bytes and the first bytes found in their place, both as text.
pub open spec fn preamble_text(expected: Seq<u8>, found: Seq<u8>) -> Seq<char> {
    "invalid preamble, expected \""@ + escaped(expected) + "\", found \""@ + escaped(found)
        + "\""@
}

/// A number in decimal digits, without leading zeros.
pub open spec fn decimal(n: nat) -> Seq<char>
    decreases n,
{
    if n < 10 {
        seq![hex_digit(n as int, true)]
    } else {
        decimal(n / 10) + seq![hex_digit((n % 10) as int, true)]
    }
}

/// The character of one hexadecimal digit.
pub fn hex_char(n: u8, upper: bool) -> (c: char)
    requires
        n < 16,
    ensures
        c == hex_digit(n as int, upper),
{
    if n < 10 {
        (0x30 + n) as char
    } else if upper {
        (0x41 + (n - 10)) as char
    } else {
        (0x61 + (n - 10)) as char
    }
}

/// Appends the two hexadecimal digits of `b` to `text`.
pub fn push_hex_byte(text: &mut String, b: u8, upper: bool)
    ensures
        final(text)@ == old(text)@ + hex_byte(b, upper),
{
    text.push(hex_char(b / 16, upper));
    text.push(hex_char(b % 16, upper));
    assert(text@ == old(text)@ + hex_byte(b, upper));
}

/// Appends `n` in decimal digits to `text`.
pub fn push_decimal(text: &mut String, n: usize)
    ensures
        final(text)@ == old(text)@ + decimal(n as nat),
    decreases n,
{
    if n >= 10 {
        push_decimal(text, n / 10);
    }
    text.push(hex_char((n % 10) as u8, true));
    assert(text@ == old(text)@ + decimal(n as nat));
}

/// Writes a byte string as text, what is not ASCII in hexadecimal.
pub fn escape_non_ascii(bytes: &[u8]) -> (text: String)
    ensures
        text@ == escaped(bytes@),
{
    let mut text = String::new();
    let mut i: usize = 0;
    while i < bytes.len()
        invariant
            i <= bytes@.len(),
            text@ == escaped(bytes@.take(i as int)),
        decreases bytes@.len() - i,
    {
        let ghost before = text@;
        if i > 0 {
            text.push(' ');
        }
        let b: u8 = bytes[i];
        if b < 0x80 {
            text.push(b as char);
        } else {
            push_hex_byte(&mut text, b, true);
        }
        i += 1;
        proof {
            let now = bytes@.take(i as int);
            assert(now.drop_last() == bytes@.take(i - 1));
            assert(now.last() == b);
            if i == 1 {
                assert(text@ == escaped_byte(b));
            } else {
                assert(text@ == before + seq![' '] + escaped_byte(b));
            }
        }
    }
    assert(bytes@.take(i as int) == bytes@);
    text
}

/// Says of a file that it does not start with the bytes `expected`, but
/// with `found`.
pub fn preamble_message(expected: &[u8], found: &[u8]) -> (text: String)
    ensures
        text@ == preamble_text(expected@, found@),
{
    let mut text = String::from_str("invalid preamble, expected \"");
    text.append(escape_non_ascii(expected).as_str());
    text.append("\", found \"");
    text.append(escape_non_ascii(found).as_str());
    text.append("\"");
    text
}

} // verus!
