//! Text for people: numbers in decimal and codes in quotes.

use vstd::prelude::*;

verus! {

/// Appends a character to a string: `String::push` of the standard library, whose
/// documentation says just that.
pub assume_specification[ String::push ](s: &mut String, ch: char)
    ensures
        final(s)@ == old(s)@.push(ch),
;

/// The decimal digits of a natural number, without leading zeros.
pub open spec fn digits(n: nat) -> Seq<char>
    decreases n,
{
    if n < 10 {
        seq![(0x30 + n) as u8 as char]
    } else {
        digits(n / 10).push((0x30 + n % 10) as u8 as char)
    }
}

/// An integer in decimal, with a minus sign where it is below zero.
pub open spec fn decimal(v: int) -> Seq<char> {
    if v < 0 {
        seq!['-'] + digits((-v) as nat)
    } else {
        digits(v as nat)
    }
}

/// Appends the decimal digits of a number.
pub(crate) fn push_digits(s: &mut String, n: u64)
    ensures
        final(s)@ == old(s)@ + digits(n as nat),
    decreases n,
{
    if n < 10 {
        s.push((0x30 + n as u8) as char);
        assert(s@ =~= old(s)@ + digits(n as nat));
    } else {
        push_digits(s, n / 10);
        s.push((0x30 + (n % 10) as u8) as char);
        assert(s@ =~= old(s)@ + digits(n as nat));
    }
}

/// Appends an integer in decimal.
pub(crate) fn push_decimal(s: &mut String, v: i64)
    ensures
        final(s)@ == old(s)@ + decimal(v as int),
{
    if v < 0 {
        s.push('-');
        let n: u64 = if v == i64::MIN {
            0x8000_0000_0000_0000
        } else {
            (-v) as u64
        };
        push_digits(s, n);
        assert(s@ =~= old(s)@ + decimal(v as int));
    } else {
        push_digits(s, v as u64);
    }
}

/// The character that shows a byte of a code: itself where it is printable, and
/// the replacement character where it is not.
pub open spec fn shown(b: u8) -> char {
    if b <= 0x1f || b >= 0x7f {
        '\u{fffd}'
    } else {
        b as char
    }
}

/// Four bytes in quotes, each shown as its character; a quote among them is
/// marked by a backslash.
pub open spec fn quoted(b: Seq<u8>) -> Seq<char>
    recommends
        b.len() == 4,
{
    seq!['"'] + escaped(b[0]) + escaped(b[1]) + escaped(b[2]) + escaped(b[3]) + seq!['"']
}

/// The characters that show a byte between quotes.
pub open spec fn escaped(b: u8) -> Seq<char> {
    if b == 0x22 {
        seq!['\\', '"']
    } else {
        seq![shown(b)]
    }
}

/// Appends the characters that show a byte between quotes.
pub(crate) fn push_escaped(s: &mut String, b: u8)
    ensures
        final(s)@ == old(s)@ + escaped(b),
{
    if b == 0x22 {
        s.push('\\');
        s.push('"');
    } else if b <= 0x1f || b >= 0x7f {
        s.push('\u{fffd}');
    } else {
        s.push(b as char);
    }
    assert(s@ =~= old(s)@ + escaped(b));
}

/// Appends four bytes in quotes.
pub(crate) fn push_quoted(s: &mut String, b: [u8; 4])
    ensures
        final(s)@ == old(s)@ + quoted(b@),
{
    s.push('"');
    push_escaped(s, b[0]);
    push_escaped(s, b[1]);
    push_escaped(s, b[2]);
    push_escaped(s, b[3]);
    s.push('"');
    assert(s@ =~= old(s)@ + quoted(b@));
}

} // verus!
