//! Building blocks for textual forms: decimal and hexadecimal numbers.

use vstd::prelude::*;
use vstd::string::*;

verus! {

/// The character that stands for the digit `d` in base sixteen, in lower case.
pub open spec fn hex_digit(d: int) -> char {
    if d == 0 {
        '0'
    } else if d == 1 {
        '1'
    } else if d == 2 {
        '2'
    } else if d == 3 {
        '3'
    } else if d == 4 {
        '4'
    } else if d == 5 {
        '5'
    } else if d == 6 {
        '6'
    } else if d == 7 {
        '7'
    } else if d == 8 {
        '8'
    } else if d == 9 {
        '9'
    } else if d == 10 {
        'a'
    } else if d == 11 {
        'b'
    } else if d == 12 {
        'c'
    } else if d == 13 {
        'd'
    } else if d == 14 {
        'e'
    } else {
        'f'
    }
}

/// The character that stands for the digit `d` in base sixteen, in upper case.
pub open spec fn hex_digit_upper(d: int) -> char {
    if d == 10 {
        'A'
    } else if d == 11 {
        'B'
    } else if d == 12 {
        'C'
    } else if d == 13 {
        'D'
    } else if d == 14 {
        'E'
    } else if d == 15 {
        'F'
    } else {
        hex_digit(d)
    }
}

/// The decimal form of `n`, most significant digit first, without padding.
pub open spec fn decimal(n: nat) -> Seq<char>
    decreases n,
{
    if n < 10 {
        seq![hex_digit(n as int)]
    } else {
        decimal(n / 10) + seq![hex_digit((n % 10) as int)]
    }
}

/// The hexadecimal form of `n` in lower case, most significant digit first,
/// without prefix or padding.
pub open spec fn hexadecimal(n: nat) -> Seq<char>
    decreases n,
{
    if n < 16 {
        seq![hex_digit(n as int)]
    } else {
        hexadecimal(n / 16) + seq![hex_digit((n % 16) as int)]
    }
}

/// The form `0x..` of `n`, with at least two hexadecimal digits.
pub open spec fn hex_prefixed(n: nat) -> Seq<char> {
    if n < 16 {
        seq!['0', 'x', '0'] + hexadecimal(n)
    } else {
        seq!['0', 'x'] + hexadecimal(n)
    }
}

/// The two upper-case hexadecimal digits of one byte.
pub open spec fn hex_byte_upper(b: u8) -> Seq<char> {
    seq![hex_digit_upper(b as int / 16), hex_digit_upper(b as int % 16)]
}

/// The one-character text of a digit below sixteen, in lower case.
pub fn digit_text(d: u8) -> (s: &'static str)
    requires
        d < 16,
    ensures
        s@ == seq![hex_digit(d as int)],
{
    proof {
        reveal_strlit("0");
        reveal_strlit("1");
        reveal_strlit("2");
        reveal_strlit("3");
        reveal_strlit("4");
        reveal_strlit("5");
        reveal_strlit("6");
        reveal_strlit("7");
        reveal_strlit("8");
        reveal_strlit("9");
        reveal_strlit("a");
        reveal_strlit("b");
        reveal_strlit("c");
        reveal_strlit("d");
        reveal_strlit("e");
        reveal_strlit("f");
    }
    let s = match d {
        0 => "0",
        1 => "1",
        2 => "2",
        3 => "3",
        4 => "4",
        5 => "5",
        6 => "6",
        7 => "7",
        8 => "8",
        9 => "9",
        10 => "a",
        11 => "b",
        12 => "c",
        13 => "d",
        14 => "e",
        _ => "f",
    };
    assert(s@ =~= seq![hex_digit(d as int)]);
    s
}

/// The one-character text of a digit below sixteen, in upper case.
pub fn digit_text_upper(d: u8) -> (s: &'static str)
    requires
        d < 16,
    ensures
        s@ == seq![hex_digit_upper(d as int)],
{
    proof {
        reveal_strlit("A");
        reveal_strlit("B");
        reveal_strlit("C");
        reveal_strlit("D");
        reveal_strlit("E");
        reveal_strlit("F");
    }
    let s = match d {
        10 => "A",
        11 => "B",
        12 => "C",
        13 => "D",
        14 => "E",
        15 => "F",
        _ => digit_text(d),
    };
    assert(s@ =~= seq![hex_digit_upper(d as int)]);
    s
}

/// Appends the decimal form of `n` to `out`.
pub fn push_decimal(out: &mut String, n: u128)
    ensures
        final(out)@ == old(out)@ + decimal(n as nat),
    decreases n,
{
    if n >= 10 {
        push_decimal(out, n / 10);
    }
    let d: u8 = (n % 10) as u8;
    out.append(digit_text(d));
    assert(out@ =~= old(out)@ + decimal(n as nat));
}

/// Appends the lower-case hexadecimal form of `n` to `out`.
pub fn push_hexadecimal(out: &mut String, n: u16)
    ensures
        final(out)@ == old(out)@ + hexadecimal(n as nat),
    decreases n,
{
    if n >= 16 {
        push_hexadecimal(out, n / 16);
    }
    let d: u8 = (n % 16) as u8;
    out.append(digit_text(d));
    assert(out@ =~= old(out)@ + hexadecimal(n as nat));
}

/// Appends `0x` and the hexadecimal form of `n`, two digits at least.
pub fn push_hex_prefixed(out: &mut String, n: u16)
    ensures
        final(out)@ == old(out)@ + hex_prefixed(n as nat),
{
    proof {
        reveal_strlit("0x");
        reveal_strlit("0x0");
    }
    if n < 16 {
        out.append("0x0");
    } else {
        out.append("0x");
    }
    push_hexadecimal(out, n);
    assert(out@ =~= old(out)@ + hex_prefixed(n as nat));
}

/// Appends the two upper-case hexadecimal digits of `b` to `out`.
pub fn push_hex_byte_upper(out: &mut String, b: u8)
    ensures
        final(out)@ == old(out)@ + hex_byte_upper(b),
{
    out.append(digit_text_upper(b / 16));
    out.append(digit_text_upper(b % 16));
    assert(out@ =~= old(out)@ + hex_byte_upper(b));
}

/// The two lower-case hexadecimal digits of one byte.
pub open spec fn hex_byte(b: u8) -> Seq<char> {
    seq![hex_digit(b as int / 16), hex_digit(b as int % 16)]
}

/// The lower-case hexadecimal digits of the first `n` bytes, two for each.
pub open spec fn hex_text(bytes: Seq<u8>, n: int) -> Seq<char>
    decreases n,
{
    if n <= 0 {
        Seq::empty()
    } else {
        hex_text(bytes, n - 1) + hex_byte(bytes[n - 1])
    }
}

/// Appends the lower-case hexadecimal digits of `bytes` to `out`.
pub fn push_hex_text(out: &mut String, bytes: &[u8])
    ensures
        final(out)@ == old(out)@ + hex_text(bytes@, bytes@.len() as int),
{
    let mut i: usize = 0;
    while i < bytes.len()
        invariant
            i <= bytes.len(),
            out@ == old(out)@ + hex_text(bytes@, i as int),
        decreases bytes.len() - i,
    {
        let b = bytes[i];
        out.append(digit_text(b / 16));
        out.append(digit_text(b % 16));
        assert(out@ =~= old(out)@ + hex_text(bytes@, i + 1));
        i += 1;
    }
}

} // verus!
