//! Writing numbers and bytes as text.

use vstd::prelude::*;
use vstd::string::*;

verus! {

/// The character of a digit below sixteen, in lower case.
pub open spec fn digit_char(d: int) -> char {
    if d == 0 {
        '0'
    } else if d == 1 {
        '1'
    } else if d == 2 {
        '2'
    } else if d == 3 {
        '3'
    } else if d == 4 {
        '4'
    } else if d == 5 {
        '5'
    } else if d == 6 {
        '6'
    } else if d == 7 {
        '7'
    } else if d == 8 {
        '8'
    } else if d == 9 {
        '9'
    } else if d == 10 {
        'a'
    } else if d == 11 {
        'b'
    } else if d == 12 {
        'c'
    } else if d == 13 {
        'd'
    } else if d == 14 {
        'e'
    } else {
        'f'
    }
}

/// The bytes of `bytes` in hexadecimal, two lower-case digits each.
pub open spec fn spec_hex(bytes: Seq<u8>) -> Seq<char>
    decreases bytes.len(),
{
    if bytes.len() == 0 {
        Seq::empty()
    } else {
        spec_hex(bytes.drop_last()) + seq![
            digit_char(bytes.last() as int / 16),
            digit_char(bytes.last() as int % 16),
        ]
    }
}

/// The decimal digits of `n`, without leading zeros.
pub open spec fn spec_decimal(n: nat) -> Seq<char>
    decreases n,
{
    if n < 10 {
        seq![digit_char(n as int)]
    } else {
        spec_decimal(n / 10) + seq![digit_char((n % 10) as int)]
    }
}

/// A version number in decimal, with a leading zero below ten.
pub open spec fn spec_two_digits(v: u8) -> Seq<char> {
    if v < 10 {
        seq!['0'] + spec_decimal(v as nat)
    } else {
        spec_decimal(v as nat)
    }
}

/// The one-character text of a digit below sixteen.
pub(crate) fn digit_str(d: u8) -> (s: &'static str)
    requires
        d < 16,
    ensures
        s@ == seq![digit_char(d as int)],
{
    proof {
        reveal_strlit("0");
        reveal_strlit("1");
        reveal_strlit("2");
        reveal_strlit("3");
        reveal_strlit("4");
        reveal_strlit("5");
        reveal_strlit("6");
        reveal_strlit("7");
        reveal_strlit("8");
        reveal_strlit("9");
        reveal_strlit("a");
        reveal_strlit("b");
        reveal_strlit("c");
        reveal_strlit("d");
        reveal_strlit("e");
        reveal_strlit("f");
    }
    let s = match d {
        0 => "0",
        1 => "1",
        2 => "2",
        3 => "3",
        4 => "4",
        5 => "5",
        6 => "6",
        7 => "7",
        8 => "8",
        9 => "9",
        10 => "a",
        11 => "b",
        12 => "c",
        13 => "d",
        14 => "e",
        _ => "f",
    };
    s
}

/// Appends the bytes in hexadecimal.
pub fn push_hex(out: &mut String, bytes: &[u8])
    ensures
        final(out)@ == old(out)@ + spec_hex(bytes@),
{
    let mut i: usize = 0;
    while i < bytes.len()
        invariant
            i <= bytes@.len(),
            out@ == old(out)@ + spec_hex(bytes@.take(i as int)),
        decreases bytes@.len() - i,
    {
        let b = bytes[i];
        out.append(digit_str(b / 16));
        out.append(digit_str(b % 16));
        proof {
            let next = bytes@.take(i + 1);
            assert(next.drop_last() =~= bytes@.take(i as int));
            assert(out@ =~= old(out)@ + spec_hex(next));
        }
        i += 1;
    }
    assert(bytes@.take(i as int) =~= bytes@);
}

/// Appends a version number in decimal, with a leading zero below ten.
pub fn push_two_digits(out: &mut String, v: u8)
    ensures
        final(out)@ == old(out)@ + spec_two_digits(v),
{
    proof {
        reveal_strlit("0");
        assert("0"@ =~= seq!['0']);
    }
    if v < 10 {
        out.append("0");
        out.append(digit_str(v));
        assert(out@ =~= old(out)@ + spec_two_digits(v));
    } else if v < 100 {
        out.append(digit_str(v / 10));
        out.append(digit_str(v % 10));
    } else {
        out.append(digit_str(v / 100));
        out.append(digit_str((v / 10) % 10));
        out.append(digit_str(v % 10));
        assert(spec_decimal((v / 100) as nat) =~= seq![digit_char(v as int / 100)]);
        assert(spec_decimal((v / 10) as nat) =~= seq![
            digit_char(v as int / 100),
            digit_char((v as int / 10) % 10),
        ]);
    }
}

} // verus!
