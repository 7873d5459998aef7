//! Bytes as text, for diagnostics.

use vstd::prelude::*;

verus! {

/// The sixteen upper-case hexadecimal digits, in order.
pub open spec fn hex_digits() -> Seq<char> {
    seq!['0', '1', '2', '3', '4', '5', '6', '7', '8', '9', 'A', 'B', 'C', 'D', 'E', 'F']
}

/// The upper-case hexadecimal digit for a value below sixteen.
pub open spec fn hex_digit_of(nibble: int) -> char
    recommends
        0 <= nibble < 16,
{
    hex_digits()[nibble]
}

/// The text for `bytes`: two upper-case hexadecimal digits for each byte, the
/// high half first, with nothing between the bytes.
pub open spec fn hex_of(bytes: Seq<u8>) -> Seq<char> {
    Seq::new(
        2 * bytes.len(),
        |i: int|
            if i % 2 == 0 {
                hex_digit_of(bytes[i / 2] as int / 16)
            } else {
                hex_digit_of(bytes[i / 2] as int % 16)
            },
    )
}

fn hex_digit(nibble: u8) -> (digit: &'static str)
    requires
        nibble < 16,
    ensures
        digit@ == seq![hex_digit_of(nibble as int)],
{
    proof {
        reveal_strlit("0");
        reveal_strlit("1");
        reveal_strlit("2");
        reveal_strlit("3");
        reveal_strlit("4");
        reveal_strlit("5");
        reveal_strlit("6");
        reveal_strlit("7");
        reveal_strlit("8");
        reveal_strlit("9");
        reveal_strlit("A");
        reveal_strlit("B");
        reveal_strlit("C");
        reveal_strlit("D");
        reveal_strlit("E");
        reveal_strlit("F");
    }
    let digit: &'static str = if nibble == 0 {
        "0"
    } else if nibble == 1 {
        "1"
    } else if nibble == 2 {
        "2"
    } else if nibble == 3 {
        "3"
    } else if nibble == 4 {
        "4"
    } else if nibble == 5 {
        "5"
    } else if nibble == 6 {
        "6"
    } else if nibble == 7 {
        "7"
    } else if nibble == 8 {
        "8"
    } else if nibble == 9 {
        "9"
    } else if nibble == 10 {
        "A"
    } else if nibble == 11 {
        "B"
    } else if nibble == 12 {
        "C"
    } else if nibble == 13 {
        "D"
    } else if nibble == 14 {
        "E"
    } else {
        "F"
    };
    assert(digit@ =~= seq![hex_digit_of(nibble as int)]);
    digit
}

/// Writes bytes as upper-case hexadecimal text.
pub fn to_hex_str(bytes: &[u8]) -> (text: String)
    ensures
        text@ == hex_of(bytes@),
{
    proof {
        reveal_strlit("");
    }
    let mut text: String = String::from_str("");
    let mut i: usize = 0;
    while i < bytes.len()
        invariant
            i <= bytes@.len(),
            text@.len() == 2 * i,
            forall|k: int| 0 <= k < text@.len() ==> text@[k] == hex_of(bytes@)[k],
        decreases bytes@.len() - i,
    {
        let byte: u8 = bytes[i];
        text.append(hex_digit(byte / 16));
        text.append(hex_digit(byte % 16));
        i += 1;
    }
    assert(text@ =~= hex_of(bytes@));
    text
}

} // verus!
