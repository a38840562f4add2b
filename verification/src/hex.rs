//! Lowercase hexadecimal rendering of byte sequences: two characters per
//! byte, most-significant nibble first within each byte, bytes in order.

use vstd::prelude::*;

verus! {

/// The lowercase hexadecimal character of a nibble.
pub open spec fn hex_char(n: u8) -> char
    recommends
        n < 16,
{
    if n == 0 { '0' } else if n == 1 { '1' } else if n == 2 { '2' } else if n == 3 { '3' }
    else if n == 4 { '4' } else if n == 5 { '5' } else if n == 6 { '6' } else if n == 7 { '7' }
    else if n == 8 { '8' } else if n == 9 { '9' } else if n == 10 { 'a' } else if n == 11 { 'b' }
    else if n == 12 { 'c' } else if n == 13 { 'd' } else if n == 14 { 'e' } else { 'f' }
}

/// The hexadecimal rendering of a byte sequence: character `2i` is the high
/// nibble of byte `i`, character `2i + 1` its low nibble.
pub open spec fn hex_of(bytes: Seq<u8>) -> Seq<char> {
    Seq::new(
        bytes.len() * 2,
        |i: int| if i % 2 == 0 { hex_char(bytes[i / 2] / 16) } else { hex_char(bytes[i / 2] % 16) },
    )
}

/// Relies on `String::push`: appends the given character to the end of the
/// string.
#[verifier::external_body]
fn push_char(s: &mut String, c: char)
    ensures
        final(s)@ == old(s)@ + seq![c],
{
    s.push(c);
}

/// The lowercase hexadecimal character of a nibble.
pub fn hex_char_of(n: u8) -> (c: char)
    requires
        n < 16,
    ensures
        c == hex_char(n),
{
    if n == 0 { '0' } else if n == 1 { '1' } else if n == 2 { '2' } else if n == 3 { '3' }
    else if n == 4 { '4' } else if n == 5 { '5' } else if n == 6 { '6' } else if n == 7 { '7' }
    else if n == 8 { '8' } else if n == 9 { '9' } else if n == 10 { 'a' } else if n == 11 { 'b' }
    else if n == 12 { 'c' } else if n == 13 { 'd' } else if n == 14 { 'e' } else { 'f' }
}

/// Render a byte slice as lowercase hexadecimal, two characters per byte.
#[verifier::loop_isolation(false)]
pub fn to_hex_string(bytes: &[u8]) -> (r: String)
    ensures
        r@ == hex_of(bytes@),
{
    let mut r = String::new();
    let mut i: usize = 0;
    while i < bytes.len()
        invariant
            i <= bytes@.len(),
            r@ == hex_of(bytes@.take(i as int)),
        decreases bytes@.len() - i,
    {
        let b = bytes[i];
        let hi = hex_char_of(b / 16);
        let lo = hex_char_of(b % 16);
        push_char(&mut r, hi);
        push_char(&mut r, lo);
        proof {
            assert(hex_of(bytes@.take(i as int)) + seq![hex_char(bytes@[i as int] / 16)] + seq![
                hex_char(bytes@[i as int] % 16),
            ] =~= hex_of(bytes@.take(i + 1)));
        }
        i += 1;
    }
    proof {
        assert(bytes@.take(bytes@.len() as int) =~= bytes@);
    }
    r
}

} // verus!
