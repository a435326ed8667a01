//! Percent-encoding of the text that a rule copies from the URI into its target.
use vstd::prelude::*;
use vstd::utf8::encode_utf8;

use crate::text::string_of;

verus! {

/// The bytes that are percent-encoded: the controls, every non-ASCII byte, and the
/// characters that delimit parts of a URL (`/`, `?`, `#`, `&`, `=` and others), so
/// that copied text cannot introduce new path, query or fragment structure.
pub open spec fn escaped_byte(b: u8) -> bool {
    b < 0x20 || b >= 0x7f || b == 0x20 || b == 0x22 || b == 0x23 || b == 0x24 || b == 0x26
        || b == 0x27 || b == 0x2b || b == 0x2c || b == 0x2f || b == 0x3a || b == 0x3b || b
        == 0x3c || b == 0x3d || b == 0x3e || b == 0x3f || b == 0x40 || b == 0x5b || b == 0x5d
        || b == 0x5e || b == 0x60 || b == 0x7b || b == 0x7d || b == 0x7e
}

/// Whether a byte is percent-encoded.
pub fn is_escaped_byte(b: u8) -> (r: bool)
    ensures
        r == escaped_byte(b),
{
    b < 0x20 || b >= 0x7f || b == 0x20 || b == 0x22 || b == 0x23 || b == 0x24 || b == 0x26 || b
        == 0x27 || b == 0x2b || b == 0x2c || b == 0x2f || b == 0x3a || b == 0x3b || b == 0x3c || b
        == 0x3d || b == 0x3e || b == 0x3f || b == 0x40 || b == 0x5b || b == 0x5d || b == 0x5e || b
        == 0x60 || b == 0x7b || b == 0x7d || b == 0x7e
}

/// The upper-case hexadecimal digit for `d`.
pub open spec fn hex_digit(d: u8) -> char {
    if d < 10 {
        ((d as u32) + ('0' as u32)) as char
    } else {
        ((d as u32) - 10 + ('A' as u32)) as char
    }
}

fn hex_digit_exec(d: u8) -> (c: char)
    requires
        d < 16,
    ensures
        c == hex_digit(d),
{
    let table: [char; 16] = [
        '0', '1', '2', '3', '4', '5', '6', '7', '8', '9', 'A', 'B', 'C', 'D', 'E', 'F',
    ];
    let c = table[d as usize];
    assert(c == hex_digit(d)) by {
        assert(table@[d as int] == hex_digit(d));
    }
    c
}

/// How one byte is written: itself, or `%` and two hexadecimal digits.
pub open spec fn byte_text(b: u8) -> Seq<char> {
    if escaped_byte(b) {
        seq!['%', hex_digit(b / 16), hex_digit(b % 16)]
    } else {
        seq![b as char]
    }
}

/// The percent-encoding of a byte sequence.
pub open spec fn percent_bytes(bs: Seq<u8>) -> Seq<char>
    decreases bs.len(),
{
    if bs.len() == 0 {
        Seq::empty()
    } else {
        percent_bytes(bs.drop_last()) + byte_text(bs.last())
    }
}

/// The percent-encoding of the UTF-8 bytes of `s`.
pub open spec fn escaped(s: Seq<char>) -> Seq<char> {
    percent_bytes(encode_utf8(s))
}

/// Percent-encodes the UTF-8 bytes of `s` that [`escaped_byte`] names.
pub fn percent_encode(s: &str) -> (r: String)
    ensures
        r@ == escaped(s@),
{
    let bytes = s.as_bytes();
    let mut out: Vec<char> = Vec::new();
    let mut i: usize = 0;
    while i < bytes.len()
        invariant
            i <= bytes@.len(),
            bytes@ == encode_utf8(s@),
            out@ == percent_bytes(bytes@.subrange(0, i as int)),
        decreases bytes@.len() - i,
    {
        let b = bytes[i];
        let ghost before = out@;
        if is_escaped_byte(b) {
            out.push('%');
            out.push(hex_digit_exec(b / 16));
            out.push(hex_digit_exec(b % 16));
        } else {
            out.push(b as char);
        }
        proof {
            assert(bytes@.subrange(0, i + 1).drop_last() =~= bytes@.subrange(0, i as int));
            assert(out@ =~= before + byte_text(b));
        }
        i = i + 1;
    }
    proof {
        assert(bytes@.subrange(0, i as int) =~= bytes@);
    }
    string_of(out.as_slice())
}

} // verus!
