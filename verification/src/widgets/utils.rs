//! Colors written as `#rrggbb` strings.
use vstd::prelude::*;
use vstd::string::StrSliceExecFns;

verus! {

/// An opaque color by its red, green and blue bytes.
#[derive(Debug, Clone, Copy, PartialEq, Eq, Structural)]
pub struct Rgb8 {
    pub r: u8,
    pub g: u8,
    pub b: u8,
}

/// Whether `c` is a hexadecimal digit, in either case.
pub open spec fn is_hex_digit(c: char) -> bool {
    ('0' <= c <= '9') || ('a' <= c <= 'f') || ('A' <= c <= 'F')
}

/// The value of the hexadecimal digit `c`.
pub open spec fn hex_value(c: char) -> int {
    if '0' <= c <= '9' {
        c as int - '0' as int
    } else if 'a' <= c <= 'f' {
        c as int - 'a' as int + 10
    } else {
        c as int - 'A' as int + 10
    }
}

/// Whether two characters read as a byte in base 16: two digits, or a plus
/// sign and one digit.
pub open spec fn is_hex_byte(c0: char, c1: char) -> bool {
    (c0 == '+' || is_hex_digit(c0)) && is_hex_digit(c1)
}

/// The byte two characters spell in base 16 (a leading plus sign is a sign).
pub open spec fn hex_byte(c0: char, c1: char) -> int {
    if c0 == '+' {
        hex_value(c1)
    } else {
        16 * hex_value(c0) + hex_value(c1)
    }
}

/// Whether `color` starts with one ASCII character and three bytes in base 16.
pub open spec fn is_color_str(color: Seq<char>) -> bool {
    &&& color.len() >= 7
    &&& forall|i: int| 0 <= i < 7 ==> (#[trigger] color[i]) < 128
    &&& is_hex_byte(color[1], color[2])
    &&& is_hex_byte(color[3], color[4])
    &&& is_hex_byte(color[5], color[6])
}

fn hex_digit(c: char) -> (r: u8)
    requires
        is_hex_digit(c),
    ensures
        r == hex_value(c),
{
    if '0' <= c && c <= '9' {
        (c as u32 - '0' as u32) as u8
    } else if 'a' <= c && c <= 'f' {
        (c as u32 - 'a' as u32 + 10) as u8
    } else {
        (c as u32 - 'A' as u32 + 10) as u8
    }
}

fn parse_hex_byte(c0: char, c1: char) -> (r: u8)
    requires
        is_hex_byte(c0, c1),
    ensures
        r == hex_byte(c0, c1),
{
    let low = hex_digit(c1);
    if c0 == '+' {
        low
    } else {
        let high = hex_digit(c0);
        high * 16 + low
    }
}

/// The color a string such as `"#797986"` names: the bytes at positions 1-2,
/// 3-4 and 5-6 read in base 16 as red, green and blue.
pub fn color_from_str(color: &str) -> (r: Rgb8)
    requires
        is_color_str(color@),
    ensures
        r.r == hex_byte(color@[1], color@[2]),
        r.g == hex_byte(color@[3], color@[4]),
        r.b == hex_byte(color@[5], color@[6]),
{
    let red = parse_hex_byte(color.get_char(1), color.get_char(2));
    let green = parse_hex_byte(color.get_char(3), color.get_char(4));
    let blue = parse_hex_byte(color.get_char(5), color.get_char(6));
    Rgb8 { r: red, g: green, b: blue }
}

} // verus!
