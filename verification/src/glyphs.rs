use vstd::prelude::*;

verus! {

/// The 5 by 7 bitmap of a character for the block text renderer: seven rows of five
/// cells, `1` for an inked cell. Lower-case letters share the upper-case glyphs; a
/// character without a glyph gets a placeholder block.
pub open spec fn glyph_spec(ch: char) -> [&'static str; 7] {
    match ch {
        'A' | 'a' => ["01110", "10001", "10001", "11111", "10001", "10001", "10001"],
        'B' | 'b' => ["11110", "10001", "10001", "11110", "10001", "10001", "11110"],
        'C' | 'c' => ["01111", "10000", "10000", "10000", "10000", "10000", "01111"],
        'D' | 'd' => ["11110", "10001", "10001", "10001", "10001", "10001", "11110"],
        'E' | 'e' => ["11111", "10000", "10000", "11110", "10000", "10000", "11111"],
        'F' | 'f' => ["11111", "10000", "10000", "11110", "10000", "10000", "10000"],
        'G' | 'g' => ["01111", "10000", "10000", "10111", "10001", "10001", "01111"],
        'H' | 'h' => ["10001", "10001", "10001", "11111", "10001", "10001", "10001"],
        'I' | 'i' => ["11111", "00100", "00100", "00100", "00100", "00100", "11111"],
        'J' | 'j' => ["00111", "00010", "00010", "00010", "10010", "10010", "01100"],
        'K' | 'k' => ["10001", "10010", "10100", "11000", "10100", "10010", "10001"],
        'L' | 'l' => ["10000", "10000", "10000", "10000", "10000", "10000", "11111"],
        'M' | 'm' => ["10001", "11011", "10101", "10101", "10001", "10001", "10001"],
        'N' | 'n' => ["10001", "11001", "10101", "10011", "10001", "10001", "10001"],
        'O' | 'o' => ["01110", "10001", "10001", "10001", "10001", "10001", "01110"],
        'P' | 'p' => ["11110", "10001", "10001", "11110", "10000", "10000", "10000"],
        'Q' | 'q' => ["01110", "10001", "10001", "10001", "10101", "10010", "01101"],
        'R' | 'r' => ["11110", "10001", "10001", "11110", "10100", "10010", "10001"],
        'S' | 's' => ["01111", "10000", "10000", "01110", "00001", "00001", "11110"],
        'T' | 't' => ["11111", "00100", "00100", "00100", "00100", "00100", "00100"],
        'U' | 'u' => ["10001", "10001", "10001", "10001", "10001", "10001", "01110"],
        'V' | 'v' => ["10001", "10001", "10001", "10001", "10001", "01010", "00100"],
        'W' | 'w' => ["10001", "10001", "10001", "10101", "10101", "10101", "01010"],
        'X' | 'x' => ["10001", "10001", "01010", "00100", "01010", "10001", "10001"],
        'Y' | 'y' => ["10001", "10001", "01010", "00100", "00100", "00100", "00100"],
        'Z' | 'z' => ["11111", "00001", "00010", "00100", "01000", "10000", "11111"],
        '0' => ["01110", "10001", "10011", "10101", "11001", "10001", "01110"],
        '1' => ["00100", "01100", "00100", "00100", "00100", "00100", "01110"],
        '2' => ["01110", "10001", "00001", "00010", "00100", "01000", "11111"],
        '3' => ["11110", "00001", "00001", "01110", "00001", "00001", "11110"],
        '4' => ["00010", "00110", "01010", "10010", "11111", "00010", "00010"],
        '5' => ["11111", "10000", "10000", "11110", "00001", "00001", "11110"],
        '6' => ["01110", "10000", "10000", "11110", "10001", "10001", "01110"],
        '7' => ["11111", "00001", "00010", "00100", "01000", "01000", "01000"],
        '8' => ["01110", "10001", "10001", "01110", "10001", "10001", "01110"],
        '9' => ["01110", "10001", "10001", "01111", "00001", "00001", "01110"],
        '-' => ["00000", "00000", "00000", "11111", "00000", "00000", "00000"],
        '_' => ["00000", "00000", "00000", "00000", "00000", "00000", "11111"],
        '.' => ["00000", "00000", "00000", "00000", "00000", "01100", "01100"],
        ',' => ["00000", "00000", "00000", "00000", "00000", "01100", "01000"],
        ':' => ["00000", "01100", "01100", "00000", "01100", "01100", "00000"],
        '!' => ["00100", "00100", "00100", "00100", "00100", "00000", "00100"],
        '?' => ["01110", "10001", "00001", "00010", "00100", "00000", "00100"],
        '/' => ["00001", "00010", "00010", "00100", "01000", "01000", "10000"],
        '+' => ["00000", "00100", "00100", "11111", "00100", "00100", "00000"],
        _ => ["11111", "10001", "00110", "00110", "00110", "10001", "11111"],
    }
}

/// The 5 by 7 bitmap of `ch` (see `glyph_spec`).
pub fn glyph5x7(ch: char) -> (r: [&'static str; 7])
    ensures
        r == glyph_spec(ch),
{
    match ch {
        'A' | 'a' => ["01110", "10001", "10001", "11111", "10001", "10001", "10001"],
        'B' | 'b' => ["11110", "10001", "10001", "11110", "10001", "10001", "11110"],
        'C' | 'c' => ["01111", "10000", "10000", "10000", "10000", "10000", "01111"],
        'D' | 'd' => ["11110", "10001", "10001", "10001", "10001", "10001", "11110"],
        'E' | 'e' => ["11111", "10000", "10000", "11110", "10000", "10000", "11111"],
        'F' | 'f' => ["11111", "10000", "10000", "11110", "10000", "10000", "10000"],
        'G' | 'g' => ["01111", "10000", "10000", "10111", "10001", "10001", "01111"],
        'H' | 'h' => ["10001", "10001", "10001", "11111", "10001", "10001", "10001"],
        'I' | 'i' => ["11111", "00100", "00100", "00100", "00100", "00100", "11111"],
        'J' | 'j' => ["00111", "00010", "00010", "00010", "10010", "10010", "01100"],
        'K' | 'k' => ["10001", "10010", "10100", "11000", "10100", "10010", "10001"],
        'L' | 'l' => ["10000", "10000", "10000", "10000", "10000", "10000", "11111"],
        'M' | 'm' => ["10001", "11011", "10101", "10101", "10001", "10001", "10001"],
        'N' | 'n' => ["10001", "11001", "10101", "10011", "10001", "10001", "10001"],
        'O' | 'o' => ["01110", "10001", "10001", "10001", "10001", "10001", "01110"],
        'P' | 'p' => ["11110", "10001", "10001", "11110", "10000", "10000", "10000"],
        'Q' | 'q' => ["01110", "10001", "10001", "10001", "10101", "10010", "01101"],
        'R' | 'r' => ["11110", "10001", "10001", "11110", "10100", "10010", "10001"],
        'S' | 's' => ["01111", "10000", "10000", "01110", "00001", "00001", "11110"],
        'T' | 't' => ["11111", "00100", "00100", "00100", "00100", "00100", "00100"],
        'U' | 'u' => ["10001", "10001", "10001", "10001", "10001", "10001", "01110"],
        'V' | 'v' => ["10001", "10001", "10001", "10001", "10001", "01010", "00100"],
        'W' | 'w' => ["10001", "10001", "10001", "10101", "10101", "10101", "01010"],
        'X' | 'x' => ["10001", "10001", "01010", "00100", "01010", "10001", "10001"],
        'Y' | 'y' => ["10001", "10001", "01010", "00100", "00100", "00100", "00100"],
        'Z' | 'z' => ["11111", "00001", "00010", "00100", "01000", "10000", "11111"],
        '0' => ["01110", "10001", "10011", "10101", "11001", "10001", "01110"],
        '1' => ["00100", "01100", "00100", "00100", "00100", "00100", "01110"],
        '2' => ["01110", "10001", "00001", "00010", "00100", "01000", "11111"],
        '3' => ["11110", "00001", "00001", "01110", "00001", "00001", "11110"],
        '4' => ["00010", "00110", "01010", "10010", "11111", "00010", "00010"],
        '5' => ["11111", "10000", "10000", "11110", "00001", "00001", "11110"],
        '6' => ["01110", "10000", "10000", "11110", "10001", "10001", "01110"],
        '7' => ["11111", "00001", "00010", "00100", "01000", "01000", "01000"],
        '8' => ["01110", "10001", "10001", "01110", "10001", "10001", "01110"],
        '9' => ["01110", "10001", "10001", "01111", "00001", "00001", "01110"],
        '-' => ["00000", "00000", "00000", "11111", "00000", "00000", "00000"],
        '_' => ["00000", "00000", "00000", "00000", "00000", "00000", "11111"],
        '.' => ["00000", "00000", "00000", "00000", "00000", "01100", "01100"],
        ',' => ["00000", "00000", "00000", "00000", "00000", "01100", "01000"],
        ':' => ["00000", "01100", "01100", "00000", "01100", "01100", "00000"],
        '!' => ["00100", "00100", "00100", "00100", "00100", "00000", "00100"],
        '?' => ["01110", "10001", "00001", "00010", "00100", "00000", "00100"],
        '/' => ["00001", "00010", "00010", "00100", "01000", "01000", "10000"],
        '+' => ["00000", "00100", "00100", "11111", "00100", "00100", "00000"],
        _ => ["11111", "10001", "00110", "00110", "00110", "10001", "11111"],
    }
}

} // verus!
