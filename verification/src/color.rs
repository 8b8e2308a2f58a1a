//! Colours.

use crate::text;
use vstd::prelude::*;

verus! {

/// A colour as the operating system counts it: red in the lowest byte, then
/// green, then blue.
pub open spec fn packed(r: int, g: int, b: int) -> int {
    r + 0x100 * g + 0x1_0000 * b
}

/// Pack the parts of a colour.
pub fn rgb(r: u8, g: u8, b: u8) -> (c: u32)
    ensures
        c == packed(r as int, g as int, b as int),
        c <= 0xff_ffff,
        c % 0x100 == r,
        c / 0x100 % 0x100 == g,
        c / 0x1_0000 == b,
{
    r as u32 + 0x100 * (g as u32) + 0x1_0000 * (b as u32)
}

/// Why a text is not a colour.
#[derive(Debug, Clone, Copy, PartialEq, Eq, Structural)]
pub enum ColorError {
    /// It does not have the length of `RRGGBB`.
    Length,
    Red,
    Green,
    Blue,
}

impl ColorError {
    /// What is said of a text, but for the text itself.
    pub fn message(&self) -> (r: &'static str)
        ensures
            r@ == (match *self {
                ColorError::Length => "must be `#RRGGBB`"@,
                ColorError::Red => "bad R"@,
                ColorError::Green => "bad G"@,
                ColorError::Blue => "bad B"@,
            }),
    {
        match self {
            ColorError::Length => "must be `#RRGGBB`",
            ColorError::Red => "bad R",
            ColorError::Green => "bad G",
            ColorError::Blue => "bad B",
        }
    }
}

/// The value of a hexadecimal digit.
pub open spec fn hex_digit(c: char) -> Option<int> {
    if '0' <= c <= '9' {
        Some(c as int - '0' as int)
    } else if 'a' <= c <= 'f' {
        Some(c as int - 'a' as int + 10)
    } else if 'A' <= c <= 'F' {
        Some(c as int - 'A' as int + 10)
    } else {
        None
    }
}

fn hex_digit_of(c: char) -> (r: Option<u8>)
    ensures
        match r {
            Some(d) => hex_digit(c) == Some(d as int) && d < 16,
            None => hex_digit(c) is None,
        },
{
    if '0' <= c && c <= '9' {
        Some(c as u8 - '0' as u8)
    } else if 'a' <= c && c <= 'f' {
        Some(c as u8 - 'a' as u8 + 10)
    } else if 'A' <= c && c <= 'F' {
        Some(c as u8 - 'A' as u8 + 10)
    } else {
        None
    }
}

/// The number that the two hexadecimal digits at `i` stand for.
pub open spec fn hex_pair(s: Seq<char>, i: int) -> Option<int> {
    if i + 1 < s.len() {
        match (hex_digit(s[i]), hex_digit(s[i + 1])) {
            (Some(a), Some(b)) => Some(16 * a + b),
            _ => None,
        }
    } else {
        None
    }
}

fn hex_pair_of(s: &Vec<char>, i: usize) -> (r: Option<u8>)
    requires
        i < 100,
    ensures
        match r {
            Some(n) => hex_pair(s@, i as int) == Some(n as int),
            None => hex_pair(s@, i as int) is None,
        },
{
    if i + 1 < s.len() {
        match (hex_digit_of(s[i]), hex_digit_of(s[i + 1])) {
            (Some(a), Some(b)) => Some(16 * a + b),
            _ => None,
        }
    } else {
        None
    }
}

/// How many bytes a character takes in UTF-8.
pub open spec fn bytes_in(c: char) -> int {
    let n = c as int;
    if n < 0x80 {
        1
    } else if n < 0x800 {
        2
    } else if n < 0x1_0000 {
        3
    } else {
        4
    }
}

fn bytes_of(c: char) -> (n: usize)
    ensures
        n == bytes_in(c),
        1 <= n <= 4,
{
    let code: u32 = c as u32;
    if code < 0x80 {
        1
    } else if code < 0x800 {
        2
    } else if code < 0x1_0000 {
        3
    } else {
        4
    }
}

/// How many bytes a text takes in UTF-8.
pub open spec fn byte_length(s: Seq<char>) -> int
    decreases s.len(),
{
    if s.len() == 0 {
        0
    } else {
        byte_length(s.drop_last()) + bytes_in(s.last())
    }
}

/// Whether a text takes six bytes in UTF-8.
fn takes_six_bytes(s: &Vec<char>) -> (r: bool)
    ensures
        r == (byte_length(s@) == 6),
{
    if s.len() > 6 {
        proof {
            lemma_byte_length(s@);
        }
        return false;
    }
    let mut n: usize = 0;
    let mut i: usize = 0;
    assert(s@.take(0) =~= Seq::<char>::empty());
    while i < s.len()
        invariant
            i <= s@.len() <= 6,
            n <= 4 * i,
            n == byte_length(s@.take(i as int)),
        decreases s@.len() - i,
    {
        proof {
            assert(s@.take(i + 1).drop_last() =~= s@.take(i as int));
            assert(s@.take(i + 1).last() == s@[i as int]);
        }
        let more = bytes_of(s[i]);
        n = n + more;
        i = i + 1;
    }
    assert(s@.take(i as int) =~= s@);
    n == 6
}

proof fn lemma_byte_length(s: Seq<char>)
    ensures
        byte_length(s) >= s.len(),
    decreases s.len(),
{
    if s.len() > 0 {
        lemma_byte_length(s.drop_last());
    }
}

/// Without white space around, and without the mark in front.
pub open spec fn bare(s: Seq<char>) -> Seq<char> {
    let t = text::trim(s);
    if t.len() > 0 && t[0] == '#' {
        t.drop_first()
    } else {
        t
    }
}

/// The colour that `#RRGGBB` or `RRGGBB` stands for.
pub open spec fn color(s: Seq<char>) -> Result<u32, ColorError> {
    let hex = bare(s);
    if byte_length(hex) != 6 {
        Err(ColorError::Length)
    } else {
        match hex_pair(hex, 0) {
            None => Err(ColorError::Red),
            Some(r) => match hex_pair(hex, 2) {
                None => Err(ColorError::Green),
                Some(g) => match hex_pair(hex, 4) {
                    None => Err(ColorError::Blue),
                    Some(b) => Ok(packed(r, g, b) as u32),
                },
            },
        }
    }
}

/// Whether a text is `RRGGBB`: six hexadecimal digits and nothing else.
pub open spec fn is_six_digits(s: Seq<char>) -> bool {
    s.len() == 6 && forall|i: int| 0 <= i < 6 ==> hex_digit(#[trigger] s[i]) is Some
}

/// Read a colour in the form `#RRGGBB` or `RRGGBB`. No other text is a colour.
pub fn parse_border_color(s: &str) -> (r: Result<u32, ColorError>)
    ensures
        r == color(s@),
        r is Ok <==> is_six_digits(bare(s@)),
        r matches Ok(c) ==> c <= 0xff_ffff,
{
    let t = text::trimmed(&text::chars_of(s));
    let hex = if t.len() > 0 && t[0] == '#' {
        text::part(&t, 1, t.len())
    } else {
        t
    };
    assert(hex@ =~= bare(s@));
    proof {
        lemma_six_digits(hex@);
    }
    if !takes_six_bytes(&hex) {
        return Err(ColorError::Length);
    }
    match hex_pair_of(&hex, 0) {
        None => Err(ColorError::Red),
        Some(r) => match hex_pair_of(&hex, 2) {
            None => Err(ColorError::Green),
            Some(g) => match hex_pair_of(&hex, 4) {
                None => Err(ColorError::Blue),
                Some(b) => Ok(rgb(r, g, b)),
            },
        },
    }
}

proof fn lemma_six_digits(s: Seq<char>)
    ensures
        is_six_digits(s) <==> byte_length(s) == 6 && hex_pair(s, 0) is Some && hex_pair(s, 2) is Some
            && hex_pair(s, 4) is Some,
{
    lemma_byte_length(s);
    if is_six_digits(s) {
        lemma_narrow(s);
    }
}

/// A text of hexadecimal digits takes one byte for each.
proof fn lemma_narrow(s: Seq<char>)
    requires
        forall|i: int| 0 <= i < s.len() ==> hex_digit(#[trigger] s[i]) is Some,
    ensures
        byte_length(s) == s.len(),
    decreases s.len(),
{
    if s.len() > 0 {
        assert(hex_digit(s[s.len() - 1]) is Some);
        assert forall|i: int| 0 <= i < s.drop_last().len() implies hex_digit(
            #[trigger] s.drop_last()[i],
        ) is Some by {
            assert(hex_digit(s[i]) is Some);
        }
        lemma_narrow(s.drop_last());
    }
}

/// The hexadecimal digits count from 0 to 15, the letters in either case.
pub proof fn law_hexadecimal_digits(c: char)
    ensures
        hex_digit('0') == Some(0int) && hex_digit('9') == Some(9int),
        hex_digit('a') == Some(10int) && hex_digit('f') == Some(15int),
        hex_digit(text::upper(c)) == hex_digit(text::lower(c)),
        '1' <= c <= '9' ==> hex_digit(c) == Some(hex_digit((c as int - 1) as char)->0 + 1),
        'b' <= c <= 'f' ==> hex_digit(c) == Some(hex_digit((c as int - 1) as char)->0 + 1),
        hex_digit(c) is Some ==> 0 <= hex_digit(c)->0 < 16,
        hex_digit(c) is Some ==> '0' <= c <= '9' || 'a' <= c <= 'f' || 'A' <= c <= 'F',
{
}

/// Six hexadecimal digits are a colour with two of them for red, then two for green
/// and two for blue, of which red is counted lowest. The mark in front does not
/// matter, and nothing else is a colour.
pub proof fn law_colors_have_their_parts(s: Seq<char>)
    ensures
        color(s) is Ok <==> is_six_digits(bare(s)),
        is_six_digits(s) ==> color(seq!['#'] + s) == color(s) && bare(s) == s,
        color(s) matches Ok(c) ==> {
            let h = bare(s);
            &&& c % 0x100 == 16 * hex_digit(h[0])->0 + hex_digit(h[1])->0
            &&& c / 0x100 % 0x100 == 16 * hex_digit(h[2])->0 + hex_digit(h[3])->0
            &&& c / 0x1_0000 == 16 * hex_digit(h[4])->0 + hex_digit(h[5])->0
        },
{
    lemma_six_digits(bare(s));
    if is_six_digits(s) {
        let marked = seq!['#'] + s;
        assert(hex_digit(s[0]) is Some && hex_digit(s[5]) is Some);
        assert(!text::space(s.first()) && !text::space(s.last()));
        assert(text::trim_front(s) == s);
        assert(text::trim(s) == s);
        assert(!text::space('#'));
        assert(marked.last() == s.last());
        assert(text::trim_front(marked) == marked);
        assert(text::trim(marked) == marked);
        assert(marked.drop_first() =~= s);
        assert(bare(marked) == s);
        assert(bare(s) == s);
    }
    if color(s) is Ok {
        let h = bare(s);
        assert(is_six_digits(h));
        let r = hex_pair(h, 0)->0;
        let g = hex_pair(h, 2)->0;
        let b = hex_pair(h, 4)->0;
        assert(0 <= r < 256 && 0 <= g < 256 && 0 <= b < 256);
        assert(packed(r, g, b) == r + 0x100 * g + 0x1_0000 * b);
    }
}

/// The colour that a text stands for, or another one where it stands for none.
pub open spec fn color_or(s: Seq<char>, other: u32) -> u32 {
    match color(s) {
        Ok(c) => c,
        Err(_) => other,
    }
}

/// Read a colour; where a text stands for none there is another one.
pub fn parse_color_or(s: &str, other: u32) -> (c: u32)
    ensures
        c == color_or(s@, other),
{
    match parse_border_color(s) {
        Ok(c) => c,
        Err(_) => other,
    }
}

/// A text that stands for a colour counts, and any other one leaves the other colour.
pub proof fn law_written_color_counts(s: Seq<char>, other: u32)
    ensures
        color(s) matches Ok(c) ==> color_or(s, other) == c,
        color(s) is Err ==> color_or(s, other) == other,
{
}

} // verus!
