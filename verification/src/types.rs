use vstd::prelude::*;

verus! {

/// Appends one character to a string (`String::push` of std).
#[verifier::external_body]
pub(crate) fn push_char(s: &mut String, c: char)
    ensures
        final(s)@ == old(s)@.push(c),
{
    s.push(c);
}

/// The decimal digits of a number, most significant first.
pub open spec fn decimal(n: nat) -> Seq<char>
    decreases n,
{
    if n < 10 {
        seq![((n + 48) as u8) as char]
    } else {
        decimal(n / 10) + seq![((n % 10 + 48) as u8) as char]
    }
}

/// Appends the decimal digits of a number.
pub(crate) fn push_decimal(s: &mut String, n: usize)
    ensures
        final(s)@ == old(s)@ + decimal(n as nat),
    decreases n,
{
    if n >= 10 {
        push_decimal(s, n / 10);
    }
    push_char(s, ((n % 10) as u8 + 48) as char);
    assert(s@ =~= old(s)@ + decimal(n as nat));
}

/// The upper-case hexadecimal digit for a value below 16.
pub open spec fn hex_digit(n: int) -> char {
    if n < 10 {
        ((n + 48) as u8) as char
    } else {
        ((n + 55) as u8) as char
    }
}

/// The two upper-case hexadecimal digits of a byte.
pub open spec fn hex_byte(b: u8) -> Seq<char> {
    seq![hex_digit(b as int / 16), hex_digit(b as int % 16)]
}

/// An sRGB colour with 8-bit channels.
#[derive(Debug, Clone, Copy, PartialEq, Eq, Structural)]
pub struct RgbColor {
    pub r: u8,
    pub g: u8,
    pub b: u8,
}

/// The hue band of a colour.
#[derive(Debug, Clone, Copy, PartialEq, Eq, Structural)]
pub enum HueGroup {
    /// Reds, oranges and yellows: hue in [0, 70) or [330, 360).
    Warm,
    /// Greens, blues and purples: hue in [150, 330).
    Cool,
    /// Yellow-greens: hue in [70, 150).
    Neutral,
}

/// The shape of an image.
#[derive(Debug, Clone, Copy, PartialEq, Eq, Structural)]
pub enum Orientation {
    /// Wider than tall.
    Landscape,
    /// Taller than wide.
    Portrait,
    /// As wide as tall.
    Square,
}

/// `#RRGGBB` in upper-case hexadecimal.
pub open spec fn hex_string(c: RgbColor) -> Seq<char> {
    seq!['#'] + hex_byte(c.r) + hex_byte(c.g) + hex_byte(c.b)
}

pub(crate) fn hex_digit_char(n: u8) -> (c: char)
    requires
        n < 16,
    ensures
        c == hex_digit(n as int),
{
    if n < 10 {
        ((n + 48) as u8) as char
    } else {
        ((n + 55) as u8) as char
    }
}

/// The value of a hexadecimal digit, either case.
pub open spec fn hex_value(c: char) -> Option<u8> {
    if '0' <= c && c <= '9' {
        Some((c as u32 - 48) as u8)
    } else if 'A' <= c && c <= 'F' {
        Some((c as u32 - 55) as u8)
    } else if 'a' <= c && c <= 'f' {
        Some((c as u32 - 87) as u8)
    } else {
        None
    }
}

/// The byte written by the two digits of `s` that start at `i`; 0 where
/// either is missing or is no hexadecimal digit.
pub open spec fn hex_pair_value(s: Seq<char>, i: int) -> u8 {
    if 0 <= i && i + 1 < s.len() {
        match (hex_value(s[i]), hex_value(s[i + 1])) {
            (Some(hi), Some(lo)) => (hi * 16 + lo) as u8,
            _ => 0,
        }
    } else {
        0
    }
}

/// The digits of a colour string: the text after one leading `#`, if any.
pub open spec fn hex_digits(s: Seq<char>) -> Seq<char> {
    if s.len() > 0 && s[0] == '#' {
        s.drop_first()
    } else {
        s
    }
}

/// The colour that `#RRGGBB` (or `RRGGBB`) writes, channel by channel.
pub open spec fn rgb_of_hex(s: Seq<char>) -> RgbColor {
    let d = hex_digits(s);
    RgbColor { r: hex_pair_value(d, 0), g: hex_pair_value(d, 2), b: hex_pair_value(d, 4) }
}

fn hex_char_value(c: char) -> (v: Option<u8>)
    ensures
        v == hex_value(c),
{
    if '0' <= c && c <= '9' {
        Some((c as u32 - 48) as u8)
    } else if 'A' <= c && c <= 'F' {
        Some((c as u32 - 55) as u8)
    } else if 'a' <= c && c <= 'f' {
        Some((c as u32 - 87) as u8)
    } else {
        None
    }
}

fn parse_hex_pair(s: &str, i: usize) -> (v: u8)
    requires
        i as int + 2 <= usize::MAX,
    ensures
        v == hex_pair_value(s@, i as int),
{
    let n = s.unicode_len();
    if i + 1 < n {
        match (hex_char_value(s.get_char(i)), hex_char_value(s.get_char(i + 1))) {
            (Some(hi), Some(lo)) => {
                assert(hi < 16 && lo < 16) by {
                    assert(hex_value(s@[i as int]) == Some(hi));
                    assert(hex_value(s@[i + 1]) == Some(lo));
                }
                hi * 16 + lo
            },
            _ => 0,
        }
    } else {
        0
    }
}

/// Every byte comes back from its two hexadecimal digits.
pub proof fn lemma_hex_byte_round_trip(b: u8)
    ensures
        hex_value(hex_byte(b)[0]) == Some((b / 16) as u8),
        hex_value(hex_byte(b)[1]) == Some((b % 16) as u8),
        ((b / 16) * 16 + b % 16) as u8 == b,
{
}

/// Reading back what `to_hex` writes gives the same colour: the hex form
/// loses nothing.
pub proof fn lemma_hex_string_round_trip(c: RgbColor)
    ensures
        rgb_of_hex(hex_string(c)) == c,
        hex_string(c).len() == 7,
        hex_string(c)[0] == '#',
{
    lemma_hex_byte_round_trip(c.r);
    lemma_hex_byte_round_trip(c.g);
    lemma_hex_byte_round_trip(c.b);
    let s = hex_string(c);
    let d = hex_digits(s);
    assert(d =~= hex_byte(c.r) + hex_byte(c.g) + hex_byte(c.b));
    assert(d[0] == hex_byte(c.r)[0] && d[1] == hex_byte(c.r)[1]);
    assert(d[2] == hex_byte(c.g)[0] && d[3] == hex_byte(c.g)[1]);
    assert(d[4] == hex_byte(c.b)[0] && d[5] == hex_byte(c.b)[1]);
}

/// Two colours with the same hex form are the same colour.
pub proof fn lemma_hex_string_injective(c1: RgbColor, c2: RgbColor)
    requires
        hex_string(c1) == hex_string(c2),
    ensures
        c1 == c2,
{
    lemma_hex_string_round_trip(c1);
    lemma_hex_string_round_trip(c2);
}

impl RgbColor {
    /// The colour as `#RRGGBB`, upper-case.
    pub fn to_hex(self) -> (s: String)
        ensures
            s@ == hex_string(self),
    {
        let mut s = String::new();
        push_char(&mut s, '#');
        push_char(&mut s, hex_digit_char(self.r / 16));
        push_char(&mut s, hex_digit_char(self.r % 16));
        push_char(&mut s, hex_digit_char(self.g / 16));
        push_char(&mut s, hex_digit_char(self.g % 16));
        push_char(&mut s, hex_digit_char(self.b / 16));
        push_char(&mut s, hex_digit_char(self.b % 16));
        assert(s@ =~= hex_string(self));
        s
    }

    /// Reads a colour from `#RRGGBB` (the `#` may be left out, digits in
    /// either case). A channel whose two digits are missing or are no
    /// hexadecimal digits reads as 0.
    pub fn from_hex(hex: &str) -> (c: RgbColor)
        ensures
            c == rgb_of_hex(hex@),
    {
        let n = hex.unicode_len();
        let start: usize = if n > 0 && hex.get_char(0) == '#' { 1 } else { 0 };
        proof {
            assert(hex_digits(hex@) =~= hex@.subrange(start as int, hex@.len() as int));
        }
        let r = parse_hex_pair(hex, start);
        let g = parse_hex_pair(hex, start + 2);
        let b = parse_hex_pair(hex, start + 4);
        RgbColor { r, g, b }
    }
}

} // verus!
