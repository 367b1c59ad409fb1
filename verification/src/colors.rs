use vstd::prelude::*;

use crate::scalar::fraction_of;
use crate::scalar::Scalar;
use crate::text::chars_of;
use crate::text::string_of;

verus! {

/// An RGBA color with eight bits per channel.
#[derive(Debug, Clone, Copy, PartialEq, Eq, Structural)]
pub struct Color {
    pub r: u8,
    pub g: u8,
    pub b: u8,
    pub a: u8,
}

/// The value of a hexadecimal digit, of either case.
pub open spec fn hex_value(c: char) -> Option<int> {
    if '0' <= c <= '9' {
        Some(c as int - '0' as int)
    } else if 'a' <= c <= 'f' {
        Some(c as int - 'a' as int + 10)
    } else if 'A' <= c <= 'F' {
        Some(c as int - 'A' as int + 10)
    } else {
        None
    }
}

/// The upper-case hexadecimal digit for a value below sixteen.
pub open spec fn hex_digit(v: int) -> char {
    if v < 10 {
        ('0' as int + v) as char
    } else {
        ('A' as int + v - 10) as char
    }
}

/// The two upper-case hexadecimal digits of a byte, high digit first.
pub open spec fn hex_pair(byte: u8) -> Seq<char> {
    seq![hex_digit(byte as int / 16), hex_digit(byte as int % 16)]
}

/// Whether every character of `digits` is a hexadecimal digit.
pub open spec fn all_hex(digits: Seq<char>) -> bool {
    forall|i: int| 0 <= i < digits.len() ==> (#[trigger] hex_value(digits[i])) is Some
}

/// The byte written by the two hexadecimal digits `hi` and `lo`.
pub open spec fn byte_of(hi: char, lo: char) -> u8 {
    (16 * hex_value(hi).unwrap() + hex_value(lo).unwrap()) as u8
}

/// The color that a run of 3, 4, 6 or 8 hexadecimal digits stands for.
///
/// Short forms double each digit; forms without an alpha part are opaque.
pub open spec fn color_of_digits(d: Seq<char>) -> Color {
    if d.len() == 3 {
        Color { r: byte_of(d[0], d[0]), g: byte_of(d[1], d[1]), b: byte_of(d[2], d[2]), a: 255 }
    } else if d.len() == 4 {
        Color {
            r: byte_of(d[0], d[0]),
            g: byte_of(d[1], d[1]),
            b: byte_of(d[2], d[2]),
            a: byte_of(d[3], d[3]),
        }
    } else if d.len() == 6 {
        Color { r: byte_of(d[0], d[1]), g: byte_of(d[2], d[3]), b: byte_of(d[4], d[5]), a: 255 }
    } else {
        Color {
            r: byte_of(d[0], d[1]),
            g: byte_of(d[2], d[3]),
            b: byte_of(d[4], d[5]),
            a: byte_of(d[6], d[7]),
        }
    }
}

/// The color written by `text`, if `text` is a `#` followed by 3, 4, 6 or 8
/// hexadecimal digits.
pub open spec fn parse_color(text: Seq<char>) -> Option<Color> {
    let d = text.skip(1);
    if text.len() >= 1 && text[0] == '#' && all_hex(d) && (d.len() == 3 || d.len() == 4 || d.len()
        == 6 || d.len() == 8) {
        Some(color_of_digits(d))
    } else {
        None
    }
}

/// The canonical text of a color: `#RRGGBBAA` in upper case.
pub open spec fn color_text(c: Color) -> Seq<char> {
    seq!['#'] + hex_pair(c.r) + hex_pair(c.g) + hex_pair(c.b) + hex_pair(c.a)
}

/// The text of a color without its alpha channel: `#RRGGBB` in upper case.
pub open spec fn opaque_color_text(c: Color) -> Seq<char> {
    seq!['#'] + hex_pair(c.r) + hex_pair(c.g) + hex_pair(c.b)
}

fn digit_value(c: char) -> (r: Option<u8>)
    ensures
        match r {
            Some(v) => hex_value(c) == Some(v as int) && v < 16,
            None => hex_value(c) is None,
        },
{
    if '0' <= c && c <= '9' {
        Some((c as u32 - '0' as u32) as u8)
    } else if 'a' <= c && c <= 'f' {
        Some((c as u32 - 'a' as u32 + 10) as u8)
    } else if 'A' <= c && c <= 'F' {
        Some((c as u32 - 'A' as u32 + 10) as u8)
    } else {
        None
    }
}

fn digit_char(v: u8) -> (r: char)
    requires
        v < 16,
    ensures
        r == hex_digit(v as int),
{
    if v < 10 {
        (48u8 + v) as char
    } else {
        (55u8 + v) as char
    }
}

fn push_pair(out: &mut Vec<char>, byte: u8)
    ensures
        final(out)@ == old(out)@ + hex_pair(byte),
{
    out.push(digit_char(byte / 16));
    out.push(digit_char(byte % 16));
    assert(out@ =~= old(out)@ + hex_pair(byte));
}

fn join_digits(hi: u8, lo: u8) -> (r: u8)
    requires
        hi < 16,
        lo < 16,
    ensures
        r == 16 * hi + lo,
{
    hi * 16 + lo
}

impl Color {
    /// An opaque color.
    pub fn rgb(r: u8, g: u8, b: u8) -> (c: Color)
        ensures
            c == (Color { r, g, b, a: 255 }),
    {
        Color::rgba(r, g, b, 255)
    }

    /// A color from its four channels.
    pub fn rgba(r: u8, g: u8, b: u8, a: u8) -> (c: Color)
        ensures
            c == (Color { r, g, b, a }),
    {
        Color { r, g, b, a }
    }

    /// A color from four fractions of full intensity.
    pub fn rgbaf(r: Scalar, g: Scalar, b: Scalar, a: Scalar) -> (c: Color)
        ensures
            c == (Color { r: r.channel(), g: g.channel(), b: b.channel(), a: a.channel() }),
    {
        Color { r: r.to_channel(), g: g.to_channel(), b: b.to_channel(), a: a.to_channel() }
    }

    /// The same color with its alpha channel set from an opacity, where 0
    /// is transparent and 1 is opaque.
    pub fn with_opacity(self, opacity: Scalar) -> (c: Color)
        ensures
            c == (Color { a: opacity.channel(), ..self }),
    {
        Color { r: self.r, g: self.g, b: self.b, a: opacity.to_channel() }
    }

    /// The opacity of the color: the scalar nearest to its alpha channel
    /// divided by 255.
    pub fn opacity(&self) -> (x: Scalar)
        ensures
            x == fraction_of(self.a),
            x.is_fraction_of(self.a),
    {
        Scalar::from_channel(self.a)
    }

    /// Reads a color from `#RGB`, `#RGBA`, `#RRGGBB` or `#RRGGBBAA`, the
    /// digits in either case. Anything else is rejected.
    pub fn from_str(s: &str) -> (r: Result<Color, ()>)
        ensures
            r == match parse_color(s@) {
                Some(c) => Ok::<Color, ()>(c),
                None => Err::<Color, ()>(()),
            },
    {
        let chars = chars_of(s);
        let n = chars.len();
        if !(n == 4 || n == 5 || n == 7 || n == 9) || chars[0] != '#' {
            return Err(());
        }
        let mut values: Vec<u8> = Vec::new();
        let mut i: usize = 1;
        while i < n
            invariant
                chars@ == s@,
                n == chars.len(),
                1 <= i <= n,
                values.len() == i - 1,
                forall|j: int|
                    0 <= j < values.len() ==> hex_value(chars@[j + 1]) == Some(
                        #[trigger] values@[j] as int,
                    ) && values@[j] < 16,
            decreases n - i,
        {
            match digit_value(chars[i]) {
                Some(v) => values.push(v),
                None => {
                    assert(s@.skip(1)[i - 1] == chars@[i as int]);
                    return Err(());
                },
            }
            i += 1;
        }
        proof {
            let d = s@.skip(1);
            assert forall|j: int| 0 <= j < d.len() implies (#[trigger] hex_value(d[j])) is Some by {
                assert(d[j] == chars@[j + 1]);
                assert(values@[j] < 16);
            }
            assert forall|j: int| 0 <= j < d.len() implies hex_value(#[trigger] d[j]) == Some(
                values@[j] as int,
            ) by {
                assert(d[j] == chars@[j + 1]);
                assert(values@[j] < 16);
            }
        }
        let c = if n == 4 {
            Color {
                r: join_digits(values[0], values[0]),
                g: join_digits(values[1], values[1]),
                b: join_digits(values[2], values[2]),
                a: 255,
            }
        } else if n == 5 {
            Color {
                r: join_digits(values[0], values[0]),
                g: join_digits(values[1], values[1]),
                b: join_digits(values[2], values[2]),
                a: join_digits(values[3], values[3]),
            }
        } else if n == 7 {
            Color {
                r: join_digits(values[0], values[1]),
                g: join_digits(values[2], values[3]),
                b: join_digits(values[4], values[5]),
                a: 255,
            }
        } else {
            Color {
                r: join_digits(values[0], values[1]),
                g: join_digits(values[2], values[3]),
                b: join_digits(values[4], values[5]),
                a: join_digits(values[6], values[7]),
            }
        };
        Ok(c)
    }

    /// The canonical text `#RRGGBBAA`.
    pub fn to_string(&self) -> (r: String)
        ensures
            r@ == color_text(*self),
    {
        let mut out: Vec<char> = Vec::new();
        out.push('#');
        push_pair(&mut out, self.r);
        push_pair(&mut out, self.g);
        push_pair(&mut out, self.b);
        push_pair(&mut out, self.a);
        assert(out@ =~= color_text(*self));
        string_of(&out)
    }

    /// The text `#RRGGBB`, for places where opacity is written apart.
    pub fn to_string_na(&self) -> (r: String)
        ensures
            r@ == opaque_color_text(*self),
    {
        let mut out: Vec<char> = Vec::new();
        out.push('#');
        push_pair(&mut out, self.r);
        push_pair(&mut out, self.g);
        push_pair(&mut out, self.b);
        assert(out@ =~= opaque_color_text(*self));
        string_of(&out)
    }
}

/// Setting the alpha channel of a color from its own opacity changes
/// nothing.
pub proof fn lemma_with_own_opacity(c: Color, x: Scalar)
    requires
        x.is_fraction_of(c.a),
    ensures
        (Color { a: x.channel(), ..c }) == c,
{
    crate::scalar::lemma_channel_of_fraction(x, c.a);
}

proof fn lemma_hex_pair(byte: u8)
    ensures
        hex_pair(byte).len() == 2,
        hex_value(hex_pair(byte)[0]) is Some,
        hex_value(hex_pair(byte)[1]) is Some,
        byte_of(hex_pair(byte)[0], hex_pair(byte)[1]) == byte,
{
    let hi = byte as int / 16;
    let lo = byte as int % 16;
    assert(hex_value(hex_digit(hi)) == Some(hi));
    assert(hex_value(hex_digit(lo)) == Some(lo));
}

/// Reading the canonical text of a color gives that color back.
pub proof fn lemma_parse_color_text(c: Color)
    ensures
        parse_color(color_text(c)) == Some(c),
{
    lemma_hex_pair(c.r);
    lemma_hex_pair(c.g);
    lemma_hex_pair(c.b);
    lemma_hex_pair(c.a);
    let d = color_text(c).skip(1);
    assert(d =~= hex_pair(c.r) + hex_pair(c.g) + hex_pair(c.b) + hex_pair(c.a));
    assert(d.len() == 8);
    assert(color_of_digits(d) == c);
}

/// Reading the text of a color without alpha gives that color at full
/// opacity.
pub proof fn lemma_parse_opaque_color_text(c: Color)
    ensures
        parse_color(opaque_color_text(c)) == Some(Color { a: 255, ..c }),
{
    lemma_hex_pair(c.r);
    lemma_hex_pair(c.g);
    lemma_hex_pair(c.b);
    let d = opaque_color_text(c).skip(1);
    assert(d =~= hex_pair(c.r) + hex_pair(c.g) + hex_pair(c.b));
    assert(d.len() == 6);
    assert(color_of_digits(d) == Color { a: 255, ..c });
}

} // verus!
