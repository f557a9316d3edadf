//! RGBA colors with fixed-point alpha compositing and hex notation.

use vstd::prelude::*;

verus! {

/// An RGBA color, 8 bits per channel.
#[derive(Clone, Copy, Debug, PartialEq, Eq, Structural)]
pub struct Color {
    pub r: u8,
    pub g: u8,
    pub b: u8,
    pub a: u8,
}

/// Whether `c` is an ASCII hexadecimal digit (either case).
pub open spec fn is_hex_digit(c: char) -> bool {
    (48 <= c as u32 && c as u32 <= 57)  // '0' ..= '9'
    || (97 <= c as u32 && c as u32 <= 102)  // 'a' ..= 'f'
    || (65 <= c as u32 && c as u32 <= 70)  // 'A' ..= 'F'
}

/// Numeric value of a hexadecimal digit.
pub open spec fn hex_val(c: char) -> int {
    if 48 <= c as u32 && c as u32 <= 57 {
        c as u32 - 48
    } else if 97 <= c as u32 && c as u32 <= 102 {
        c as u32 - 87
    } else {
        c as u32 - 55
    }
}

/// The lowercase hexadecimal digit for a value below 16.
pub open spec fn hex_char_of(v: int) -> char {
    if v == 0 { '0' }
    else if v == 1 { '1' }
    else if v == 2 { '2' }
    else if v == 3 { '3' }
    else if v == 4 { '4' }
    else if v == 5 { '5' }
    else if v == 6 { '6' }
    else if v == 7 { '7' }
    else if v == 8 { '8' }
    else if v == 9 { '9' }
    else if v == 10 { 'a' }
    else if v == 11 { 'b' }
    else if v == 12 { 'c' }
    else if v == 13 { 'd' }
    else if v == 14 { 'e' }
    else { 'f' }
}

/// The color denoted by a run of hex digits without the leading `#`.
/// 3 digits are `rgb` with each nibble doubled and alpha 255; 4 digits
/// are `rgba` the same way; 6 digits are `rrggbb` with alpha 255;
/// 8 digits are `rrggbbaa`. Any other length, or a character that is
/// not a hex digit, denotes nothing.
pub open spec fn spec_color_from_hex(d: Seq<char>) -> Option<Color> {
    if !(forall|i: int| 0 <= i < d.len() ==> is_hex_digit(#[trigger] d[i])) {
        None
    } else if d.len() == 3 {
        Some(Color {
            r: (17 * hex_val(d[0])) as u8,
            g: (17 * hex_val(d[1])) as u8,
            b: (17 * hex_val(d[2])) as u8,
            a: 255,
        })
    } else if d.len() == 4 {
        Some(Color {
            r: (17 * hex_val(d[0])) as u8,
            g: (17 * hex_val(d[1])) as u8,
            b: (17 * hex_val(d[2])) as u8,
            a: (17 * hex_val(d[3])) as u8,
        })
    } else if d.len() == 6 {
        Some(Color {
            r: (16 * hex_val(d[0]) + hex_val(d[1])) as u8,
            g: (16 * hex_val(d[2]) + hex_val(d[3])) as u8,
            b: (16 * hex_val(d[4]) + hex_val(d[5])) as u8,
            a: 255,
        })
    } else if d.len() == 8 {
        Some(Color {
            r: (16 * hex_val(d[0]) + hex_val(d[1])) as u8,
            g: (16 * hex_val(d[2]) + hex_val(d[3])) as u8,
            b: (16 * hex_val(d[4]) + hex_val(d[5])) as u8,
            a: (16 * hex_val(d[6]) + hex_val(d[7])) as u8,
        })
    } else {
        None
    }
}

/// The color written as `#` followed by 8 lowercase hex digits,
/// `rrggbbaa`.
pub open spec fn spec_to_hex(c: Color) -> Seq<char> {
    seq![
        '#',
        hex_char_of(c.r as int / 16),
        hex_char_of(c.r as int % 16),
        hex_char_of(c.g as int / 16),
        hex_char_of(c.g as int % 16),
        hex_char_of(c.b as int / 16),
        hex_char_of(c.b as int % 16),
        hex_char_of(c.a as int / 16),
        hex_char_of(c.a as int % 16),
    ]
}

/// The color denoted by a whole color string: a leading `#`, then hex
/// digits as in [`spec_color_from_hex`].
pub open spec fn spec_color_from_str(s: Seq<char>) -> Option<Color> {
    if s.len() >= 1 && s[0] == '#' {
        spec_color_from_hex(s.skip(1))
    } else {
        None
    }
}

/// Whether `c` is an ASCII hexadecimal digit.
pub fn is_hex_char(c: char) -> (r: bool)
    ensures
        r == is_hex_digit(c),
{
    let u = c as u32;
    (48 <= u && u <= 57) || (97 <= u && u <= 102) || (65 <= u && u <= 70)
}

/// Numeric value of a hexadecimal digit.
pub fn hex_digit_value(c: char) -> (r: u8)
    requires
        is_hex_digit(c),
    ensures
        r == hex_val(c),
        r <= 15,
{
    let u = c as u32;
    if 97 <= u && u <= 102 {
        (u - 87) as u8
    } else if 65 <= u && u <= 70 {
        (u - 55) as u8
    } else {
        (u - 48) as u8
    }
}

/// The lowercase hexadecimal digit for a value below 16.
pub fn hex_char(v: u8) -> (r: char)
    requires
        v <= 15,
    ensures
        r == hex_char_of(v as int),
{
    if v == 0 { '0' }
    else if v == 1 { '1' }
    else if v == 2 { '2' }
    else if v == 3 { '3' }
    else if v == 4 { '4' }
    else if v == 5 { '5' }
    else if v == 6 { '6' }
    else if v == 7 { '7' }
    else if v == 8 { '8' }
    else if v == 9 { '9' }
    else if v == 10 { 'a' }
    else if v == 11 { 'b' }
    else if v == 12 { 'c' }
    else if v == 13 { 'd' }
    else if v == 14 { 'e' }
    else { 'f' }
}

/// A digit below 16 formats to a hex digit whose value is itself.
proof fn lemma_hex_char_val(v: int)
    requires
        0 <= v < 16,
    ensures
        is_hex_digit(hex_char_of(v)),
        hex_val(hex_char_of(v)) == v,
{
}

/// Alpha channel of compositing `fg` over `bg`:
/// `255 - (255 - a_fg) * (255 - a_bg) / 256`.
pub open spec fn blend_alpha(aa: int, ab: int) -> int {
    255 - ((255 - aa) * (255 - ab)) / 256
}

/// One color channel of compositing a channel `ca` with alpha `aa` over a
/// channel `cb` with alpha `ab`, in 8-bit fixed point (shifts stand in for
/// division by 255).
pub open spec fn blend_channel(ca: int, aa: int, cb: int, ab: int) -> int {
    (ca * aa) / 256 + (cb * ab * (255 - aa)) / 65536
}

/// The "over" operator on whole colors.
pub open spec fn spec_blend(fg: Color, bg: Color) -> Color {
    Color {
        r: blend_channel(fg.r as int, fg.a as int, bg.r as int, bg.a as int) as u8,
        g: blend_channel(fg.g as int, fg.a as int, bg.g as int, bg.a as int) as u8,
        b: blend_channel(fg.b as int, fg.a as int, bg.b as int, bg.a as int) as u8,
        a: blend_alpha(fg.a as int, bg.a as int) as u8,
    }
}

/// Multiplicative scaling of an alpha value, in 8-bit fixed point.
pub open spec fn spec_scale_alpha(orig: int, by: int) -> int {
    (orig * by) / 256
}

/// A channel blend never exceeds one byte.
proof fn lemma_blend_channel_bounds(ca: int, aa: int, cb: int, ab: int)
    requires
        0 <= ca <= 255,
        0 <= aa <= 255,
        0 <= cb <= 255,
        0 <= ab <= 255,
    ensures
        0 <= blend_channel(ca, aa, cb, ab) <= 255,
{
    let x = ca * aa;
    let y = cb * ab * (255 - aa);
    vstd::arithmetic::mul::lemma_mul_upper_bound(ca, 255, aa, aa);
    vstd::arithmetic::mul::lemma_mul_nonnegative(ca, aa);
    vstd::arithmetic::mul::lemma_mul_upper_bound(cb, 255, ab, 255);
    vstd::arithmetic::mul::lemma_mul_nonnegative(cb, ab);
    vstd::arithmetic::mul::lemma_mul_upper_bound(cb * ab, 65025, 255 - aa, 255 - aa);
    vstd::arithmetic::mul::lemma_mul_nonnegative(cb * ab, 255 - aa);
    assert(x <= 255 * aa);
    assert(y <= 65025 * (255 - aa));
    vstd::arithmetic::div_mod::lemma_div_is_ordered(0, x, 256);
    vstd::arithmetic::div_mod::lemma_div_is_ordered(0, y, 65536);
    assert(x / 256 + y / 65536 <= 255) by {
        vstd::arithmetic::div_mod::lemma_fundamental_div_mod(x, 256);
        vstd::arithmetic::div_mod::lemma_fundamental_div_mod(y, 65536);
    };
}

impl Color {
    pub fn new(r: u8, g: u8, b: u8, a: u8) -> (c: Color)
        ensures
            c == (Color { r, g, b, a }),
    {
        Color { r, g, b, a }
    }

    /// Composite `self` over `bg` ("over" operator, 8-bit fixed point).
    pub fn blend(&self, bg: &Color) -> (c: Color)
        ensures
            c == spec_blend(*self, *bg),
    {
        let aa: u32 = self.a as u32;
        let ra: u32 = self.r as u32;
        let ga: u32 = self.g as u32;
        let ba: u32 = self.b as u32;
        let ab: u32 = bg.a as u32;
        let rb: u32 = bg.r as u32;
        let gb: u32 = bg.g as u32;
        let bb: u32 = bg.b as u32;
        proof {
            lemma_blend_channel_bounds(ra as int, aa as int, rb as int, ab as int);
            lemma_blend_channel_bounds(ga as int, aa as int, gb as int, ab as int);
            lemma_blend_channel_bounds(ba as int, aa as int, bb as int, ab as int);
            vstd::arithmetic::mul::lemma_mul_upper_bound(255 - aa, 255, 255 - ab, 255);
            vstd::arithmetic::mul::lemma_mul_nonnegative(255 - aa, 255 - ab);
            vstd::arithmetic::div_mod::lemma_div_is_ordered((255 - aa) * (255 - ab), 65025, 256);
            vstd::arithmetic::mul::lemma_mul_upper_bound(ra as int, 255, aa as int, 255);
            vstd::arithmetic::mul::lemma_mul_upper_bound(ga as int, 255, aa as int, 255);
            vstd::arithmetic::mul::lemma_mul_upper_bound(ba as int, 255, aa as int, 255);
            vstd::arithmetic::mul::lemma_mul_upper_bound(rb as int, 255, ab as int, 255);
            vstd::arithmetic::mul::lemma_mul_upper_bound(gb as int, 255, ab as int, 255);
            vstd::arithmetic::mul::lemma_mul_upper_bound(bb as int, 255, ab as int, 255);
            vstd::arithmetic::mul::lemma_mul_nonnegative(rb as int, ab as int);
            vstd::arithmetic::mul::lemma_mul_nonnegative(gb as int, ab as int);
            vstd::arithmetic::mul::lemma_mul_nonnegative(bb as int, ab as int);
            vstd::arithmetic::mul::lemma_mul_upper_bound(
                (rb * ab) as int, 65025, 255 - aa, 255);
            vstd::arithmetic::mul::lemma_mul_upper_bound(
                (gb * ab) as int, 65025, 255 - aa, 255);
            vstd::arithmetic::mul::lemma_mul_upper_bound(
                (bb * ab) as int, 65025, 255 - aa, 255);
        }
        let ac: u32 = 255 - ((255 - aa) * (255 - ab)) / 256;
        let rc: u32 = (ra * aa) / 256 + (rb * ab * (255 - aa)) / 65536;
        let gc: u32 = (ga * aa) / 256 + (gb * ab * (255 - aa)) / 65536;
        let bc: u32 = (ba * aa) / 256 + (bb * ab * (255 - aa)) / 65536;
        Color { r: rc as u8, g: gc as u8, b: bc as u8, a: ac as u8 }
    }

    /// Scale the existing alpha by `alpha` (multiplicative, fixed point);
    /// the color channels are kept.
    pub fn with_alpha(&self, alpha: u8) -> (c: Color)
        ensures
            c == (Color { a: spec_scale_alpha(self.a as int, alpha as int) as u8, ..*self }),
    {
        let orig: u32 = self.a as u32;
        let new: u32 = alpha as u32;
        proof {
            vstd::arithmetic::mul::lemma_mul_upper_bound(orig as int, 255, new as int, 255);
            vstd::arithmetic::mul::lemma_mul_nonnegative(orig as int, new as int);
            vstd::arithmetic::div_mod::lemma_div_is_ordered((orig * new) as int, 65025, 256);
            vstd::arithmetic::div_mod::lemma_div_is_ordered(0, (orig * new) as int, 256);
        }
        let res: u32 = (orig * new) / 256;
        Color { r: self.r, g: self.g, b: self.b, a: res as u8 }
    }

    /// The color denoted by `v[start .. end]` as a run of hex digits
    /// (3, 4, 6 or 8 of them, no leading `#`).
    pub fn from_hex_range(v: &Vec<char>, start: usize, end: usize) -> (r: Option<Color>)
        requires
            start <= end <= v@.len(),
        ensures
            r == spec_color_from_hex(v@.subrange(start as int, end as int)),
    {
        let ghost d = v@.subrange(start as int, end as int);
        let n = end - start;
        let mut i = start;
        while i < end
            invariant
                start <= i <= end <= v@.len(),
                d == v@.subrange(start as int, end as int),
                forall|k: int| start <= k < i ==> is_hex_digit(#[trigger] v@[k]),
            decreases end - i,
        {
            if !is_hex_char(v[i]) {
                assert(!is_hex_digit(d[i - start]));
                return None;
            }
            i += 1;
        }
        assert(forall|k: int| 0 <= k < d.len() ==> is_hex_digit(#[trigger] d[k]));
        if n == 3 {
            Some(Color {
                r: 17 * hex_digit_value(v[start]),
                g: 17 * hex_digit_value(v[start + 1]),
                b: 17 * hex_digit_value(v[start + 2]),
                a: 255,
            })
        } else if n == 4 {
            Some(Color {
                r: 17 * hex_digit_value(v[start]),
                g: 17 * hex_digit_value(v[start + 1]),
                b: 17 * hex_digit_value(v[start + 2]),
                a: 17 * hex_digit_value(v[start + 3]),
            })
        } else if n == 6 {
            Some(Color {
                r: 16 * hex_digit_value(v[start]) + hex_digit_value(v[start + 1]),
                g: 16 * hex_digit_value(v[start + 2]) + hex_digit_value(v[start + 3]),
                b: 16 * hex_digit_value(v[start + 4]) + hex_digit_value(v[start + 5]),
                a: 255,
            })
        } else if n == 8 {
            Some(Color {
                r: 16 * hex_digit_value(v[start]) + hex_digit_value(v[start + 1]),
                g: 16 * hex_digit_value(v[start + 2]) + hex_digit_value(v[start + 3]),
                b: 16 * hex_digit_value(v[start + 4]) + hex_digit_value(v[start + 5]),
                a: 16 * hex_digit_value(v[start + 6]) + hex_digit_value(v[start + 7]),
            })
        } else {
            None
        }
    }

    /// The color denoted by a whole run of hex digits.
    pub fn from_hex(digits: &Vec<char>) -> (r: Option<Color>)
        ensures
            r == spec_color_from_hex(digits@),
    {
        let r = Self::from_hex_range(digits, 0, digits.len());
        proof {
            assert(digits@.subrange(0, digits@.len() as int) =~= digits@);
        }
        r
    }

    /// The color denoted by a color string: `#` followed by 3, 4, 6 or
    /// 8 hex digits, the form the configuration takes colors in.
    pub fn from_hex_str(chars: &Vec<char>) -> (r: Option<Color>)
        ensures
            r == spec_color_from_str(chars@),
    {
        if chars.len() >= 1 && chars[0] == '#' {
            let r = Self::from_hex_range(chars, 1, chars.len());
            proof {
                assert(chars@.subrange(1, chars@.len() as int) =~= chars@.skip(1));
            }
            r
        } else {
            None
        }
    }

    /// The color written as `#rrggbbaa` in lowercase hex digits.
    pub fn to_hex(&self) -> (r: Vec<char>)
        ensures
            r@ == spec_to_hex(*self),
    {
        let mut v: Vec<char> = Vec::new();
        v.push('#');
        v.push(hex_char(self.r / 16));
        v.push(hex_char(self.r % 16));
        v.push(hex_char(self.g / 16));
        v.push(hex_char(self.g % 16));
        v.push(hex_char(self.b / 16));
        v.push(hex_char(self.b % 16));
        v.push(hex_char(self.a / 16));
        v.push(hex_char(self.a % 16));
        proof {
            assert(v@ =~= spec_to_hex(*self));
        }
        v
    }

    /// Byte form of the color in the presentation buffer's ARGB8888
    /// little-endian layout: `[b, g, r, a]`.
    pub fn to_bytes(&self) -> (bytes: [u8; 4])
        ensures
            bytes@ == seq![self.b, self.g, self.r, self.a],
    {
        let bytes = [self.b, self.g, self.r, self.a];
        proof {
            assert(bytes@ =~= seq![self.b, self.g, self.r, self.a]);
        }
        bytes
    }

    /// Color from its ARGB8888 little-endian byte form `[b, g, r, a]`.
    pub fn from_bytes(bytes: &[u8; 4]) -> (c: Color)
        ensures
            c == (Color { r: bytes@[2], g: bytes@[1], b: bytes@[0], a: bytes@[3] }),
    {
        Color { r: bytes[2], g: bytes[1], b: bytes[0], a: bytes[3] }
    }
}

/// Round trip: writing any color as its hex string and reading that
/// string back yields the same four bytes.
pub proof fn lemma_hex_round_trip(c: Color)
    ensures
        spec_color_from_str(spec_to_hex(c)) == Some(c),
{
    let s = spec_to_hex(c);
    let d = s.skip(1);
    assert(d =~= seq![
        hex_char_of(c.r as int / 16),
        hex_char_of(c.r as int % 16),
        hex_char_of(c.g as int / 16),
        hex_char_of(c.g as int % 16),
        hex_char_of(c.b as int / 16),
        hex_char_of(c.b as int % 16),
        hex_char_of(c.a as int / 16),
        hex_char_of(c.a as int % 16),
    ]);
    lemma_hex_char_val(c.r as int / 16);
    lemma_hex_char_val(c.r as int % 16);
    lemma_hex_char_val(c.g as int / 16);
    lemma_hex_char_val(c.g as int % 16);
    lemma_hex_char_val(c.b as int / 16);
    lemma_hex_char_val(c.b as int % 16);
    lemma_hex_char_val(c.a as int / 16);
    lemma_hex_char_val(c.a as int % 16);
    assert(forall|i: int| 0 <= i < d.len() ==> is_hex_digit(#[trigger] d[i]));
    vstd::arithmetic::div_mod::lemma_fundamental_div_mod(c.r as int, 16);
    vstd::arithmetic::div_mod::lemma_fundamental_div_mod(c.g as int, 16);
    vstd::arithmetic::div_mod::lemma_fundamental_div_mod(c.b as int, 16);
    vstd::arithmetic::div_mod::lemma_fundamental_div_mod(c.a as int, 16);
    assert(spec_color_from_hex(d) == Some(c));
}

} // verus!
