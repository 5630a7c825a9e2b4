//! Color values for the LED matrix.
//!
//! A color is held as the quantized triple that the hardware protocol
//! uses: one byte per channel.  The hex codec is exact over this
//! representation, and the HSL conversion takes its hue, saturation
//! and lightness in thousandths, so that the whole module stays in
//! integer arithmetic.

use vstd::prelude::*;

use crate::strutil::{hex_digit_exec, hex_val_of};

verus! {

/// One LED color, one byte per channel.
#[derive(Debug, Clone, Copy, PartialEq, Eq, Structural)]
pub struct Color {
    pub r: u8,
    pub g: u8,
    pub b: u8,
}

/// The upper-case hex digit for a value below sixteen.
pub open spec fn hex_char_of(d: int) -> char {
    if d == 0 { '0' } else if d == 1 { '1' } else if d == 2 { '2' }
    else if d == 3 { '3' } else if d == 4 { '4' } else if d == 5 { '5' }
    else if d == 6 { '6' } else if d == 7 { '7' } else if d == 8 { '8' }
    else if d == 9 { '9' } else if d == 10 { 'A' } else if d == 11 { 'B' }
    else if d == 12 { 'C' } else if d == 13 { 'D' } else if d == 14 { 'E' }
    else { 'F' }
}

/// Two upper-case hex digits for one channel byte.
pub open spec fn hex_pair_of(b: u8) -> Seq<char> {
    seq![hex_char_of(b as int / 16), hex_char_of(b as int % 16)]
}

/// The `#RRGGBB` form of a color.
pub open spec fn to_hex_chars(c: Color) -> Seq<char> {
    seq!['#'] + hex_pair_of(c.r) + hex_pair_of(c.g) + hex_pair_of(c.b)
}

/// What `Color::from_hex` accepts and returns.
///
/// A leading `#` is optional.  Three digits give one digit per
/// channel (scaled by seventeen), six give two digits per channel; a
/// fourth or a seventh and eighth character are ignored, so that a
/// trailing alpha field does not reject the color.
pub open spec fn from_hex_chars(full: Seq<char>) -> Option<Color> {
    let s = if full.len() >= 1 && full[0] == '#' { full.skip(1) } else { full };
    if s.len() == 3 || s.len() == 4 {
        let r = hex_val_of(s[0]);
        let g = hex_val_of(s[1]);
        let b = hex_val_of(s[2]);
        if r >= 0 && g >= 0 && b >= 0 {
            Some(Color { r: (17 * r) as u8, g: (17 * g) as u8, b: (17 * b) as u8 })
        } else {
            None
        }
    } else if s.len() == 6 || s.len() == 8 {
        let r1 = hex_val_of(s[0]);
        let r2 = hex_val_of(s[1]);
        let g1 = hex_val_of(s[2]);
        let g2 = hex_val_of(s[3]);
        let b1 = hex_val_of(s[4]);
        let b2 = hex_val_of(s[5]);
        if r1 >= 0 && r2 >= 0 && g1 >= 0 && g2 >= 0 && b1 >= 0 && b2 >= 0 {
            Some(Color {
                r: (16 * r1 + r2) as u8,
                g: (16 * g1 + g2) as u8,
                b: (16 * b1 + b2) as u8,
            })
        } else {
            None
        }
    } else {
        None
    }
}

/// One channel of the HSL conversion, scaled by one million.
///
/// `h` is a hue in thousandths of a degree, already reduced modulo a
/// full turn; `s0` and `l0` are saturation and lightness in
/// thousandths, already clamped to one.  The channel index picks red,
/// green or blue.
pub open spec fn hsl_channel_scaled(h0: int, s0: int, l0: int, channel: int) -> int {
    let spread = if 2 * l0 >= 1000 { 2 * l0 - 1000 } else { 1000 - 2 * l0 };
    let chroma = (1000 - spread) * s0;
    let u = h0 / 60;
    let a = if u % 2000 >= 1000 { u % 2000 - 1000 } else { 1000 - u % 2000 };
    let xv = chroma * (1000 - a) / 1000;
    let mv = 1000 * l0 - chroma / 2;
    let seg = u / 1000;
    let base = if channel == 0 {
        if seg == 0 || seg == 5 { chroma } else if seg == 1 || seg == 4 { xv } else { 0 }
    } else if channel == 1 {
        if seg == 1 || seg == 2 { chroma } else if seg == 0 || seg == 3 { xv } else { 0 }
    } else {
        if seg == 3 || seg == 4 { chroma } else if seg == 2 || seg == 5 { xv } else { 0 }
    };
    base + mv
}

/// Rounds a channel value scaled by one million to a byte.
pub open spec fn quantize_channel(v: int) -> int {
    (v * 255 + 500000) / 1000000
}

/// The color that `Color::from_hsl` returns.
pub open spec fn from_hsl_spec(h: int, s: int, l: int) -> Color {
    let h0 = h % 360000;
    let s0 = if s > 1000 { 1000 } else { s };
    let l0 = if l > 1000 { 1000 } else { l };
    Color {
        r: quantize_channel(hsl_channel_scaled(h0, s0, l0, 0)) as u8,
        g: quantize_channel(hsl_channel_scaled(h0, s0, l0, 1)) as u8,
        b: quantize_channel(hsl_channel_scaled(h0, s0, l0, 2)) as u8,
    }
}

/// The upper-case hex digit for a value below sixteen, as a slice.
fn hex_digit_str(d: u8) -> (r: &'static str)
    requires
        d < 16,
    ensures
        r@ == seq![hex_char_of(d as int)],
{
    proof {
        reveal_strlit("0"); reveal_strlit("1"); reveal_strlit("2"); reveal_strlit("3");
        reveal_strlit("4"); reveal_strlit("5"); reveal_strlit("6"); reveal_strlit("7");
        reveal_strlit("8"); reveal_strlit("9"); reveal_strlit("A"); reveal_strlit("B");
        reveal_strlit("C"); reveal_strlit("D"); reveal_strlit("E"); reveal_strlit("F");
    }
    let r: &'static str = match d {
        0 => "0", 1 => "1", 2 => "2", 3 => "3",
        4 => "4", 5 => "5", 6 => "6", 7 => "7",
        8 => "8", 9 => "9", 10 => "A", 11 => "B",
        12 => "C", 13 => "D", 14 => "E", _ => "F",
    };
    proof {
        assert(r@ =~= seq![hex_char_of(d as int)]);
    }
    r
}

impl Color {
    /// Builds a color from its three quantized channels.
    pub fn new(r: u8, g: u8, b: u8) -> (c: Color)
        ensures
            c == (Color { r, g, b }),
    {
        Color { r, g, b }
    }

    /// Builds a color from an 8-bit quantized triple.
    pub fn from_quantized(r: u8, g: u8, b: u8) -> (c: Color)
        ensures
            c == (Color { r, g, b }),
    {
        Color { r, g, b }
    }

    /// The 8-bit quantized triple of this color.
    pub fn to_quantized(&self) -> (q: [u8; 3])
        ensures
            q@ == seq![self.r, self.g, self.b],
    {
        let q = [self.r, self.g, self.b];
        proof {
            assert(q@ =~= seq![self.r, self.g, self.b]);
        }
        q
    }

    /// True exactly when every channel is zero.
    pub fn is_black(&self) -> (black: bool)
        ensures
            black == (self.r == 0 && self.g == 0 && self.b == 0),
    {
        self.r == 0 && self.g == 0 && self.b == 0
    }

    /// Writes the color as `#RRGGBB` with upper-case digits.
    pub fn to_hex(&self) -> (s: String)
        ensures
            s@ == to_hex_chars(*self),
    {
        proof {
            reveal_strlit("#");
        }
        let mut s = String::from_str("#");
        s.append(hex_digit_str(self.r / 16));
        s.append(hex_digit_str(self.r % 16));
        s.append(hex_digit_str(self.g / 16));
        s.append(hex_digit_str(self.g % 16));
        s.append(hex_digit_str(self.b / 16));
        s.append(hex_digit_str(self.b % 16));
        proof {
            assert(s@ =~= to_hex_chars(*self));
        }
        s
    }

    /// Parses `#RGB`, `#RGBA`, `#RRGGBB` or `#RRGGBBAA`, the `#` and
    /// the alpha digits optional; alpha is ignored.
    pub fn from_hex(hex: &str) -> (c: Option<Color>)
        ensures
            c == from_hex_chars(hex@),
    {
        let n = hex.unicode_len();
        let start: usize = if n >= 1 && hex.get_char(0) == '#' { 1 } else { 0 };
        proof {
            if start == 1 {
                assert(hex@.skip(1) =~= Seq::new((n - 1) as nat, |i: int| hex@[i + 1]));
            } else {
                assert(hex@.skip(0) =~= hex@);
            }
        }
        let m = n - start;
        if m == 3 || m == 4 {
            let r = match hex_digit_exec(hex.get_char(start)) {
                Some(d) => d,
                None => { return None; },
            };
            let g = match hex_digit_exec(hex.get_char(start + 1)) {
                Some(d) => d,
                None => { return None; },
            };
            let b = match hex_digit_exec(hex.get_char(start + 2)) {
                Some(d) => d,
                None => { return None; },
            };
            Some(Color { r: 17 * r, g: 17 * g, b: 17 * b })
        } else if m == 6 || m == 8 {
            let r1 = match hex_digit_exec(hex.get_char(start)) {
                Some(d) => d,
                None => { return None; },
            };
            let r2 = match hex_digit_exec(hex.get_char(start + 1)) {
                Some(d) => d,
                None => { return None; },
            };
            let g1 = match hex_digit_exec(hex.get_char(start + 2)) {
                Some(d) => d,
                None => { return None; },
            };
            let g2 = match hex_digit_exec(hex.get_char(start + 3)) {
                Some(d) => d,
                None => { return None; },
            };
            let b1 = match hex_digit_exec(hex.get_char(start + 4)) {
                Some(d) => d,
                None => { return None; },
            };
            let b2 = match hex_digit_exec(hex.get_char(start + 5)) {
                Some(d) => d,
                None => { return None; },
            };
            Some(Color { r: 16 * r1 + r2, g: 16 * g1 + g2, b: 16 * b1 + b2 })
        } else {
            None
        }
    }

    /// Converts hue, saturation and lightness to a color.
    ///
    /// `h` is in thousandths of a degree and wraps at a full turn;
    /// `s` and `l` are in thousandths and clamp at one thousand.  The
    /// conversion is the usual piecewise-linear one, carried out in
    /// integers scaled by one million and rounded to the nearest byte
    /// per channel.
    #[verifier::rlimit(30)]
    pub fn from_hsl(h: u32, s: u32, l: u32) -> (c: Color)
        ensures
            c == from_hsl_spec(h as int, s as int, l as int),
    {
        let h0 = h % 360000;
        let s0 = if s > 1000 { 1000 } else { s };
        let l0 = if l > 1000 { 1000 } else { l };
        let spread = if 2 * l0 >= 1000 { 2 * l0 - 1000 } else { 1000 - 2 * l0 };
        proof {
            assert((1000 - spread) * s0 <= 2000 * l0
                && (1000 - spread) * s0 <= 2000 * (1000 - l0)
                && (1000 - spread) * s0 <= 1000000) by (nonlinear_arith)
                requires
                    s0 <= 1000u32,
                    l0 <= 1000u32,
                    spread == (if 2 * l0 >= 1000u32 { 2 * l0 - 1000 } else { 1000 - 2 * l0 }),
            ;
        }
        let chroma = (1000 - spread) * s0;
        let u = h0 / 60;
        let a = if u % 2000 >= 1000 { u % 2000 - 1000 } else { 1000 - u % 2000 };
        proof {
            assert(chroma * (1000 - a) <= 1000000000) by (nonlinear_arith)
                requires
                    a <= 1000u32,
                    chroma <= 1000000u32,
            ;
        }
        let xv = chroma * (1000 - a) / 1000;
        let mv = 1000 * l0 - chroma / 2;
        proof {
            assert(xv <= chroma) by (nonlinear_arith)
                requires
                    xv == chroma * (1000 - a) / 1000,
                    a <= 1000u32,
            ;
            assert(chroma == 2 * (chroma / 2) + chroma % 2);
            assert(chroma + mv <= 1000000);
        }
        let seg = u / 1000;
        let rv = if seg == 0 || seg == 5 { chroma } else if seg == 1 || seg == 4 { xv } else { 0 };
        let gv = if seg == 1 || seg == 2 { chroma } else if seg == 0 || seg == 3 { xv } else { 0 };
        let bv = if seg == 3 || seg == 4 { chroma } else if seg == 2 || seg == 5 { xv } else { 0 };
        let r = Self::quantize(rv + mv);
        let g = Self::quantize(gv + mv);
        let b = Self::quantize(bv + mv);
        Color { r, g, b }
    }

    /// Rounds a channel value scaled by one million to a byte.
    fn quantize(v: u32) -> (q: u8)
        requires
            v <= 1000000,
        ensures
            q == quantize_channel(v as int),
    {
        ((v * 255 + 500000) / 1000000) as u8
    }
}

/// The hex codec is a round trip: rendering any quantized triple with
/// `to_hex` and reading it back with `from_hex` returns the same
/// color.
pub proof fn lemma_hex_round_trip(r: u8, g: u8, b: u8)
    ensures
        from_hex_chars(to_hex_chars(Color { r, g, b })) == Some(Color { r, g, b }),
{
    let c = Color { r, g, b };
    let s0 = to_hex_chars(c);
    assert(s0[0] == '#');
    let s = s0.skip(1);
    assert(s =~= hex_pair_of(r) + hex_pair_of(g) + hex_pair_of(b));
    assert(s.len() == 6);
    lemma_hex_char_val(r as int / 16);
    lemma_hex_char_val(r as int % 16);
    lemma_hex_char_val(g as int / 16);
    lemma_hex_char_val(g as int % 16);
    lemma_hex_char_val(b as int / 16);
    lemma_hex_char_val(b as int % 16);
    assert(s[0] == hex_char_of(r as int / 16));
    assert(s[1] == hex_char_of(r as int % 16));
    assert(s[2] == hex_char_of(g as int / 16));
    assert(s[3] == hex_char_of(g as int % 16));
    assert(s[4] == hex_char_of(b as int / 16));
    assert(s[5] == hex_char_of(b as int % 16));
    assert(16 * (r as int / 16) + r as int % 16 == r as int);
    assert(16 * (g as int / 16) + g as int % 16 == g as int);
    assert(16 * (b as int / 16) + b as int % 16 == b as int);
}

/// Reading back the digit written for a value below sixteen returns
/// that value.
proof fn lemma_hex_char_val(d: int)
    requires
        0 <= d < 16,
    ensures
        hex_val_of(hex_char_of(d)) == d,
{
}

/// At full saturation and half lightness, the six corner hues map
/// exactly to the six primary and secondary colors.
pub proof fn lemma_hsl_corners()
    ensures
        from_hsl_spec(0, 1000, 500) == (Color { r: 255, g: 0, b: 0 }),
        from_hsl_spec(60000, 1000, 500) == (Color { r: 255, g: 255, b: 0 }),
        from_hsl_spec(120000, 1000, 500) == (Color { r: 0, g: 255, b: 0 }),
        from_hsl_spec(180000, 1000, 500) == (Color { r: 0, g: 255, b: 255 }),
        from_hsl_spec(240000, 1000, 500) == (Color { r: 0, g: 0, b: 255 }),
        from_hsl_spec(300000, 1000, 500) == (Color { r: 255, g: 0, b: 255 }),
{
}

} // verus!
