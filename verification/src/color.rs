//! The color model: palette / xterm-256 / truecolor values, palette
//! resolution, gamma correction through a precomputed level table, and
//! CSS hex formatting.

use vstd::prelude::*;
use vstd::string::StringExecFns;

use crate::text::push_char;
use crate::text::str_chars;

verus! {

/// A terminal color.
#[derive(Debug, PartialEq, Eq, Copy, Clone, Structural)]
pub enum Color {
    /// No color set: the page default shows through.
    Unset,
    /// One of the eight base palette entries; `bold` selects the intense
    /// palette instead of the standard one.
    Index { index: u8, bold: bool },
    /// Direct 24-bit color.
    Rgb { r: u8, g: u8, b: u8 },
}

/// The standard (non-bold) eight-entry palette.
pub open spec fn standard_palette(i: int) -> Color {
    if i == 0 {
        Color::Rgb { r: 0, g: 0, b: 0 }
    } else if i == 1 {
        Color::Rgb { r: 205, g: 0, b: 0 }
    } else if i == 2 {
        Color::Rgb { r: 0, g: 205, b: 0 }
    } else if i == 3 {
        Color::Rgb { r: 205, g: 205, b: 0 }
    } else if i == 4 {
        Color::Rgb { r: 64, g: 64, b: 238 }
    } else if i == 5 {
        Color::Rgb { r: 205, g: 0, b: 205 }
    } else if i == 6 {
        Color::Rgb { r: 0, g: 205, b: 205 }
    } else {
        Color::Rgb { r: 229, g: 229, b: 229 }
    }
}

/// The intense (bold) eight-entry palette.
pub open spec fn intense_palette(i: int) -> Color {
    if i == 0 {
        Color::Rgb { r: 127, g: 127, b: 127 }
    } else if i == 1 {
        Color::Rgb { r: 255, g: 0, b: 0 }
    } else if i == 2 {
        Color::Rgb { r: 0, g: 255, b: 0 }
    } else if i == 3 {
        Color::Rgb { r: 255, g: 255, b: 0 }
    } else if i == 4 {
        Color::Rgb { r: 92, g: 92, b: 255 }
    } else if i == 5 {
        Color::Rgb { r: 255, g: 0, b: 255 }
    } else if i == 6 {
        Color::Rgb { r: 0, g: 255, b: 255 }
    } else {
        Color::Rgb { r: 255, g: 255, b: 255 }
    }
}

impl Color {
    /// A well-formed color keeps a palette index below eight.
    pub open spec fn wf(self) -> bool {
        match self {
            Color::Index { index, .. } => index < 8,
            _ => true,
        }
    }

    /// Palette entries resolved; `Rgb` and `Unset` are left as they are.
    pub open spec fn to_rgb_spec(self) -> Color {
        match self {
            Color::Index { index, bold } => if bold {
                intense_palette(index as int)
            } else {
                standard_palette(index as int)
            },
            c => c,
        }
    }

    /// Builds an `Rgb` color from the low byte of each channel argument.
    pub fn from_rgb(r: i32, g: i32, b: i32) -> (c: Color)
        ensures
            c == (Color::Rgb { r: (r & 0xff) as u8, g: (g & 0xff) as u8, b: (b & 0xff) as u8 }),
    {
        proof {
            assert(0 <= (r & 0xff) < 256 && 0 <= (g & 0xff) < 256 && 0 <= (b & 0xff) < 256)
                by (bit_vector);
        }
        Color::Rgb { r: (r & 0xff) as u8, g: (g & 0xff) as u8, b: (b & 0xff) as u8 }
    }

    /// Splits a packed `0xRRGGBB` value into channels.
    pub fn from_int(rgb: i32) -> (c: Color)
        ensures
            c == (Color::Rgb {
                r: ((rgb >> 16) & 0xff) as u8,
                g: ((rgb >> 8) & 0xff) as u8,
                b: (rgb & 0xff) as u8,
            }),
    {
        Color::from_rgb(rgb >> 16, rgb >> 8, rgb)
    }

    /// Builds a palette color. Callers keep the index in the palette range.
    pub fn from_index(i: i32, bold: bool) -> (c: Color)
        requires
            0 <= i < 8,
        ensures
            c == (Color::Index { index: i as u8, bold }),
    {
        Color::Index { index: i as u8, bold }
    }

    pub open spec fn apply_bold_spec(self, bold: bool) -> Color {
        match self {
            Color::Index { index, .. } => Color::Index { index, bold },
            c => c,
        }
    }

    /// Re-tags a palette color with a new bold flag, reselecting the
    /// palette; other colors are unchanged. SGR bold toggling changes the
    /// brightness of an already selected palette color retroactively.
    pub fn apply_bold(&self, bold: bool) -> (c: Color)
        ensures
            c == self.apply_bold_spec(bold),
    {
        match *self {
            Color::Index { index, .. } => Color::Index { index, bold },
            c => c,
        }
    }

    pub open spec fn or_default_spec(self, def: Color) -> Color {
        if self is Unset {
            def
        } else {
            self
        }
    }

    /// The color itself, or `def` where no color is set.
    pub fn or_default(&self, def: Color) -> (c: Color)
        ensures
            c == self.or_default_spec(def),
    {
        if *self == Color::Unset {
            def
        } else {
            *self
        }
    }

    /// Resolves a palette entry to its `Rgb` value; `Rgb` and `Unset` pass
    /// through unchanged.
    pub fn to_rgb(&self) -> (c: Color)
        requires
            self.wf(),
        ensures
            c == self.to_rgb_spec(),
    {
        match *self {
            Color::Index { index, bold } => {
                if bold {
                    intense_color(index)
                } else {
                    standard_color(index)
                }
            },
            c => c,
        }
    }

    /// Decodes one xterm-256 palette value.
    pub fn from_xterm256(value: u32) -> (c: Color)
        ensures
            c == xterm256_spec(value),
            c.wf(),
    {
        if value < 8 {
            Color::Index { index: value as u8, bold: false }
        } else if value < 16 {
            Color::Index { index: (value - 8) as u8, bold: true }
        } else if 232 <= value && value <= 256 {
            let level = ((value - 232) * 10 + 8) as u8;
            Color::Rgb { r: level, g: level, b: level }
        } else {
            let n = value - 16;
            let b = n % 6;
            let g = (n / 6) % 6;
            let r = (n / 36) % 6;
            Color::Rgb { r: (r * 51) as u8, g: (g * 51) as u8, b: (b * 51) as u8 }
        }
    }

    /// The packed `0xRRGGBB` value of the resolved color.
    pub open spec fn to_int_spec(self) -> int {
        match self.to_rgb_spec() {
            Color::Rgb { r, g, b } => r * 0x10000 + g * 0x100 + b,
            _ => 0,
        }
    }

    /// Packs the resolved color into one integer, `0xRRGGBB`. A color must
    /// be set: resolving `Unset` without a default is refused.
    pub fn to_int(&self) -> (v: i32)
        requires
            self.wf(),
            !(*self is Unset),
        ensures
            v == self.to_int_spec(),
            0 <= v < 0x1000000,
    {
        let c = self.to_rgb();
        match c {
            Color::Rgb { r, g, b } => (r as i32) * 0x10000 + (g as i32) * 0x100 + (b as i32),
            _ => {
                proof {
                    assert(false);
                }
                0
            },
        }
    }
}

/// The xterm-256 palette, decoded: the first 16 entries map to the two
/// base palettes, 232 and up is a 24-step grayscale ramp, and the middle
/// is a 6x6x6 color cube.
pub open spec fn xterm256_spec(v: u32) -> Color {
    if v < 8 {
        Color::Index { index: v as u8, bold: false }
    } else if v < 16 {
        Color::Index { index: (v - 8) as u8, bold: true }
    } else if 232 <= v && v <= 256 {
        Color::Rgb {
            r: ((v - 232) * 10 + 8) as u8,
            g: ((v - 232) * 10 + 8) as u8,
            b: ((v - 232) * 10 + 8) as u8,
        }
    } else {
        Color::Rgb {
            r: ((((v - 16) as int / 36) % 6) * 51) as u8,
            g: ((((v - 16) as int / 6) % 6) * 51) as u8,
            b: (((v - 16) as int % 6) * 51) as u8,
        }
    }
}

/// One entry of the standard palette.
fn standard_color(i: u8) -> (c: Color)
    requires
        i < 8,
    ensures
        c == standard_palette(i as int),
{
    if i == 0 {
        Color::Rgb { r: 0, g: 0, b: 0 }
    } else if i == 1 {
        Color::Rgb { r: 205, g: 0, b: 0 }
    } else if i == 2 {
        Color::Rgb { r: 0, g: 205, b: 0 }
    } else if i == 3 {
        Color::Rgb { r: 205, g: 205, b: 0 }
    } else if i == 4 {
        Color::Rgb { r: 64, g: 64, b: 238 }
    } else if i == 5 {
        Color::Rgb { r: 205, g: 0, b: 205 }
    } else if i == 6 {
        Color::Rgb { r: 0, g: 205, b: 205 }
    } else {
        Color::Rgb { r: 229, g: 229, b: 229 }
    }
}

/// One entry of the intense palette.
fn intense_color(i: u8) -> (c: Color)
    requires
        i < 8,
    ensures
        c == intense_palette(i as int),
{
    if i == 0 {
        Color::Rgb { r: 127, g: 127, b: 127 }
    } else if i == 1 {
        Color::Rgb { r: 255, g: 0, b: 0 }
    } else if i == 2 {
        Color::Rgb { r: 0, g: 255, b: 0 }
    } else if i == 3 {
        Color::Rgb { r: 255, g: 255, b: 0 }
    } else if i == 4 {
        Color::Rgb { r: 92, g: 92, b: 255 }
    } else if i == 5 {
        Color::Rgb { r: 255, g: 0, b: 255 }
    } else if i == 6 {
        Color::Rgb { r: 0, g: 255, b: 255 }
    } else {
        Color::Rgb { r: 255, g: 255, b: 255 }
    }
}

/// The lowercase hex digit for a value below sixteen.
pub open spec fn hex_digit_char(v: int) -> char {
    if v < 10 {
        (48 + v) as char
    } else {
        (87 + v) as char
    }
}

/// Two lowercase hex digits for one byte, high nibble first.
pub open spec fn hex_byte_chars(b: u8) -> Seq<char> {
    seq![hex_digit_char(b as int / 16), hex_digit_char(b as int % 16)]
}

/// The CSS text of an RGB color: `#` and six lowercase hex digits.
pub open spec fn css_hex_chars(c: Color) -> Seq<char>
    recommends
        c is Rgb,
{
    match c {
        Color::Rgb { r, g, b } => seq!['#'] + hex_byte_chars(r) + hex_byte_chars(g)
            + hex_byte_chars(b),
        _ => seq![],
    }
}

/// The color with the gamma table applied to each channel of its resolved
/// RGB value; `Unset` passes through.
pub open spec fn gamma_correct_spec(t: Seq<u8>, c: Color) -> Color
    recommends
        t.len() == 256,
{
    match c.to_rgb_spec() {
        Color::Rgb { r, g, b } => Color::Rgb {
            r: t[r as int],
            g: t[g as int],
            b: t[b as int],
        },
        x => x,
    }
}

impl Color {
    /// Applies a gamma table to the resolved color, channel by channel.
    /// Gamma touches only formatting-time values, never stored state.
    pub fn apply_gamma(&self, t: &Gamma) -> (c: Color)
        requires
            self.wf(),
            t.wf(),
        ensures
            c == gamma_correct_spec(t@, *self),
    {
        let rgb = self.to_rgb();
        match rgb {
            Color::Rgb { r, g, b } => Color::Rgb {
                r: t.level(r),
                g: t.level(g),
                b: t.level(b),
            },
            c => c,
        }
    }

    /// Formats the gamma-corrected color as lowercase CSS hex text.
    /// A color must be set: formatting `Unset` is refused.
    pub fn to_css_color(&self, t: &Gamma) -> (s: String)
        requires
            self.wf(),
            t.wf(),
            !(*self is Unset),
        ensures
            s@ == css_hex_chars(gamma_correct_spec(t@, *self)),
    {
        let c = self.apply_gamma(t);
        let mut s = String::new();
        push_char(&mut s, '#');
        match c {
            Color::Rgb { r, g, b } => {
                push_hex_byte(&mut s, r);
                push_hex_byte(&mut s, g);
                push_hex_byte(&mut s, b);
                proof {
                    assert(s@ =~= css_hex_chars(gamma_correct_spec(t@, *self)));
                }
                s
            },
            _ => {
                proof {
                    assert(false);
                }
                s
            },
        }
    }
}

/// Whether a character is a hexadecimal digit.
pub open spec fn is_hex_digit_char(c: char) -> bool {
    (48 <= c as int && c as int <= 57) || (97 <= c as int && c as int <= 102) || (65 <= c as int
        && c as int <= 70)
}

/// The value of a hexadecimal digit, either case.
pub open spec fn hex_digit_val(c: char) -> int
    recommends
        is_hex_digit_char(c),
{
    if 48 <= c as int && c as int <= 57 {
        c as int - 48
    } else if 97 <= c as int && c as int <= 102 {
        c as int - 87
    } else {
        c as int - 55
    }
}

/// The value of a sequence of hexadecimal digits, most significant first.
pub open spec fn hex_val(s: Seq<char>) -> int
    decreases s.len(),
{
    if s.len() == 0 {
        0
    } else {
        hex_val(s.drop_last()) * 16 + hex_digit_val(s.last())
    }
}

/// The digits of a hex literal, an optional leading sign stripped.
pub open spec fn hex_body(s: Seq<char>) -> Seq<char> {
    if s.len() > 0 && (s[0] == '+' || s[0] == '-') {
        s.skip(1)
    } else {
        s
    }
}

/// Whether a string parses as a 32-bit unsigned hex literal: an optional
/// sign, then at least one hex digit, with a value that fits (a minus
/// sign only admits a zero value).
pub open spec fn hex_literal_ok(s: Seq<char>) -> bool {
    &&& hex_body(s).len() > 0
    &&& forall|i: int| 0 <= i < hex_body(s).len() ==> is_hex_digit_char(hex_body(s)[i])
    &&& if s.len() > 0 && s[0] == '-' {
        hex_val(hex_body(s)) == 0
    } else {
        hex_val(hex_body(s)) <= u32::MAX
    }
}

/// The color a hex literal denotes: its value split into three channels.
pub open spec fn hex_color(s: Seq<char>) -> Color
    recommends
        hex_literal_ok(s),
{
    let v = hex_val(hex_body(s));
    Color::Rgb { r: ((v / 0x10000) % 0x100) as u8, g: ((v / 0x100) % 0x100) as u8, b: (v % 0x100) as u8 }
}

impl Color {
    /// Parses a truecolor literal such as `cd0000`. Exactly the strings
    /// that read as a 32-bit unsigned hex number are accepted; anything
    /// else is an invalid-color error naming the input.
    pub fn from_hex(rrggbb: &str) -> (r: Result<Color, String>)
        ensures
            r is Ok <==> hex_literal_ok(rrggbb@),
            r matches Ok(c) ==> c == hex_color(rrggbb@),
            r matches Err(m) ==> m@ == "Invalid color '"@ + rrggbb@ + "'; expected RRGGBB"@,
    {
        let ghost sv = rrggbb@;
        let cs = str_chars(rrggbb);
        let n = cs.len();
        let has_sign = n > 0 && (cs[0] == '+' || cs[0] == '-');
        let neg = n > 0 && cs[0] == '-';
        let start: usize = if has_sign {
            1
        } else {
            0
        };
        proof {
            assert(hex_body(sv) =~= sv.skip(start as int));
        }
        if n == start {
            return Err(invalid_color(rrggbb));
        }
        let mut val: u32 = 0;
        let mut over = false;
        let mut i: usize = start;
        while i < n
            invariant
                sv == rrggbb@,
                cs@ == sv,
                n == sv.len(),
                start <= i <= n,
                start == 1 || start == 0,
                hex_body(sv) == sv.skip(start as int),
                forall|j: int| start <= j < i ==> is_hex_digit_char(sv[j]),
                !over ==> val == hex_val(sv.subrange(start as int, i as int)),
                over ==> hex_val(sv.subrange(start as int, i as int)) > u32::MAX,
            decreases n - i,
        {
            let c = cs[i];
            if !is_hex_digit(c) {
                proof {
                    assert(hex_body(sv).len() == n - start);
                    assert(hex_body(sv)[i - start] == sv[i as int]);
                    assert(!is_hex_digit_char(hex_body(sv)[i - start]));
                    assert(!hex_literal_ok(sv));
                }
                return Err(invalid_color(rrggbb));
            }
            let d = hex_digit_value(c);
            proof {
                assert(sv.subrange(start as int, i + 1).drop_last() =~= sv.subrange(
                    start as int,
                    i as int,
                ));
                assert(sv.subrange(start as int, i + 1).last() == sv[i as int]);
            }
            if over || val >= 0x10000000 {
                over = true;
            } else {
                val = val * 16 + (d as u32);
            }
            i = i + 1;
        }
        proof {
            assert(sv.subrange(start as int, n as int) =~= hex_body(sv));
        }
        if neg {
            if over || val != 0 {
                Err(invalid_color(rrggbb))
            } else {
                proof {
                    assert(hex_color(sv) == (Color::Rgb { r: 0u8, g: 0u8, b: 0u8 }));
                }
                Ok(Color::Rgb { r: 0, g: 0, b: 0 })
            }
        } else {
            if over {
                Err(invalid_color(rrggbb))
            } else {
                proof {
                    assert((val >> 16) & 0xff == ((val as int) / 0x10000) % 0x100
                        && (val >> 8) & 0xff == ((val as int) / 0x100) % 0x100 && val & 0xff == (
                    val as int) % 0x100 && (val >> 16) & 0xff < 256 && (val >> 8) & 0xff < 256
                        && val & 0xff < 256) by (bit_vector);
                }
                let r = ((val >> 16) & 0xff) as u8;
                let g = ((val >> 8) & 0xff) as u8;
                let b = (val & 0xff) as u8;
                Ok(Color::Rgb { r, g, b })
            }
        }
    }
}

/// The error text for a string that does not read as a color.
fn invalid_color(s: &str) -> (m: String)
    ensures
        m@ == "Invalid color '"@ + s@ + "'; expected RRGGBB"@,
{
    let m = String::from_str("Invalid color '").concat(s).concat("'; expected RRGGBB");
    proof {
        assert(m@ =~= "Invalid color '"@ + s@ + "'; expected RRGGBB"@);
    }
    m
}

/// Whether a character is a hexadecimal digit.
fn is_hex_digit(c: char) -> (r: bool)
    ensures
        r == is_hex_digit_char(c),
{
    let u = c as u32;
    (48 <= u && u <= 57) || (97 <= u && u <= 102) || (65 <= u && u <= 70)
}

/// The value of a hexadecimal digit.
fn hex_digit_value(c: char) -> (v: u8)
    requires
        is_hex_digit_char(c),
    ensures
        v == hex_digit_val(c),
        v < 16,
{
    let u = c as u32;
    if u <= 57 {
        (u - 48) as u8
    } else if u >= 97 {
        (u - 87) as u8
    } else {
        (u - 55) as u8
    }
}

/// The lowercase form of a hexadecimal digit character.
pub open spec fn lower_hex_char(c: char) -> char {
    if 65 <= c as int && c as int <= 70 {
        (((c as u32) + 32) as u8) as char
    } else {
        c
    }
}

/// One byte assembled from two hex digit characters formats back into
/// the same two characters, lowercased.
proof fn lemma_hex_byte_digits(c0: char, c1: char)
    requires
        is_hex_digit_char(c0),
        is_hex_digit_char(c1),
    ensures
        ({
            let b = (hex_digit_val(c0) * 16 + hex_digit_val(c1)) as u8;
            hex_byte_chars(b) == seq![lower_hex_char(c0), lower_hex_char(c1)]
        }),
{
    broadcast use vstd::utf8::char_u32_cast;

    let v0 = hex_digit_val(c0);
    let v1 = hex_digit_val(c1);
    let b = (v0 * 16 + v1) as u8;
    assert(0 <= v0 < 16 && 0 <= v1 < 16);
    assert(b as int == v0 * 16 + v1);
    assert(b as int / 16 == v0 && b as int % 16 == v1);
    assert((c0 as u32) as char == c0);
    assert((c1 as u32) as char == c1);
    assert(hex_digit_char(v0) == lower_hex_char(c0));
    assert(hex_digit_char(v1) == lower_hex_char(c1));
    assert(hex_byte_chars(b) =~= seq![lower_hex_char(c0), lower_hex_char(c1)]);
}

/// Parsing six hex digits and formatting the parsed color under the
/// identity gamma curve gives `#` followed by the same six digits in
/// lower case: the hex form round-trips.
pub proof fn lemma_css_hex_round_trip(h: Seq<char>)
    requires
        h.len() == 6,
        forall|i: int| 0 <= i < 6 ==> is_hex_digit_char(#[trigger] h[i]),
    ensures
        hex_literal_ok(h),
        css_hex_chars(gamma_correct_spec(Seq::new(256, |i: int| i as u8), hex_color(h))) == seq![
            '#',
        ] + h.map_values(|c: char| lower_hex_char(c)),
{
    let d0 = hex_digit_val(h[0]);
    let d1 = hex_digit_val(h[1]);
    let d2 = hex_digit_val(h[2]);
    let d3 = hex_digit_val(h[3]);
    let d4 = hex_digit_val(h[4]);
    let d5 = hex_digit_val(h[5]);
    assert(hex_body(h) == h);
    let p1 = h.subrange(0, 1);
    let p2 = h.subrange(0, 2);
    let p3 = h.subrange(0, 3);
    let p4 = h.subrange(0, 4);
    let p5 = h.subrange(0, 5);
    let p6 = h.subrange(0, 6);
    assert(hex_val(Seq::<char>::empty()) == 0);
    assert(p1.drop_last() =~= Seq::<char>::empty() && p1.last() == h[0]);
    assert(hex_val(p1) == d0);
    assert(p2.drop_last() =~= p1 && p2.last() == h[1]);
    assert(hex_val(p2) == hex_val(p1) * 16 + d1);
    assert(p3.drop_last() =~= p2 && p3.last() == h[2]);
    assert(hex_val(p3) == hex_val(p2) * 16 + d2);
    assert(p4.drop_last() =~= p3 && p4.last() == h[3]);
    assert(hex_val(p4) == hex_val(p3) * 16 + d3);
    assert(p5.drop_last() =~= p4 && p5.last() == h[4]);
    assert(hex_val(p5) == hex_val(p4) * 16 + d4);
    assert(p6.drop_last() =~= p5 && p6.last() == h[5]);
    assert(hex_val(p6) == hex_val(p5) * 16 + d5);
    assert(p6 =~= h);
    let b0 = d0 * 16 + d1;
    let b1 = d2 * 16 + d3;
    let b2 = d4 * 16 + d5;
    let v = hex_val(h);
    assert(v == b0 * 0x10000 + b1 * 0x100 + b2);
    assert(0 <= v <= 0xffffff);
    assert(hex_literal_ok(h));
    assert(v / 0x10000 == b0 && (v / 0x100) % 0x100 == b1 && v % 0x100 == b2) by (nonlinear_arith)
        requires
            v == b0 * 0x10000 + b1 * 0x100 + b2,
            0 <= b0 < 256,
            0 <= b1 < 256,
            0 <= b2 < 256,
    ;
    assert((v / 0x10000) % 0x100 == b0);
    assert(hex_color(h) == (Color::Rgb { r: b0 as u8, g: b1 as u8, b: b2 as u8 }));
    let t = Seq::new(256, |i: int| i as u8);
    assert(t[b0] == b0 as u8 && t[b1] == b1 as u8 && t[b2] == b2 as u8);
    assert(gamma_correct_spec(t, hex_color(h)) == (Color::Rgb {
        r: b0 as u8,
        g: b1 as u8,
        b: b2 as u8,
    }));
    lemma_hex_byte_digits(h[0], h[1]);
    lemma_hex_byte_digits(h[2], h[3]);
    lemma_hex_byte_digits(h[4], h[5]);
    assert(css_hex_chars(gamma_correct_spec(t, hex_color(h))) =~= seq!['#'] + h.map_values(
        |c: char| lower_hex_char(c),
    ));
}

/// Appends the two lowercase hex digits of one byte.
fn push_hex_byte(s: &mut String, b: u8)
    ensures
        final(s)@ == old(s)@ + hex_byte_chars(b),
{
    push_char(s, hex_digit(b / 16));
    push_char(s, hex_digit(b % 16));
    proof {
        assert(s@ =~= old(s)@ + hex_byte_chars(b));
    }
}

/// The lowercase hex digit of a nibble.
fn hex_digit(v: u8) -> (c: char)
    requires
        v < 16,
    ensures
        c == hex_digit_char(v as int),
{
    if v < 10 {
        (v + 48) as char
    } else {
        (v + 87) as char
    }
}

/// A gamma correction curve, tabulated: entry `v` is the corrected value of
/// channel level `v`. The table always has one entry per channel level.
/// Tabulation keeps floating point out of the converter: the caller
/// computes the curve once and hands it over as plain bytes.
pub struct Gamma {
    levels: Vec<u8>,
}

impl View for Gamma {
    type V = Seq<u8>;

    closed spec fn view(&self) -> Seq<u8> {
        self.levels@
    }
}

impl Gamma {
    pub open spec fn wf(&self) -> bool {
        self@.len() == 256
    }

    /// Wraps a full level table; refuses one that does not cover all 256
    /// channel levels.
    pub fn new(levels: Vec<u8>) -> (r: Option<Gamma>)
        ensures
            match r {
                Some(g) => g.wf() && g@ == levels@ && levels@.len() == 256,
                None => levels@.len() != 256,
            },
    {
        if levels.len() == 256 {
            Some(Gamma { levels })
        } else {
            None
        }
    }

    /// The identity curve: every channel level maps to itself.
    pub fn identity() -> (r: Gamma)
        ensures
            r.wf(),
            forall|i: int| 0 <= i < 256 ==> r@[i] == i as u8,
    {
        let mut levels: Vec<u8> = Vec::new();
        let mut i: usize = 0;
        while i < 256
            invariant
                i <= 256,
                levels@.len() == i,
                forall|j: int| 0 <= j < i ==> levels@[j] == j as u8,
            decreases 256 - i,
        {
            levels.push(i as u8);
            i = i + 1;
        }
        Gamma { levels }
    }

    /// The corrected value of one channel level.
    pub fn level(&self, v: u8) -> (r: u8)
        requires
            self.wf(),
        ensures
            r == self@[v as int],
    {
        self.levels[v as usize]
    }
}

} // verus!
