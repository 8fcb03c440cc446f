use vstd::prelude::*;

verus! {

/// A color in 8-bit RGB. Two colors are equal when their three channels are.
#[derive(Debug, Clone, Copy, PartialEq, Eq, Hash, Structural)]
pub struct Color {
    pub r: u8,
    pub g: u8,
    pub b: u8,
}

/// Squared Euclidean distance between two colors in RGB space.
///
/// Distances are only ever compared with each other, and the square root is
/// strictly increasing, so the squared distance orders colors exactly as the
/// Euclidean distance does.
pub open spec fn distance_squared(a: Color, b: Color) -> int {
    (a.r - b.r) * (a.r - b.r) + (a.g - b.g) * (a.g - b.g) + (a.b - b.b) * (a.b - b.b)
}

/// The 24-bit integer `0xRRGGBB` that stands for a color.
pub open spec fn packed(color: Color) -> int {
    color.r * 65536 + color.g * 256 + color.b
}

/// The color whose channels are the three low bytes of `value`; higher bits
/// are ignored.
pub open spec fn unpacked(value: int) -> Color {
    Color {
        r: ((value / 65536) % 256) as u8,
        g: ((value / 256) % 256) as u8,
        b: (value % 256) as u8,
    }
}

/// The lower-case hexadecimal digit for a value below sixteen.
pub open spec fn hex_digit(value: int) -> char {
    if value == 0 {
        '0'
    } else if value == 1 {
        '1'
    } else if value == 2 {
        '2'
    } else if value == 3 {
        '3'
    } else if value == 4 {
        '4'
    } else if value == 5 {
        '5'
    } else if value == 6 {
        '6'
    } else if value == 7 {
        '7'
    } else if value == 8 {
        '8'
    } else if value == 9 {
        '9'
    } else if value == 10 {
        'a'
    } else if value == 11 {
        'b'
    } else if value == 12 {
        'c'
    } else if value == 13 {
        'd'
    } else if value == 14 {
        'e'
    } else {
        'f'
    }
}

/// The text `#rrggbb` of a color.
pub open spec fn hex_text(color: Color) -> Seq<char> {
    seq![
        '#',
        hex_digit((color.r / 16) as int),
        hex_digit((color.r % 16) as int),
        hex_digit((color.g / 16) as int),
        hex_digit((color.g % 16) as int),
        hex_digit((color.b / 16) as int),
        hex_digit((color.b % 16) as int),
    ]
}

/// `String::push` of the standard library: the character is appended at the
/// end of the string and nothing else changes.
pub assume_specification[ String::push ](s: &mut String, ch: char)
    ensures
        final(s)@ == old(s)@.push(ch),
;

fn hex_digit_of(value: u8) -> (digit: char)
    requires
        value < 16,
    ensures
        digit == hex_digit(value as int),
{
    if value == 0 {
        '0'
    } else if value == 1 {
        '1'
    } else if value == 2 {
        '2'
    } else if value == 3 {
        '3'
    } else if value == 4 {
        '4'
    } else if value == 5 {
        '5'
    } else if value == 6 {
        '6'
    } else if value == 7 {
        '7'
    } else if value == 8 {
        '8'
    } else if value == 9 {
        '9'
    } else if value == 10 {
        'a'
    } else if value == 11 {
        'b'
    } else if value == 12 {
        'c'
    } else if value == 13 {
        'd'
    } else if value == 14 {
        'e'
    } else {
        'f'
    }
}

fn channel_difference_squared(x: u8, y: u8) -> (square: u32)
    ensures
        square == (x - y) * (x - y),
        square <= 65025,
{
    let d: u32 = if x >= y {
        (x - y) as u32
    } else {
        (y - x) as u32
    };
    assert(d * d <= 65025 && d * d == (x - y) * (x - y)) by (nonlinear_arith)
        requires
            d <= 255,
            d == x - y || d == y - x,
    ;
    d * d
}

impl Color {
    /// Builds a color from its three channels.
    pub fn new(r: u8, g: u8, b: u8) -> (color: Self)
        ensures
            color == (Color { r, g, b }),
    {
        Color { r, g, b }
    }

    /// Builds a color from a pixel given as its red, green and blue samples.
    pub fn from_rgb(rgb: &[u8; 3]) -> (color: Self)
        ensures
            color == (Color { r: rgb[0], g: rgb[1], b: rgb[2] }),
    {
        Color { r: rgb[0], g: rgb[1], b: rgb[2] }
    }

    /// The color as `#rrggbb`, in lower-case hexadecimal.
    pub fn to_hex(&self) -> (hex: String)
        ensures
            hex@ == hex_text(*self),
    {
        let mut hex = String::new();
        hex.push('#');
        hex.push(hex_digit_of(self.r / 16));
        hex.push(hex_digit_of(self.r % 16));
        hex.push(hex_digit_of(self.g / 16));
        hex.push(hex_digit_of(self.g % 16));
        hex.push(hex_digit_of(self.b / 16));
        hex.push(hex_digit_of(self.b % 16));
        assert(hex@ =~= hex_text(*self));
        hex
    }

    /// The squared Euclidean distance to another color.
    pub fn distance_squared_to(&self, other: &Color) -> (distance: u32)
        ensures
            distance == distance_squared(*self, *other),
            distance <= 195075,
    {
        let dr = channel_difference_squared(self.r, other.r);
        let dg = channel_difference_squared(self.g, other.g);
        let db = channel_difference_squared(self.b, other.b);
        dr + dg + db
    }

    /// Packs the color into the 24-bit integer `0xRRGGBB`.
    pub fn to_packed(&self) -> (value: u32)
        ensures
            value == packed(*self),
            value <= 0xFF_FFFF,
            unpacked(value as int) == *self,
    {
        let r = self.r as u32;
        let g = self.g as u32;
        let b = self.b as u32;
        assert(((r << 16) | (g << 8) | b) == r * 65536 + g * 256 + b) by (bit_vector)
            requires
                r <= 255,
                g <= 255,
                b <= 255,
        ;
        (r << 16) | (g << 8) | b
    }

    /// Unpacks the three low bytes of `value`; the bits above them are
    /// ignored.
    pub fn from_packed(value: u32) -> (color: Self)
        ensures
            color == unpacked(value as int),
    {
        assert(((value >> 16) & 0xFF) == (value / 65536) % 256 && ((value >> 8) & 0xFF) == (value
            / 256) % 256 && (value & 0xFF) == value % 256) by (bit_vector);
        Color {
            r: ((value >> 16) & 0xFF) as u8,
            g: ((value >> 8) & 0xFF) as u8,
            b: (value & 0xFF) as u8,
        }
    }
}

/// Packing a color and unpacking the result gives the color back.
pub proof fn lemma_pack_round_trip(color: Color)
    ensures
        0 <= packed(color) <= 0xFF_FFFF,
        unpacked(packed(color)) == color,
{
}

/// Two colors are at distance zero exactly when they are the same color, and
/// no distance is negative.
pub proof fn lemma_distance_zero_iff_equal(a: Color, b: Color)
    ensures
        distance_squared(a, b) >= 0,
        distance_squared(a, b) == 0 <==> a == b,
{
    let dr = a.r - b.r;
    let dg = a.g - b.g;
    let db = a.b - b.b;
    assert(dr * dr >= 0 && (dr * dr == 0 <==> dr == 0)) by (nonlinear_arith);
    assert(dg * dg >= 0 && (dg * dg == 0 <==> dg == 0)) by (nonlinear_arith);
    assert(db * db >= 0 && (db * db == 0 <==> db == 0)) by (nonlinear_arith);
}

/// The distance between two colors does not depend on their order.
pub proof fn lemma_distance_symmetric(a: Color, b: Color)
    ensures
        distance_squared(a, b) == distance_squared(b, a),
{
    let dr = a.r - b.r;
    let dg = a.g - b.g;
    let db = a.b - b.b;
    assert(dr * dr == (-dr) * (-dr)) by (nonlinear_arith);
    assert(dg * dg == (-dg) * (-dg)) by (nonlinear_arith);
    assert(db * db == (-db) * (-db)) by (nonlinear_arith);
}

} // verus!
