use std::ops::{Add, Div, Mul, Sub};
use vstd::prelude::*;
use vstd::string::*;

verus! {

pub const ALPHA_IDX: usize = 3;
pub const BLUE_IDX: usize = 2;
pub const GREEN_IDX: usize = 1;
pub const RED_IDX: usize = 0;
pub const VAL_MAX: u8 = 255;

/// A float color carried as the bit patterns (`f32::to_bits`) of its red, green, blue
/// and alpha channels; the library moves such colors around without computing on them.
pub type FloatRgbaBits = [u32; 4];

/// A color as four 8-bit channels: red, green, blue and alpha.
#[derive(Clone, Copy, Debug, PartialEq, Eq, Hash)]
pub struct Color {
    pub rgba: [u8; 4],
}


impl Color {
    /// Opaque black.
    pub fn black() -> (c: Self)
        ensures
            c.rgba == [0u8, 0u8, 0u8, 255u8],
    {
        Color { rgba: [0, 0, 0, 255] }
    }

    /// Fully transparent black.
    pub fn invisible() -> (c: Self)
        ensures
            c.rgba == [0u8, 0u8, 0u8, 0u8],
    {
        Color { rgba: [0, 0, 0, 0] }
    }

    /// Opaque white.
    pub fn white() -> (c: Self)
        ensures
            c.rgba == [255u8, 255u8, 255u8, 255u8],
    {
        Color { rgba: [255, 255, 255, 255] }
    }

    pub fn new_u8(rgba: &[u8; 4]) -> (c: Self)
        ensures
            c.rgba == *rgba,
    {
        Color { rgba: *rgba }
    }

    pub fn set_alpha(&mut self, opacity: u8)
        ensures
            final(self).rgba@ == old(self).rgba@.update(ALPHA_IDX as int, opacity),
    {
        self.rgba[ALPHA_IDX] = opacity;
    }
}



/// The bits of `v / 255` (integer division) as an `f32`: of 1.0 for a full channel,
/// of 0.0 for any other.
pub open spec fn unit_channel_bits(v: u8) -> u32 {
    if v == 255 {
        0x3F80_0000u32
    } else {
        0u32
    }
}

/// The float color of `c` as `Color::to_float_bits` gives it.
pub open spec fn float_bits_of(c: Color) -> FloatRgbaBits {
    [
        unit_channel_bits(c.rgba[0]),
        unit_channel_bits(c.rgba[1]),
        unit_channel_bits(c.rgba[2]),
        unit_channel_bits(c.rgba[3]),
    ]
}

fn unit_channel(v: u8) -> (bits: u32)
    ensures
        bits == unit_channel_bits(v),
{
    if v / VAL_MAX == 1 {
        0x3F80_0000u32
    } else {
        0u32
    }
}

impl Color {
    /// The channels divided by 255 (integer division), as the bit patterns of `f32`s.
    pub fn to_float_bits(&self) -> (bits: FloatRgbaBits)
        ensures
            bits == float_bits_of(*self),
    {
        [
            unit_channel(self.rgba[RED_IDX]),
            unit_channel(self.rgba[GREEN_IDX]),
            unit_channel(self.rgba[BLUE_IDX]),
            unit_channel(self.rgba[ALPHA_IDX]),
        ]
    }
}

/// Whether `c` is an ASCII hexadecimal digit.
pub open spec fn is_hex_digit(c: u8) -> bool {
    (48 <= c <= 57) || (97 <= c <= 102) || (65 <= c <= 70)
}

/// The value of the ASCII hexadecimal digit `c`.
pub open spec fn hex_digit_value(c: u8) -> int {
    if 48 <= c <= 57 {
        c - 48
    } else if 97 <= c <= 102 {
        c - 97 + 10
    } else {
        c - 65 + 10
    }
}

/// The number of `#` bytes that `bytes` starts with.
pub open spec fn leading_hashes(bytes: Seq<u8>) -> nat
    decreases bytes.len(),
{
    if bytes.len() > 0 && bytes[0] == 35u8 {
        1 + leading_hashes(bytes.drop_first())
    } else {
        0
    }
}

/// The digits of a color code: its bytes after the leading `#`s.
pub open spec fn hex_digits(color: Seq<u8>) -> Seq<u8> {
    color.skip(leading_hashes(color) as int)
}

/// A color code: `#`s, then six or eight hexadecimal digits.
pub open spec fn is_hex_color(color: Seq<u8>) -> bool {
    let d = hex_digits(color);
    &&& (d.len() == 6 || d.len() == 8)
    &&& forall|i: int| 0 <= i < d.len() ==> is_hex_digit(#[trigger] d[i])
}

/// The value of the `i`-th pair of hexadecimal digits of `d`.
pub open spec fn hex_pair_value(d: Seq<u8>, i: int) -> int {
    16 * hex_digit_value(d[2 * i]) + hex_digit_value(d[2 * i + 1])
}

/// The value of an ASCII hexadecimal digit.
fn hex_char_to_value(c: u8) -> (v: u8)
    requires
        is_hex_digit(c),
    ensures
        v == hex_digit_value(c),
        v < 16,
{
    if 48 <= c && c <= 57 {
        c - 48
    } else if 97 <= c && c <= 102 {
        c - 97 + 10
    } else {
        c - 65 + 10
    }
}

/// The channels of a color code such as `#ff8800` or `ff880080`: each pair of digits
/// is one channel, red first; with six digits the color is opaque (alpha 255).
pub fn hex_to_rgba_bytes(color: &str) -> (rgba: [u8; 4])
    requires
        is_hex_color(color.spec_bytes()),
    ensures
        ({
            let d = hex_digits(color.spec_bytes());
            &&& forall|i: int| 0 <= i < d.len() / 2 ==> #[trigger] rgba[i] == hex_pair_value(d, i)
            &&& d.len() == 6 ==> rgba[3] == 255
        }),
{
    broadcast use vstd::slice::group_slice_axioms;

    let bytes = color.as_bytes();
    let ghost b = bytes@;
    let mut start: usize = 0;
    assert(b.skip(0) =~= b);
    while start < bytes.len() && bytes[start] == 35u8
        invariant
            b == bytes@,
            start <= b.len(),
            leading_hashes(b) == start + leading_hashes(b.skip(start as int)),
        decreases b.len() - start,
    {
        assert(b.skip(start as int).drop_first() =~= b.skip(start + 1));
        start = start + 1;
    }
    assert(leading_hashes(b.skip(start as int)) == 0);
    let ghost d = hex_digits(b);
    assert(d =~= b.skip(start as int));
    let length = bytes.len() - start;
    let mut rgba: [u8; 4] = [0u8; 4];
    let mut i: usize = 0;
    while i < length / 2
        invariant
            b == bytes@,
            d == b.skip(start as int),
            length == d.len(),
            start + length == b.len(),
            start + length <= usize::MAX,
            length == 6 || length == 8,
            forall|j: int| 0 <= j < d.len() ==> is_hex_digit(#[trigger] d[j]),
            i <= length / 2,
            forall|j: int| 0 <= j < i ==> #[trigger] rgba[j] == hex_pair_value(d, j),
        decreases length / 2 - i,
    {
        assert(d[2 * i as int] == b[start + 2 * i]);
        assert(d[2 * i + 1] == b[start + 2 * i + 1]);
        let high = hex_char_to_value(bytes[start + 2 * i]) << 4u8;
        let low = hex_char_to_value(bytes[start + 2 * i + 1]);
        proof {
            let h = hex_digit_value(d[2 * i as int]) as u8;
            let l = low;
            assert(h < 16 && l < 16);
            assert((h << 4u8) | l == h * 16 + l) by (bit_vector)
                requires
                    h < 16,
                    l < 16,
            ;
        }
        rgba[i] = high | low;
        i = i + 1;
    }
    if length == 6 {
        rgba[3] = 255;
    }
    rgba
}

/// The color whose channels are those of `a` and `b` added modulo 256.
pub open spec fn wrapped_sum(a: Color, b: Color) -> Color {
    Color {
        rgba: [
            ((a.rgba[0] + b.rgba[0]) % 256) as u8,
            ((a.rgba[1] + b.rgba[1]) % 256) as u8,
            ((a.rgba[2] + b.rgba[2]) % 256) as u8,
            ((a.rgba[3] + b.rgba[3]) % 256) as u8,
        ],
    }
}

/// The color whose channels are those of `a` minus those of `b`, modulo 256.
pub open spec fn wrapped_difference(a: Color, b: Color) -> Color {
    Color {
        rgba: [
            ((a.rgba[0] - b.rgba[0] + 256) % 256) as u8,
            ((a.rgba[1] - b.rgba[1] + 256) % 256) as u8,
            ((a.rgba[2] - b.rgba[2] + 256) % 256) as u8,
            ((a.rgba[3] - b.rgba[3] + 256) % 256) as u8,
        ],
    }
}

/// The color whose channels are those of `a` and `b` multiplied modulo 256.
pub open spec fn wrapped_product(a: Color, b: Color) -> Color {
    Color {
        rgba: [
            ((a.rgba[0] * b.rgba[0]) % 256) as u8,
            ((a.rgba[1] * b.rgba[1]) % 256) as u8,
            ((a.rgba[2] * b.rgba[2]) % 256) as u8,
            ((a.rgba[3] * b.rgba[3]) % 256) as u8,
        ],
    }
}

/// The color whose channels are those of `a` divided by those of `b`.
pub open spec fn channel_quotient(a: Color, b: Color) -> Color {
    Color {
        rgba: [
            (a.rgba[0] / b.rgba[0]) as u8,
            (a.rgba[1] / b.rgba[1]) as u8,
            (a.rgba[2] / b.rgba[2]) as u8,
            (a.rgba[3] / b.rgba[3]) as u8,
        ],
    }
}

impl Add for Color {
    type Output = Color;

    fn add(self, rhs: Self) -> (sum: Color) {
        Color {
            rgba: [
                self.rgba[0].wrapping_add(rhs.rgba[0]),
                self.rgba[1].wrapping_add(rhs.rgba[1]),
                self.rgba[2].wrapping_add(rhs.rgba[2]),
                self.rgba[3].wrapping_add(rhs.rgba[3]),
            ],
        }
    }
}

impl vstd::std_specs::ops::AddSpecImpl for Color {
    open spec fn obeys_add_spec() -> bool {
        true
    }

    open spec fn add_req(self, rhs: Color) -> bool {
        true
    }

    open spec fn add_spec(self, rhs: Color) -> Color {
        wrapped_sum(self, rhs)
    }
}

impl Sub for Color {
    type Output = Color;

    fn sub(self, rhs: Self) -> (difference: Color) {
        Color {
            rgba: [
                self.rgba[0].wrapping_sub(rhs.rgba[0]),
                self.rgba[1].wrapping_sub(rhs.rgba[1]),
                self.rgba[2].wrapping_sub(rhs.rgba[2]),
                self.rgba[3].wrapping_sub(rhs.rgba[3]),
            ],
        }
    }
}

impl vstd::std_specs::ops::SubSpecImpl for Color {
    open spec fn obeys_sub_spec() -> bool {
        true
    }

    open spec fn sub_req(self, rhs: Color) -> bool {
        true
    }

    open spec fn sub_spec(self, rhs: Color) -> Color {
        wrapped_difference(self, rhs)
    }
}

impl Mul for Color {
    type Output = Color;

    fn mul(self, rhs: Self) -> (product: Color) {
        Color {
            rgba: [
                self.rgba[0].wrapping_mul(rhs.rgba[0]),
                self.rgba[1].wrapping_mul(rhs.rgba[1]),
                self.rgba[2].wrapping_mul(rhs.rgba[2]),
                self.rgba[3].wrapping_mul(rhs.rgba[3]),
            ],
        }
    }
}

impl vstd::std_specs::ops::MulSpecImpl for Color {
    open spec fn obeys_mul_spec() -> bool {
        true
    }

    open spec fn mul_req(self, rhs: Color) -> bool {
        true
    }

    open spec fn mul_spec(self, rhs: Color) -> Color {
        wrapped_product(self, rhs)
    }
}

impl Div for Color {
    type Output = Color;

    /// Divides channel by channel; a zero channel in `rhs` is a division by zero.
    fn div(self, rhs: Self) -> (quotient: Color) {
        Color {
            rgba: [
                self.rgba[0] / rhs.rgba[0],
                self.rgba[1] / rhs.rgba[1],
                self.rgba[2] / rhs.rgba[2],
                self.rgba[3] / rhs.rgba[3],
            ],
        }
    }
}

impl vstd::std_specs::ops::DivSpecImpl for Color {
    open spec fn obeys_div_spec() -> bool {
        true
    }

    open spec fn div_req(self, rhs: Color) -> bool {
        rhs.rgba[0] != 0 && rhs.rgba[1] != 0 && rhs.rgba[2] != 0 && rhs.rgba[3] != 0
    }

    open spec fn div_spec(self, rhs: Color) -> Color {
        channel_quotient(self, rhs)
    }
}

proof fn lemma_channel_difference_then_sum(a: int, b: int)
    requires
        0 <= a < 256,
        0 <= b < 256,
    ensures
        ((((a - b + 256) % 256) as u8) + b) % 256 == a,
{
    if a >= b {
        assert((a - b + 256) % 256 == a - b);
    } else {
        assert((a - b + 256) % 256 == a - b + 256);
    }
}

/// Subtracting a color and adding it back gives the color again, channel by channel
/// modulo 256: `(a - b) + b == a`; and adding colors does not depend on their order.
pub proof fn law_difference_then_sum(a: Color, b: Color)
    ensures
        wrapped_sum(wrapped_difference(a, b), b) == a,
        wrapped_sum(a, b) == wrapped_sum(b, a),
        wrapped_product(a, b) == wrapped_product(b, a),
{
    lemma_channel_difference_then_sum(a.rgba[0] as int, b.rgba[0] as int);
    lemma_channel_difference_then_sum(a.rgba[1] as int, b.rgba[1] as int);
    lemma_channel_difference_then_sum(a.rgba[2] as int, b.rgba[2] as int);
    lemma_channel_difference_then_sum(a.rgba[3] as int, b.rgba[3] as int);
    let d = wrapped_sum(wrapped_difference(a, b), b);
    assert(d.rgba[0] == a.rgba[0] && d.rgba[1] == a.rgba[1] && d.rgba[2] == a.rgba[2] && d.rgba[3] == a.rgba[3]);
    assert(d.rgba =~= a.rgba);
    assert(wrapped_sum(a, b).rgba =~= wrapped_sum(b, a).rgba);
    assert(wrapped_product(a, b).rgba[0] == wrapped_product(b, a).rgba[0]) by (nonlinear_arith);
    assert(wrapped_product(a, b).rgba[1] == wrapped_product(b, a).rgba[1]) by (nonlinear_arith);
    assert(wrapped_product(a, b).rgba[2] == wrapped_product(b, a).rgba[2]) by (nonlinear_arith);
    assert(wrapped_product(a, b).rgba[3] == wrapped_product(b, a).rgba[3]) by (nonlinear_arith);
    assert(wrapped_product(a, b).rgba =~= wrapped_product(b, a).rgba);
}

} // verus!
