//! Colors and the conversion between the HSL and RGB models.

use vstd::prelude::*;

use crate::decimal::{clamp, round_div, round_div_i128, Decimal, MICROS};
use crate::text::{byte_hex, decimal_text, push_byte_hex, push_decimal};
use crate::Error;
use vstd::arithmetic::div_mod::lemma_fundamental_div_mod_converse;

verus! {

/// The largest RGB channel value, 255, in micro-units.
pub const CHANNEL_MAX: i64 = 255_000_000;

/// The largest hue, 360 degrees, in micro-units.
pub const HUE_MAX: i64 = 360_000_000;

/// The largest saturation or luminosity, 100 percent, in micro-units.
pub const PERCENT_MAX: i64 = 100_000_000;

/// The largest alpha, 1, in micro-units.
pub const ALPHA_MAX: i64 = 1_000_000;

/// One sextant of the hue circle, 60 degrees, in micro-units.
pub const SEXTANT: i64 = 60_000_000;

pub open spec fn abs(x: int) -> int {
    if x < 0 {
        -x
    } else {
        x
    }
}

// ---------------------------------------------------------------------------
// HSL to RGB
//
// With saturation `S = s / 10^8` and luminosity `L = l / 10^8` (the inputs are
// micro-percent) and hue `H = h / 10^6` degrees, the model is
//   C = (1 - |2L - 1|) * S,   X = C * (1 - |(H / 60 mod 2) - 1|),   m = L - C / 2,
// and each channel is `round(255 * (c' + m))` for the sextant's choice `c'` of
// `C`, `X` or `0`. The spec functions below state these quantities exactly, as
// integers scaled by the common denominator `HSL_SCALE`.
// ---------------------------------------------------------------------------

/// The common denominator of the HSL to RGB quantities: `2 * 10^8 * 10^8 * SEXTANT`.
pub open spec fn hsl_scale() -> int {
    2 * 100_000_000 * 100_000_000 * SEXTANT
}

/// `(1 - |2L - 1|) * 10^8`.
pub open spec fn lum_factor(l: int) -> int {
    PERCENT_MAX - abs(2 * l - PERCENT_MAX)
}

/// The chroma `C`, scaled by `hsl_scale()`.
pub open spec fn chroma(s: int, l: int) -> int {
    lum_factor(l) * s * 2 * SEXTANT
}

/// `(1 - |(H / 60 mod 2) - 1|) * SEXTANT`.
pub open spec fn hue_factor(h: int) -> int {
    SEXTANT - abs(h % (2 * SEXTANT) - SEXTANT)
}

/// The second-largest component `X`, scaled by `hsl_scale()`.
pub open spec fn second(h: int, s: int, l: int) -> int {
    lum_factor(l) * s * hue_factor(h) * 2
}

/// The lightness offset `m = L - C / 2`, scaled by `hsl_scale()`.
pub open spec fn offset(s: int, l: int) -> int {
    l * 2 * 100_000_000 * SEXTANT - lum_factor(l) * s * SEXTANT
}

/// The components `(r', g', b')` before the offset, by the sextant that holds `h`;
/// the last sextant includes 360 degrees.
pub open spec fn sextant_components(h: int, c: int, x: int) -> (int, int, int) {
    if h < SEXTANT {
        (c, x, 0)
    } else if h < 2 * SEXTANT {
        (x, c, 0)
    } else if h < 3 * SEXTANT {
        (0, c, x)
    } else if h < 4 * SEXTANT {
        (0, x, c)
    } else if h < 5 * SEXTANT {
        (x, 0, c)
    } else {
        (c, 0, x)
    }
}

/// A channel in `[0, 255]` from a component scaled by `hsl_scale()`.
pub open spec fn channel_of(v: int) -> int {
    clamp(round_div(255 * v, hsl_scale()), 0, 255)
}

/// The RGB channels, as whole numbers in `[0, 255]`, of the clamped HSL value
/// with hue `h`, saturation `s` and luminosity `l` in micro-units.
pub open spec fn hsl_channels(h: int, s: int, l: int) -> (int, int, int) {
    let (r1, g1, b1) = sextant_components(h, chroma(s, l), second(h, s, l));
    let m = offset(s, l);
    (channel_of(r1 + m), channel_of(g1 + m), channel_of(b1 + m))
}

// ---------------------------------------------------------------------------
// RGB to HSL
// ---------------------------------------------------------------------------

pub open spec fn max3(a: int, b: int, c: int) -> int {
    if a >= b && a >= c {
        a
    } else if b >= c {
        b
    } else {
        c
    }
}

pub open spec fn min3(a: int, b: int, c: int) -> int {
    if a <= b && a <= c {
        a
    } else if b <= c {
        b
    } else {
        c
    }
}

/// The hue, in whole degrees in `[0, 360)`, of the channels `r, g, b` (any common
/// unit). With `d = max - min`, the hue is `60 * (g - b) / d` when red is the
/// largest, `60 * (b - r) / d + 120` when green is, `60 * (r - g) / d + 240`
/// otherwise, rounded, and moved up by 360 when negative; 0 when `d == 0`.
/// (In the red case the quotient lies in `[-1, 1]`, where a remainder by 6 changes
/// nothing.)
pub open spec fn hue_degrees(r: int, g: int, b: int) -> int {
    let cmax = max3(r, g, b);
    let d = cmax - min3(r, g, b);
    if d == 0 {
        0
    } else {
        let raw = if cmax == r {
            round_div(60 * (g - b), d)
        } else if cmax == g {
            round_div(60 * (b - r) + 120 * d, d)
        } else {
            round_div(60 * (r - g) + 240 * d, d)
        };
        if raw < 0 {
            raw + 360
        } else {
            raw
        }
    }
}

/// The saturation, in tenths of a percent, of channels in micro-units:
/// `d / (1 - |2L - 1|)` with `L = (max + min) / 2` on the `[0, 1]` scale, rounded
/// to one decimal place; 0 when `d == 0`.
pub open spec fn saturation_tenths(r: int, g: int, b: int) -> int {
    let cmax = max3(r, g, b);
    let cmin = min3(r, g, b);
    let d = cmax - cmin;
    if d == 0 {
        0
    } else {
        round_div(1000 * d, CHANNEL_MAX - abs(cmax + cmin - CHANNEL_MAX))
    }
}

/// The luminosity `(max + min) / 2` on the `[0, 100]` scale, in tenths, rounded,
/// of channels in micro-units.
pub open spec fn luminosity_tenths(r: int, g: int, b: int) -> int {
    round_div(1000 * (max3(r, g, b) + min3(r, g, b)), 2 * CHANNEL_MAX)
}

/// Converts an HSL color to RGB. The inputs are first clamped: hue to
/// `[0, 360]`, saturation and luminosity to `[0, 100]`, alpha to `[0, 1]`. The
/// channels come out as whole numbers in `[0, 255]`; alpha passes through.
pub fn hsl_to_rgb(hue: Decimal, saturation: Decimal, luminosity: Decimal, alpha: Decimal) -> (r: (
    Decimal,
    Decimal,
    Decimal,
    Decimal,
))
    ensures
        ({
            let (cr, cg, cb) = hsl_channels(
                clamp(hue.micros as int, 0, HUE_MAX as int),
                clamp(saturation.micros as int, 0, PERCENT_MAX as int),
                clamp(luminosity.micros as int, 0, PERCENT_MAX as int),
            );
            &&& r.0.micros == cr * MICROS
            &&& r.1.micros == cg * MICROS
            &&& r.2.micros == cb * MICROS
        }),
        r.3.micros == clamp(alpha.micros as int, 0, ALPHA_MAX as int),
{
    let h = hue.clamp(0, HUE_MAX).micros as i128;
    let s = saturation.clamp(0, PERCENT_MAX).micros as i128;
    let l = luminosity.clamp(0, PERCENT_MAX).micros as i128;
    let alpha = alpha.clamp(0, ALPHA_MAX);

    let two_l = 2 * l - 100_000_000;
    let k: i128 = 100_000_000 - if two_l < 0 { -two_l } else { two_l };
    assert(0 <= k * s <= 10_000_000_000_000_000) by (nonlinear_arith)
        requires
            0 <= k <= 100_000_000,
            0 <= s <= 100_000_000,
    ;
    let ks = k * s;
    let hm = h % 120_000_000 - 60_000_000;
    let f: i128 = 60_000_000 - if hm < 0 { -hm } else { hm };
    assert(0 <= ks * f <= 600_000_000_000_000_000_000_000) by (nonlinear_arith)
        requires
            0 <= ks <= 10_000_000_000_000_000,
            0 <= f <= 60_000_000,
    ;
    let chroma = ks * 120_000_000;
    let x = ks * f * 2;
    let m = l * 12_000_000_000_000_000 - ks * 60_000_000;
    let (r1, g1, b1) = if h < 60_000_000 {
        (chroma, x, 0)
    } else if h < 120_000_000 {
        (x, chroma, 0)
    } else if h < 180_000_000 {
        (0, chroma, x)
    } else if h < 240_000_000 {
        (0, x, chroma)
    } else if h < 300_000_000 {
        (x, 0, chroma)
    } else {
        (chroma, 0, x)
    };
    let red = channel(r1 + m);
    let green = channel(g1 + m);
    let blue = channel(b1 + m);
    (red, green, blue, alpha)
}

/// `channel_of(v)` as a decimal.
fn channel(v: i128) -> (r: Decimal)
    requires
        -1_000_000_000_000_000_000_000_000 <= v <= 3_000_000_000_000_000_000_000_000,
    ensures
        r.micros == channel_of(v as int) * MICROS,
{
    let q = round_div_i128(255 * v, 1_200_000_000_000_000_000_000_000);
    let c = if q < 0 {
        0
    } else if q > 255 {
        255
    } else {
        q as i64
    };
    Decimal { micros: c * MICROS }
}

/// `hue_degrees` on channels in micro-units.
fn hue_of(r: i64, g: i64, b: i64) -> (hue: i64)
    requires
        0 <= r <= CHANNEL_MAX,
        0 <= g <= CHANNEL_MAX,
        0 <= b <= CHANNEL_MAX,
    ensures
        hue == hue_degrees(r as int, g as int, b as int),
        0 <= hue < 360,
{
    let cmax = max_of(r, g, b);
    let d = (cmax - min_of(r, g, b)) as i128;
    if d == 0 {
        return 0;
    }
    let raw = if cmax == r {
        proof {
            lemma_round_div_bounds(60 * (g - b), d as int, -60, 60);
        }
        round_div_i128(60 * (g as i128 - b as i128), d)
    } else if cmax == g {
        proof {
            lemma_round_div_bounds(60 * (b - r) + 120 * d, d as int, 60, 180);
        }
        round_div_i128(60 * (b as i128 - r as i128) + 120 * d, d)
    } else {
        proof {
            lemma_round_div_bounds(60 * (r - g) + 240 * d, d as int, 180, 300);
        }
        round_div_i128(60 * (r as i128 - g as i128) + 240 * d, d)
    };
    if raw < 0 {
        (raw + 360) as i64
    } else {
        raw as i64
    }
}

fn max_of(a: i64, b: i64, c: i64) -> (r: i64)
    ensures
        r == max3(a as int, b as int, c as int),
{
    if a >= b && a >= c {
        a
    } else if b >= c {
        b
    } else {
        c
    }
}

fn min_of(a: i64, b: i64, c: i64) -> (r: i64)
    ensures
        r == min3(a as int, b as int, c as int),
{
    if a <= b && a <= c {
        a
    } else if b <= c {
        b
    } else {
        c
    }
}

/// `saturation_tenths` on channels in micro-units.
fn saturation_of(r: i64, g: i64, b: i64) -> (t: i64)
    requires
        0 <= r <= CHANNEL_MAX,
        0 <= g <= CHANNEL_MAX,
        0 <= b <= CHANNEL_MAX,
    ensures
        t == saturation_tenths(r as int, g as int, b as int),
        0 <= t <= 1000,
{
    let cmax = max_of(r, g, b);
    let cmin = min_of(r, g, b);
    let delta = cmax - cmin;
    if delta == 0 {
        return 0;
    }
    let dist = cmax + cmin - CHANNEL_MAX;
    let den = CHANNEL_MAX - if dist < 0 { -dist } else { dist };
    proof {
        lemma_round_div_bounds(1000 * delta, den as int, 0, 1000);
    }
    round_div_i128(1000 * delta as i128, den as i128) as i64
}

/// `luminosity_tenths` on channels in micro-units.
fn luminosity_of(r: i64, g: i64, b: i64) -> (t: i64)
    requires
        0 <= r <= CHANNEL_MAX,
        0 <= g <= CHANNEL_MAX,
        0 <= b <= CHANNEL_MAX,
    ensures
        t == luminosity_tenths(r as int, g as int, b as int),
        0 <= t <= 1000,
{
    let sum = max_of(r, g, b) + min_of(r, g, b);
    proof {
        lemma_round_div_bounds(1000 * sum, 2 * CHANNEL_MAX, 0, 1000);
    }
    round_div_i128(1000 * sum as i128, 2 * CHANNEL_MAX as i128) as i64
}

/// Converts an RGB color to HSL. The inputs are first clamped: channels to
/// `[0, 255]`, alpha to `[0, 1]`. The hue comes out in whole degrees, saturation
/// and luminosity in percent rounded to one decimal place; alpha passes through.
pub fn rgb_to_hsl(red: Decimal, green: Decimal, blue: Decimal, alpha: Decimal) -> (r: (
    Decimal,
    Decimal,
    Decimal,
    Decimal,
))
    ensures
        ({
            let cr = clamp(red.micros as int, 0, CHANNEL_MAX as int);
            let cg = clamp(green.micros as int, 0, CHANNEL_MAX as int);
            let cb = clamp(blue.micros as int, 0, CHANNEL_MAX as int);
            &&& r.0.micros == hue_degrees(cr, cg, cb) * MICROS
            &&& r.1.micros == saturation_tenths(cr, cg, cb) * 100_000
            &&& r.2.micros == luminosity_tenths(cr, cg, cb) * 100_000
        }),
        r.3.micros == clamp(alpha.micros as int, 0, ALPHA_MAX as int),
{
    let r = red.clamp(0, CHANNEL_MAX).micros;
    let g = green.clamp(0, CHANNEL_MAX).micros;
    let b = blue.clamp(0, CHANNEL_MAX).micros;
    let hue = hue_of(r, g, b);
    let saturation = saturation_of(r, g, b);
    let luminosity = luminosity_of(r, g, b);
    (
        Decimal { micros: hue * MICROS },
        Decimal { micros: saturation * 100_000 },
        Decimal { micros: luminosity * 100_000 },
        alpha.clamp(0, ALPHA_MAX),
    )
}

/// When `lo * d <= n <= hi * d`, `round_div(n, d)` lies in `[lo, hi]`.
pub proof fn lemma_round_div_bounds(n: int, d: int, lo: int, hi: int)
    requires
        d > 0,
        lo * d <= n <= hi * d,
    ensures
        lo <= round_div(n, d) <= hi,
{
    if n >= 0 {
        assert(lo <= (2 * n + d) / (2 * d) <= hi) by (nonlinear_arith)
            requires
                d > 0,
                n >= 0,
                lo * d <= n <= hi * d,
        ;
    } else {
        assert(-hi <= (d - 2 * n) / (2 * d) <= -lo) by (nonlinear_arith)
            requires
                d > 0,
                n < 0,
                lo * d <= n <= hi * d,
        ;
    }
}

/// The notation a color was read or built from; it only chooses how the color
/// is shown.
#[derive(Clone, Copy, Debug, PartialEq, Eq, Structural)]
pub enum ColorType {
    Hsl,
    Rgb,
    Hex,
}

/// An HSL color, each part clamped to its range: hue to `[0, 360]`, saturation
/// and luminosity to `[0, 100]`, alpha to `[0, 1]`.
#[derive(Clone, Copy, Debug, PartialEq, Eq, Structural)]
pub struct HslColor {
    pub hue: Decimal,
    pub saturation: Decimal,
    pub luminosity: Decimal,
    pub alpha: Decimal,
}

/// The HSL color with these parts, each clamped to its range.
pub open spec fn hsl_clamped(h: int, s: int, l: int, a: int) -> HslColor {
    HslColor {
        hue: Decimal { micros: clamp(h, 0, HUE_MAX as int) as i64 },
        saturation: Decimal { micros: clamp(s, 0, PERCENT_MAX as int) as i64 },
        luminosity: Decimal { micros: clamp(l, 0, PERCENT_MAX as int) as i64 },
        alpha: Decimal { micros: clamp(a, 0, ALPHA_MAX as int) as i64 },
    }
}

impl HslColor {
    /// An opaque HSL color.
    pub fn new(hue: Decimal, saturation: Decimal, luminosity: Decimal) -> (r: HslColor)
        ensures
            r == hsl_clamped(hue.micros as int, saturation.micros as int, luminosity.micros as int, MICROS as int),
    {
        HslColor::hsla(hue, saturation, luminosity, Decimal { micros: MICROS })
    }

    /// An HSL color with transparency.
    pub fn hsla(hue: Decimal, saturation: Decimal, luminosity: Decimal, alpha: Decimal) -> (r: HslColor)
        ensures
            r == hsl_clamped(hue.micros as int, saturation.micros as int, luminosity.micros as int, alpha.micros as int),
    {
        HslColor {
            hue: hue.clamp(0, HUE_MAX),
            saturation: saturation.clamp(0, PERCENT_MAX),
            luminosity: luminosity.clamp(0, PERCENT_MAX),
            alpha: alpha.clamp(0, ALPHA_MAX),
        }
    }
}

/// An RGB color, each channel clamped to `[0, 255]` and alpha to `[0, 1]`.
#[derive(Clone, Copy, Debug, PartialEq, Eq, Structural)]
pub struct RgbColor {
    pub red: Decimal,
    pub green: Decimal,
    pub blue: Decimal,
    pub alpha: Decimal,
}

/// The RGB color with these parts, each clamped to its range.
pub open spec fn rgb_clamped(r: int, g: int, b: int, a: int) -> RgbColor {
    RgbColor {
        red: Decimal { micros: clamp(r, 0, CHANNEL_MAX as int) as i64 },
        green: Decimal { micros: clamp(g, 0, CHANNEL_MAX as int) as i64 },
        blue: Decimal { micros: clamp(b, 0, CHANNEL_MAX as int) as i64 },
        alpha: Decimal { micros: clamp(a, 0, ALPHA_MAX as int) as i64 },
    }
}

impl RgbColor {
    /// An opaque RGB color.
    pub fn new(red: Decimal, green: Decimal, blue: Decimal) -> (r: RgbColor)
        ensures
            r == rgb_clamped(red.micros as int, green.micros as int, blue.micros as int, MICROS as int),
    {
        RgbColor::rgba(red, green, blue, Decimal { micros: MICROS })
    }

    /// An RGB color with transparency.
    pub fn rgba(red: Decimal, green: Decimal, blue: Decimal, alpha: Decimal) -> (r: RgbColor)
        ensures
            r == rgb_clamped(red.micros as int, green.micros as int, blue.micros as int, alpha.micros as int),
    {
        RgbColor {
            red: red.clamp(0, CHANNEL_MAX),
            green: green.clamp(0, CHANNEL_MAX),
            blue: blue.clamp(0, CHANNEL_MAX),
            alpha: alpha.clamp(0, ALPHA_MAX),
        }
    }
}

/// What a [`Color`] holds: its channels and alpha in micro-units, and the
/// notation it came from.
pub struct ColorValue {
    pub parsed_as: ColorType,
    pub red: int,
    pub green: int,
    pub blue: int,
    pub alpha: int,
}

/// A color, held as RGB channels in `[0, 255]` and alpha in `[0, 1]`; channels
/// are real numbers, not rounded.
#[derive(Clone, Copy, Debug)]
pub struct Color {
    parsed_as: ColorType,
    red: Decimal,
    green: Decimal,
    blue: Decimal,
    alpha: Decimal,
}

impl View for Color {
    type V = ColorValue;

    closed spec fn view(&self) -> ColorValue {
        ColorValue {
            parsed_as: self.parsed_as,
            red: self.red.micros as int,
            green: self.green.micros as int,
            blue: self.blue.micros as int,
            alpha: self.alpha.micros as int,
        }
    }
}

/// Whether every channel and alpha lie in their ranges.
pub open spec fn in_range(v: ColorValue) -> bool {
    &&& 0 <= v.red <= CHANNEL_MAX
    &&& 0 <= v.green <= CHANNEL_MAX
    &&& 0 <= v.blue <= CHANNEL_MAX
    &&& 0 <= v.alpha <= ALPHA_MAX
}

/// The color that `Color::from_rgb` builds from these values.
pub open spec fn rgb_color_value(r: int, g: int, b: int, a: int) -> ColorValue {
    ColorValue {
        parsed_as: ColorType::Rgb,
        red: clamp(r, 0, CHANNEL_MAX as int),
        green: clamp(g, 0, CHANNEL_MAX as int),
        blue: clamp(b, 0, CHANNEL_MAX as int),
        alpha: clamp(a, 0, ALPHA_MAX as int),
    }
}

/// The color that `Color::from_hsl` builds from these values.
pub open spec fn hsl_color_value(h: int, s: int, l: int, a: int) -> ColorValue {
    let (r, g, b) = hsl_channels(
        clamp(h, 0, HUE_MAX as int),
        clamp(s, 0, PERCENT_MAX as int),
        clamp(l, 0, PERCENT_MAX as int),
    );
    ColorValue {
        parsed_as: ColorType::Hsl,
        red: r * MICROS,
        green: g * MICROS,
        blue: b * MICROS,
        alpha: clamp(a, 0, ALPHA_MAX as int),
    }
}

impl Color {
    #[verifier::type_invariant]
    spec fn inv(self) -> bool {
        in_range(self@)
    }

    /// The color with these HSL values, each first clamped to its range; its
    /// channels are whole numbers.
    pub fn from_hsl(hue: Decimal, saturation: Decimal, luminosity: Decimal, alpha: Decimal) -> (r: Color)
        ensures
            r@ == hsl_color_value(hue.micros as int, saturation.micros as int, luminosity.micros as int, alpha.micros as int),
    {
        let (red, green, blue, alpha) = hsl_to_rgb(hue, saturation, luminosity, alpha);
        Color {
            red: red.clamp(0, CHANNEL_MAX),
            green: green.clamp(0, CHANNEL_MAX),
            blue: blue.clamp(0, CHANNEL_MAX),
            alpha: alpha.clamp(0, ALPHA_MAX),
            parsed_as: ColorType::Hsl,
        }
    }

    /// The color with these RGB values, each first clamped to its range.
    pub fn from_rgb(red: Decimal, green: Decimal, blue: Decimal, alpha: Decimal) -> (r: Color)
        ensures
            r@ == rgb_color_value(red.micros as int, green.micros as int, blue.micros as int, alpha.micros as int),
    {
        Color {
            red: red.clamp(0, CHANNEL_MAX),
            green: green.clamp(0, CHANNEL_MAX),
            blue: blue.clamp(0, CHANNEL_MAX),
            alpha: alpha.clamp(0, ALPHA_MAX),
            parsed_as: ColorType::Rgb,
        }
    }

    /// The channels and alpha.
    pub fn rgb(&self) -> (r: (Decimal, Decimal, Decimal, Decimal))
        ensures
            r.0.micros == self@.red,
            r.1.micros == self@.green,
            r.2.micros == self@.blue,
            r.3.micros == self@.alpha,
            in_range(self@),
    {
        proof {
            use_type_invariant(self);
        }
        (self.red, self.green, self.blue, self.alpha)
    }

    /// The color in HSL: hue in whole degrees, saturation and luminosity in
    /// percent to one decimal place, and alpha.
    pub fn hsl(&self) -> (r: (Decimal, Decimal, Decimal, Decimal))
        ensures
            r.0.micros == hue_degrees(self@.red, self@.green, self@.blue) * MICROS,
            r.1.micros == saturation_tenths(self@.red, self@.green, self@.blue) * 100_000,
            r.2.micros == luminosity_tenths(self@.red, self@.green, self@.blue) * 100_000,
            r.3.micros == self@.alpha,
    {
        proof {
            use_type_invariant(self);
        }
        rgb_to_hsl(self.red, self.green, self.blue, self.alpha)
    }

    /// The notation the color came from.
    pub fn parsed_as(&self) -> (r: ColorType)
        ensures
            r == self@.parsed_as,
    {
        self.parsed_as
    }
}

/// Two colors are equal when their channels and alpha are; the notation they
/// came from does not count.
impl PartialEq for Color {
    fn eq(&self, other: &Color) -> (r: bool) {
        self.red == other.red && self.green == other.green && self.blue == other.blue
            && self.alpha == other.alpha
    }
}

impl vstd::std_specs::cmp::PartialEqSpecImpl for Color {
    open spec fn obeys_eq_spec() -> bool {
        true
    }

    open spec fn eq_spec(&self, other: &Color) -> bool {
        &&& self@.red == other@.red
        &&& self@.green == other@.green
        &&& self@.blue == other@.blue
        &&& self@.alpha == other@.alpha
    }
}

/// The lowercase form of `s`, as `str::to_lowercase` computes it.
pub uninterp spec fn lowercase_of(s: Seq<char>) -> Seq<char>;

/// Relies on `str::to_lowercase`: it returns the lowercase form of `s`, which
/// depends on the characters of `s` alone.
#[verifier::external_body]
fn to_lowercase(s: &str) -> (r: String)
    ensures
        r@ == lowercase_of(s@),
{
    s.to_lowercase()
}

/// Whether `a` and `b` hold the same characters.
fn same_text(a: &str, b: &str) -> (r: bool)
    ensures
        r == (a@ == b@),
{
    let n = a.unicode_len();
    if n != b.unicode_len() {
        return false;
    }
    let mut i: usize = 0;
    while i < n
        invariant
            n == a@.len() == b@.len(),
            i <= n,
            forall|k: int| 0 <= k < i ==> a@[k] == b@[k],
        decreases n - i,
    {
        if a.get_char(i) != b.get_char(i) {
            return false;
        }
        i = i + 1;
    }
    assert(a@ =~= b@);
    true
}

/// The notation that a lowercase name stands for: `hsl` or `hsla`, `rgb` or
/// `rgba`, `hex`.
pub open spec fn color_type_named(lowered: Seq<char>) -> Option<ColorType> {
    if lowered == "hsl"@ || lowered == "hsla"@ {
        Some(ColorType::Hsl)
    } else if lowered == "rgb"@ || lowered == "rgba"@ {
        Some(ColorType::Rgb)
    } else if lowered == "hex"@ {
        Some(ColorType::Hex)
    } else {
        None
    }
}

/// Whether `r` is the outcome for a name whose lowercase form is `lowered`: the
/// notation it stands for, or `InvalidColorType` holding `name`.
pub open spec fn color_type_outcome(r: Result<ColorType, Error>, lowered: Seq<char>, name: Seq<char>) -> bool {
    match color_type_named(lowered) {
        Some(t) => r == Ok::<ColorType, Error>(t),
        None => r matches Err(Error::InvalidColorType(m)) && m@ == name,
    }
}

impl ColorType {
    /// The notation that `lowered`, the lowercase form of `name`, stands for;
    /// `name` is what an error reports.
    pub fn from_lowercase(lowered: &str, name: &str) -> (r: Result<ColorType, Error>)
        ensures
            color_type_outcome(r, lowered@, name@),
    {
        if same_text(lowered, "hsl") || same_text(lowered, "hsla") {
            Ok(ColorType::Hsl)
        } else if same_text(lowered, "rgb") || same_text(lowered, "rgba") {
            Ok(ColorType::Rgb)
        } else if same_text(lowered, "hex") {
            Ok(ColorType::Hex)
        } else {
            Err(Error::InvalidColorType(String::from_str(name)))
        }
    }

    /// The notation that `name` stands for, in any letter case.
    pub fn parse(name: &str) -> (r: Result<ColorType, Error>)
        ensures
            color_type_outcome(r, lowercase_of(name@), name@),
    {
        let lowered = to_lowercase(name);
        ColorType::from_lowercase(lowered.as_str(), name)
    }
}

impl std::str::FromStr for ColorType {
    type Err = Error;

    fn from_str(s: &str) -> (r: Result<ColorType, Error>)
        ensures
            color_type_outcome(r, lowercase_of(s@), s@),
    {
        ColorType::parse(s)
    }
}

impl std::str::FromStr for Color {
    type Err = Error;

    fn from_str(s: &str) -> (r: Result<Color, Error>)
        ensures
            match crate::parse::spec_parse_color(s@) {
                Some(v) => r matches Ok(c) && c@ == v,
                None => r == Err::<Color, Error>(Error::InvalidColor),
            },
    {
        match crate::parse::parse_color(s) {
            Ok((_, color)) => Ok(color),
            Err(e) => Err(e),
        }
    }
}

/// Round trip on the grey axis: converting a grey with equal whole-number
/// channels `v` in `[0, 255]` to HSL and back gives the same channels.
pub proof fn lemma_grey_round_trip(v: int)
    requires
        0 <= v <= 255,
    ensures
        ({
            let c = v * MICROS;
            let h = hue_degrees(c, c, c) * MICROS;
            let s = saturation_tenths(c, c, c) * 100_000;
            let l = luminosity_tenths(c, c, c) * 100_000;
            hsl_channels(
                clamp(h, 0, HUE_MAX as int),
                clamp(s, 0, PERCENT_MAX as int),
                clamp(l, 0, PERCENT_MAX as int),
            ) == (v, v, v)
        }),
{
    let c = v * MICROS;
    let t = luminosity_tenths(c, c, c);
    let n = 1000 * (c + c);
    let d = 2 * CHANNEL_MAX;
    lemma_round_div_bounds(n, d, 0, 1000);
    assert(t == (2 * n + d) / (2 * d));
    vstd::arithmetic::div_mod::lemma_fundamental_div_mod(2 * n + d, 2 * d);
    let rem = (2 * n + d) % (2 * d);
    assert(2 * n + d == t * (2 * d) + rem);
    assert(0 <= rem < 2 * d);
    let l = t * 100_000;
    assert(hue_degrees(c, c, c) == 0);
    assert(saturation_tenths(c, c, c) == 0);
    let q = hsl_scale();
    let m = offset(0, l);
    assert(lum_factor(l) * 0 == 0);
    assert(m == l * 2 * 100_000_000 * SEXTANT);
    assert(chroma(0, l) == 0);
    assert(second(0, 0, l) == 0) by {
        assert(lum_factor(l) * 0 * hue_factor(0) * 2 == 0);
    }
    let x = 2 * (255 * m) + q;
    assert(x == 1_200_000_000_000_000_000_000 * (510 * t + 1000));
    assert(2 * n + d == (4000 * v + 510) * 1_000_000);
    assert(t * (2 * d) == (1020 * t) * 1_000_000) by (nonlinear_arith)
        requires
            d == 510_000_000,
    ;
    assert(1020 * t <= 4000 * v + 510 && 1020 * t > 4000 * v + 510 - 1020) by (nonlinear_arith)
        requires
            (4000 * v + 510) * 1_000_000 == (1020 * t) * 1_000_000 + rem,
            0 <= rem < 1_020_000_000,
    ;
    let w = 510 * t + 1000 - 2000 * v;
    assert(0 <= w < 2000);
    let r = x - v * (2 * q);
    assert(q == 1_200_000_000_000_000_000_000_000);
    assert(r == 1_200_000_000_000_000_000_000 * w) by (nonlinear_arith)
        requires
            x == 1_200_000_000_000_000_000_000 * (510 * t + 1000),
            q == 1_200_000_000_000_000_000_000_000,
            r == x - v * (2 * q),
            w == 510 * t + 1000 - 2000 * v,
    ;
    lemma_fundamental_div_mod_converse(x, 2 * q, v, r);
    assert(channel_of(0 + m) == v);
}

/// `v` as a decimal, for spec text.
pub open spec fn dec(v: int) -> Decimal {
    Decimal { micros: v as i64 }
}

/// `name(a b c)` when `alpha` is 1, else `name(a b c / alpha)`, each number as
/// `decimal_text` writes it.
pub open spec fn functional_text(name: Seq<char>, a: int, b: int, c: int, alpha: int) -> Seq<char> {
    let body = name + decimal_text(dec(a)) + " "@ + decimal_text(dec(b)) + " "@ + decimal_text(
        dec(c),
    );
    if alpha == MICROS {
        body + ")"@
    } else {
        body + " / "@ + decimal_text(dec(alpha)) + ")"@
    }
}

/// `#RRGGBB` when alpha is 1, else `#RRGGBBAA`: each channel rounded to a whole
/// number, alpha scaled to `[0, 255]` and rounded, in two upper-case hexadecimal
/// digits.
pub open spec fn hex_text(r: int, g: int, b: int, alpha: int) -> Seq<char> {
    let rgb = "#"@ + byte_hex(round_div(r, MICROS as int)) + byte_hex(round_div(g, MICROS as int))
        + byte_hex(round_div(b, MICROS as int));
    if alpha == MICROS {
        rgb
    } else {
        rgb + byte_hex(round_div(alpha * 255, MICROS as int))
    }
}

/// Appends `functional_text(name@, ..)`.
fn push_functional(out: &mut String, name: &str, a: Decimal, b: Decimal, c: Decimal, alpha: Decimal)
    ensures
        final(out)@ == old(out)@ + functional_text(
            name@,
            a.micros as int,
            b.micros as int,
            c.micros as int,
            alpha.micros as int,
        ),
{
    let ghost start = out@;
    out.append(name);
    push_decimal(out, a);
    out.append(" ");
    push_decimal(out, b);
    out.append(" ");
    push_decimal(out, c);
    if alpha.micros != MICROS {
        out.append(" / ");
        push_decimal(out, alpha);
    }
    out.append(")");
    assert(out@ =~= start + functional_text(
        name@,
        a.micros as int,
        b.micros as int,
        c.micros as int,
        alpha.micros as int,
    ));
}

/// A whole channel value in `[0, 255]` from micro-units in `[0, 255]`.
fn round_channel(v: i64) -> (r: u64)
    requires
        0 <= v <= CHANNEL_MAX,
    ensures
        r == round_div(v as int, MICROS as int),
        r <= 255,
{
    proof {
        lemma_round_div_bounds(v as int, MICROS as int, 0, 255);
    }
    round_div_i128(v as i128, MICROS as i128) as u64
}

/// The hexadecimal text of a color (see `hex_text`).
pub fn rgb_to_hex(red: Decimal, green: Decimal, blue: Decimal, alpha: Decimal) -> (r: String)
    requires
        0 <= red.micros <= CHANNEL_MAX,
        0 <= green.micros <= CHANNEL_MAX,
        0 <= blue.micros <= CHANNEL_MAX,
        0 <= alpha.micros <= ALPHA_MAX,
    ensures
        r@ == hex_text(red.micros as int, green.micros as int, blue.micros as int, alpha.micros as int),
{
    let mut out = String::from_str("#");
    push_byte_hex(&mut out, round_channel(red.micros));
    push_byte_hex(&mut out, round_channel(green.micros));
    push_byte_hex(&mut out, round_channel(blue.micros));
    if alpha.micros != MICROS {
        push_byte_hex(&mut out, round_channel(alpha.micros * 255));
    }
    out
}

impl Color {
    /// `rgb(r g b)`, or `rgb(r g b / a)` when alpha is not 1.
    pub fn rgb_string(&self) -> (r: String)
        ensures
            r@ == functional_text("rgb("@, self@.red, self@.green, self@.blue, self@.alpha),
    {
        let (red, green, blue, alpha) = self.rgb();
        let mut out = String::new();
        push_functional(&mut out, "rgb(", red, green, blue, alpha);
        assert(out@ =~= functional_text("rgb("@, self@.red, self@.green, self@.blue, self@.alpha));
        out
    }

    /// `hsl(h s l)`, or `hsl(h s l / a)` when alpha is not 1, with the values
    /// that `hsl` gives.
    pub fn hsl_string(&self) -> (r: String)
        ensures
            r@ == functional_text(
                "hsl("@,
                hue_degrees(self@.red, self@.green, self@.blue) * MICROS,
                saturation_tenths(self@.red, self@.green, self@.blue) * 100_000,
                luminosity_tenths(self@.red, self@.green, self@.blue) * 100_000,
                self@.alpha,
            ),
    {
        let (hue, sat, lum, alpha) = self.hsl();
        let mut out = String::new();
        push_functional(&mut out, "hsl(", hue, sat, lum, alpha);
        assert(out@ =~= functional_text(
            "hsl("@,
            hue_degrees(self@.red, self@.green, self@.blue) * MICROS,
            saturation_tenths(self@.red, self@.green, self@.blue) * 100_000,
            luminosity_tenths(self@.red, self@.green, self@.blue) * 100_000,
            self@.alpha,
        ));
        out
    }

    /// `#RRGGBB`, or `#RRGGBBAA` when alpha is not 1 (see `hex_text`).
    pub fn hex_string(&self) -> (r: String)
        ensures
            r@ == hex_text(self@.red, self@.green, self@.blue, self@.alpha),
    {
        let (red, green, blue, alpha) = self.rgb();
        rgb_to_hex(red, green, blue, alpha)
    }

    /// The color in the notation it came from: `hsl_string`, `rgb_string` or
    /// `hex_string`.
    pub fn to_string(&self) -> (r: String)
        ensures
            r@ == match self@.parsed_as {
                ColorType::Hsl => functional_text(
                    "hsl("@,
                    hue_degrees(self@.red, self@.green, self@.blue) * MICROS,
                    saturation_tenths(self@.red, self@.green, self@.blue) * 100_000,
                    luminosity_tenths(self@.red, self@.green, self@.blue) * 100_000,
                    self@.alpha,
                ),
                ColorType::Rgb => functional_text("rgb("@, self@.red, self@.green, self@.blue, self@.alpha),
                ColorType::Hex => hex_text(self@.red, self@.green, self@.blue, self@.alpha),
            },
    {
        match self.parsed_as() {
            ColorType::Hsl => self.hsl_string(),
            ColorType::Rgb => self.rgb_string(),
            ColorType::Hex => self.hex_string(),
        }
    }
}

/// Dividing an exact multiple `q * d` by `d` and rounding gives `q`.
proof fn lemma_round_div_multiple(q: int, d: int)
    requires
        d > 0,
    ensures
        round_div(q * d, d) == q,
{
    if q >= 0 {
        assert(q * d >= 0) by (nonlinear_arith)
            requires
                q >= 0,
                d > 0,
        ;
        assert(2 * (q * d) + d == q * (2 * d) + d) by (nonlinear_arith);
        lemma_fundamental_div_mod_converse(2 * (q * d) + d, 2 * d, q, d);
    } else {
        assert(q * d < 0) by (nonlinear_arith)
            requires
                q < 0,
                d > 0,
        ;
        assert(d - 2 * (q * d) == (-q) * (2 * d) + d) by (nonlinear_arith);
        lemma_fundamental_div_mod_converse(d - 2 * (q * d), 2 * d, -q, d);
    }
}

/// The HSL channels of a fully saturated color at half luminosity, for a hue
/// that is a multiple of 60 degrees: each channel is 0 or 255 as the hue's
/// sextant gives.
proof fn lemma_saturated_channels(k: int)
    requires
        0 <= k <= 5,
    ensures
        ({
            let h = k * SEXTANT;
            let q = hsl_scale();
            let x = if k % 2 == 0 {
                0int
            } else {
                q
            };
            &&& chroma(PERCENT_MAX as int, 50_000_000) == q
            &&& second(h, PERCENT_MAX as int, 50_000_000) == x
            &&& offset(PERCENT_MAX as int, 50_000_000) == 0
        }),
{
    let h = k * SEXTANT;
    assert(lum_factor(50_000_000) == 100_000_000);
    lemma_fundamental_div_mod_converse(h, 2 * SEXTANT, k / 2, (k % 2) * SEXTANT);
    assert(h % (2 * SEXTANT) == if k % 2 == 0 {
        0
    } else {
        SEXTANT as int
    });
}

/// Round trip at the corners of the RGB cube: black, white, the primaries and
/// the secondaries come back exactly from HSL.
pub proof fn lemma_corner_round_trip(r: int, g: int, b: int)
    requires
        r == 0 || r == 255,
        g == 0 || g == 255,
        b == 0 || b == 255,
    ensures
        ({
            let (cr, cg, cb) = (r * MICROS, g * MICROS, b * MICROS);
            let h = hue_degrees(cr, cg, cb) * MICROS;
            let s = saturation_tenths(cr, cg, cb) * 100_000;
            let l = luminosity_tenths(cr, cg, cb) * 100_000;
            hsl_channels(
                clamp(h, 0, HUE_MAX as int),
                clamp(s, 0, PERCENT_MAX as int),
                clamp(l, 0, PERCENT_MAX as int),
            ) == (r, g, b)
        }),
{
    if r == g && g == b {
        lemma_grey_round_trip(r);
    } else {
        let (cr, cg, cb) = (r * MICROS, g * MICROS, b * MICROS);
        let d = CHANNEL_MAX as int;
        assert(max3(cr, cg, cb) == d);
        assert(min3(cr, cg, cb) == 0);
        lemma_round_div_multiple(1000, d);
        assert(saturation_tenths(cr, cg, cb) == 1000);
        lemma_round_div_multiple(500, 2 * d);
        assert(luminosity_tenths(cr, cg, cb) == 500);
        let k: int = if r == 255 && g == 0 && b == 0 {
            0
        } else if r == 255 && g == 255 {
            1
        } else if r == 0 && g == 255 && b == 0 {
            2
        } else if g == 255 {
            3
        } else if r == 0 {
            4
        } else {
            5
        };
        if k == 0 {
            lemma_round_div_multiple(0, d);
        } else if k == 1 {
            lemma_round_div_multiple(60, d);
        } else if k == 2 {
            lemma_round_div_multiple(120, d);
        } else if k == 3 {
            lemma_round_div_multiple(180, d);
        } else if k == 4 {
            lemma_round_div_multiple(240, d);
        } else {
            lemma_round_div_multiple(-60, d);
        }
        assert(hue_degrees(cr, cg, cb) == 60 * k);
        lemma_saturated_channels(k);
        let q = hsl_scale();
        lemma_round_div_multiple(255, q);
        lemma_round_div_multiple(0, q);
        assert(channel_of(q) == 255);
        assert(channel_of(0) == 0);
    }
}

} // verus!
