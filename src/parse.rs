//! The grammar of color expressions:
//!
//! ```text
//! color    := hsl_fn | rgb_fn
//! hsl_fn   := ("hsla" | "hsl") "(" spaces angle SEP level SEP level [ALPHASEP alpha] spaces ")"
//! rgb_fn   := ("rgba" | "rgb") "(" chan SEP chan SEP chan [ALPHASEP alpha] ")"
//! angle    := number ["deg" | "rad" | "grad" | "turn"]
//! SEP      := spaces "," spaces  |  spaces+             (one style per list)
//! ALPHASEP := spaces "," spaces  |  spaces "/" spaces   (after that style)
//! ```
//!
//! `spaces` are spaces and tabs. The three channels of one `rgb` list are all
//! percentages or all plain numbers. An alpha is a percentage, read as a
//! fraction, or a plain number, whatever the channels are.
//! Where two alternatives are listed, the first that matches is taken.

use vstd::prelude::*;

use crate::colors::{
    hsl_clamped, hsl_color_value, in_range, rgb_clamped, rgb_color_value, Color, ColorValue,
    HslColor, RgbColor, CHANNEL_MAX,
};
use crate::decimal::{round_div, round_div_i128, Decimal, MICROS};
use crate::Error;
use crate::lexer::{
    lemma_no_close_join, lemma_number_no_close,
    lemma_percentage_no_close, lemma_spaces_no_close, lemma_word_no_close, no_close, at_int, has_word, number, percentage, skip_spaces, spaces_end, spec_number,
    spec_percentage, word_at, LITERAL_CAP,
};

verus! {

/// An angle as written: its number and unit.
#[derive(Clone, Copy, Debug, PartialEq, Eq, Structural)]
pub enum Angle {
    Degrees(Decimal),
    Radians(Decimal),
    Gradians(Decimal),
    Turns(Decimal),
}

pub open spec fn is_letter(c: char) -> bool {
    ('a' <= c <= 'z') || ('A' <= c <= 'Z')
}

/// An angle at `i`: a number and an optional unit; no unit means degrees. Any
/// other word directly after the number makes it fail.
pub open spec fn spec_angle(s: Seq<char>, i: int) -> Option<(int, Angle)> {
    match spec_number(s, i) {
        Some((j, v)) => if has_word(s, j, "deg"@) {
            Some((j + 3, Angle::Degrees(v)))
        } else if has_word(s, j, "rad"@) {
            Some((j + 3, Angle::Radians(v)))
        } else if has_word(s, j, "grad"@) {
            Some((j + 4, Angle::Gradians(v)))
        } else if has_word(s, j, "turn"@) {
            Some((j + 4, Angle::Turns(v)))
        } else if 0 <= j < s.len() && is_letter(s[j]) {
            None
        } else {
            Some((j, Angle::Degrees(v)))
        },
        None => None,
    }
}

/// Degrees in one radian, `180 / pi`, scaled by `10^18`.
pub const DEGREES_PER_RADIAN: i128 = 57_295_779_513_082_320_877;

/// `10^18`, the scale of `DEGREES_PER_RADIAN`.
pub const RADIAN_SCALE: i128 = 1_000_000_000_000_000_000;

impl Angle {
    /// The number as written, whatever the unit.
    pub open spec fn value(self) -> Decimal {
        match self {
            Angle::Degrees(v) => v,
            Angle::Radians(v) => v,
            Angle::Gradians(v) => v,
            Angle::Turns(v) => v,
        }
    }

    /// The angle in degrees, in micro-units; radians are converted with
    /// `DEGREES_PER_RADIAN` and rounded. No conversion is given for gradians.
    pub open spec fn spec_degrees(self) -> int
        recommends
            !(self is Gradians),
    {
        match self {
            Angle::Degrees(v) => v.micros as int,
            Angle::Radians(v) => round_div(v.micros * DEGREES_PER_RADIAN, RADIAN_SCALE as int),
            Angle::Turns(v) => v.micros * 360,
            Angle::Gradians(_) => 0,
        }
    }

    /// The angle in degrees (see `spec_degrees`). Gradians have no conversion.
    pub fn to_degrees(&self) -> (r: Decimal)
        requires
            !(*self is Gradians),
            -LITERAL_CAP <= self.value().micros <= LITERAL_CAP,
        ensures
            r.micros == self.spec_degrees(),
    {
        match self {
            Angle::Degrees(v) => *v,
            Angle::Radians(v) => {
                let n = v.micros as i128 * DEGREES_PER_RADIAN;
                let d = round_div_i128(n, RADIAN_SCALE);
                proof {
                    crate::colors::lemma_round_div_bounds(
                        n as int,
                        RADIAN_SCALE as int,
                        -58 * LITERAL_CAP,
                        58 * LITERAL_CAP,
                    );
                }
                Decimal { micros: d as i64 }
            },
            Angle::Turns(v) => Decimal { micros: v.micros * 360 },
            Angle::Gradians(_) => Decimal { micros: 0 },
        }
    }
}

/// The angle at `i` (see `spec_angle`).
pub fn angle(s: &Vec<char>, i: usize) -> (r: Option<(usize, Angle)>)
    requires
        i <= s.len(),
    ensures
        at_int(r) == spec_angle(s@, i as int),
        r matches Some((j, a)) ==> i < j <= s.len() && -LITERAL_CAP <= a.value().micros
            <= LITERAL_CAP,
{
    proof {
        reveal_strlit("deg");
        reveal_strlit("rad");
        reveal_strlit("grad");
        reveal_strlit("turn");
    }
    match number(s, i) {
        Some((j, v)) => {
            if word_at(s, j, "deg") {
                Some((j + 3, Angle::Degrees(v)))
            } else if word_at(s, j, "rad") {
                Some((j + 3, Angle::Radians(v)))
            } else if word_at(s, j, "grad") {
                Some((j + 4, Angle::Gradians(v)))
            } else if word_at(s, j, "turn") {
                Some((j + 4, Angle::Turns(v)))
            } else if j < s.len() && (('a' <= s[j] && s[j] <= 'z') || ('A' <= s[j] && s[j] <= 'Z')) {
                None
            } else {
                Some((j, Angle::Degrees(v)))
            }
        },
        None => None,
    }
}

/// The two ways of separating the values of one list.
#[derive(Clone, Copy, Debug, PartialEq, Eq, Structural)]
pub enum Separators {
    /// `spaces "," spaces` between values, and before alpha.
    Commas,
    /// One or more spaces between values, `spaces "/" spaces` before alpha.
    Spaces,
}

/// `spaces c spaces` at `i`: the position after it.
pub open spec fn spec_delimiter(s: Seq<char>, i: int, c: char) -> Option<int> {
    let j = spaces_end(s, i);
    if 0 <= j < s.len() && s[j] == c {
        Some(spaces_end(s, j + 1))
    } else {
        None
    }
}

/// The separator between two values at `i`.
pub open spec fn spec_separator(style: Separators, s: Seq<char>, i: int) -> Option<int> {
    match style {
        Separators::Commas => spec_delimiter(s, i, ','),
        Separators::Spaces => if spaces_end(s, i) > i {
            Some(spaces_end(s, i))
        } else {
            None
        },
    }
}

/// The separator before alpha at `i`.
pub open spec fn spec_alpha_separator(style: Separators, s: Seq<char>, i: int) -> Option<int> {
    match style {
        Separators::Commas => spec_delimiter(s, i, ','),
        Separators::Spaces => spec_delimiter(s, i, '/'),
    }
}

fn delimiter(s: &Vec<char>, i: usize, c: char) -> (r: Option<usize>)
    requires
        i <= s.len(),
    ensures
        r matches Some(j) ==> i < j <= s.len(),
        r matches Some(j) ==> spec_delimiter(s@, i as int, c) == Some(j as int),
        r is None ==> spec_delimiter(s@, i as int, c) is None,
{
    let j = skip_spaces(s, i);
    if j < s.len() && s[j] == c {
        Some(skip_spaces(s, j + 1))
    } else {
        None
    }
}

/// The separator between two values at `i` (see `spec_separator`).
pub fn separator(style: Separators, s: &Vec<char>, i: usize) -> (r: Option<usize>)
    requires
        i <= s.len(),
    ensures
        r matches Some(j) ==> i < j <= s.len(),
        r matches Some(j) ==> spec_separator(style, s@, i as int) == Some(j as int),
        r is None ==> spec_separator(style, s@, i as int) is None,
{
    match style {
        Separators::Commas => delimiter(s, i, ','),
        Separators::Spaces => {
            let j = skip_spaces(s, i);
            if j > i {
                Some(j)
            } else {
                None
            }
        },
    }
}

/// The separator before alpha at `i` (see `spec_alpha_separator`).
pub fn alpha_separator(style: Separators, s: &Vec<char>, i: usize) -> (r: Option<usize>)
    requires
        i <= s.len(),
    ensures
        r matches Some(j) ==> i < j <= s.len(),
        r matches Some(j) ==> spec_alpha_separator(style, s@, i as int) == Some(j as int),
        r is None ==> spec_alpha_separator(style, s@, i as int) is None,
{
    match style {
        Separators::Commas => delimiter(s, i, ','),
        Separators::Spaces => delimiter(s, i, '/'),
    }
}

/// A percentage as a fraction: `v / 100`, rounded to the nearest micro-unit.
pub open spec fn fraction_of(v: Decimal) -> Decimal {
    Decimal { micros: round_div(v.micros as int, 100) as i64 }
}

/// A percentage as a channel value: `v / 100 * 255`, rounded to the nearest
/// micro-unit.
pub open spec fn channel_of_percentage(v: Decimal) -> Decimal {
    Decimal { micros: round_div(v.micros * 255, 100) as i64 }
}

fn percentage_to_fraction(v: Decimal) -> (r: Decimal)
    requires
        -LITERAL_CAP <= v.micros <= LITERAL_CAP,
    ensures
        r == fraction_of(v),
        -LITERAL_CAP <= r.micros <= LITERAL_CAP,
{
    proof {
        crate::colors::lemma_round_div_bounds(v.micros as int, 100, -LITERAL_CAP as int, LITERAL_CAP as int);
    }
    Decimal { micros: round_div_i128(v.micros as i128, 100) as i64 }
}

fn percentage_to_color_255(v: Decimal) -> (r: Decimal)
    requires
        -LITERAL_CAP <= v.micros <= LITERAL_CAP,
    ensures
        r == channel_of_percentage(v),
{
    proof {
        crate::colors::lemma_round_div_bounds(v.micros * 255, 100, -3 * LITERAL_CAP, 3 * LITERAL_CAP);
    }
    Decimal { micros: round_div_i128(v.micros as i128 * 255, 100) as i64 }
}

/// A saturation or luminosity at `i`: a percentage or a plain number, both
/// read on the 0 to 100 scale.
pub open spec fn spec_level(s: Seq<char>, i: int) -> Option<(int, Decimal)> {
    match spec_percentage(s, i) {
        Some(r) => Some(r),
        None => spec_number(s, i),
    }
}

/// An alpha at `i`: a percentage, read as a fraction, or a plain number.
pub open spec fn spec_alpha(s: Seq<char>, i: int) -> Option<(int, Decimal)> {
    match spec_percentage(s, i) {
        Some((j, v)) => Some((j, fraction_of(v))),
        None => spec_number(s, i),
    }
}

fn level(s: &Vec<char>, i: usize) -> (r: Option<(usize, Decimal)>)
    requires
        i <= s.len(),
    ensures
        at_int(r) == spec_level(s@, i as int),
        r matches Some((j, _)) ==> i < j <= s.len(),
{
    match percentage(s, i) {
        Some(r) => Some(r),
        None => number(s, i),
    }
}

fn alpha(s: &Vec<char>, i: usize) -> (r: Option<(usize, Decimal)>)
    requires
        i <= s.len(),
    ensures
        at_int(r) == spec_alpha(s@, i as int),
        r matches Some((j, _)) ==> i < j <= s.len(),
{
    match percentage(s, i) {
        Some((j, v)) => Some((j, percentage_to_fraction(v))),
        None => number(s, i),
    }
}

/// The optional alpha after the last value of a list, at `i`: where the alpha separator
/// and a value follow, the position after them and the value; else `(i, None)`.
pub open spec fn spec_optional_alpha(style: Separators, s: Seq<char>, i: int) -> (int, Option<Decimal>) {
    match spec_alpha_separator(style, s, i) {
        Some(k) => match spec_alpha(s, k) {
            Some((end, v)) => (end, Some(v)),
            None => (i, None),
        },
        None => (i, None),
    }
}

/// The values of an `hsl` expression at `i`, separated in the given style:
/// spaces, hue, saturation, luminosity, an optional alpha, spaces.
pub open spec fn spec_hsl_list(style: Separators, s: Seq<char>, i: int) -> Option<
    (int, (Angle, Decimal, Decimal, Option<Decimal>)),
> {
    match spec_angle(s, spaces_end(s, i)) {
        None => None,
        Some((j1, hue)) => match spec_separator(style, s, j1) {
            None => None,
            Some(j2) => match spec_level(s, j2) {
                None => None,
                Some((j3, sat)) => match spec_separator(style, s, j3) {
                    None => None,
                    Some(j4) => match spec_level(s, j4) {
                        None => None,
                        Some((j5, lum)) => {
                            let (j6, a) = spec_optional_alpha(style, s, j5);
                            Some((spaces_end(s, j6), (hue, sat, lum, a)))
                        },
                    },
                },
            },
        },
    }
}

/// The values of an `hsl` expression at `i`: separated by commas if that
/// matches, else by spaces.
pub open spec fn spec_hsl_values(s: Seq<char>, i: int) -> Option<
    (int, (Angle, Decimal, Decimal, Option<Decimal>)),
> {
    match spec_hsl_list(Separators::Commas, s, i) {
        Some(r) => Some(r),
        None => spec_hsl_list(Separators::Spaces, s, i),
    }
}

fn optional_alpha(style: Separators, s: &Vec<char>, i: usize) -> (r: (usize, Option<Decimal>))
    requires
        i <= s.len(),
    ensures
        (r.0 as int, r.1) == spec_optional_alpha(style, s@, i as int),
        i <= r.0 <= s.len(),
{
    match alpha_separator(style, s, i) {
        Some(k) => match alpha(s, k) {
            Some((end, v)) => (end, Some(v)),
            None => (i, None),
        },
        None => (i, None),
    }
}

/// The values of an `hsl` expression at `i` (see `spec_hsl_list`).
pub fn hsl_list(style: Separators, s: &Vec<char>, i: usize) -> (r: Option<
    (usize, (Angle, Decimal, Decimal, Option<Decimal>)),
>)
    requires
        i <= s.len(),
    ensures
        at_int(r) == spec_hsl_list(style, s@, i as int),
        r matches Some((j, v)) ==> i < j <= s.len() && -LITERAL_CAP <= v.0.value().micros
            <= LITERAL_CAP,
{
    let j0 = skip_spaces(s, i);
    let (j1, hue) = match angle(s, j0) {
        Some(x) => x,
        None => return None,
    };
    let j2 = match separator(style, s, j1) {
        Some(j) => j,
        None => return None,
    };
    let (j3, sat) = match level(s, j2) {
        Some(x) => x,
        None => return None,
    };
    let j4 = match separator(style, s, j3) {
        Some(j) => j,
        None => return None,
    };
    let (j5, lum) = match level(s, j4) {
        Some(x) => x,
        None => return None,
    };
    let (j6, a) = optional_alpha(style, s, j5);
    Some((skip_spaces(s, j6), (hue, sat, lum, a)))
}

/// The values of an `hsl` expression at `i` (see `spec_hsl_values`).
pub fn hsl_values_at(s: &Vec<char>, i: usize) -> (r: Option<
    (usize, (Angle, Decimal, Decimal, Option<Decimal>)),
>)
    requires
        i <= s.len(),
    ensures
        at_int(r) == spec_hsl_values(s@, i as int),
        r matches Some((j, v)) ==> i < j <= s.len() && -LITERAL_CAP <= v.0.value().micros
            <= LITERAL_CAP,
{
    match hsl_list(Separators::Commas, s, i) {
        Some(r) => Some(r),
        None => hsl_list(Separators::Spaces, s, i),
    }
}

/// How the three channels of one `rgb` list, and its alpha, are written.
#[derive(Clone, Copy, Debug, PartialEq, Eq, Structural)]
pub enum Channels {
    /// All percentages, each scaled to `[0, 255]`.
    Percentages,
    /// All plain numbers, taken as they are.
    Numbers,
}

/// A channel at `i`, written as `kind` says.
pub open spec fn spec_channel(kind: Channels, s: Seq<char>, i: int) -> Option<(int, Decimal)> {
    match kind {
        Channels::Percentages => match spec_percentage(s, i) {
            Some((j, v)) => Some((j, channel_of_percentage(v))),
            None => None,
        },
        Channels::Numbers => spec_number(s, i),
    }
}

/// The values of an `rgb` expression at `i`, separated and written in the given
/// ways: three channels and an optional alpha, which is written as in `hsl`.
pub open spec fn spec_rgb_list(style: Separators, kind: Channels, s: Seq<char>, i: int) -> Option<
    (int, (Decimal, Decimal, Decimal, Option<Decimal>)),
> {
    match spec_channel(kind, s, i) {
        None => None,
        Some((j1, red)) => match spec_separator(style, s, j1) {
            None => None,
            Some(j2) => match spec_channel(kind, s, j2) {
                None => None,
                Some((j3, green)) => match spec_separator(style, s, j3) {
                    None => None,
                    Some(j4) => match spec_channel(kind, s, j4) {
                        None => None,
                        Some((j5, blue)) => {
                            let (j6, a) = spec_optional_alpha(style, s, j5);
                            Some((j6, (red, green, blue, a)))
                        },
                    },
                },
            },
        },
    }
}

/// The values of an `rgb` expression at `i`: the first of these that matches:
/// percentages with commas, numbers with commas, percentages with spaces,
/// numbers with spaces.
pub open spec fn spec_rgb_values(s: Seq<char>, i: int) -> Option<
    (int, (Decimal, Decimal, Decimal, Option<Decimal>)),
> {
    match spec_rgb_list(Separators::Commas, Channels::Percentages, s, i) {
        Some(r) => Some(r),
        None => match spec_rgb_list(Separators::Commas, Channels::Numbers, s, i) {
            Some(r) => Some(r),
            None => match spec_rgb_list(Separators::Spaces, Channels::Percentages, s, i) {
                Some(r) => Some(r),
                None => spec_rgb_list(Separators::Spaces, Channels::Numbers, s, i),
            },
        },
    }
}

fn channel(kind: Channels, s: &Vec<char>, i: usize) -> (r: Option<(usize, Decimal)>)
    requires
        i <= s.len(),
    ensures
        at_int(r) == spec_channel(kind, s@, i as int),
        r matches Some((j, _)) ==> i < j <= s.len(),
{
    match kind {
        Channels::Percentages => match percentage(s, i) {
            Some((j, v)) => Some((j, percentage_to_color_255(v))),
            None => None,
        },
        Channels::Numbers => number(s, i),
    }
}

/// The values of an `rgb` expression at `i` (see `spec_rgb_list`).
pub fn rgb_list(style: Separators, kind: Channels, s: &Vec<char>, i: usize) -> (r: Option<
    (usize, (Decimal, Decimal, Decimal, Option<Decimal>)),
>)
    requires
        i <= s.len(),
    ensures
        at_int(r) == spec_rgb_list(style, kind, s@, i as int),
        r matches Some((j, _)) ==> i < j <= s.len(),
{
    let (j1, red) = match channel(kind, s, i) {
        Some(x) => x,
        None => return None,
    };
    let j2 = match separator(style, s, j1) {
        Some(j) => j,
        None => return None,
    };
    let (j3, green) = match channel(kind, s, j2) {
        Some(x) => x,
        None => return None,
    };
    let j4 = match separator(style, s, j3) {
        Some(j) => j,
        None => return None,
    };
    let (j5, blue) = match channel(kind, s, j4) {
        Some(x) => x,
        None => return None,
    };
    let (j6, a) = optional_alpha(style, s, j5);
    Some((j6, (red, green, blue, a)))
}

/// The values of an `rgb` expression at `i` (see `spec_rgb_values`).
pub fn rgb_values_at(s: &Vec<char>, i: usize) -> (r: Option<
    (usize, (Decimal, Decimal, Decimal, Option<Decimal>)),
>)
    requires
        i <= s.len(),
    ensures
        at_int(r) == spec_rgb_values(s@, i as int),
        r matches Some((j, _)) ==> i < j <= s.len(),
{
    if let Some(r) = rgb_list(Separators::Commas, Channels::Percentages, s, i) {
        return Some(r);
    }
    if let Some(r) = rgb_list(Separators::Commas, Channels::Numbers, s, i) {
        return Some(r);
    }
    if let Some(r) = rgb_list(Separators::Spaces, Channels::Percentages, s, i) {
        return Some(r);
    }
    rgb_list(Separators::Spaces, Channels::Numbers, s, i)
}

/// The position after the function name `long` or `short` and `(` at `i`;
/// `long` is tried first.
pub open spec fn spec_opening(s: Seq<char>, i: int, long: Seq<char>, short: Seq<char>) -> Option<
    int,
> {
    let j = if has_word(s, i, long) {
        i + long.len()
    } else if has_word(s, i, short) {
        i + short.len()
    } else {
        -1
    };
    if 0 <= j < s.len() && s[j] == '(' {
        Some(j + 1)
    } else {
        None
    }
}

fn opening(s: &Vec<char>, i: usize, long: &str, short: &str) -> (r: Option<usize>)
    requires
        i <= s.len(),
    ensures
        r matches Some(j) ==> i < j <= s.len() && spec_opening(s@, i as int, long@, short@) == Some(j as int),
        r is None ==> spec_opening(s@, i as int, long@, short@) is None,
{
    let j = if word_at(s, i, long) {
        i + long.unicode_len()
    } else if word_at(s, i, short) {
        i + short.unicode_len()
    } else {
        return None;
    };
    if j < s.len() && s[j] == '(' {
        Some(j + 1)
    } else {
        None
    }
}

/// The color that the values of an `hsl` expression name; none where the hue
/// is in gradians, which have no conversion. Alpha defaults to 1.
pub open spec fn hsl_of_values(v: (Angle, Decimal, Decimal, Option<Decimal>)) -> Option<HslColor> {
    if v.0 is Gradians {
        None
    } else {
        let a = match v.3 {
            Some(x) => x.micros as int,
            None => MICROS as int,
        };
        Some(hsl_clamped(v.0.spec_degrees(), v.1.micros as int, v.2.micros as int, a))
    }
}

/// The color that the values of an `rgb` expression name. Alpha defaults to 1.
pub open spec fn rgb_of_values(v: (Decimal, Decimal, Decimal, Option<Decimal>)) -> RgbColor {
    let a = match v.3 {
        Some(x) => x.micros as int,
        None => MICROS as int,
    };
    rgb_clamped(v.0.micros as int, v.1.micros as int, v.2.micros as int, a)
}

/// An `hsl(...)` or `hsla(...)` expression at `i`.
pub open spec fn spec_hsl_color(s: Seq<char>, i: int) -> Option<(int, HslColor)> {
    match spec_opening(s, i, "hsla"@, "hsl"@) {
        Some(j) => match spec_hsl_values(s, j) {
            Some((k, v)) => if 0 <= k < s.len() && s[k] == ')' {
                match hsl_of_values(v) {
                    Some(c) => Some((k + 1, c)),
                    None => None,
                }
            } else {
                None
            },
            None => None,
        },
        None => None,
    }
}

/// An `rgb(...)` or `rgba(...)` expression at `i`.
pub open spec fn spec_rgb_color(s: Seq<char>, i: int) -> Option<(int, RgbColor)> {
    match spec_opening(s, i, "rgba"@, "rgb"@) {
        Some(j) => match spec_rgb_values(s, j) {
            Some((k, v)) => if 0 <= k < s.len() && s[k] == ')' {
                Some((k + 1, rgb_of_values(v)))
            } else {
                None
            },
            None => None,
        },
        None => None,
    }
}

/// The color that the whole of `s` names: an `hsl` expression, or else an `rgb`
/// expression, that ends where `s` does.
pub open spec fn spec_parse_color(s: Seq<char>) -> Option<ColorValue> {
    match spec_hsl_color(s, 0) {
        Some((j, c)) => if j == s.len() {
            Some(
                hsl_color_value(
                    c.hue.micros as int,
                    c.saturation.micros as int,
                    c.luminosity.micros as int,
                    c.alpha.micros as int,
                ),
            )
        } else {
            None
        },
        None => match spec_rgb_color(s, 0) {
            Some((j, c)) => if j == s.len() {
                Some(
                    rgb_color_value(
                        c.red.micros as int,
                        c.green.micros as int,
                        c.blue.micros as int,
                        c.alpha.micros as int,
                    ),
                )
            } else {
                None
            },
            None => None,
        },
    }
}

fn hsl_color_at(s: &Vec<char>, i: usize) -> (r: Option<(usize, HslColor)>)
    requires
        i <= s.len(),
    ensures
        at_int(r) == spec_hsl_color(s@, i as int),
{
    let j = match opening(s, i, "hsla", "hsl") {
        Some(j) => j,
        None => return None,
    };
    let (k, (hue, sat, lum, a)) = match hsl_values_at(s, j) {
        Some(x) => x,
        None => return None,
    };
    if !(k < s.len() && s[k] == ')') {
        return None;
    }
    if let Angle::Gradians(_) = hue {
        return None;
    }
    let degrees = hue.to_degrees();
    let color = match a {
        Some(a) => HslColor::hsla(degrees, sat, lum, a),
        None => HslColor::new(degrees, sat, lum),
    };
    Some((k + 1, color))
}

fn rgb_color_at(s: &Vec<char>, i: usize) -> (r: Option<(usize, RgbColor)>)
    requires
        i <= s.len(),
    ensures
        at_int(r) == spec_rgb_color(s@, i as int),
{
    let j = match opening(s, i, "rgba", "rgb") {
        Some(j) => j,
        None => return None,
    };
    let (k, (red, green, blue, a)) = match rgb_values_at(s, j) {
        Some(x) => x,
        None => return None,
    };
    if !(k < s.len() && s[k] == ')') {
        return None;
    }
    let color = match a {
        Some(a) => RgbColor::rgba(red, green, blue, a),
        None => RgbColor::new(red, green, blue),
    };
    Some((k + 1, color))
}

/// The characters of `s`.
fn chars_of(s: &str) -> (v: Vec<char>)
    ensures
        v@ == s@,
{
    let n = s.unicode_len();
    let mut v: Vec<char> = Vec::new();
    let mut i: usize = 0;
    while i < n
        invariant
            n == s@.len(),
            i <= n,
            v@ == s@.subrange(0, i as int),
        decreases n - i,
    {
        v.push(s.get_char(i));
        assert(s@.subrange(0, i + 1) =~= s@.subrange(0, i as int).push(s@[i as int]));
        i = i + 1;
    }
    assert(s@.subrange(0, n as int) =~= s@);
    v
}

/// Whether `r` is what a parser gives for `p`, the outcome of its grammar on `s`
/// from the start: the rest of `s` and the value, or `InvalidColor`.
pub open spec fn parse_outcome<'a, T>(r: Result<(&'a str, T), Error>, s: Seq<char>, p: Option<(int, T)>) -> bool {
    match p {
        Some((j, v)) => r matches Ok((rest, w)) && rest@ == s.subrange(j, s.len() as int) && w == v,
        None => r matches Err(Error::InvalidColor),
    }
}

/// Reads the values of an `hsl` expression, between its parentheses, from the
/// start of `input` (see `spec_hsl_values`); returns the rest of the input and
/// the values.
pub fn hsl_values(input: &str) -> (r: Result<(&str, (Angle, Decimal, Decimal, Option<Decimal>)), Error>)
    ensures
        parse_outcome(r, input@, spec_hsl_values(input@, 0)),
{
    let s = chars_of(input);
    match hsl_values_at(&s, 0) {
        Some((j, v)) => Ok((input.substring_char(j, s.len()), v)),
        None => Err(Error::InvalidColor),
    }
}

/// Reads the values of an `rgb` expression from the start of `input` (see
/// `spec_rgb_values`); returns the rest of the input and the values.
pub fn rgb_values(input: &str) -> (r: Result<(&str, (Decimal, Decimal, Decimal, Option<Decimal>)), Error>)
    ensures
        parse_outcome(r, input@, spec_rgb_values(input@, 0)),
{
    let s = chars_of(input);
    match rgb_values_at(&s, 0) {
        Some((j, v)) => Ok((input.substring_char(j, s.len()), v)),
        None => Err(Error::InvalidColor),
    }
}

/// Reads an `hsl(...)` or `hsla(...)` expression from the start of `input`;
/// returns the rest of the input and the color.
pub fn hsl_color(input: &str) -> (r: Result<(&str, HslColor), Error>)
    ensures
        parse_outcome(r, input@, spec_hsl_color(input@, 0)),
{
    let s = chars_of(input);
    match hsl_color_at(&s, 0) {
        Some((j, v)) => Ok((input.substring_char(j, s.len()), v)),
        None => Err(Error::InvalidColor),
    }
}

/// Reads an `rgb(...)` or `rgba(...)` expression from the start of `input`;
/// returns the rest of the input and the color.
pub fn rgb_color(input: &str) -> (r: Result<(&str, RgbColor), Error>)
    ensures
        parse_outcome(r, input@, spec_rgb_color(input@, 0)),
{
    let s = chars_of(input);
    match rgb_color_at(&s, 0) {
        Some((j, v)) => Ok((input.substring_char(j, s.len()), v)),
        None => Err(Error::InvalidColor),
    }
}

/// Reads a color from the whole of `input`; trailing characters make it fail.
/// Returns the (empty) rest of the input and the color.
pub fn parse_color(input: &str) -> (r: Result<(&str, Color), Error>)
    ensures
        match spec_parse_color(input@) {
            Some(v) => r matches Ok((rest, c)) && rest@.len() == 0 && c@ == v,
            None => r matches Err(Error::InvalidColor),
        },
{
    let s = chars_of(input);
    let n = s.len();
    if let Some((j, c)) = hsl_color_at(&s, 0) {
        if j != n {
            return Err(Error::InvalidColor);
        }
        let color = Color::from_hsl(c.hue, c.saturation, c.luminosity, c.alpha);
        return Ok((input.substring_char(n, n), color));
    }
    match rgb_color_at(&s, 0) {
        Some((j, c)) => {
            if j != n {
                return Err(Error::InvalidColor);
            }
            let color = Color::from_rgb(c.red, c.green, c.blue, c.alpha);
            Ok((input.substring_char(n, n), color))
        },
        None => Err(Error::InvalidColor),
    }
}

/// Whatever values an expression writes, the color read from it lies in range:
/// each is clamped to its nearest bound.
pub proof fn lemma_parsed_color_in_range(s: Seq<char>)
    ensures
        spec_parse_color(s) matches Some(v) ==> in_range(v),
{
    if let Some((_, c)) = spec_hsl_color(s, 0) {
        let v = hsl_color_value(
            c.hue.micros as int,
            c.saturation.micros as int,
            c.luminosity.micros as int,
            c.alpha.micros as int,
        );
        assert(0 <= v.red <= CHANNEL_MAX);
        assert(0 <= v.green <= CHANNEL_MAX);
        assert(0 <= v.blue <= CHANNEL_MAX);
    }
}

/// A color is read only from an `hsl` or `rgb` expression that spans the whole
/// input; anything after it makes the parse fail.
pub proof fn lemma_parse_needs_whole_input(s: Seq<char>)
    ensures
        spec_parse_color(s) is Some ==> ({
            ||| (spec_hsl_color(s, 0) matches Some((j, _)) && j == s.len())
            ||| (spec_hsl_color(s, 0) is None && (spec_rgb_color(s, 0) matches Some((j, _)) && j
                == s.len()))
        }),
{
}

// ---------------------------------------------------------------------------
// No value of an expression holds `)`: the first `)` after the opening one
// closes it.
// ---------------------------------------------------------------------------

proof fn lemma_angle_no_close(s: Seq<char>, i: int)
    requires
        0 <= i <= s.len(),
    ensures
        spec_angle(s, i) matches Some((j, _)) ==> no_close(s, i, j),
{
    lemma_number_no_close(s, i);
    if let Some((j, _)) = spec_number(s, i) {
        reveal_strlit("deg");
        reveal_strlit("rad");
        reveal_strlit("grad");
        reveal_strlit("turn");
        if has_word(s, j, "deg"@) {
            lemma_word_no_close(s, j, "deg"@);
            lemma_no_close_join(s, i, j, j + 3);
        } else if has_word(s, j, "rad"@) {
            lemma_word_no_close(s, j, "rad"@);
            lemma_no_close_join(s, i, j, j + 3);
        } else if has_word(s, j, "grad"@) {
            lemma_word_no_close(s, j, "grad"@);
            lemma_no_close_join(s, i, j, j + 4);
        } else if has_word(s, j, "turn"@) {
            lemma_word_no_close(s, j, "turn"@);
            lemma_no_close_join(s, i, j, j + 4);
        }
    }
}

proof fn lemma_delimiter_no_close(s: Seq<char>, i: int, c: char)
    requires
        0 <= i <= s.len(),
        c != ')',
    ensures
        spec_delimiter(s, i, c) matches Some(j) ==> no_close(s, i, j),
{
    lemma_spaces_no_close(s, i);
    let j = spaces_end(s, i);
    if 0 <= j < s.len() && s[j] == c {
        assert(no_close(s, j, j + 1));
        lemma_spaces_no_close(s, j + 1);
        lemma_no_close_join(s, j, j + 1, spaces_end(s, j + 1));
        lemma_no_close_join(s, i, j, spaces_end(s, j + 1));
    }
}

proof fn lemma_separators_no_close(style: Separators, s: Seq<char>, i: int)
    requires
        0 <= i <= s.len(),
    ensures
        spec_separator(style, s, i) matches Some(j) ==> no_close(s, i, j),
        spec_alpha_separator(style, s, i) matches Some(j) ==> no_close(s, i, j),
{
    lemma_spaces_no_close(s, i);
    lemma_delimiter_no_close(s, i, ',');
    lemma_delimiter_no_close(s, i, '/');
}

proof fn lemma_values_no_close(s: Seq<char>, i: int)
    requires
        0 <= i <= s.len(),
    ensures
        spec_level(s, i) matches Some((j, _)) ==> no_close(s, i, j),
        spec_alpha(s, i) matches Some((j, _)) ==> no_close(s, i, j),
        forall|kind: Channels| #[trigger] spec_channel(kind, s, i) matches Some((j, _)) ==> no_close(s, i, j),
{
    lemma_number_no_close(s, i);
    lemma_percentage_no_close(s, i);
}

proof fn lemma_optional_alpha_no_close(style: Separators, s: Seq<char>, i: int)
    requires
        0 <= i <= s.len(),
    ensures
        no_close(s, i, spec_optional_alpha(style, s, i).0),
{
    lemma_separators_no_close(style, s, i);
    if let Some(k) = spec_alpha_separator(style, s, i) {
        lemma_values_no_close(s, k);
        if let Some((end, _)) = spec_alpha(s, k) {
            lemma_no_close_join(s, i, k, end);
        }
    }
}

proof fn lemma_hsl_list_no_close(style: Separators, s: Seq<char>, i: int)
    requires
        0 <= i <= s.len(),
    ensures
        spec_hsl_list(style, s, i) matches Some((j, _)) ==> no_close(s, i, j),
{
    lemma_spaces_no_close(s, i);
    let j0 = spaces_end(s, i);
    lemma_angle_no_close(s, j0);
    if let Some((j1, _)) = spec_angle(s, j0) {
        lemma_no_close_join(s, i, j0, j1);
        lemma_separators_no_close(style, s, j1);
        if let Some(j2) = spec_separator(style, s, j1) {
            lemma_no_close_join(s, i, j1, j2);
            lemma_values_no_close(s, j2);
            if let Some((j3, _)) = spec_level(s, j2) {
                lemma_no_close_join(s, i, j2, j3);
                lemma_separators_no_close(style, s, j3);
                if let Some(j4) = spec_separator(style, s, j3) {
                    lemma_no_close_join(s, i, j3, j4);
                    lemma_values_no_close(s, j4);
                    if let Some((j5, _)) = spec_level(s, j4) {
                        lemma_no_close_join(s, i, j4, j5);
                        lemma_optional_alpha_no_close(style, s, j5);
                        let j6 = spec_optional_alpha(style, s, j5).0;
                        lemma_no_close_join(s, i, j5, j6);
                        lemma_spaces_no_close(s, j6);
                        lemma_no_close_join(s, i, j6, spaces_end(s, j6));
                    }
                }
            }
        }
    }
}

proof fn lemma_rgb_list_no_close(style: Separators, kind: Channels, s: Seq<char>, i: int)
    requires
        0 <= i <= s.len(),
    ensures
        spec_rgb_list(style, kind, s, i) matches Some((j, _)) ==> no_close(s, i, j),
{
    lemma_values_no_close(s, i);
    if let Some((j1, _)) = spec_channel(kind, s, i) {
        lemma_separators_no_close(style, s, j1);
        if let Some(j2) = spec_separator(style, s, j1) {
            lemma_no_close_join(s, i, j1, j2);
            lemma_values_no_close(s, j2);
            if let Some((j3, _)) = spec_channel(kind, s, j2) {
                lemma_no_close_join(s, i, j2, j3);
                lemma_separators_no_close(style, s, j3);
                if let Some(j4) = spec_separator(style, s, j3) {
                    lemma_no_close_join(s, i, j3, j4);
                    lemma_values_no_close(s, j4);
                    if let Some((j5, _)) = spec_channel(kind, s, j4) {
                        lemma_no_close_join(s, i, j4, j5);
                        lemma_optional_alpha_no_close(style, s, j5);
                        lemma_no_close_join(s, i, j5, spec_optional_alpha(style, s, j5).0);
                    }
                }
            }
        }
    }
}

proof fn lemma_opening_no_close(s: Seq<char>, i: int, long: Seq<char>, short: Seq<char>)
    requires
        0 <= i <= s.len(),
        forall|m: int| 0 <= m < long.len() ==> #[trigger] long[m] != ')',
        forall|m: int| 0 <= m < short.len() ==> #[trigger] short[m] != ')',
    ensures
        spec_opening(s, i, long, short) matches Some(j) ==> no_close(s, i, j),
{
    if let Some(j) = spec_opening(s, i, long, short) {
        let w = if has_word(s, i, long) {
            long
        } else {
            short
        };
        lemma_word_no_close(s, i, w);
        assert(no_close(s, j - 1, j));
        lemma_no_close_join(s, i, j - 1, j);
    }
}

/// An `hsl` expression ends at its first `)`.
proof fn lemma_hsl_expression_closes(s: Seq<char>)
    ensures
        spec_hsl_color(s, 0) matches Some((e, _)) ==> 1 <= e <= s.len() && s[e - 1] == ')'
            && no_close(s, 0, e - 1),
{
    reveal_strlit("hsla");
    reveal_strlit("hsl");
    lemma_opening_no_close(s, 0, "hsla"@, "hsl"@);
    if let Some(j) = spec_opening(s, 0, "hsla"@, "hsl"@) {
        lemma_hsl_list_no_close(Separators::Commas, s, j);
        lemma_hsl_list_no_close(Separators::Spaces, s, j);
        if let Some((k, _)) = spec_hsl_values(s, j) {
            lemma_no_close_join(s, 0, j, k);
        }
    }
}

/// An `rgb` expression ends at its first `)`.
proof fn lemma_rgb_expression_closes(s: Seq<char>)
    ensures
        spec_rgb_color(s, 0) matches Some((e, _)) ==> 1 <= e <= s.len() && s[e - 1] == ')'
            && no_close(s, 0, e - 1),
{
    reveal_strlit("rgba");
    reveal_strlit("rgb");
    lemma_opening_no_close(s, 0, "rgba"@, "rgb"@);
    if let Some(j) = spec_opening(s, 0, "rgba"@, "rgb"@) {
        lemma_rgb_list_no_close(Separators::Commas, Channels::Percentages, s, j);
        lemma_rgb_list_no_close(Separators::Commas, Channels::Numbers, s, j);
        lemma_rgb_list_no_close(Separators::Spaces, Channels::Percentages, s, j);
        lemma_rgb_list_no_close(Separators::Spaces, Channels::Numbers, s, j);
        if let Some((k, _)) = spec_rgb_values(s, j) {
            lemma_no_close_join(s, 0, j, k);
        }
    }
}

/// A color is never read from a prefix: where `s` holds a color, `s` followed
/// by any more characters does not.
pub proof fn lemma_trailing_input_refused(s: Seq<char>, t: Seq<char>)
    requires
        spec_parse_color(s) is Some,
        t.len() > 0,
    ensures
        spec_parse_color(s + t) is None,
{
    let u = s + t;
    let n = s.len() as int;
    lemma_hsl_expression_closes(s);
    lemma_rgb_expression_closes(s);
    lemma_hsl_expression_closes(u);
    lemma_rgb_expression_closes(u);
    assert(n >= 1 && s[n - 1] == ')');
    assert(u[n - 1] == ')');
    if let Some((e, _)) = spec_hsl_color(u, 0) {
        if e > n {
            assert(u[n - 1] != ')');
        }
    } else if let Some((e, _)) = spec_rgb_color(u, 0) {
        if e > n {
            assert(u[n - 1] != ')');
        }
    }
}

} // verus!
