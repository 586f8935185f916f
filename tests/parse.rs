use color::colors::HslColor;
use color::decimal::Decimal;
use color::parse::{hsl_color, hsl_values, parse_color, rgb_values, Angle};

fn d(digits: i64, places: u32) -> Decimal {
    Decimal::new(digits, places)
}

#[test]
fn parse_hsl_values() {
    let (rest, output) = hsl_values("32,11.22,04oeeooe").unwrap();
    assert_eq!(output, (Angle::Degrees(d(32, 0)), d(1122, 2), d(4, 0), None));
    assert_eq!(rest, "oeeooe");

    let (rest, output) = hsl_values("32deg, 11.22,04oeeooe").unwrap();
    assert_eq!(output, (Angle::Degrees(d(32, 0)), d(1122, 2), d(4, 0), None));
    assert_eq!(rest, "oeeooe");

    let (rest, output) = hsl_values("32deg   , 11.22,04oeeooe").unwrap();
    assert_eq!(output, (Angle::Degrees(d(32, 0)), d(1122, 2), d(4, 0), None));
    assert_eq!(rest, "oeeooe");

    let (rest, output) = hsl_values("360rad 12% 34").unwrap();
    assert_eq!(output, (Angle::Radians(d(360, 0)), d(12, 0), d(34, 0), None));
    assert_eq!(rest, "");

    // Can't mix and match separators
    assert!(hsl_values("354rad 12%, 34").is_err());
    assert!(hsl_values("354rad, 12% 34").is_err());
}

#[test]
fn parse_hsla_values() {
    let (_, output) = hsl_values("32,11.22,4.0,0.2").unwrap();
    assert_eq!(output, (Angle::Degrees(d(32, 0)), d(1122, 2), d(4, 0), Some(d(2, 1))));

    let (_, output) = hsl_values("32 11.22 4.0 / 0.2").unwrap();
    assert_eq!(output, (Angle::Degrees(d(32, 0)), d(1122, 2), d(4, 0), Some(d(2, 1))));

    let (_, output) = hsl_values("32,11.22,4.0, 20%").unwrap();
    assert_eq!(output, (Angle::Degrees(d(32, 0)), d(1122, 2), d(4, 0), Some(d(2, 1))));

    let (_, output) = hsl_values("32 11.22 4.0 / 50%").unwrap();
    assert_eq!(output, (Angle::Degrees(d(32, 0)), d(1122, 2), d(4, 0), Some(d(5, 1))));
}

#[test]
fn parse_hsl() {
    let (_, color) = hsl_color("hsl(212, 12, 24.2)").unwrap();
    assert_eq!(color, HslColor::new(d(212, 0), d(12, 0), d(242, 1)));

    let (_, color) = hsl_color("hsla(212, 12, 24.2)").unwrap();
    assert_eq!(color, HslColor::new(d(212, 0), d(12, 0), d(242, 1)));

    let (_, color) = hsl_color("hsl(212 12  24.2)").unwrap();
    assert_eq!(color, HslColor::new(d(212, 0), d(12, 0), d(242, 1)));

    let (_, color) = hsl_color("hsl(  212 12  24.2)").unwrap();
    assert_eq!(color, HslColor::new(d(212, 0), d(12, 0), d(242, 1)));

    let (_, color) = hsl_color("hsl(2turn 24.3 4%)").unwrap();
    // Clamped at max 360
    assert_eq!(color, HslColor::new(d(360, 0), d(243, 1), d(4, 0)));

    let (_, color) = hsl_color("hsl(2turn, -24.3, 101%)").unwrap();
    // Clamped at max 360, max 100, max 100, min 0
    assert_eq!(color, HslColor::new(d(360, 0), d(0, 0), d(100, 0)));
}

#[test]
fn parse_hsl_with_transparency() {
    let (_, color) = hsl_color("hsla(212 12 24.2 / 0.3)").unwrap();
    assert_eq!(color, HslColor::hsla(d(212, 0), d(12, 0), d(242, 1), d(3, 1)));

    let (_, color) = hsl_color("hsl(212, 12, 24.2 , 0.3)").unwrap();
    assert_eq!(color, HslColor::hsla(d(212, 0), d(12, 0), d(242, 1), d(3, 1)));

    let (_, color) = hsl_color("hsla(212 12 24.2 / 30%)").unwrap();
    assert_eq!(color, HslColor::hsla(d(212, 0), d(12, 0), d(242, 1), d(3, 1)));

    let (_, color) = hsl_color("hsl(212, 12, 24.2 , 30%)").unwrap();
    assert_eq!(color, HslColor::hsla(d(212, 0), d(12, 0), d(242, 1), d(3, 1)));

    // Can't have transparency slash and commas
    assert!(hsl_color("hsl(21deg, 32.2, 32% / 32%").is_err());
    assert!(hsl_color("hsl(21deg, 32.2, 32% / 32deg").is_err());
}

#[test]
fn parse_rgb_values() {
    let (rest, output) = rgb_values("32,11.22,04oeeooe").unwrap();
    assert_eq!(output, (d(32, 0), d(1122, 2), d(4, 0), None));
    assert_eq!(rest, "oeeooe");

    let (rest, output) = rgb_values("32%,11.22%,04%oeeooe").unwrap();
    assert_eq!(output, (d(816, 1), d(28611, 3), d(102, 1), None));
    assert_eq!(rest, "oeeooe");

    let (rest, output) = rgb_values("32 11.22 04oeeooe").unwrap();
    assert_eq!(output, (d(32, 0), d(1122, 2), d(4, 0), None));
    assert_eq!(rest, "oeeooe");

    let (rest, output) = rgb_values("32% 11.22% 04%oeeooe").unwrap();
    assert_eq!(output, (d(816, 1), d(28611, 3), d(102, 1), None));
    assert_eq!(rest, "oeeooe");

    // Cannot mix and match percentages and floats
    assert!(rgb_values("32, 2%, 225").is_err());
    assert!(rgb_values("32%, 2%, 225").is_err());
}

#[test]
fn parse_rgba_values() {
    let (rest, output) = rgb_values("32,11.22,04,0.2oeeooe").unwrap();
    assert_eq!(output, (d(32, 0), d(1122, 2), d(4, 0), Some(d(2, 1))));
    assert_eq!(rest, "oeeooe");

    let (rest, output) = rgb_values("32%,11.22%,04%,44%oeeooe").unwrap();
    assert_eq!(output, (d(816, 1), d(28611, 3), d(102, 1), Some(d(44, 2))));
    assert_eq!(rest, "oeeooe");

    let (rest, output) = rgb_values("32 11.22 04 / 0.9oeeooe").unwrap();
    assert_eq!(output, (d(32, 0), d(1122, 2), d(4, 0), Some(d(9, 1))));
    assert_eq!(rest, "oeeooe");

    let (rest, output) = rgb_values("32% 11.22% 04%/7.3%oeeooe").unwrap();
    assert_eq!(output, (d(816, 1), d(28611, 3), d(102, 1), Some(d(73, 3))));
    assert_eq!(rest, "oeeooe");

    // Cannot mix and match percentages and floats
    assert!(rgb_values("32, 2%, 225 / 1").is_err());
    assert!(rgb_values("32%, 2%, 225, 44%").is_err());
}

#[test]
fn parse_color_clamps_out_of_range_values() {
    // hue 360, saturation 0, luminosity 100: white
    let (rest, color) = parse_color("hsl(2turn, -24.3, 101%)").unwrap();
    assert_eq!(rest, "");
    assert_eq!(color.rgb(), (d(255, 0), d(255, 0), d(255, 0), d(1, 0)));
    let (_, color) = parse_color("rgba(300, -4, 12.5, 50)").unwrap();
    assert_eq!(color.rgb(), (d(255, 0), d(0, 0), d(125, 1), d(1, 0)));
}

#[test]
fn parse_color_rejects_mixed_separators() {
    assert!(parse_color("hsl(21deg, 32.2, 32% / 32%)").is_err());
    assert!(parse_color("hsl(21deg 32.2 32%, 32%)").is_err());
    assert!(parse_color("hsl(354rad 12%, 34)").is_err());
    assert!(parse_color("rgb(1, 2 3)").is_err());
}

#[test]
fn parse_color_scales_percentage_alpha() {
    let (_, spaced) = parse_color("hsla(212 12 24.2 / 30%)").unwrap();
    let (_, commas) = parse_color("hsl(212, 12, 24.2, 0.3)").unwrap();
    assert_eq!(spaced.rgb().3, d(3, 1));
    assert_eq!(commas.rgb().3, d(3, 1));
    assert_eq!(spaced, commas);
}

#[test]
fn parse_color_rejects_mixed_channel_kinds() {
    assert!(parse_color("rgb(32%, 2%, 225)").is_err());
    assert!(parse_color("rgb(32, 2%, 225)").is_err());
    assert!(parse_color("rgb(10%, 20, 30%)").is_err());
}

#[test]
fn parse_color_needs_the_whole_input() {
    assert!(parse_color("hsl(1,2,3)xyz").is_err());
    assert!(parse_color("rgb(1,2,3) ").is_err());
    assert!(parse_color("hsl(1,2,3)").is_ok());
    assert!(parse_color("rgb(1,2,3)").is_ok());
}

#[test]
fn parse_color_rejects_malformed_input() {
    assert!(parse_color("").is_err());
    assert!(parse_color("red").is_err());
    assert!(parse_color("hsv(1,2,3)").is_err());
    assert!(parse_color("hsl(1,2,3").is_err());
    assert!(parse_color("hsl 1,2,3)").is_err());
    assert!(parse_color("rgb(a,2,3)").is_err());
    assert!(parse_color("rgb( 1,2,3)").is_err());
    assert!(parse_color("hsl(1xyz,2,3)").is_err());
}

#[test]
fn gradians_are_refused() {
    let (_, output) = hsl_values("100grad 1 2").unwrap();
    assert_eq!(output.0, Angle::Gradians(d(100, 0)));
    assert!(hsl_color("hsl(100grad, 1, 2)").is_err());
    assert!(parse_color("hsl(100grad, 1, 2)").is_err());
}

#[test]
fn angles_convert_to_degrees() {
    assert_eq!(Angle::Degrees(d(12, 0)).to_degrees(), d(12, 0));
    assert_eq!(Angle::Turns(d(2, 0)).to_degrees(), d(720, 0));
    assert_eq!(Angle::Radians(d(1, 0)).to_degrees(), d(57_295_780, 6));
    assert_eq!(Angle::Radians(d(-1, 0)).to_degrees(), d(-57_295_780, 6));
    let (_, color) = hsl_color("hsl(0.5turn 10 20)").unwrap();
    assert_eq!(color.hue, d(180, 0));
}

#[test]
fn hsl_values_allow_spaces_around_the_list() {
    let (rest, output) = hsl_values("  10 , 20 , 30 , 40%  )").unwrap();
    assert_eq!(output, (Angle::Degrees(d(10, 0)), d(20, 0), d(30, 0), Some(d(4, 1))));
    assert_eq!(rest, ")");
    // an alpha that does not follow its separator is left unread
    let (rest, output) = hsl_values("10,20,30,x").unwrap();
    assert_eq!(output.3, None);
    assert_eq!(rest, ",x");
}

#[test]
fn unknown_angle_units_are_refused() {
    assert!(hsl_values("10xyz 20 30").is_err());
    assert!(hsl_values("10Deg 20 30").is_err());
    assert!(hsl_color("hsl(10deg, 20, 30)").is_ok());
    assert!(hsl_color("hsl(1rad 20 30)").is_ok());
}

#[test]
fn rgb_alpha_may_be_a_percentage_or_a_number() {
    let (_, color) = parse_color("rgb(32, 11, 4, 50%)").unwrap();
    assert_eq!(color.rgb(), (d(32, 0), d(11, 0), d(4, 0), d(5, 1)));
    let (_, color) = parse_color("rgb(1,2,3,50%)").unwrap();
    assert_eq!(color.rgb().3, d(5, 1));
    let (_, color) = parse_color("rgb(10%, 20%, 30%, 0.5)").unwrap();
    assert_eq!(color.rgb(), (d(255, 1), d(51, 0), d(765, 1), d(5, 1)));
    let (_, color) = parse_color("rgb(10% 20% 30% / 0.25)").unwrap();
    assert_eq!(color.rgb().3, d(25, 2));
    let (_, color) = parse_color("rgba(1 2 3 / 40%)").unwrap();
    assert_eq!(color.rgb().3, d(4, 1));
}
