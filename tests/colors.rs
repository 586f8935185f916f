use color::colors::{hsl_to_rgb, rgb_to_hsl, Color, ColorType};
use color::decimal::Decimal;
use color::parse::parse_color;
use color::Error;

fn d(digits: i64, places: u32) -> Decimal {
    Decimal::new(digits, places)
}

#[test]
fn convert_rgb_to_hsl() {
    let color = Color::from_rgb(d(23, 0), d(11, 0), d(33, 0), d(1, 0));

    assert_eq!((d(273, 0), d(50, 0), d(86, 1), d(1, 0)), color.hsl());
}

#[test]
fn convert_hsl_to_rgb() {
    let color = Color::from_hsl(d(122, 0), d(33, 0), d(12, 0), d(4, 1));

    assert_eq!((d(21, 0), d(41, 0), d(21, 0), d(4, 1)), color.rgb());
}

#[test]
fn round_trip_on_fixture() {
    let (h, s, l, a) = rgb_to_hsl(d(23, 0), d(11, 0), d(33, 0), d(1, 0));
    assert_eq!(hsl_to_rgb(h, s, l, a), (d(23, 0), d(11, 0), d(33, 0), d(1, 0)));
}

#[test]
fn round_trip_on_greys() {
    for v in 0..=255i64 {
        let (h, s, l, a) = rgb_to_hsl(d(v, 0), d(v, 0), d(v, 0), d(1, 0));
        assert_eq!(h, d(0, 0));
        assert_eq!(s, d(0, 0));
        assert_eq!(hsl_to_rgb(h, s, l, a), (d(v, 0), d(v, 0), d(v, 0), d(1, 0)));
    }
}

#[test]
fn round_trip_on_primaries_and_secondaries() {
    let corners = [
        (255, 0, 0),
        (0, 255, 0),
        (0, 0, 255),
        (255, 255, 0),
        (0, 255, 255),
        (255, 0, 255),
        (0, 0, 0),
        (255, 255, 255),
    ];
    for (r, g, b) in corners {
        let (h, s, l, a) = rgb_to_hsl(d(r, 0), d(g, 0), d(b, 0), d(1, 0));
        assert_eq!(hsl_to_rgb(h, s, l, a), (d(r, 0), d(g, 0), d(b, 0), d(1, 0)));
    }
}

#[test]
fn round_trip_stays_within_two_per_channel() {
    let mut r = 0i64;
    while r <= 255 {
        let mut g = 0i64;
        while g <= 255 {
            let mut b = 0i64;
            while b <= 255 {
                let (h, s, l, a) = rgb_to_hsl(d(r, 0), d(g, 0), d(b, 0), d(1, 0));
                let (r2, g2, b2, _) = hsl_to_rgb(h, s, l, a);
                assert!((r2.micros - r * 1_000_000).abs() <= 2_000_000);
                assert!((g2.micros - g * 1_000_000).abs() <= 2_000_000);
                assert!((b2.micros - b * 1_000_000).abs() <= 2_000_000);
                b += 5;
            }
            g += 5;
        }
        r += 5;
    }
}

#[test]
fn hsl_to_rgb_covers_each_sextant() {
    let cases = [
        (0, (255, 0, 0)),
        (60, (255, 255, 0)),
        (120, (0, 255, 0)),
        (180, (0, 255, 255)),
        (240, (0, 0, 255)),
        (300, (255, 0, 255)),
        (360, (255, 0, 0)),
        (30, (255, 128, 0)),
    ];
    for (h, (r, g, b)) in cases {
        let out = hsl_to_rgb(d(h, 0), d(100, 0), d(50, 0), d(1, 0));
        assert_eq!(out, (d(r, 0), d(g, 0), d(b, 0), d(1, 0)), "hue {}", h);
    }
}

#[test]
fn conversions_clamp_their_inputs() {
    assert_eq!(
        hsl_to_rgb(d(400, 0), d(-5, 0), d(150, 0), d(2, 0)),
        (d(255, 0), d(255, 0), d(255, 0), d(1, 0))
    );
    assert_eq!(
        rgb_to_hsl(d(300, 0), d(-1, 0), d(-1, 0), d(-1, 0)),
        (d(0, 0), d(100, 0), d(50, 0), d(0, 0))
    );
}

#[test]
fn rgb_to_hsl_rounds_to_one_decimal_place() {
    // luminosity 100 * 44 / 510 = 8.627..., saturation 22 / 44 = 50
    assert_eq!(
        rgb_to_hsl(d(23, 0), d(11, 0), d(33, 0), d(5, 1)),
        (d(273, 0), d(50, 0), d(86, 1), d(5, 1))
    );
    // red largest with green below blue: hue wraps to 330
    assert_eq!(rgb_to_hsl(d(255, 0), d(0, 0), d(128, 0), d(1, 0)).0, d(330, 0));
}

#[test]
fn color_equality_ignores_notation() {
    let a = Color::from_hsl(d(0, 0), d(100, 0), d(50, 0), d(1, 0));
    let b = Color::from_rgb(d(255, 0), d(0, 0), d(0, 0), d(1, 0));
    assert_eq!(a, b);
    assert_eq!(a.parsed_as(), ColorType::Hsl);
    assert_eq!(b.parsed_as(), ColorType::Rgb);
    assert_ne!(a, Color::from_rgb(d(255, 0), d(0, 0), d(0, 0), d(5, 1)));
}

#[test]
fn color_type_names_ignore_case() {
    assert_eq!(ColorType::parse("HSL"), Ok(ColorType::Hsl));
    assert_eq!(ColorType::parse("hsla"), Ok(ColorType::Hsl));
    assert_eq!(ColorType::parse("Rgba"), Ok(ColorType::Rgb));
    assert_eq!(ColorType::parse("rgb"), Ok(ColorType::Rgb));
    assert_eq!(ColorType::parse("HEX"), Ok(ColorType::Hex));
    assert_eq!(
        ColorType::parse("Cmyk"),
        Err(Error::InvalidColorType("Cmyk".to_string()))
    );
    assert_eq!("rGb".parse::<ColorType>(), Ok(ColorType::Rgb));
}

#[test]
fn color_type_from_lowercase_name() {
    assert_eq!(ColorType::from_lowercase("hex", "HEX"), Ok(ColorType::Hex));
    assert_eq!(
        ColorType::from_lowercase("hsb", "HSB"),
        Err(Error::InvalidColorType("HSB".to_string()))
    );
}

#[test]
fn color_from_str() {
    let color: Color = "rgb(255 0 128 / 0.5)".parse().unwrap();
    let color: Color = "rgb(255 0 128 / 50%)".parse().unwrap();
    assert_eq!(color.rgb().3, d(5, 1));
    assert_eq!(color.rgb(), (d(255, 0), d(0, 0), d(128, 0), d(5, 1)));
    assert_eq!("hsl(1,2,3)xyz".parse::<Color>().unwrap_err(), Error::InvalidColor);
    let white: Color = "hsl(2turn, -24.3, 101%)".parse().unwrap();
    assert_eq!(white.rgb(), (d(255, 0), d(255, 0), d(255, 0), d(1, 0)));
}

#[test]
fn rgb_string_shows_alpha_only_when_not_one() {
    let color = Color::from_rgb(d(816, 1), d(28611, 3), d(102, 1), d(1, 0));
    assert_eq!(color.rgb_string(), "rgb(81.6 28.611 10.2)");
    let color = Color::from_rgb(d(1, 0), d(2, 0), d(3, 0), d(5, 1));
    assert_eq!(color.rgb_string(), "rgb(1 2 3 / 0.5)");
}

#[test]
fn hsl_string_uses_converted_values() {
    let color = Color::from_rgb(d(23, 0), d(11, 0), d(33, 0), d(1, 0));
    assert_eq!(color.hsl_string(), "hsl(273 50 8.6)");
    let color = Color::from_rgb(d(23, 0), d(11, 0), d(33, 0), d(25, 2));
    assert_eq!(color.hsl_string(), "hsl(273 50 8.6 / 0.25)");
}

#[test]
fn hex_string_rounds_channels_and_alpha() {
    let color = Color::from_rgb(d(255, 0), d(0, 0), d(1275, 1), d(1, 0));
    assert_eq!(color.hex_string(), "#FF0080");
    let color = Color::from_rgb(d(255, 0), d(0, 0), d(128, 0), d(5, 1));
    assert_eq!(color.hex_string(), "#FF008080");
    let color = Color::from_rgb(d(0, 0), d(171, 0), d(205, 0), d(0, 0));
    assert_eq!(color.hex_string(), "#00ABCD00");
}

#[test]
fn to_string_follows_the_notation() {
    let (_, color) = parse_color("rgb(1, 2, 3)").unwrap();
    assert_eq!(color.to_string(), "rgb(1 2 3)");
    let (_, color) = parse_color("hsl(122, 33%, 12%)").unwrap();
    assert_eq!(color.to_string(), color.hsl_string());
    assert_eq!(color.rgb(), (d(21, 0), d(41, 0), d(21, 0), d(1, 0)));
}
