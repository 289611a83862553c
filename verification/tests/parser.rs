use std::str::FromStr;

use color_art::Color;
use color_art::parse::{parse, parser_rgb_str, ParseError};

#[test]
fn test_parser_rgb() {
    let s = "rgb(255, 255, 255)";
    let (r, g, b) = parser_rgb_str(s).unwrap();
    assert_eq!((r, g, b), (255_000_000, 255_000_000, 255_000_000));

    let s = "rgb(0, 0, 0)";
    let (r, g, b) = parser_rgb_str(s).unwrap();
    assert_eq!((r, g, b), (0, 0, 0));

    let s = "rgb255, 0, 0)";
    let s = parser_rgb_str(s);
    assert!(s.is_err());

    let s = "rgb(2555, 0, 0)";
    let s = parser_rgb_str(s);
    assert!(s.is_err());
}

#[test]
fn test_parse_range_validation() {
    assert_eq!(parse("rgb(256,0,0)"), Err(ParseError::OutOfRange(0)));
    assert_eq!(parse("rgb(-1,0,0)"), Err(ParseError::OutOfRange(0)));
    assert!(parse("rgb(255,255,255)").is_ok());
    assert_eq!(parse("rgb(0,256,0)"), Err(ParseError::OutOfRange(1)));
    assert_eq!(parse("rgba(0,0,0,1.5)"), Err(ParseError::OutOfRange(3)));
    assert_eq!(parse("hsl(360,0%,0%)"), Err(ParseError::OutOfRange(0)));
}

#[test]
fn test_parse_error_kinds() {
    assert_eq!(parse("rgb255, 0, 0)"), Err(ParseError::Syntax));
    assert_eq!(parse("rgb(1,2)"), Err(ParseError::Syntax));
    assert_eq!(parse("rgb(a,0,0)"), Err(ParseError::BadNumber(0)));
    assert_eq!(parse("rgb(1.2.3,0,0)"), Err(ParseError::BadNumber(0)));
    assert_eq!(parse("notacolor"), Err(ParseError::Syntax));
    assert_eq!(parse("#12345"), Err(ParseError::Syntax));
    assert_eq!(parse("#12345g"), Err(ParseError::Syntax));
}

#[test]
fn test_parse_hex_forms() {
    let c = parse("#ff0000").unwrap();
    assert_eq!(c.rgb(), "rgb(255, 0, 0)");

    let c = parse("#F00").unwrap();
    assert_eq!(c.rgb(), "rgb(255, 0, 0)");

    let c = parse("f00").unwrap();
    assert_eq!(c.rgb(), "rgb(255, 0, 0)");

    // #0003: four digits, the last is alpha 0x33 / 255 = 0.2
    let c = parse("#0003").unwrap();
    assert_eq!(c.rgba(), "rgba(0, 0, 0, 0.2)");

    let c = parse("#ffffff80").unwrap();
    assert_eq!(c.rgba(), "rgba(255, 255, 255, 0.501961)");
}

#[test]
fn test_parse_functional_and_named() {
    let c = parse(" RGB( 12, 34, 56 ) ").unwrap();
    assert_eq!(c.rgb(), "rgb(12, 34, 56)");

    let c = parse("rgba(12, 34, 56, 0.25)").unwrap();
    assert_eq!(c.rgba(), "rgba(12, 34, 56, 0.25)");

    let c = parse("hsl(180, 100%, 25%)").unwrap();
    assert_eq!(c.rgb(), "rgb(0, 128, 128)");

    let c = parse("hsla(180, 1, 0.25, 0.5)").unwrap();
    assert_eq!(c.rgba(), "rgba(0, 128, 128, 0.5)");

    let c = parse("Teal").unwrap();
    assert_eq!(c.rgb(), "rgb(0, 128, 128)");

    let c = Color::from_str("red").unwrap();
    assert_eq!(c.hex(), "#ff0000");
}

#[test]
fn test_round_trip_per_space() {
    // parse(stringify(c)) stays within each space's rounding tolerance
    let c = Color::new(161, 110, 87, 1_000_000);

    let back = parse(&c.rgb()).unwrap();
    assert_eq!(back.rgb(), c.rgb());

    let back = parse(&c.rgba()).unwrap();
    assert_eq!(back.rgba(), c.rgba());

    let back = parse(&c.hex()).unwrap();
    assert_eq!(back.hex(), c.hex());

    // hsl rounds to whole percents: reparse must land within a channel or so
    let back = parse(&c.hsl()).unwrap();
    let (r2, g2, b2) = parser_rgb_str(&back.rgb()).unwrap();
    assert!((r2 as i64 - 161_000_000).abs() <= 2_000_000);
    assert!((g2 as i64 - 110_000_000).abs() <= 2_000_000);
    assert!((b2 as i64 - 87_000_000).abs() <= 2_000_000);
}

#[test]
fn test_idempotence_per_space() {
    // stringify . parse . stringify is a fixed point
    let c = Color::new(161, 110, 87, 700_000);

    let s1 = c.rgb();
    assert_eq!(parse(&s1).unwrap().rgb(), s1);

    let s1 = c.rgba();
    assert_eq!(parse(&s1).unwrap().rgba(), s1);

    let s1 = c.hex();
    assert_eq!(parse(&s1).unwrap().hex(), s1);

    let s1 = c.hsl();
    assert_eq!(parse(&s1).unwrap().hsl(), s1);

    let s1 = c.hsla();
    assert_eq!(parse(&s1).unwrap().hsla(), s1);
}

#[test]
fn test_parse_hsv_hwb_cmyk() {
    let c = parse("hsv(180, 100%, 50%)").unwrap();
    assert_eq!(c.rgb(), "rgb(0, 128, 128)");

    let c = parse("hwb(180, 0%, 50%)").unwrap();
    assert_eq!(c.rgb(), "rgb(0, 128, 128)");

    let c = parse("cmyk(100%, 0%, 0%, 50%)").unwrap();
    assert_eq!(c.rgb(), "rgb(0, 128, 128)");

    assert_eq!(parse("hsv(360, 0%, 0%)"), Err(ParseError::OutOfRange(0)));
    assert_eq!(parse("cmyk(0%, 0%, 0%)"), Err(ParseError::Syntax));
    assert_eq!(parse("hwb(10, 120%, 0%)"), Err(ParseError::OutOfRange(1)));
}

#[test]
fn test_idempotence_hue_family() {
    let c = Color::new(161, 110, 87, 1_000_000);

    let s1 = c.hsv();
    assert_eq!(parse(&s1).unwrap().hsv(), s1);

    let s1 = c.hwb();
    assert_eq!(parse(&s1).unwrap().hwb(), s1);

    let s1 = c.cmyk();
    assert_eq!(parse(&s1).unwrap().cmyk(), s1);
}

#[test]
fn test_parse_hsi() {
    let c = parse("hsi(180, 100%, 33.46%)").unwrap();
    assert_eq!(c.rgb(), "rgb(0, 128, 128)");

    let c = Color::new(161, 110, 87, 1_000_000);
    let s1 = c.hsi();
    assert_eq!(parse(&s1).unwrap().hsi(), s1);

    assert_eq!(parse("hsi(0, 0%, 0%)").unwrap().rgb(), "rgb(0, 0, 0)");
    assert_eq!(parse("hsi(400, 0%, 0%)"), Err(ParseError::OutOfRange(0)));
}

#[test]
fn test_error_messages() {
    assert_eq!(
        parse("rgb(256,0,0)").unwrap_err().message(),
        "field 0 is outside its legal range"
    );
    assert_eq!(parse("rgb(a,0,0)").unwrap_err().message(), "field 0 is not a number");
    assert_eq!(parse("oops").unwrap_err().message(), "malformed color syntax");
}
