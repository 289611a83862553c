use std::str::FromStr;

use color_art::Color;

#[test]
fn test_average_colors() {
    let colors = vec![
        Color::from_str("red").unwrap(),
        Color::from_str("rgba(0, 0, 0, 0.5)").unwrap(),
    ];

    let averaged_color = Color::average(&colors);
    assert_eq!(averaged_color.rgba(), "rgba(128, 0, 0, 0.75)");

    let colors = vec![
        Color::from_str("#ff6600").unwrap(),
        Color::from_str("#0000ff").unwrap(),
    ];
    let averaged_color = Color::average(&colors);
    assert_eq!(averaged_color.hex(), "#803380");

    let colors = vec![
        Color::from_str("#ffff00").unwrap(),
        Color::from_str("#ff0000").unwrap(),
        Color::from_str("#0000ff").unwrap(),
    ];
    let averaged_color = Color::average(&colors);
    assert_eq!(averaged_color.hex(), "#aa5555");
}

#[test]
fn test_average_empty_list() {
    let averaged_color = Color::average(&vec![]);
    assert_eq!(averaged_color.rgba(), "rgba(0, 0, 0, 1)");
}

#[test]
fn test_average_fractional_channels() {
    // 127.5 per channel stays fractional until each renderer rounds it
    let colors = vec![
        Color::from_str("#ff0000").unwrap(),
        Color::from_str("#0000ff").unwrap(),
    ];
    let averaged = Color::average(&colors);
    assert_eq!(averaged.rgb(), "rgb(128, 0, 128)");
    assert_eq!(averaged.hsl(), "hsl(300, 100%, 25%)");
}
