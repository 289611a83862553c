use color_art::Color;

#[test]
fn test_stringify_color() {
    let color = Color::new(255, 255, 255, 1_000_000);
    assert_eq!(color.hex(), "#fff");
    assert_eq!(color.rgb(), "rgb(255, 255, 255)");
    assert_eq!(color.rgba(), "rgba(255, 255, 255, 1)");
    assert_eq!(color.hsl(), "hsl(0, 0%, 100%)");
    assert_eq!(color.hsla(), "hsla(0, 0%, 100%, 1)");
    assert_eq!(color.hsv(), "hsv(0, 0%, 100%)");
    assert_eq!(color.hsi(), "hsi(0, 0%, 100%)");
    assert_eq!(color.hwb(), "hwb(0, 100%, 0%)");
    assert_eq!(color.xyz(), "xyz(1, 1, 1)");
    assert_eq!(color.ycbcr(), "YCbCr(255, 128, 128)");
    assert_eq!(color.lab(), "lab(100, 0, 0)");
    assert_eq!(color.name(), "white");

    let color = Color::new(0, 0, 0, 200_000);
    assert_eq!(color.hex(), "#0003");
    assert_eq!(color.rgb(), "rgb(0, 0, 0)");
    assert_eq!(color.rgba(), "rgba(0, 0, 0, 0.2)");
    assert_eq!(color.hsl(), "hsl(0, 0%, 0%)");
    assert_eq!(color.hsla(), "hsla(0, 0%, 0%, 0.2)");
    assert_eq!(color.hsv(), "hsv(0, 0%, 0%)");
    assert_eq!(color.hsi(), "hsi(0, 0%, 0%)");
    assert_eq!(color.hwb(), "hwb(0, 0%, 100%)");
    assert_eq!(color.xyz(), "xyz(0.137931, 0.137931, 0.137931)");
    assert_eq!(color.ycbcr(), "YCbCr(0, 128, 128)");
    assert_eq!(color.lab(), "lab(0, 0, 0)");
    assert_eq!(color.name(), "#0003");

    let color = Color::new(0, 128, 128, 1_000_000);
    assert_eq!(color.hex(), "#008080");
    assert_eq!(color.rgb(), "rgb(0, 128, 128)");
    assert_eq!(color.rgba(), "rgba(0, 128, 128, 1)");
    assert_eq!(color.hsl(), "hsl(180, 100%, 25%)");
    assert_eq!(color.hsla(), "hsla(180, 100%, 25%, 1)");
    assert_eq!(color.hsv(), "hsv(180, 100%, 50%)");
    assert_eq!(color.hsi(), "hsi(180, 100%, 33.46%)");
    assert_eq!(color.hwb(), "hwb(180, 0%, 50%)");
    assert_eq!(color.xyz(), "xyz(0.496222, 0.553915, 0.596299)");
    assert_eq!(color.ycbcr(), "YCbCr(89.728, 149.5854, 64.0239)");
    assert_eq!(color.lab(), "lab(48.25, -28.85, -8.48)");
    assert_eq!(color.name(), "teal");

    let color = Color::new(161, 110, 87, 1_000_000);
    assert_eq!(color.hex(), "#a16e57");
    assert_eq!(color.rgb(), "rgb(161, 110, 87)");
    assert_eq!(color.rgba(), "rgba(161, 110, 87, 1)");
    assert_eq!(color.hsl(), "hsl(19, 30%, 49%)");
    assert_eq!(color.hsla(), "hsla(19, 30%, 49%, 1)");
    assert_eq!(color.hsv(), "hsv(19, 46%, 63%)");
    assert_eq!(color.hsi(), "hsi(18, 27.09%, 46.8%)");
    assert_eq!(color.hwb(), "hwb(19, 34%, 37%)");
    assert_eq!(color.xyz(), "xyz(0.613946, 0.579082, 0.474123)");
    assert_eq!(color.ycbcr(), "YCbCr(122.627, 107.9064, 155.3599)");
    assert_eq!(color.lab(), "lab(51.17, 17.43, 20.99)");
    assert_eq!(color.name(), "#a16e57");
}

#[test]
fn test_stringify_cmyk_yuv() {
    let color = Color::new(255, 255, 255, 1_000_000);
    assert_eq!(color.cmyk(), "cmyk(0%, 0%, 0%, 0%)");
    assert_eq!(color.yuv(), "yuv(1, 0, 0)");

    let color = Color::new(255, 0, 0, 1_000_000);
    assert_eq!(color.cmyk(), "cmyk(0%, 100%, 100%, 0%)");
    assert_eq!(color.yuv(), "yuv(0.299, -0.1471, 0.6148)");

    let color = Color::new(0, 128, 128, 1_000_000);
    assert_eq!(color.cmyk(), "cmyk(100%, 0%, 0%, 50%)");
}

#[test]
fn test_xyz_lab_fixed_points() {
    let red = Color::new(255, 0, 0, 1_000_000);
    assert_eq!(red.xyz(), "xyz(0.757088, 0.596903, 0.260887)");

    let white = Color::new(255, 255, 255, 1_000_000);
    assert_eq!(white.lab(), "lab(100, 0, 0)");
    assert_eq!(white.ycbcr(), "YCbCr(255, 128, 128)");

    let yellow = Color::new(255, 255, 0, 1_000_000);
    assert_eq!(yellow.lab(), "lab(97.14, -21.55, 94.48)");
}

#[test]
fn test_hex_simplification() {
    let color = Color::new(255, 255, 255, 1_000_000);
    assert_eq!(color.hex(), "#fff");

    let color = Color::new(0, 0, 0, 200_000);
    assert_eq!(color.hex(), "#0003");

    // one unequal pair blocks the short form
    let color = Color::new(255, 255, 254, 1_000_000);
    assert_eq!(color.hex(), "#fffffe");

    // half alpha is 0x80: digits differ, the long form stays
    let color = Color::new(255, 255, 255, 500_000);
    assert_eq!(color.hex(), "#ffffff80");
}

#[test]
fn test_naming() {
    let color = Color::new(255, 255, 255, 1_000_000);
    assert_eq!(color.name(), "white");

    // an opaque color with no table entry names as its own hex string
    let color = Color::new(42, 42, 42, 1_000_000);
    assert_eq!(color.name(), "#2a2a2a");

    // any translucency forces the hex string, never a table name
    let color = Color::new(255, 255, 255, 500_000);
    assert_eq!(color.name(), "#ffffff80");
}

#[test]
fn test_constructor_clamping() {
    // channel and alpha inputs beyond their bounds clamp to them
    let c = Color::new(300, 0, 0, 2_000_000);
    assert_eq!(c.rgb(), "rgb(255, 0, 0)");
    assert_eq!(c.rgba(), "rgba(255, 0, 0, 1)");

    // fractional channels enter through the scaled constructor and round
    // only at rendering time
    let c = Color::from_scaled(127_500_000, 0, 0, 750_000);
    assert_eq!(c.rgba(), "rgba(128, 0, 0, 0.75)");
}
