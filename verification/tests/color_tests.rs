use openrazer::Color;

#[test]
fn test() {
    let cases: [(u8, u8, u8); 2] = [(255, 127, 0), (69, 42, 127)];
    for (r, g, b) in cases {
        let color = Color::from_quantized(r, g, b);
        assert_eq!(Color::from_hex(&color.to_hex()).unwrap(), color);
    }
}

#[test]
fn hex_encoding_is_exact() {
    assert_eq!(Color::from_quantized(255, 127, 0).to_hex(), "#FF7F00");
    assert_eq!(Color::from_quantized(0, 0, 0).to_hex(), "#000000");
    assert_eq!(Color::from_quantized(1, 16, 255).to_hex(), "#0110FF");
}

#[test]
fn hex_parsing_accepts_all_documented_forms() {
    assert_eq!(Color::from_hex("#FF7F00"), Some(Color::from_quantized(255, 127, 0)));
    assert_eq!(Color::from_hex("FF7F00"), Some(Color::from_quantized(255, 127, 0)));
    assert_eq!(Color::from_hex("#ff7f00"), Some(Color::from_quantized(255, 127, 0)));
    // Three digits scale by seventeen.
    assert_eq!(Color::from_hex("#F00"), Some(Color::from_quantized(255, 0, 0)));
    assert_eq!(Color::from_hex("#123"), Some(Color::from_quantized(17, 34, 51)));
    // A trailing alpha field is ignored.
    assert_eq!(Color::from_hex("#F00A"), Some(Color::from_quantized(255, 0, 0)));
    assert_eq!(Color::from_hex("#FF7F00CC"), Some(Color::from_quantized(255, 127, 0)));
}

#[test]
fn hex_parsing_rejects_other_shapes() {
    assert_eq!(Color::from_hex(""), None);
    assert_eq!(Color::from_hex("#"), None);
    assert_eq!(Color::from_hex("#12"), None);
    assert_eq!(Color::from_hex("#12345"), None);
    assert_eq!(Color::from_hex("#1234567"), None);
    assert_eq!(Color::from_hex("#GG0000"), None);
    assert_eq!(Color::from_hex("#12X"), None);
}

#[test]
fn hsl_corners_match_primary_colors() {
    assert_eq!(Color::from_hsl(0, 1000, 500), Color::from_quantized(255, 0, 0));
    assert_eq!(Color::from_hsl(60_000, 1000, 500), Color::from_quantized(255, 255, 0));
    assert_eq!(Color::from_hsl(120_000, 1000, 500), Color::from_quantized(0, 255, 0));
    assert_eq!(Color::from_hsl(180_000, 1000, 500), Color::from_quantized(0, 255, 255));
    assert_eq!(Color::from_hsl(240_000, 1000, 500), Color::from_quantized(0, 0, 255));
    assert_eq!(Color::from_hsl(300_000, 1000, 500), Color::from_quantized(255, 0, 255));
}

#[test]
fn hsl_wraps_and_clamps() {
    // A full turn more is the same hue.
    assert_eq!(Color::from_hsl(360_000, 1000, 500), Color::from_hsl(0, 1000, 500));
    // Saturation and lightness clamp at one.
    assert_eq!(Color::from_hsl(0, 5000, 500), Color::from_hsl(0, 1000, 500));
    // Full lightness is white, zero lightness black, regardless of hue.
    assert_eq!(Color::from_hsl(123_456, 1000, 1000), Color::from_quantized(255, 255, 255));
    assert_eq!(Color::from_hsl(123_456, 1000, 0), Color::from_quantized(0, 0, 0));
}

#[test]
fn quantized_round_trip_and_black() {
    let c = Color::new(12, 200, 7);
    assert_eq!(c.to_quantized(), [12, 200, 7]);
    assert!(!c.is_black());
    assert!(Color::from_quantized(0, 0, 0).is_black());
    assert!(!Color::from_quantized(0, 1, 0).is_black());
}
