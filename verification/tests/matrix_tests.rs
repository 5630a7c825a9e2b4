use openrazer::{
    Color, DeviceMatrixCustom, DeviceMatrixEffectManager, EffectWaveDirection, MATRIX_HEIGHT,
    MATRIX_WIDTH,
};

fn manager() -> DeviceMatrixEffectManager {
    DeviceMatrixEffectManager::new("/sys/devices/demo".to_string())
}

#[test]
fn subpath_joins_with_a_slash() {
    let m = manager();
    assert_eq!(m.subpath("matrix_brightness"), "/sys/devices/demo/matrix_brightness");
}

#[test]
fn brightness_write_is_decimal_ascii() {
    let m = manager();
    let w = m.set_brightness(128);
    assert_eq!(w.path, "/sys/devices/demo/matrix_brightness");
    assert_eq!(w.data, b"128".to_vec());
    assert_eq!(m.set_brightness(0).data, b"0".to_vec());
    assert_eq!(m.set_brightness(7).data, b"7".to_vec());
    assert_eq!(m.set_brightness(42).data, b"42".to_vec());
    assert_eq!(m.set_brightness(255).data, b"255".to_vec());
}

#[test]
fn brightness_parse_accepts_a_decimal_byte() {
    assert_eq!(DeviceMatrixEffectManager::parse_brightness("128").unwrap(), 128);
    assert_eq!(DeviceMatrixEffectManager::parse_brightness(" 0\n").unwrap(), 0);
    assert_eq!(DeviceMatrixEffectManager::parse_brightness("\t255\r\n").unwrap(), 255);
    assert!(DeviceMatrixEffectManager::parse_brightness("256").is_err());
    assert!(DeviceMatrixEffectManager::parse_brightness("abc").is_err());
    assert!(DeviceMatrixEffectManager::parse_brightness("").is_err());
    assert!(DeviceMatrixEffectManager::parse_brightness("12 3").is_err());
    assert!(DeviceMatrixEffectManager::parse_brightness("-1").is_err());
}

#[test]
fn mode_writes_use_the_documented_bytes() {
    let m = manager();
    let none = m.effect_none();
    assert_eq!(none.path, "/sys/devices/demo/matrix_effect_none");
    assert_eq!(none.data, vec![0]);
    let spectrum = m.effect_spectrum();
    assert_eq!(spectrum.path, "/sys/devices/demo/matrix_effect_spectrum");
    assert_eq!(spectrum.data, vec![0]);
    let left = m.effect_wave(EffectWaveDirection::Left);
    assert_eq!(left.path, "/sys/devices/demo/matrix_effect_spectrum");
    assert_eq!(left.data, vec![2]);
    let right = m.effect_wave(EffectWaveDirection::Right);
    assert_eq!(right.data, vec![1]);
    let stat = m.effect_static(Color::from_quantized(1, 2, 3));
    assert_eq!(stat.path, "/sys/devices/demo/matrix_effect_static");
    assert_eq!(stat.data, vec![1, 2, 3]);
}

#[test]
fn custom_frame_starts_black_with_hardware_dimensions() {
    let mut m = manager();
    let grid = m.effect_custom();
    assert_eq!(grid.width, MATRIX_WIDTH);
    assert_eq!(grid.height, MATRIX_HEIGHT);
    for y in 0..MATRIX_HEIGHT {
        for x in 0..MATRIX_WIDTH {
            assert_eq!(grid.get(x, y), Some(Color::from_quantized(0, 0, 0)));
        }
    }
}

#[test]
fn out_of_bounds_coordinates_are_absent() {
    let mut m = manager();
    let mut grid = m.effect_custom();
    assert_eq!(grid.get(MATRIX_WIDTH, 0), None);
    assert_eq!(grid.get(0, MATRIX_HEIGHT), None);
    assert_eq!(grid.get(usize::MAX, usize::MAX), None);
    assert!(!grid.set(MATRIX_WIDTH, 0, Color::from_quantized(1, 1, 1)));
    assert!(!grid.set(0, MATRIX_HEIGHT, Color::from_quantized(1, 1, 1)));
    // The failed writes changed nothing.
    for y in 0..MATRIX_HEIGHT {
        for x in 0..MATRIX_WIDTH {
            assert_eq!(grid.get(x, y), Some(Color::from_quantized(0, 0, 0)));
        }
    }
}

#[test]
fn enumeration_visits_every_cell_exactly_once() {
    let mut m = manager();
    let grid = m.effect_custom();
    let cells = grid.cells_with_coords();
    assert_eq!(cells.len(), MATRIX_WIDTH * MATRIX_HEIGHT);
    let mut seen = vec![false; MATRIX_WIDTH * MATRIX_HEIGHT];
    for (x, y, _) in cells {
        assert!(x < MATRIX_WIDTH && y < MATRIX_HEIGHT);
        assert!(!seen[x + y * MATRIX_WIDTH]);
        seen[x + y * MATRIX_WIDTH] = true;
    }
    assert!(seen.iter().all(|s| *s));
}

#[test]
fn set_then_get_round_trips() {
    let mut m = manager();
    let mut grid = m.effect_custom();
    let c = Color::from_quantized(9, 8, 7);
    assert!(grid.set(3, 2, c));
    assert_eq!(grid.get(3, 2), Some(c));
    assert_eq!(grid.get(2, 3), Some(Color::from_quantized(0, 0, 0)));
}

#[test]
fn frame_encoding_sends_full_rows_from_column_zero() {
    let m = manager();
    let mut grid = DeviceMatrixCustom::new(&m, 3, 2);
    assert!(grid.set(0, 0, Color::from_quantized(1, 2, 3)));
    assert!(grid.set(2, 0, Color::from_quantized(4, 5, 6)));
    assert!(grid.set(1, 1, Color::from_quantized(7, 8, 9)));
    let writes = grid.send_update();
    assert_eq!(writes.len(), 2);
    assert_eq!(writes[0].path, "/sys/devices/demo/matrix_custom_frame");
    assert_eq!(
        writes[0].data,
        vec![
            0, 0, 2, 1, 2, 3, 0, 0, 0, 4, 5, 6, // row 0
            1, 0, 2, 0, 0, 0, 7, 8, 9, 0, 0, 0, // row 1
        ]
    );
    assert_eq!(writes[1].path, "/sys/devices/demo/matrix_effect_custom");
    assert_eq!(writes[1].data, vec![1]);
}

#[test]
fn full_size_frame_has_one_packet_per_row() {
    let mut m = manager();
    let grid = m.effect_custom();
    let writes = grid.send_update();
    let data = &writes[0].data;
    let packet = 3 + 3 * MATRIX_WIDTH;
    assert_eq!(data.len(), MATRIX_HEIGHT * packet);
    for y in 0..MATRIX_HEIGHT {
        assert_eq!(data[y * packet], y as u8);
        assert_eq!(data[y * packet + 1], 0);
        assert_eq!(data[y * packet + 2], (MATRIX_WIDTH - 1) as u8);
    }
}
