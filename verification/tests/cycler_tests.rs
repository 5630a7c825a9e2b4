use openrazer::{
    Color, DeviceMatrixCustom, DeviceMatrixEffectManager, Effect, EffectCycler, EffectRandom,
    MatrixInput, OpenRazerError,
};

/// A renderer that paints the whole grid one color, or fails on
/// demand.
struct PaintEffect {
    name: String,
    color: Color,
    fail: bool,
}

impl Effect for PaintEffect {
    fn identifier(&self) -> String {
        self.name.clone()
    }

    fn update<'a>(
        &mut self,
        matrix: &mut DeviceMatrixCustom<'a>,
        _inputs: &[MatrixInput],
    ) -> Result<(), OpenRazerError> {
        if self.fail {
            return Err(OpenRazerError::IoError("paint failed".to_string()));
        }
        for y in 0..matrix.height {
            for x in 0..matrix.width {
                matrix.set(x, y, self.color);
            }
        }
        Ok(())
    }
}

fn paint(name: &str, q: u8) -> PaintEffect {
    PaintEffect { name: name.to_string(), color: Color::from_quantized(q, q, q), fail: false }
}

fn cycler(m: &mut DeviceMatrixEffectManager) -> EffectCycler<'_, PaintEffect> {
    EffectCycler::new(m.effect_custom())
}

#[test]
fn cycle_never_repeats_with_a_choice() {
    let mut m = DeviceMatrixEffectManager::new("/sys/devices/demo".to_string());
    let mut c = cycler(&mut m);
    c.add_effect(paint("a", 1));
    c.add_effect(paint("b", 2));
    c.add_effect(paint("c", 3));
    let mut previous: Option<String> = None;
    for _ in 0..1000 {
        c.next_effect();
        let current = c.current_effect_identifier().map(|s| s.to_string());
        assert!(current.is_some());
        if previous.is_some() {
            assert_ne!(current, previous);
        }
        previous = current;
    }
}

#[test]
fn cycle_with_one_renderer_never_changes() {
    let mut m = DeviceMatrixEffectManager::new("/sys/devices/demo".to_string());
    let mut c = cycler(&mut m);
    c.add_effect(paint("only", 1));
    for _ in 0..100 {
        c.next_effect();
        assert_eq!(c.current_effect_identifier(), Some("only"));
    }
}

#[test]
fn selecting_a_missing_identifier_changes_nothing() {
    let mut m = DeviceMatrixEffectManager::new("/sys/devices/demo".to_string());
    let mut c = cycler(&mut m);
    c.add_effect(paint("a", 1));
    c.add_effect(paint("b", 2));
    // From no selection.
    assert!(!c.set_effect("missing"));
    assert_eq!(c.current_effect_identifier(), None);
    // From an existing selection.
    assert!(c.set_effect("b"));
    assert_eq!(c.current_effect_identifier(), Some("b"));
    assert!(!c.set_effect("missing"));
    assert_eq!(c.current_effect_identifier(), Some("b"));
}

#[test]
fn tick_without_selection_fails_and_paints_nothing() {
    let mut m = DeviceMatrixEffectManager::new("/sys/devices/demo".to_string());
    let mut c = cycler(&mut m);
    c.add_effect(paint("a", 9));
    let r = c.update(&[]);
    assert!(matches!(r, Err(OpenRazerError::NoActiveEffect)));
    // No renderer ran: the grid is still all black.
    assert_eq!(c.matrix().get(0, 0), Some(Color::from_quantized(0, 0, 0)));
}

#[test]
fn tick_dispatches_to_the_selected_renderer() {
    let mut m = DeviceMatrixEffectManager::new("/sys/devices/demo".to_string());
    let mut c = cycler(&mut m);
    c.add_effect(paint("a", 9));
    c.add_effect(paint("b", 4));
    assert!(c.set_effect("b"));
    c.update(&[]).unwrap();
    assert_eq!(c.matrix().get(5, 3), Some(Color::from_quantized(4, 4, 4)));
}

#[test]
fn tick_propagates_a_renderer_failure() {
    let mut m = DeviceMatrixEffectManager::new("/sys/devices/demo".to_string());
    let mut c = cycler(&mut m);
    c.add_effect(PaintEffect {
        name: "bad".to_string(),
        color: Color::from_quantized(0, 0, 0),
        fail: true,
    });
    assert!(c.set_effect("bad"));
    assert!(matches!(c.update(&[]), Err(OpenRazerError::IoError(_))));
}

#[test]
fn duplicate_registration_is_dropped() {
    let mut m = DeviceMatrixEffectManager::new("/sys/devices/demo".to_string());
    let mut c = cycler(&mut m);
    c.add_effect(paint("a", 1));
    c.add_effect(paint("a", 2));
    assert!(c.set_effect("a"));
    c.update(&[]).unwrap();
    // The first registration won: the grid shows its color.
    assert_eq!(c.matrix().get(0, 0), Some(Color::from_quantized(1, 1, 1)));
    // And cycling sees a single renderer, so the selection stays.
    for _ in 0..50 {
        c.next_effect();
        assert_eq!(c.current_effect_identifier(), Some("a"));
    }
}

#[test]
fn registration_under_an_explicit_identifier() {
    let mut m = DeviceMatrixEffectManager::new("/sys/devices/demo".to_string());
    let mut c = cycler(&mut m);
    c.add_effect_with_identifier("first".to_string(), paint("ignored", 1));
    c.add_effect_with_identifier("first".to_string(), paint("ignored", 2));
    c.add_effect_with_identifier("second".to_string(), paint("ignored", 3));
    assert!(c.set_effect("first"));
    c.update(&[]).unwrap();
    assert_eq!(c.matrix().get(0, 0), Some(Color::from_quantized(1, 1, 1)));
    assert!(c.set_effect("second"));
    assert!(!c.set_effect("third"));
    assert_eq!(c.current_effect_identifier(), Some("second"));
}

#[test]
fn clearing_the_selection_stops_dispatch() {
    let mut m = DeviceMatrixEffectManager::new("/sys/devices/demo".to_string());
    let mut c = cycler(&mut m);
    c.add_effect(paint("a", 1));
    assert!(c.set_effect("a"));
    c.set_no_effect();
    assert_eq!(c.current_effect_identifier(), None);
    assert!(matches!(c.update(&[]), Err(OpenRazerError::NoActiveEffect)));
}

#[test]
fn reference_renderer_paints_every_cell() {
    let mut m = DeviceMatrixEffectManager::new("/sys/devices/demo".to_string());
    let mut c: EffectCycler<'_, EffectRandom> = EffectCycler::new(m.effect_custom());
    c.add_effect(EffectRandom::new());
    assert!(c.set_effect("effect_random"));
    c.update(&[]).unwrap();
    // A random hue at full saturation and half lightness is never
    // black, so the first tick painted every cell.
    for y in 0..6 {
        for x in 0..22 {
            assert!(!c.matrix().get(x, y).unwrap().is_black());
        }
    }
}

#[test]
fn matrix_input_accessors() {
    let p = MatrixInput::Pressed { x: 3, y: 4 };
    assert_eq!(p.x(), 3);
    assert_eq!(p.y(), 4);
    assert_eq!(p.pos(), (3, 4));
    assert_eq!(MatrixInput::Released { x: 1, y: 2 }.pos(), (1, 2));
    assert_eq!(MatrixInput::Repeat { x: 5, y: 0 }.pos(), (5, 0));
    assert_eq!(MatrixInput::from_event_value(3, 4, 0), Some(MatrixInput::Released { x: 3, y: 4 }));
    assert_eq!(MatrixInput::from_event_value(3, 4, 1), Some(MatrixInput::Pressed { x: 3, y: 4 }));
    assert_eq!(MatrixInput::from_event_value(3, 4, 2), Some(MatrixInput::Repeat { x: 3, y: 4 }));
    assert_eq!(MatrixInput::from_event_value(3, 4, 7), None);
}
