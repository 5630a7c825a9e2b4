use openrazer::{Device, DeviceMatrixEffectManager, QueryError, UnparsedQueryDeviceProperty};

#[test]
fn device_wraps_its_directory() {
    let d = Device::new("/sys/bus/hid/drivers/demo/0003".to_string(), "keyboard".to_string());
    assert_eq!(d.device_type(), "keyboard");
    assert_eq!(d.matrix_manager().path, "/sys/bus/hid/drivers/demo/0003");
    assert_eq!(
        d.matrix_manager().subpath("device_type"),
        "/sys/bus/hid/drivers/demo/0003/device_type"
    );
}

#[test]
fn property_line_splits_letter_and_content() {
    let p = UnparsedQueryDeviceProperty::parse("U: Uniq=abc").unwrap();
    assert_eq!(p.ident, 'U');
    assert_eq!(p.content, "Uniq=abc");
    // The space after the colon is optional, and only one is eaten.
    let q = UnparsedQueryDeviceProperty::parse("B:  0").unwrap();
    assert_eq!(q.content, " 0");
    let r = UnparsedQueryDeviceProperty::parse("B:0").unwrap();
    assert_eq!(r.content, "0");
    assert!(matches!(
        UnparsedQueryDeviceProperty::parse("1: digit letter"),
        Err(QueryError::Malformed(_))
    ));
    assert!(matches!(UnparsedQueryDeviceProperty::parse("B"), Err(QueryError::Malformed(_))));
}

#[test]
fn brightness_parse_matches_standard_integer_grammar() {
    // The standard unsigned parser accepts one leading plus sign.
    assert_eq!(DeviceMatrixEffectManager::parse_brightness("+5").unwrap(), 5);
    assert!(DeviceMatrixEffectManager::parse_brightness("+").is_err());
    assert!(DeviceMatrixEffectManager::parse_brightness("++5").is_err());
    assert_eq!(DeviceMatrixEffectManager::parse_brightness("007").unwrap(), 7);
}
