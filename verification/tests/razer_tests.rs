use openrazer::{parse_query_devices, query_razer_devices};

fn registry(records: &[(&str, &str, &str)]) -> String {
    // (vendor, name, sys path)
    records
        .iter()
        .map(|(vendor, name, sys)| {
            format!(
                "I: Bus=0003 Vendor={} Product=021e Version=0111\nN: Name=\"{}\"\nS: Sysfs={}",
                vendor, name, sys
            )
        })
        .collect::<Vec<_>>()
        .join("\n\n")
}

#[test]
fn records_sharing_an_ancestor_segment_group_together() {
    let text = registry(&[
        ("1532", "kbd", "/devices/usb1/1-2/A.0001/input/input1"),
        ("1532", "led", "/devices/usb1/1-2/A.0002/input/input2"),
        ("1532", "other", "/devices/usb1/1-2/B.0001/input/input3"),
    ]);
    let records = parse_query_devices(&text).unwrap();
    let groups = query_razer_devices(records);
    assert_eq!(groups.len(), 2);
    assert_eq!(groups[0].query_devices.len(), 2);
    assert_eq!(groups[0].query_devices[0].name, "kbd");
    assert_eq!(groups[0].query_devices[1].name, "led");
    assert_eq!(groups[1].query_devices.len(), 1);
    assert_eq!(groups[1].query_devices[0].name, "other");
}

#[test]
fn other_vendors_and_keyless_paths_are_dropped() {
    let text = registry(&[
        ("046d", "mouse", "/devices/usb1/1-3/C.0001/input/input4"),
        ("1532", "shallow", "/input5"),
        ("1532", "nosuffix", "/devices/usb1/1-2/D/input/input6"),
        ("1532", "kbd", "/devices/usb1/1-2/A.0001/input/input1"),
    ]);
    let records = parse_query_devices(&text).unwrap();
    let groups = query_razer_devices(records);
    assert_eq!(groups.len(), 1);
    assert_eq!(groups[0].query_devices.len(), 1);
    assert_eq!(groups[0].query_devices[0].name, "kbd");
}

#[test]
fn hex_suffix_strips_at_the_last_dot() {
    let text = registry(&[
        ("1532", "one", "/devices/usb1/1-2/0003:1532:021E.0008/input/input32"),
        ("1532", "two", "/devices/usb1/1-2/0003:1532:021E.0009/input/input33"),
    ]);
    let records = parse_query_devices(&text).unwrap();
    let groups = query_razer_devices(records);
    assert_eq!(groups.len(), 1);
    assert_eq!(groups[0].query_devices.len(), 2);
}

#[test]
fn event_source_prefers_keyboard_without_leds() {
    let text = [
        "I: Bus=0003 Vendor=1532 Product=021e Version=0111",
        "N: Name=\"with leds\"",
        "S: Sysfs=/devices/usb1/1-2/A.0001/input/input1",
        "H: Handlers=sysrq kbd event3 leds",
        "",
        "I: Bus=0003 Vendor=1532 Product=021e Version=0111",
        "N: Name=\"plain keyboard\"",
        "S: Sysfs=/devices/usb1/1-2/A.0002/input/input2",
        "H: Handlers=sysrq kbd event4",
    ]
    .join("\n");
    let records = parse_query_devices(&text).unwrap();
    let groups = query_razer_devices(records);
    assert_eq!(groups.len(), 1);
    assert_eq!(groups[0].event_source_path(), Some("/dev/input/event4".to_string()));
}

#[test]
fn event_source_absent_is_a_normal_outcome() {
    let text = [
        "I: Bus=0003 Vendor=1532 Product=021e Version=0111",
        "N: Name=\"leds only\"",
        "S: Sysfs=/devices/usb1/1-2/A.0001/input/input1",
        "H: Handlers=kbd leds event3",
    ]
    .join("\n");
    let records = parse_query_devices(&text).unwrap();
    let groups = query_razer_devices(records);
    assert_eq!(groups.len(), 1);
    assert_eq!(groups[0].event_source_path(), None);
}

#[test]
fn control_dir_candidates_are_grandparents_under_sys() {
    let text = registry(&[(
        "1532",
        "kbd",
        "/devices/pci0000:00/usb1/1-2/0003:1532:021E.0008/input/input32",
    )]);
    let records = parse_query_devices(&text).unwrap();
    let groups = query_razer_devices(records);
    let candidates = groups[0].control_dir_candidates();
    assert_eq!(
        candidates,
        vec!["/sys//devices/pci0000:00/usb1/1-2/0003:1532:021E.0008".to_string()]
    );
}
