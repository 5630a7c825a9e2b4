use openrazer::{parse_query_devices, QueryDevice, QueryError};

fn block() -> String {
    [
        "I: Bus=0003 Vendor=1532 Product=021e Version=0111",
        "N: Name=\"Razer Razer Ornata Chroma\"",
        "P: Phys=usb-0000:16:00.0-2/input0",
        "S: Sysfs=/devices/pci0000:00/usb1/1-2/1-2:1.0/0003:1532:021E.0006/input/input19",
        "U: Uniq=",
        "H: Handlers=sysrq kbd event4 leds",
        "B: PROP=0",
        "B: EV=120013",
    ]
    .join("\n")
}

#[test]
fn parses_a_full_record() {
    let d = QueryDevice::parse(&block()).unwrap();
    assert_eq!(d.id_bus_type, 0x0003);
    assert_eq!(d.id_vendor, 0x1532);
    assert_eq!(d.id_product, 0x021e);
    assert_eq!(d.id_version, 0x0111);
    assert_eq!(d.name, "Razer Razer Ornata Chroma");
    assert_eq!(d.physical_path, "usb-0000:16:00.0-2/input0");
    assert_eq!(
        d.sys_path,
        "/devices/pci0000:00/usb1/1-2/1-2:1.0/0003:1532:021E.0006/input/input19"
    );
    assert_eq!(d.handlers, vec!["sysrq", "kbd", "event4", "leds"]);
    assert_eq!(d.bitmaps.len(), 2);
    assert_eq!(d.bitmaps[0].0, "PROP");
    assert_eq!(d.bitmaps[0].1, vec![0]);
    assert_eq!(d.bitmaps[1].0, "EV");
    assert_eq!(d.bitmaps[1].1, vec![0x120013]);
    // The unrecognized `U` line is preserved verbatim.
    assert_eq!(d.unparsed_properties.len(), 1);
    assert_eq!(d.unparsed_properties[0].ident, 'U');
    assert_eq!(d.unparsed_properties[0].content, "Uniq=");
}

#[test]
fn id_and_name_are_required() {
    let no_id = "N: Name=\"x\"\nS: Sysfs=/a/b.1/c/d";
    assert!(matches!(
        QueryDevice::parse(no_id),
        Err(QueryError::Malformed("Required ID field is missing"))
    ));
    let no_name = "I: Bus=3 Vendor=1532 Product=21e Version=111\nS: Sysfs=/a/b.1/c/d";
    assert!(matches!(
        QueryDevice::parse(no_name),
        Err(QueryError::Malformed("Required name field is missing"))
    ));
}

#[test]
fn incomplete_id_line_is_malformed() {
    // Version is missing entirely.
    let b = "I: Bus=0003 Vendor=1532 Product=021e\nN: Name=\"x\"";
    assert!(matches!(QueryDevice::parse(b), Err(QueryError::Malformed("Malformed ID field"))));
    // A value that is no hex u16 is silently skipped, which leaves
    // the field missing.
    let b2 = "I: Bus=0003 Vendor=1532 Product=021e Version=zzz\nN: Name=\"x\"";
    assert!(matches!(QueryDevice::parse(b2), Err(QueryError::Malformed("Malformed ID field"))));
}

#[test]
fn malformed_lines_are_rejected() {
    assert!(matches!(
        QueryDevice::parse("not a property line"),
        Err(QueryError::Malformed("Malformed device property"))
    ));
    assert!(matches!(
        QueryDevice::parse("XY: two letters"),
        Err(QueryError::Malformed("Malformed device property"))
    ));
    let bad_name = "I: Bus=3 Vendor=4 Product=5 Version=6\nN: Name=unquoted";
    assert!(matches!(
        QueryDevice::parse(bad_name),
        Err(QueryError::Malformed("Malformed name field"))
    ));
    let bad_handlers = "I: Bus=3 Vendor=4 Product=5 Version=6\nN: Name=\"x\"\nH: no equals";
    assert!(matches!(
        QueryDevice::parse(bad_handlers),
        Err(QueryError::Malformed("Malformed handlers field"))
    ));
    let bad_bits = "I: Bus=3 Vendor=4 Product=5 Version=6\nN: Name=\"x\"\nB: EV=nothex";
    assert!(matches!(
        QueryDevice::parse(bad_bits),
        Err(QueryError::Malformed("Malformed bits field"))
    ));
}

#[test]
fn duplicate_bitmap_name_is_an_error() {
    let b = "I: Bus=3 Vendor=4 Product=5 Version=6\nN: Name=\"x\"\nB: EV=1\nB: EV=2";
    assert!(matches!(QueryDevice::parse(b), Err(QueryError::Malformed("Duplicate bits field"))));
}

#[test]
fn later_field_overwrites_earlier() {
    let b = "I: Bus=3 Vendor=4 Product=5 Version=6\nI: Bus=7 Vendor=8 Product=9 Version=a\nN: Name=\"x\"\nN: Name=\"y\"";
    let d = QueryDevice::parse(b).unwrap();
    assert_eq!(d.id_bus_type, 7);
    assert_eq!(d.id_vendor, 8);
    assert_eq!(d.name, "y");
}

#[test]
fn missing_paths_default_to_empty() {
    let b = "I: Bus=3 Vendor=4 Product=5 Version=6\nN: Name=\"x\"";
    let d = QueryDevice::parse(b).unwrap();
    assert_eq!(d.physical_path, "");
    assert_eq!(d.sys_path, "");
    assert!(d.handlers.is_empty());
}

#[test]
fn whole_registry_splits_on_blank_lines() {
    let text = format!("{}\n\n{}\n\n   \n", block(), block());
    let devices = parse_query_devices(&text).unwrap();
    assert_eq!(devices.len(), 2);
    assert_eq!(devices[0].name, devices[1].name);
    assert_eq!(parse_query_devices("").unwrap().len(), 0);
    assert_eq!(parse_query_devices("\n\n\n\n").unwrap().len(), 0);
}

#[test]
fn one_bad_block_fails_the_whole_query() {
    let text = format!("{}\n\nnot a property line\n", block());
    assert!(matches!(parse_query_devices(&text), Err(QueryError::Malformed(_))));
}
