use riskie::properties::{
    get_property_bool, get_property_byte_array, get_property_mount_points,
    get_property_object_path, get_property_string, get_property_u64, Properties, PropValue,
    Property,
};

fn prop(name: &str, value: PropValue) -> Property {
    Property { name: name.to_string(), value }
}

fn bytes(s: &[u8]) -> PropValue {
    PropValue::Array(s.iter().map(|b| PropValue::Byte(*b)).collect())
}

fn sample() -> Properties {
    Properties {
        entries: vec![
            prop("IdLabel", PropValue::Str("Photos".to_string())),
            prop("Drive", PropValue::ObjectPath("/org/freedesktop/UDisks2/drives/K".to_string())),
            prop("Size", PropValue::U64(16_000_000_000)),
            prop("Offset", PropValue::I64(-1)),
            prop("HintAuto", PropValue::Bool(true)),
            prop("Device", bytes(b"/dev/sdb1\0")),
            prop("Empty", bytes(b"\0\0")),
            prop("Symlinks", PropValue::Other),
        ],
    }
}

#[test]
fn string_property_reads_only_strings() {
    let p = sample();
    assert_eq!(get_property_string(&p, "IdLabel"), Some("Photos".to_string()));
    assert_eq!(get_property_string(&p, "Drive"), None);
    assert_eq!(get_property_string(&p, "Missing"), None);
}

#[test]
fn object_path_property_reads_paths_and_strings() {
    let p = sample();
    assert_eq!(
        get_property_object_path(&p, "Drive"),
        Some("/org/freedesktop/UDisks2/drives/K".to_string())
    );
    assert_eq!(get_property_object_path(&p, "IdLabel"), Some("Photos".to_string()));
    assert_eq!(get_property_object_path(&p, "Size"), None);
}

#[test]
fn u64_property_reinterprets_signed_values() {
    let p = sample();
    assert_eq!(get_property_u64(&p, "Size"), Some(16_000_000_000));
    assert_eq!(get_property_u64(&p, "Offset"), Some(u64::MAX));
    assert_eq!(get_property_u64(&p, "HintAuto"), None);
}

#[test]
fn bool_property() {
    let p = sample();
    assert_eq!(get_property_bool(&p, "HintAuto"), Some(true));
    assert_eq!(get_property_bool(&p, "Size"), None);
}

#[test]
fn byte_array_drops_nul_bytes() {
    let p = sample();
    assert_eq!(get_property_byte_array(&p, "Device"), Some("/dev/sdb1".to_string()));
    assert_eq!(get_property_byte_array(&p, "Empty"), None);
    assert_eq!(get_property_byte_array(&p, "IdLabel"), None);
    assert_eq!(get_property_byte_array(&p, "Symlinks"), None);
}

#[test]
fn byte_array_reads_bytes_as_latin1() {
    let p = Properties { entries: vec![prop("Device", bytes(&[0x41, 0xE9, 0x00, 0x42]))] };
    assert_eq!(get_property_byte_array(&p, "Device"), Some("A\u{e9}B".to_string()));
}

#[test]
fn first_entry_wins() {
    let p = Properties {
        entries: vec![
            prop("IdLabel", PropValue::Str("first".to_string())),
            prop("IdLabel", PropValue::Str("second".to_string())),
        ],
    };
    assert_eq!(get_property_string(&p, "IdLabel"), Some("first".to_string()));
}

#[test]
fn mount_points_keep_their_bytes() {
    let p = Properties {
        entries: vec![prop(
            "MountPoints",
            PropValue::Array(vec![
                bytes(b"/run/media/u/Photos\0"),
                bytes(b""),
                PropValue::Other,
                bytes(b"/mnt\0"),
            ]),
        )],
    };
    assert_eq!(
        get_property_mount_points(&p),
        Some(vec!["/run/media/u/Photos\0".to_string(), "/mnt\0".to_string()])
    );
}

#[test]
fn no_mount_points() {
    let empty = Properties { entries: vec![prop("MountPoints", PropValue::Array(vec![]))] };
    assert_eq!(get_property_mount_points(&empty), None);
    let missing = Properties { entries: vec![] };
    assert_eq!(get_property_mount_points(&missing), None);
    let wrong = Properties { entries: vec![prop("MountPoints", PropValue::Str("/".to_string()))] };
    assert_eq!(get_property_mount_points(&wrong), None);
}
