use riskie::device::DeviceType;
use riskie::properties::{Properties, PropValue, Property};
use riskie::udisks::{announces_block_device, device_from_object, devices_from_objects, Interface, ManagedObject};

const BLOCK: &str = "org.freedesktop.UDisks2.Block";
const FS: &str = "org.freedesktop.UDisks2.Filesystem";
const ENC: &str = "org.freedesktop.UDisks2.Encrypted";

fn prop(name: &str, value: PropValue) -> Property {
    Property { name: name.to_string(), value }
}

fn bytes(s: &[u8]) -> PropValue {
    PropValue::Array(s.iter().map(|b| PropValue::Byte(*b)).collect())
}

fn iface(name: &str, entries: Vec<Property>) -> Interface {
    Interface { name: name.to_string(), props: Properties { entries } }
}

fn usb_block(extra: Vec<Property>) -> Interface {
    let mut entries = vec![
        prop("Device", bytes(b"/dev/sdb1\0")),
        prop("IdLabel", PropValue::Str("Photos".to_string())),
        prop("Size", PropValue::U64(1024)),
        prop("HintAuto", PropValue::Bool(true)),
        prop("HintSystem", PropValue::Bool(false)),
        prop("Drive", PropValue::ObjectPath("/org/freedesktop/UDisks2/drives/K".to_string())),
    ];
    entries.extend(extra);
    iface(BLOCK, entries)
}

fn object(path: &str, interfaces: Vec<Interface>) -> ManagedObject {
    ManagedObject { path: path.to_string(), interfaces }
}

#[test]
fn filesystem_object_becomes_a_device() {
    let obj = object(
        "/org/freedesktop/UDisks2/block_devices/sdb1",
        vec![
            usb_block(vec![]),
            iface(FS, vec![prop("MountPoints", PropValue::Array(vec![bytes(b"/run/media/u/Photos\0")]))]),
        ],
    );
    let d = device_from_object(&obj).unwrap();
    assert_eq!(d.object_path, "/org/freedesktop/UDisks2/block_devices/sdb1");
    assert_eq!(d.block_device, "/dev/sdb1");
    assert_eq!(d.label, "Photos");
    assert_eq!(d.size, 1024);
    assert_eq!(d.filesystem_mount_points, vec!["/run/media/u/Photos\0".to_string()]);
    assert!(d.hint_auto);
    assert!(!d.hint_system);
    assert_eq!(d.drive, Some("/org/freedesktop/UDisks2/drives/K".to_string()));
    assert_eq!(d.device_type, DeviceType::Filesystem);
    assert_eq!(d.cleartext_device, None);
    assert_eq!(d.crypto_backing_device, None);
    assert!(d.is_removable());
    assert!(d.is_mounted());
}

#[test]
fn missing_block_properties_take_defaults() {
    let obj = object("/o", vec![iface(BLOCK, vec![]), iface(FS, vec![])]);
    let d = device_from_object(&obj).unwrap();
    assert_eq!(d.block_device, "");
    assert_eq!(d.label, "");
    assert_eq!(d.size, 0);
    assert!(!d.hint_auto);
    assert!(d.hint_system);
    assert_eq!(d.drive, None);
    assert!(d.filesystem_mount_points.is_empty());
    assert!(!d.is_removable());
}

#[test]
fn encrypted_object() {
    let obj = object(
        "/org/freedesktop/UDisks2/block_devices/sdc1",
        vec![
            usb_block(vec![]),
            iface(ENC, vec![prop("CleartextDevice", PropValue::ObjectPath("/".to_string()))]),
        ],
    );
    let d = device_from_object(&obj).unwrap();
    assert_eq!(d.device_type, DeviceType::Encrypted);
    assert_eq!(d.cleartext_device, Some("/".to_string()));
    assert!(!d.is_unlocked());
    assert!(d.filesystem_mount_points.is_empty());
}

#[test]
fn cleartext_object() {
    let obj = object(
        "/org/freedesktop/UDisks2/block_devices/dm_2d0",
        vec![
            usb_block(vec![prop(
                "CryptoBackingDevice",
                PropValue::ObjectPath("/org/freedesktop/UDisks2/block_devices/sdc1".to_string()),
            )]),
            iface(FS, vec![]),
        ],
    );
    let d = device_from_object(&obj).unwrap();
    assert_eq!(d.device_type, DeviceType::Cleartext);
    assert_eq!(
        d.crypto_backing_device,
        Some("/org/freedesktop/UDisks2/block_devices/sdc1".to_string())
    );
    assert!(d.is_cleartext());
}

#[test]
fn root_backing_device_is_a_plain_filesystem() {
    let obj = object(
        "/o",
        vec![usb_block(vec![prop("CryptoBackingDevice", PropValue::ObjectPath("/".to_string()))]), iface(FS, vec![])],
    );
    let d = device_from_object(&obj).unwrap();
    assert_eq!(d.device_type, DeviceType::Filesystem);
    assert_eq!(d.crypto_backing_device, None);
}

#[test]
fn objects_without_block_or_content_are_skipped() {
    let no_block = object("/org/freedesktop/UDisks2/drives/K", vec![iface("org.freedesktop.UDisks2.Drive", vec![])]);
    assert_eq!(device_from_object(&no_block), None);
    let bare_block = object("/org/freedesktop/UDisks2/block_devices/sdb", vec![usb_block(vec![])]);
    assert_eq!(device_from_object(&bare_block), None);
}

#[test]
fn enumeration_keeps_order_and_skips() {
    let objs = vec![
        object("/a", vec![usb_block(vec![]), iface(FS, vec![])]),
        object("/drive", vec![iface("org.freedesktop.UDisks2.Drive", vec![])]),
        object("/b", vec![iface(ENC, vec![]), usb_block(vec![])]),
    ];
    let devs = devices_from_objects(&objs);
    assert_eq!(devs.len(), 2);
    assert_eq!(devs[0].object_path, "/a");
    assert_eq!(devs[1].object_path, "/b");
    assert_eq!(devs[1].device_type, DeviceType::Encrypted);
}

#[test]
fn block_interface_signals() {
    let names = vec![FS.to_string(), BLOCK.to_string()];
    assert!(announces_block_device(&names));
    let others = vec![FS.to_string(), "org.freedesktop.UDisks2.Partition".to_string()];
    assert!(!announces_block_device(&others));
    assert!(!announces_block_device(&Vec::new()));
}
