use riskie::device::{Device, DeviceType};
use riskie::paths::{checked_object_path, PathError};

fn device(path: &str, label: &str, block: &str) -> Device {
    Device {
        object_path: path.to_string(),
        block_device: block.to_string(),
        label: label.to_string(),
        size: 0,
        filesystem_mount_points: Vec::new(),
        hint_auto: true,
        hint_system: false,
        drive: None,
        device_type: DeviceType::Filesystem,
        cleartext_device: None,
        crypto_backing_device: None,
    }
}

#[test]
fn removable_needs_auto_hint_and_no_system_hint() {
    let mut d = device("/org/freedesktop/UDisks2/block_devices/sdb1", "USB", "/dev/sdb1");
    assert!(d.is_removable());
    d.hint_system = true;
    assert!(!d.is_removable());
    d.hint_auto = false;
    assert!(!d.is_removable());
    d.hint_system = false;
    assert!(!d.is_removable());
}

#[test]
fn mounted_when_it_has_a_mount_point() {
    let mut d = device("/p", "USB", "/dev/sdb1");
    assert!(!d.is_mounted());
    d.filesystem_mount_points.push("/run/media/user/USB".to_string());
    assert!(d.is_mounted());
}

#[test]
fn drive_id_prefers_the_drive() {
    let mut d = device("/org/freedesktop/UDisks2/block_devices/sdb1", "USB", "/dev/sdb1");
    assert_eq!(d.drive_id(), "/org/freedesktop/UDisks2/block_devices/sdb1");
    d.drive = Some("/org/freedesktop/UDisks2/drives/Kingston".to_string());
    assert_eq!(d.drive_id(), "/org/freedesktop/UDisks2/drives/Kingston");
}

#[test]
fn device_type_predicates() {
    let mut d = device("/p", "", "/dev/sdc");
    assert!(!d.is_encrypted());
    assert!(!d.is_cleartext());
    d.device_type = DeviceType::Encrypted;
    assert!(d.is_encrypted());
    assert!(!d.is_cleartext());
    d.device_type = DeviceType::Cleartext;
    assert!(d.is_cleartext());
    assert!(!d.is_encrypted());
    d.device_type = DeviceType::Other;
    assert!(!d.is_cleartext());
    assert!(!d.is_encrypted());
}

#[test]
fn unlocked_needs_a_cleartext_device() {
    let mut d = device("/p", "", "/dev/sdc");
    d.device_type = DeviceType::Encrypted;
    assert!(!d.is_unlocked());
    d.cleartext_device = Some("/".to_string());
    assert!(!d.is_unlocked());
    d.cleartext_device = Some(String::new());
    assert!(!d.is_unlocked());
    d.cleartext_device = Some("/org/freedesktop/UDisks2/block_devices/dm_2d0".to_string());
    assert!(d.is_unlocked());
    d.device_type = DeviceType::Filesystem;
    assert!(!d.is_unlocked());
}

#[test]
fn display_label_falls_back_to_block_device() {
    let d = device("/p", "Photos", "/dev/sdb1");
    assert_eq!(d.display_label(), "Photos");
    let e = device("/p", "", "/dev/sdb1");
    assert_eq!(e.display_label(), "/dev/sdb1");
}

#[test]
fn clone_keeps_every_field() {
    let mut d = device("/p", "Photos", "/dev/sdb1");
    d.filesystem_mount_points.push("/run/media/u/Photos".to_string());
    d.drive = Some("/d".to_string());
    d.size = 42;
    let c = d.clone();
    assert_eq!(c, d);
}

#[test]
fn object_paths_are_checked() {
    assert_eq!(
        checked_object_path("/org/freedesktop/UDisks2/block_devices/sdb1".to_string()),
        Ok("/org/freedesktop/UDisks2/block_devices/sdb1".to_string())
    );
    assert_eq!(checked_object_path("/".to_string()), Ok("/".to_string()));
    assert_eq!(checked_object_path("/Path/t0/0bject".to_string()), Ok("/Path/t0/0bject".to_string()));
    for bad in ["", ".", "/double//slashes", "/end/with/slash/", "/ha.d", "no/slash", "/é"] {
        assert_eq!(checked_object_path(bad.to_string()), Err(PathError::InvalidObjectPath), "{}", bad);
    }
}
