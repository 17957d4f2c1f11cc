use riskie::device::{Device, DeviceType};
use riskie::registry::{eject_summary, DeviceRegistry, EjectTarget};

fn dev(path: &str, label: &str, drive: Option<&str>, removable: bool, mounts: &[&str]) -> Device {
    Device {
        object_path: path.to_string(),
        block_device: format!("/dev/{}", path.trim_start_matches('/')),
        label: label.to_string(),
        size: 0,
        filesystem_mount_points: mounts.iter().map(|m| m.to_string()).collect(),
        hint_auto: removable,
        hint_system: !removable,
        drive: drive.map(|d| d.to_string()),
        device_type: DeviceType::Filesystem,
        cleartext_device: None,
        crypto_backing_device: None,
    }
}

fn paths(r: &DeviceRegistry) -> Vec<String> {
    r.devices().iter().map(|d| d.object_path.clone()).collect()
}

#[test]
fn startup_keeps_only_removable_devices() {
    let all = vec![
        dev("/sda1", "root", None, false, &["/"]),
        dev("/sdb1", "USB", Some("/K"), true, &[]),
        dev("/sdc1", "", None, true, &["/run/media/u/x"]),
    ];
    let r = DeviceRegistry::from_enumeration(&all);
    assert_eq!(paths(&r), vec!["/sdb1", "/sdc1"]);
    assert_eq!(r.len(), 2);
    assert_eq!(DeviceRegistry::new().len(), 0);
}

#[test]
fn added_unmounted_removable_device_is_automounted() {
    let mut r = DeviceRegistry::new();
    let all = vec![dev("/sda1", "root", None, false, &["/"]), dev("/sdb1", "USB", None, true, &[])];
    let added = r.device_added("/sdb1", &all).unwrap();
    assert!(added.automount);
    assert_eq!(added.label, "USB");
    assert_eq!(added.device, all[1]);
    assert_eq!(paths(&r), vec!["/sdb1"]);
}

#[test]
fn added_mounted_device_is_not_mounted_again() {
    let mut r = DeviceRegistry::new();
    let all = vec![dev("/sdb1", "", None, true, &["/run/media/u/x"])];
    let added = r.device_added("/sdb1", &all).unwrap();
    assert!(!added.automount);
    assert_eq!(added.label, "/dev/sdb1");
}

#[test]
fn system_or_unknown_devices_are_not_tracked() {
    let mut r = DeviceRegistry::new();
    let all = vec![dev("/sda1", "root", None, false, &["/"])];
    assert_eq!(r.device_added("/sda1", &all), None);
    assert_eq!(r.device_added("/nowhere", &all), None);
    assert_eq!(r.len(), 0);
}

#[test]
fn removal_drops_every_device_with_the_path() {
    let all = vec![
        dev("/a", "A", None, true, &[]),
        dev("/b", "B", None, true, &[]),
        dev("/a", "A2", None, true, &[]),
        dev("/c", "C", None, true, &[]),
    ];
    let mut r = DeviceRegistry::from_enumeration(&all);
    r.device_removed("/a");
    assert_eq!(paths(&r), vec!["/b", "/c"]);
    r.device_removed("/zzz");
    assert_eq!(paths(&r), vec!["/b", "/c"]);
}

#[test]
fn add_then_remove_restores_the_list() {
    let start = vec![dev("/a", "A", None, true, &[])];
    let mut r = DeviceRegistry::from_enumeration(&start);
    let all = vec![dev("/a", "A", None, true, &[]), dev("/new", "N", None, true, &[])];
    r.device_added("/new", &all).unwrap();
    r.device_removed("/new");
    assert_eq!(r.devices(), &start);
}

#[test]
fn label_lookup() {
    let r = DeviceRegistry::from_enumeration(&vec![dev("/a", "Photos", None, true, &[]), dev("/b", "", None, true, &[])]);
    assert_eq!(r.label_for("/a"), "Photos");
    assert_eq!(r.label_for("/b"), "/dev/b");
    assert_eq!(r.label_for("/c"), "/c");
}

#[test]
fn refresh_after_mount() {
    let mut r = DeviceRegistry::from_enumeration(&vec![dev("/a", "A", None, true, &[]), dev("/b", "B", None, true, &[])]);
    let fresh = vec![dev("/b", "B", None, true, &["/run/media/u/B"])];
    assert!(r.refresh_mount_points("/b", &fresh));
    assert!(!r.devices()[0].is_mounted());
    assert_eq!(r.devices()[1].filesystem_mount_points, vec!["/run/media/u/B".to_string()]);
    assert!(!r.refresh_mount_points("/a", &fresh));
    let gone: Vec<Device> = Vec::new();
    assert!(!r.refresh_mount_points("/b", &gone));
    assert!(r.devices()[1].is_mounted());
}

#[test]
fn refresh_of_an_untracked_device_still_updates_the_tray() {
    let mut r = DeviceRegistry::new();
    let fresh = vec![dev("/x", "X", None, true, &["/m"])];
    assert!(r.refresh_mount_points("/x", &fresh));
    assert_eq!(r.len(), 0);
}

#[test]
fn refresh_after_eject() {
    let mut r = DeviceRegistry::from_enumeration(&vec![
        dev("/a", "A", Some("/K"), true, &["/m/a"]),
        dev("/b", "B", Some("/K"), true, &["/m/b"]),
        dev("/c", "C", None, true, &["/m/c"]),
    ]);
    let fresh = vec![
        dev("/c", "C", None, true, &["/m/c"]),
        dev("/a", "A", Some("/K"), true, &[]),
        dev("/zz", "Z", None, true, &["/m/z"]),
        dev("/b", "B", Some("/K"), true, &[]),
    ];
    r.refresh_all_mount_points(&fresh);
    assert_eq!(paths(&r), vec!["/a", "/b", "/c"]);
    assert!(!r.devices()[0].is_mounted());
    assert!(!r.devices()[1].is_mounted());
    assert!(r.devices()[2].is_mounted());
}

#[test]
fn eject_targets_are_the_mounted_partitions_of_the_drive() {
    let r = DeviceRegistry::from_enumeration(&vec![
        dev("/a", "A", Some("/K"), true, &["/m/a"]),
        dev("/b", "", Some("/K"), true, &["/m/b"]),
        dev("/c", "C", Some("/K"), true, &[]),
        dev("/d", "D", Some("/L"), true, &["/m/d"]),
        dev("/K", "K", None, true, &["/m/k"]),
    ]);
    let t = r.eject_targets("/K");
    assert_eq!(
        t,
        vec![
            EjectTarget { object_path: "/a".to_string(), label: "A".to_string() },
            EjectTarget { object_path: "/b".to_string(), label: "/dev/b".to_string() },
            EjectTarget { object_path: "/K".to_string(), label: "K".to_string() },
        ]
    );
    assert!(r.eject_targets("/none").is_empty());
}

#[test]
fn eject_summary_names_the_first_partition() {
    let t = vec![
        EjectTarget { object_path: "/a".to_string(), label: "A".to_string() },
        EjectTarget { object_path: "/b".to_string(), label: "B".to_string() },
    ];
    assert_eq!(eject_summary(&t, &vec![Ok(()), Ok(())]), Some("A (all partitions)".to_string()));
    assert_eq!(eject_summary(&t, &vec![Ok(()), Err("target is busy".to_string())]), None);
    assert_eq!(eject_summary(&Vec::new(), &Vec::new()), None);
}
