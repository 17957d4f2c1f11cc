use riskie::device::{Device, DeviceType};
use riskie::tray::{build_menu, MenuEntry, MenuIcon, TrayCommand};

fn dev(path: &str, label: &str, drive: Option<&str>, mounted: bool) -> Device {
    Device {
        object_path: path.to_string(),
        block_device: format!("/dev{}", path),
        label: label.to_string(),
        size: 0,
        filesystem_mount_points: if mounted { vec!["/run/media/u/x".to_string()] } else { vec![] },
        hint_auto: true,
        hint_system: false,
        drive: drive.map(|d| d.to_string()),
        device_type: DeviceType::Filesystem,
        cleartext_device: None,
        crypto_backing_device: None,
    }
}

fn action(label: &str, icon: MenuIcon, command: TrayCommand) -> MenuEntry {
    MenuEntry::Action { label: label.to_string(), icon, command }
}

fn header(label: &str) -> MenuEntry {
    MenuEntry::Header { label: label.to_string() }
}

fn exit() -> MenuEntry {
    action("Exit", MenuIcon::ApplicationExit, TrayCommand::Exit)
}

#[test]
fn empty_menu() {
    assert_eq!(
        build_menu(&Vec::new()),
        vec![
            MenuEntry::Notice { label: "No removable devices".to_string() },
            MenuEntry::Separator,
            exit(),
        ]
    );
}

#[test]
fn single_unmounted_partition() {
    let devs = vec![dev("/sdb1", "USB", Some("/K"), false)];
    assert_eq!(
        build_menu(&devs),
        vec![
            header("USB"),
            action("  Mount USB", MenuIcon::DriveHarddisk, TrayCommand::Mount("/sdb1".to_string())),
            MenuEntry::Separator,
            MenuEntry::Separator,
            exit(),
        ]
    );
}

#[test]
fn single_mounted_partition_can_be_ejected() {
    let devs = vec![dev("/sdb1", "", None, true)];
    assert_eq!(
        build_menu(&devs),
        vec![
            header("/dev/sdb1"),
            action("  Unmount /dev/sdb1", MenuIcon::DriveHarddisk, TrayCommand::Unmount("/sdb1".to_string())),
            action("  Eject /dev/sdb1", MenuIcon::MediaEject, TrayCommand::EjectAll("/sdb1".to_string())),
            MenuEntry::Separator,
            MenuEntry::Separator,
            exit(),
        ]
    );
}

#[test]
fn partitions_are_grouped_by_drive_in_first_seen_order() {
    let devs = vec![
        dev("/sdb1", "One", Some("/K"), false),
        dev("/sdc1", "Other", Some("/L"), false),
        dev("/sdb2", "Two", Some("/K"), true),
    ];
    assert_eq!(
        build_menu(&devs),
        vec![
            header("One"),
            action("  Mount One", MenuIcon::DriveHarddisk, TrayCommand::Mount("/sdb1".to_string())),
            action("  Unmount Two", MenuIcon::DriveHarddisk, TrayCommand::Unmount("/sdb2".to_string())),
            action("  Eject One (unmount all)", MenuIcon::MediaEject, TrayCommand::EjectAll("/K".to_string())),
            MenuEntry::Separator,
            header("Other"),
            action("  Mount Other", MenuIcon::DriveHarddisk, TrayCommand::Mount("/sdc1".to_string())),
            MenuEntry::Separator,
            MenuEntry::Separator,
            exit(),
        ]
    );
}

#[test]
fn no_eject_item_when_nothing_is_mounted() {
    let devs = vec![dev("/sdb1", "One", Some("/K"), false), dev("/sdb2", "Two", Some("/K"), false)];
    let menu = build_menu(&devs);
    assert_eq!(menu.len(), 6);
    assert!(!menu.iter().any(|e| matches!(e, MenuEntry::Action { command: TrayCommand::EjectAll(_), .. })));
}

#[test]
fn icon_names() {
    assert_eq!(MenuIcon::DriveRemovableMedia.icon_name(), "drive-removable-media");
    assert_eq!(MenuIcon::DriveHarddisk.icon_name(), "drive-harddisk");
    assert_eq!(MenuIcon::MediaEject.icon_name(), "media-eject");
    assert_eq!(MenuIcon::ApplicationExit.icon_name(), "application-exit");
}

#[test]
fn one_partition_item_per_device_and_menu_length() {
    let devs = vec![
        dev("/a1", "A1", Some("/A"), true),
        dev("/b1", "B1", Some("/B"), false),
        dev("/a2", "A2", Some("/A"), false),
        dev("/c1", "C1", None, false),
    ];
    let menu = build_menu(&devs);
    let partition_items = menu
        .iter()
        .filter(|e| matches!(e, MenuEntry::Action { icon: MenuIcon::DriveHarddisk, .. }))
        .count();
    assert_eq!(partition_items, devs.len());
    let headers = menu.iter().filter(|e| matches!(e, MenuEntry::Header { .. })).count();
    assert_eq!(headers, 3);
    let ejects = menu
        .iter()
        .filter(|e| matches!(e, MenuEntry::Action { icon: MenuIcon::MediaEject, .. }))
        .count();
    assert_eq!(ejects, 1);
    // drives A (2 partitions, eject), B (1), C (1): (2+2+1) + (1+2) + (1+2) + 2
    assert_eq!(menu.len(), 13);
}
