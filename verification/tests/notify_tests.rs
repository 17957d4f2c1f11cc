use riskie::notify::{
    contains_substring, device_added_notice, mount_outcome_notice, unmount_outcome_notice, mount_error_notice, mount_success_notice,
    unmount_error_notice, unmount_success_notice, Notice, NoticeIcon, Urgency,
};

fn notice(summary: &str, body: &str, icon: NoticeIcon, urgency: Urgency, timeout_ms: u32) -> Notice {
    Notice { summary: summary.to_string(), body: body.to_string(), icon, urgency, timeout_ms }
}

#[test]
fn mount_success() {
    assert_eq!(
        mount_success_notice("USB", "/run/media/u/USB"),
        notice("Device Mounted", "USB\nMounted at /run/media/u/USB", NoticeIcon::DriveRemovableMedia, Urgency::Normal, 3000)
    );
}

#[test]
fn mount_error() {
    assert_eq!(
        mount_error_notice("USB", "Not authorized"),
        notice("Mount Failed", "USB: Not authorized", NoticeIcon::DialogError, Urgency::Critical, 5000)
    );
}

#[test]
fn unmount_success() {
    assert_eq!(
        unmount_success_notice("USB"),
        notice("Device Unmounted", "USB safely removed", NoticeIcon::DriveRemovableMedia, Urgency::Normal, 3000)
    );
}

#[test]
fn unmount_error_plain() {
    assert_eq!(
        unmount_error_notice("USB", "Not authorized"),
        notice("Unmount Failed", "USB: Not authorized", NoticeIcon::DialogError, Urgency::Critical, 5000)
    );
}

#[test]
fn unmount_error_busy() {
    let n = unmount_error_notice("USB", "Error unmounting /dev/sdb1: target is busy");
    assert_eq!(n.body, "USB: Device is busy. Close any open files and try again.");
    let m = unmount_error_notice("USB", "device is busy");
    assert_eq!(m.body, "USB: Device is busy. Close any open files and try again.");
    let k = unmount_error_notice("USB", "is bus");
    assert_eq!(k.body, "USB: is bus");
}

#[test]
fn device_added() {
    assert_eq!(
        device_added_notice("USB"),
        notice("Device Detected", "USB connected", NoticeIcon::DriveRemovableMedia, Urgency::Low, 2000)
    );
}

#[test]
fn substrings() {
    assert!(contains_substring("target is busy", "is busy"));
    assert!(contains_substring("is busy", "is busy"));
    assert!(contains_substring("abc", ""));
    assert!(!contains_substring("is bus", "is busy"));
    assert!(!contains_substring("", "x"));
    assert!(contains_substring("ééx", "éx"));
}

#[test]
fn notice_icon_names() {
    assert_eq!(NoticeIcon::DriveRemovableMedia.icon_name(), "drive-removable-media");
    assert_eq!(NoticeIcon::DialogError.icon_name(), "dialog-error");
}

#[test]
fn outcome_notices() {
    assert_eq!(mount_outcome_notice("USB", &Ok("/m".to_string())), mount_success_notice("USB", "/m"));
    assert_eq!(mount_outcome_notice("USB", &Err("denied".to_string())), mount_error_notice("USB", "denied"));
    assert_eq!(unmount_outcome_notice("USB", &Ok(())), unmount_success_notice("USB"));
    assert_eq!(
        unmount_outcome_notice("USB", &Err("target is busy".to_string())).body,
        "USB: Device is busy. Close any open files and try again."
    );
}
