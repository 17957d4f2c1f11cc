use vstd::prelude::*;
use crate::text::{copy_opt_text, copy_text, copy_texts, opt_text, texts};

verus! {

/// Device type classification.
#[derive(Debug, Clone, Copy, PartialEq, Eq, Structural)]
pub enum DeviceType {
    /// Regular filesystem partition (ext4, vfat, ...).
    Filesystem,
    /// LUKS encrypted container (locked).
    Encrypted,
    /// Unlocked LUKS container (cleartext).
    Cleartext,
    /// Other block device (partition table, swap, ...).
    Other,
}

/// A block device as udisks2 reports it.
#[derive(Debug, PartialEq, Eq)]
pub struct Device {
    pub object_path: String,
    pub block_device: String,
    pub label: String,
    pub size: u64,
    pub filesystem_mount_points: Vec<String>,
    pub hint_auto: bool,
    pub hint_system: bool,
    pub drive: Option<String>,
    /// Classification of the device.
    pub device_type: DeviceType,
    /// For encrypted devices: path of the unlocked cleartext device (or "/" if locked).
    pub cleartext_device: Option<String>,
    /// For cleartext devices: path of the encrypted backing device.
    pub crypto_backing_device: Option<String>,
}

/// The mathematical value of a [`Device`].
pub struct DeviceView {
    pub object_path: Seq<char>,
    pub block_device: Seq<char>,
    pub label: Seq<char>,
    pub size: u64,
    pub filesystem_mount_points: Seq<Seq<char>>,
    pub hint_auto: bool,
    pub hint_system: bool,
    pub drive: Option<Seq<char>>,
    pub device_type: DeviceType,
    pub cleartext_device: Option<Seq<char>>,
    pub crypto_backing_device: Option<Seq<char>>,
}

impl View for Device {
    type V = DeviceView;

    open spec fn view(&self) -> DeviceView {
        DeviceView {
            object_path: self.object_path@,
            block_device: self.block_device@,
            label: self.label@,
            size: self.size,
            filesystem_mount_points: texts(self.filesystem_mount_points@),
            hint_auto: self.hint_auto,
            hint_system: self.hint_system,
            drive: opt_text(self.drive),
            device_type: self.device_type,
            cleartext_device: opt_text(self.cleartext_device),
            crypto_backing_device: opt_text(self.crypto_backing_device),
        }
    }
}

/// The views of a list of devices.
pub open spec fn device_views(v: Seq<Device>) -> Seq<DeviceView> {
    v.map_values(|d: Device| d@)
}

/// A path property that names an object: present, not empty and not the root "/".
pub open spec fn names_object(p: Seq<char>) -> bool {
    p.len() > 0 && p != seq!['/']
}

/// Whether an optional path property names an object.
pub open spec fn opt_names_object(p: Option<Seq<char>>) -> bool {
    match p {
        Some(q) => names_object(q),
        None => false,
    }
}

impl DeviceView {
    pub open spec fn is_removable(self) -> bool {
        self.hint_auto && !self.hint_system
    }

    pub open spec fn is_mounted(self) -> bool {
        self.filesystem_mount_points.len() > 0
    }

    /// The drive the device belongs to, or the device itself where it has none.
    pub open spec fn drive_id(self) -> Seq<char> {
        match self.drive {
            Some(d) => d,
            None => self.object_path,
        }
    }

    pub open spec fn is_encrypted(self) -> bool {
        self.device_type == DeviceType::Encrypted
    }

    pub open spec fn is_cleartext(self) -> bool {
        self.device_type == DeviceType::Cleartext
    }

    pub open spec fn is_unlocked(self) -> bool {
        self.is_encrypted() && opt_names_object(self.cleartext_device)
    }

    /// The name shown for the device: its label, or its block device where the label is empty.
    pub open spec fn display_label(self) -> Seq<char> {
        if self.label.len() == 0 {
            self.block_device
        } else {
            self.label
        }
    }
}

/// Whether a path property names an object (not empty, not "/").
pub fn path_names_object(p: &str) -> (r: bool)
    ensures
        r == names_object(p@),
{
    let n = p.unicode_len();
    if n == 0 {
        false
    } else if n == 1 {
        let c = p.get_char(0);
        if c == '/' {
            assert(p@ =~= seq!['/']);
        }
        c != '/'
    } else {
        true
    }
}

impl Clone for Device {
    fn clone(&self) -> (r: Self)
        ensures
            r@ == self@,
    {
        Device {
            object_path: copy_text(&self.object_path),
            block_device: copy_text(&self.block_device),
            label: copy_text(&self.label),
            size: self.size,
            filesystem_mount_points: copy_texts(&self.filesystem_mount_points),
            hint_auto: self.hint_auto,
            hint_system: self.hint_system,
            drive: copy_opt_text(&self.drive),
            device_type: self.device_type,
            cleartext_device: copy_opt_text(&self.cleartext_device),
            crypto_backing_device: copy_opt_text(&self.crypto_backing_device),
        }
    }
}

impl Device {
    /// A device is removable when udisks2 hints auto-mounting and it is not a system device.
    pub fn is_removable(&self) -> (r: bool)
        ensures
            r == self@.is_removable(),
    {
        self.hint_auto && !self.hint_system
    }

    /// A device is mounted when it has at least one filesystem mount point.
    pub fn is_mounted(&self) -> (r: bool)
        ensures
            r == self@.is_mounted(),
    {
        self.filesystem_mount_points.len() > 0
    }

    /// The drive's object path, or the device's own object path where it has no drive.
    pub fn drive_id(&self) -> (r: &str)
        ensures
            r@ == self@.drive_id(),
    {
        match &self.drive {
            Some(d) => d.as_str(),
            None => self.object_path.as_str(),
        }
    }

    /// Returns true if this is an encrypted (LUKS) device.
    pub fn is_encrypted(&self) -> (r: bool)
        ensures
            r == self@.is_encrypted(),
    {
        self.device_type == DeviceType::Encrypted
    }

    /// Returns true if this is an unlocked LUKS container.
    pub fn is_cleartext(&self) -> (r: bool)
        ensures
            r == self@.is_cleartext(),
    {
        self.device_type == DeviceType::Cleartext
    }

    /// Returns true if this encrypted device is currently unlocked.
    pub fn is_unlocked(&self) -> (r: bool)
        ensures
            r == self@.is_unlocked(),
    {
        if self.device_type == DeviceType::Encrypted {
            match &self.cleartext_device {
                Some(p) => path_names_object(p.as_str()),
                None => false,
            }
        } else {
            false
        }
    }

    /// The label, or the block device name where the label is empty.
    pub fn display_label(&self) -> (r: String)
        ensures
            r@ == self@.display_label(),
    {
        if self.label.as_str().is_empty() {
            copy_text(&self.block_device)
        } else {
            copy_text(&self.label)
        }
    }
}

/// Only an encrypted container can be unlocked.
pub proof fn lemma_unlocked_is_encrypted(d: DeviceView)
    ensures
        d.is_unlocked() ==> d.is_encrypted() && !d.is_cleartext(),
{
}

} // verus!
