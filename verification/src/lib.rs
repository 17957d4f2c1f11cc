//! Verified core of a removable-disk automounting daemon: the device model,
//! the reading of udisks2 properties, the tracked device list, the tray menu,
//! the notification texts and the passphrase prompt decisions.

pub mod text;
pub mod device;
pub mod paths;
pub mod properties;
pub mod udisks;
pub mod registry;
pub mod tray;
pub mod notify;
pub mod password;
