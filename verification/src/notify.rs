use vstd::prelude::*;
use crate::text::{join2, join3};

verus! {

/// How urgent a desktop notification is.
#[derive(Debug, Clone, Copy, PartialEq, Eq, Structural)]
pub enum Urgency {
    Low,
    Normal,
    Critical,
}

/// The icon of a desktop notification.
#[derive(Debug, Clone, Copy, PartialEq, Eq, Structural)]
pub enum NoticeIcon {
    DriveRemovableMedia,
    DialogError,
}

/// The freedesktop icon name of each notification icon.
pub open spec fn notice_icon_name(icon: NoticeIcon) -> Seq<char> {
    match icon {
        NoticeIcon::DriveRemovableMedia => "drive-removable-media"@,
        NoticeIcon::DialogError => "dialog-error"@,
    }
}

impl NoticeIcon {
    /// The freedesktop icon name.
    pub fn icon_name(&self) -> (r: &'static str)
        ensures
            r@ == notice_icon_name(*self),
    {
        proof {
            reveal_strlit("drive-removable-media");
            reveal_strlit("dialog-error");
        }
        match self {
            NoticeIcon::DriveRemovableMedia => "drive-removable-media",
            NoticeIcon::DialogError => "dialog-error",
        }
    }
}

/// A desktop notification to show.
#[derive(Debug, PartialEq, Eq)]
pub struct Notice {
    pub summary: String,
    pub body: String,
    pub icon: NoticeIcon,
    pub urgency: Urgency,
    /// How long it stays, in milliseconds.
    pub timeout_ms: u32,
}

/// The mathematical value of a [`Notice`].
pub struct NoticeView {
    pub summary: Seq<char>,
    pub body: Seq<char>,
    pub icon: NoticeIcon,
    pub urgency: Urgency,
    pub timeout_ms: u32,
}

impl View for Notice {
    type V = NoticeView;

    open spec fn view(&self) -> NoticeView {
        NoticeView {
            summary: self.summary@,
            body: self.body@,
            icon: self.icon,
            urgency: self.urgency,
            timeout_ms: self.timeout_ms,
        }
    }
}

/// `needle` occurs in `hay` at position `i`.
pub open spec fn occurs_at(hay: Seq<char>, needle: Seq<char>, i: int) -> bool {
    0 <= i && i + needle.len() <= hay.len() && hay.subrange(i, i + needle.len()) == needle
}

/// `needle` occurs somewhere in `hay`.
pub open spec fn has_substring(hay: Seq<char>, needle: Seq<char>) -> bool {
    exists|i: int| occurs_at(hay, needle, i)
}

/// The characters of a string.
pub fn chars_of(s: &str) -> (r: Vec<char>)
    ensures
        r@ == s@,
{
    let n = s.unicode_len();
    let mut v: Vec<char> = Vec::new();
    for i in 0..n
        invariant
            n == s@.len(),
            v@ == s@.take(i as int),
    {
        v.push(s.get_char(i));
        assert(v@ =~= s@.take(i + 1));
    }
    assert(s@.take(n as int) =~= s@);
    v
}

/// Whether `needle` occurs in `hay`.
pub fn contains_substring(hay: &str, needle: &str) -> (r: bool)
    ensures
        r == has_substring(hay@, needle@),
{
    let h = chars_of(hay);
    let nd = chars_of(needle);
    let n = h.len();
    let m = nd.len();
    if m > n {
        proof {
            assert forall|i: int| !occurs_at(hay@, needle@, i) by {}
        }
        return false;
    }
    let last = n - m;
    let mut i: usize = 0;
    while i <= last
        invariant
            h@ == hay@,
            nd@ == needle@,
            n == h.len(),
            m == nd.len(),
            m <= n,
            last == n - m,
            i <= last + 1,
            forall|k: int| 0 <= k < i ==> !occurs_at(hay@, needle@, k),
        decreases last + 1 - i,
    {
        let mut j: usize = 0;
        let mut same = true;
        while j < m
            invariant
                h@ == hay@,
                nd@ == needle@,
                n == h.len(),
                m == nd.len(),
                i + m <= n,
                j <= m,
                same == forall|t: int| 0 <= t < j ==> h@[i + t] == nd@[t],
            decreases m - j,
        {
            if h[i + j] != nd[j] {
                same = false;
            }
            j = j + 1;
        }
        if same {
            assert(hay@.subrange(i as int, i + needle@.len()) =~= needle@);
            assert(occurs_at(hay@, needle@, i as int));
            return true;
        }
        proof {
            if occurs_at(hay@, needle@, i as int) {
                assert forall|t: int| 0 <= t < m implies h@[i + t] == nd@[t] by {
                    assert(hay@.subrange(i as int, i + needle@.len())[t] == needle@[t]);
                }
            }
        }
        i = i + 1;
    }
    proof {
        assert forall|k: int| !occurs_at(hay@, needle@, k) by {
            if 0 <= k && k + m <= n {
                assert(k < i);
            }
        }
    }
    false
}

/// An unmount failed because the device is busy.
pub open spec fn is_busy_error(error: Seq<char>) -> bool {
    has_substring(error, "is busy"@) || has_substring(error, "target is busy"@)
}

/// An error counts as "busy" exactly when "is busy" occurs anywhere in it: at the start, in the
/// middle or at the end, followed by anything (such as a period) or nothing.
pub proof fn lemma_busy_error(error: Seq<char>)
    ensures
        is_busy_error(error) <==> exists|i: int|
            0 <= i && i + 7 <= error.len() && #[trigger] error.subrange(i, i + 7) == "is busy"@,
{
    reveal_strlit("is busy");
    reveal_strlit("target is busy");
    if has_substring(error, "target is busy"@) {
        let i = choose|i: int| occurs_at(error, "target is busy"@, i);
        assert(error.subrange(i + 7, i + 14) =~= "target is busy"@.subrange(7, 14));
        assert("target is busy"@.subrange(7, 14) =~= "is busy"@);
        assert(occurs_at(error, "is busy"@, i + 7));
    }
    if exists|i: int|
        0 <= i && i + 7 <= error.len() && #[trigger] error.subrange(i, i + 7) == "is busy"@ {
        let i = choose|i: int|
            0 <= i && i + 7 <= error.len() && #[trigger] error.subrange(i, i + 7) == "is busy"@;
        assert(occurs_at(error, "is busy"@, i));
    }
}

pub open spec fn mount_success_view(label: Seq<char>, mount_point: Seq<char>) -> NoticeView {
    NoticeView {
        summary: "Device Mounted"@,
        body: label + "\nMounted at "@ + mount_point,
        icon: NoticeIcon::DriveRemovableMedia,
        urgency: Urgency::Normal,
        timeout_ms: 3000,
    }
}

pub open spec fn mount_error_view(label: Seq<char>, error: Seq<char>) -> NoticeView {
    NoticeView {
        summary: "Mount Failed"@,
        body: label + ": "@ + error,
        icon: NoticeIcon::DialogError,
        urgency: Urgency::Critical,
        timeout_ms: 5000,
    }
}

pub open spec fn unmount_success_view(label: Seq<char>) -> NoticeView {
    NoticeView {
        summary: "Device Unmounted"@,
        body: label + " safely removed"@,
        icon: NoticeIcon::DriveRemovableMedia,
        urgency: Urgency::Normal,
        timeout_ms: 3000,
    }
}

/// A busy device gets a hint to close its files in place of the raw error.
pub open spec fn unmount_error_view(label: Seq<char>, error: Seq<char>) -> NoticeView {
    NoticeView {
        summary: "Unmount Failed"@,
        body: if is_busy_error(error) {
            label + ": Device is busy. Close any open files and try again."@
        } else {
            label + ": "@ + error
        },
        icon: NoticeIcon::DialogError,
        urgency: Urgency::Critical,
        timeout_ms: 5000,
    }
}

pub open spec fn device_added_view(label: Seq<char>) -> NoticeView {
    NoticeView {
        summary: "Device Detected"@,
        body: label + " connected"@,
        icon: NoticeIcon::DriveRemovableMedia,
        urgency: Urgency::Low,
        timeout_ms: 2000,
    }
}

/// The notification that a device was mounted at `mount_point`.
pub fn mount_success_notice(label: &str, mount_point: &str) -> (r: Notice)
    ensures
        r@ == mount_success_view(label@, mount_point@),
{
    proof {
        reveal_strlit("Device Mounted");
        reveal_strlit("\nMounted at ");
    }
    Notice {
        summary: String::from_str("Device Mounted"),
        body: join3(label, "\nMounted at ", mount_point),
        icon: NoticeIcon::DriveRemovableMedia,
        urgency: Urgency::Normal,
        timeout_ms: 3000,
    }
}

/// The notification that mounting a device failed with `error`.
pub fn mount_error_notice(label: &str, error: &str) -> (r: Notice)
    ensures
        r@ == mount_error_view(label@, error@),
{
    proof {
        reveal_strlit("Mount Failed");
        reveal_strlit(": ");
    }
    Notice {
        summary: String::from_str("Mount Failed"),
        body: join3(label, ": ", error),
        icon: NoticeIcon::DialogError,
        urgency: Urgency::Critical,
        timeout_ms: 5000,
    }
}

/// The notification that a device was unmounted.
pub fn unmount_success_notice(label: &str) -> (r: Notice)
    ensures
        r@ == unmount_success_view(label@),
{
    proof {
        reveal_strlit("Device Unmounted");
        reveal_strlit(" safely removed");
    }
    Notice {
        summary: String::from_str("Device Unmounted"),
        body: join2(label, " safely removed"),
        icon: NoticeIcon::DriveRemovableMedia,
        urgency: Urgency::Normal,
        timeout_ms: 3000,
    }
}

/// The notification that unmounting a device failed with `error`.
pub fn unmount_error_notice(label: &str, error: &str) -> (r: Notice)
    ensures
        r@ == unmount_error_view(label@, error@),
        (exists|i: int|
            0 <= i && i + 7 <= error@.len() && #[trigger] error@.subrange(i, i + 7) == "is busy"@)
            ==> r.body@ == label@ + ": Device is busy. Close any open files and try again."@,
        !(exists|i: int|
            0 <= i && i + 7 <= error@.len() && #[trigger] error@.subrange(i, i + 7) == "is busy"@)
            ==> r.body@ == label@ + ": "@ + error@,
        r.summary@ == "Unmount Failed"@,
{
    proof {
        lemma_busy_error(error@);
        reveal_strlit("Unmount Failed");
        reveal_strlit(": ");
        reveal_strlit(": Device is busy. Close any open files and try again.");
    }
    let busy = contains_substring(error, "is busy") || contains_substring(error, "target is busy");
    let body = if busy {
        join2(label, ": Device is busy. Close any open files and try again.")
    } else {
        join3(label, ": ", error)
    };
    Notice {
        summary: String::from_str("Unmount Failed"),
        body,
        icon: NoticeIcon::DialogError,
        urgency: Urgency::Critical,
        timeout_ms: 5000,
    }
}

/// The notification that a device was connected.
pub fn device_added_notice(label: &str) -> (r: Notice)
    ensures
        r@ == device_added_view(label@),
{
    proof {
        reveal_strlit("Device Detected");
        reveal_strlit(" connected");
    }
    Notice {
        summary: String::from_str("Device Detected"),
        body: join2(label, " connected"),
        icon: NoticeIcon::DriveRemovableMedia,
        urgency: Urgency::Low,
        timeout_ms: 2000,
    }
}

/// The notification that follows a mount request: success with the mount point, or the error.
pub fn mount_outcome_notice(label: &str, outcome: &Result<String, String>) -> (r: Notice)
    ensures
        r@ == match outcome {
            Ok(mount_point) => mount_success_view(label@, mount_point@),
            Err(error) => mount_error_view(label@, error@),
        },
{
    match outcome {
        Ok(mount_point) => mount_success_notice(label, mount_point.as_str()),
        Err(error) => mount_error_notice(label, error.as_str()),
    }
}

/// The notification that follows an unmount request: success, or the error.
pub fn unmount_outcome_notice(label: &str, outcome: &Result<(), String>) -> (r: Notice)
    ensures
        r@ == match outcome {
            Ok(()) => unmount_success_view(label@),
            Err(error) => unmount_error_view(label@, error@),
        },
{
    match outcome {
        Ok(()) => unmount_success_notice(label),
        Err(error) => unmount_error_notice(label, error.as_str()),
    }
}

} // verus!
