use vstd::prelude::*;
use crate::device::{device_views, Device, DeviceView};
use crate::text::{copy_text, copy_texts, same_text, texts};

verus! {

/// `i` is the first position of a device with object path `path`.
pub open spec fn path_at(s: Seq<DeviceView>, path: Seq<char>, i: int) -> bool {
    &&& 0 <= i < s.len()
    &&& s[i].object_path == path
    &&& forall|j: int| 0 <= j < i ==> (#[trigger] s[j]).object_path != path
}

/// The position of the first device with object path `path`.
pub open spec fn first_with_path(s: Seq<DeviceView>, path: Seq<char>) -> Option<int> {
    if exists|i: int| path_at(s, path, i) {
        Some(choose|i: int| path_at(s, path, i))
    } else {
        None
    }
}

/// Every device in the list is removable.
pub open spec fn only_removable(s: Seq<DeviceView>) -> bool {
    forall|i: int| 0 <= i < s.len() ==> (#[trigger] s[i]).is_removable()
}

/// The removable devices of a list, in order.
pub open spec fn removable_only(s: Seq<DeviceView>) -> Seq<DeviceView>
    decreases s.len(),
{
    if s.len() == 0 {
        Seq::empty()
    } else if s.last().is_removable() {
        removable_only(s.drop_last()).push(s.last())
    } else {
        removable_only(s.drop_last())
    }
}

/// The devices of a list whose object path is not `path`, in order.
pub open spec fn without_path(s: Seq<DeviceView>, path: Seq<char>) -> Seq<DeviceView>
    decreases s.len(),
{
    if s.len() == 0 {
        Seq::empty()
    } else if s.last().object_path == path {
        without_path(s.drop_last(), path)
    } else {
        without_path(s.drop_last(), path).push(s.last())
    }
}

/// A device with its mount points replaced.
pub open spec fn with_mount_points(d: DeviceView, m: Seq<Seq<char>>) -> DeviceView {
    DeviceView { filesystem_mount_points: m, ..d }
}

/// The list after the first device with `fresh`'s object path takes `fresh`'s mount points.
pub open spec fn refresh_one(s: Seq<DeviceView>, fresh: DeviceView) -> Seq<DeviceView> {
    match first_with_path(s, fresh.object_path) {
        Some(j) => s.update(j, with_mount_points(s[j], fresh.filesystem_mount_points)),
        None => s,
    }
}

/// The list after `refresh_one` with each of `all`, in order.
pub open spec fn refresh_all(s: Seq<DeviceView>, all: Seq<DeviceView>) -> Seq<DeviceView>
    decreases all.len(),
{
    if all.len() == 0 {
        s
    } else {
        refresh_one(refresh_all(s, all.drop_last()), all.last())
    }
}

/// The object path and display label of each mounted device on drive `drive`, in order.
pub open spec fn eject_targets_of(s: Seq<DeviceView>, drive: Seq<char>) -> Seq<(Seq<char>, Seq<char>)>
    decreases s.len(),
{
    if s.len() == 0 {
        Seq::empty()
    } else {
        let rest = eject_targets_of(s.drop_last(), drive);
        let d = s.last();
        if d.drive_id() == drive && d.is_mounted() {
            rest.push((d.object_path, d.display_label()))
        } else {
            rest
        }
    }
}

/// The display label of the first device with object path `path`, or `path` itself.
pub open spec fn label_for_path(s: Seq<DeviceView>, path: Seq<char>) -> Seq<char> {
    match first_with_path(s, path) {
        Some(i) => s[i].display_label(),
        None => path,
    }
}

/// The position of the first device with object path `path`.
pub fn find_path(v: &Vec<Device>, path: &str) -> (r: Option<usize>)
    ensures
        match r {
            Some(i) => first_with_path(device_views(v@), path@) == Some(i as int) && i < v.len(),
            None => first_with_path(device_views(v@), path@) is None,
        },
{
    let ghost s = device_views(v@);
    let n = v.len();
    for i in 0..n
        invariant
            n == v.len(),
            s == device_views(v@),
            forall|j: int| 0 <= j < i ==> (#[trigger] s[j]).object_path != path@,
    {
        if same_text(v[i].object_path.as_str(), path) {
            proof {
                assert(path_at(s, path@, i as int));
                let k = choose|k: int| path_at(s, path@, k);
                if k < i {
                    assert(s[k].object_path != path@);
                } else if i < k {
                    assert(s[i as int].object_path != path@);
                }
            }
            return Some(i);
        }
    }
    proof {
        assert forall|i: int| !path_at(s, path@, i) by {
            if 0 <= i < n {
                assert(s[i].object_path != path@);
            }
        }
    }
    None
}

/// A device that has just appeared and is tracked from now on.
#[derive(Debug, PartialEq, Eq)]
pub struct AddedDevice {
    /// The device as enumerated when it appeared.
    pub device: Device,
    /// The name to show for it.
    pub label: String,
    /// Whether it is to be mounted now: exactly when it is not mounted yet.
    pub automount: bool,
}

/// A partition to unmount when its drive is ejected.
#[derive(Debug, Clone, PartialEq, Eq)]
pub struct EjectTarget {
    pub object_path: String,
    pub label: String,
}

/// The views of a list of eject targets.
pub open spec fn target_views(v: Seq<EjectTarget>) -> Seq<(Seq<char>, Seq<char>)> {
    v.map_values(|t: EjectTarget| (t.object_path@, t.label@))
}

/// The removable devices that the daemon tracks and shows in the tray.
#[derive(Debug)]
pub struct DeviceRegistry {
    devices: Vec<Device>,
}

impl View for DeviceRegistry {
    type V = Seq<DeviceView>;

    closed spec fn view(&self) -> Seq<DeviceView> {
        device_views(self.devices@)
    }
}

impl DeviceRegistry {
    #[verifier::type_invariant]
    closed spec fn tracks_removable_only(self) -> bool {
        only_removable(device_views(self.devices@))
    }

    /// An empty registry.
    pub fn new() -> (r: Self)
        ensures
            r@ == Seq::<DeviceView>::empty(),
    {
        let r = DeviceRegistry { devices: Vec::new() };
        assert(device_views(r.devices@) =~= Seq::<DeviceView>::empty());
        r
    }

    /// The registry of the removable devices among those enumerated at start-up, in order.
    pub fn from_enumeration(all: &Vec<Device>) -> (r: Self)
        ensures
            r@ == removable_only(device_views(all@)),
            only_removable(r@),
    {
        let mut devices: Vec<Device> = Vec::new();
        let n = all.len();
        for i in 0..n
            invariant
                n == all.len(),
                device_views(devices@) == removable_only(device_views(all@).take(i as int)),
                only_removable(device_views(devices@)),
        {
            proof {
                assert(device_views(all@).take(i + 1).drop_last() =~= device_views(all@).take(
                    i as int,
                ));
            }
            if all[i].is_removable() {
                let ghost before = devices@;
                devices.push(all[i].clone());
                proof {
                    assert(device_views(devices@) =~= device_views(before).push(all@[i as int]@));
                }
            }
        }
        assert(device_views(all@).take(n as int) =~= device_views(all@));
        DeviceRegistry { devices }
    }

    /// The tracked devices, in the order they were added.
    pub fn devices(&self) -> (r: &Vec<Device>)
        ensures
            device_views(r@) == self@,
            only_removable(self@),
    {
        proof {
            use_type_invariant(self);
        }
        &self.devices
    }

    /// The number of tracked devices.
    pub fn len(&self) -> (r: usize)
        ensures
            r == self@.len(),
    {
        self.devices.len()
    }

    /// The name to show for the device at `path`: the display label of the first tracked
    /// device with that object path, or the path itself where none is tracked.
    pub fn label_for(&self, path: &str) -> (r: String)
        ensures
            r@ == label_for_path(self@, path@),
            forall|i: int|
                path_at(self@, path@, i) ==> r@ == if self@[i].label.len() == 0 {
                    self@[i].block_device
                } else {
                    self@[i].label
                },
            (forall|i: int| 0 <= i < self@.len() ==> (#[trigger] self@[i]).object_path != path@) ==> r@
                == path@,
    {
        proof {
            lemma_label_for_path(self@, path@);
        }
        match find_path(&self.devices, path) {
            Some(i) => self.devices[i].display_label(),
            None => String::from_str(path),
        }
    }

    /// A device appeared at `path`; `all` is the fresh enumeration. The first enumerated
    /// device with that path, if it is removable, is tracked from now on and returned
    /// with its label and whether to mount it; otherwise nothing changes.
    pub fn device_added(&mut self, path: &str, all: &Vec<Device>) -> (r: Option<AddedDevice>)
        ensures
            only_removable(final(self)@),
            match first_with_path(device_views(all@), path@) {
                Some(f) => if all@[f]@.is_removable() {
                    &&& final(self)@ == old(self)@.push(all@[f]@)
                    &&& r matches Some(a) && a.device@ == all@[f]@ && a.label@
                        == all@[f]@.display_label() && a.automount == !all@[f]@.is_mounted()
                } else {
                    final(self)@ == old(self)@ && r is None
                },
                None => final(self)@ == old(self)@ && r is None,
            },
    {
        proof {
            use_type_invariant(&*self);
        }
        match find_path(all, path) {
            Some(f) => {
                if all[f].is_removable() {
                    let label = all[f].display_label();
                    let automount = !all[f].is_mounted();
                    let mut devices: Vec<Device> = Vec::new();
                    std::mem::swap(&mut devices, &mut self.devices);
                    let ghost before = devices@;
                    devices.push(all[f].clone());
                    proof {
                        assert(device_views(devices@) =~= device_views(before).push(
                            all@[f as int]@,
                        ));
                    }
                    self.devices = devices;
                    Some(AddedDevice { device: all[f].clone(), label, automount })
                } else {
                    None
                }
            },
            None => None,
        }
    }

    /// A device at `path` went away: every tracked device with that object path is dropped,
    /// the others stay in order.
    pub fn device_removed(&mut self, path: &str)
        ensures
            final(self)@ == without_path(old(self)@, path@),
            only_removable(final(self)@),
    {
        proof {
            use_type_invariant(&*self);
        }
        let mut kept: Vec<Device> = Vec::new();
        let n = self.devices.len();
        let ghost s = device_views(self.devices@);
        for i in 0..n
            invariant
                n == self.devices.len(),
                s == device_views(self.devices@),
                only_removable(s),
                device_views(kept@) == without_path(s.take(i as int), path@),
                only_removable(device_views(kept@)),
        {
            proof {
                assert(s.take(i + 1).drop_last() =~= s.take(i as int));
            }
            if !same_text(self.devices[i].object_path.as_str(), path) {
                let ghost before = kept@;
                kept.push(self.devices[i].clone());
                proof {
                    assert(device_views(kept@) =~= device_views(before).push(s[i as int]));
                }
            }
        }
        assert(s.take(n as int) =~= s);
        self.devices = kept;
    }

    /// The first tracked device with `fresh`'s object path takes `fresh`'s mount points.
    fn take_mount_points(&mut self, fresh: &Device)
        ensures
            final(self)@ == refresh_one(old(self)@, fresh@),
            final(self)@.len() == old(self)@.len(),
            forall|j: int|
                path_at(old(self)@, fresh@.object_path, j) ==> (#[trigger] final(self)@[j]).filesystem_mount_points
                    == fresh@.filesystem_mount_points && final(self)@[j].object_path == old(self)@[j].object_path,
            forall|j: int|
                0 <= j < old(self)@.len() && !path_at(old(self)@, fresh@.object_path, j) ==> #[trigger] final(self)@[j] == old(self)@[j],
    {
        proof {
            use_type_invariant(&*self);
            lemma_refresh_one_sets_mount_points(self@, fresh@);
        }
        match find_path(&self.devices, fresh.object_path.as_str()) {
            Some(j) => {
                let mut d = self.devices[j].clone();
                d.filesystem_mount_points = copy_texts(&fresh.filesystem_mount_points);
                let mut devices: Vec<Device> = Vec::new();
                std::mem::swap(&mut devices, &mut self.devices);
                let ghost before = devices@;
                assert(d@ == with_mount_points(
                    device_views(before)[j as int],
                    fresh@.filesystem_mount_points,
                ));
                devices.set(j, d);
                proof {
                    assert(device_views(devices@) =~= device_views(before).update(j as int, d@));
                }
                self.devices = devices;
            },
            None => {},
        }
    }

    /// After a mount or unmount of `path`, with `all` the fresh enumeration: where a device
    /// with that path is enumerated, the first tracked device with that path takes its mount
    /// points, and the result says the tray is to be updated.
    pub fn refresh_mount_points(&mut self, path: &str, all: &Vec<Device>) -> (r: bool)
        ensures
            only_removable(final(self)@),
            match first_with_path(device_views(all@), path@) {
                Some(f) => r && final(self)@ == refresh_one(old(self)@, all@[f]@),
                None => !r && final(self)@ == old(self)@,
            },
            r <==> exists|f: int| path_at(device_views(all@), path@, f),
            final(self)@.len() == old(self)@.len(),
            forall|f: int, j: int|
                path_at(device_views(all@), path@, f) && path_at(old(self)@, path@, j) ==> (#[trigger] final(self)@[j]).filesystem_mount_points == (#[trigger] all@[f])@.filesystem_mount_points,
            forall|j: int|
                0 <= j < old(self)@.len() && !path_at(old(self)@, path@, j) ==> #[trigger] final(self)@[j]
                    == old(self)@[j],
    {
        proof {
            lemma_first_with_path(device_views(all@), path@);
        }
        match find_path(all, path) {
            Some(f) => {
                assert(device_views(all@)[f as int] == all@[f as int]@);
                self.take_mount_points(&all[f]);
                proof {
                    use_type_invariant(&*self);
                    assert forall|g: int| path_at(device_views(all@), path@, g) implies g == f by {
                        lemma_path_at_unique(device_views(all@), path@, g, f as int);
                    }
                }
                true
            },
            None => {
                proof {
                    use_type_invariant(&*self);
                }
                false
            },
        }
    }

    /// After an eject, with `all` the fresh enumeration: each enumerated device hands its
    /// mount points to the first tracked device with its object path, in order.
    pub fn refresh_all_mount_points(&mut self, all: &Vec<Device>)
        ensures
            final(self)@ == refresh_all(old(self)@, device_views(all@)),
            only_removable(final(self)@),
            final(self)@.len() == old(self)@.len(),
    {
        let ghost start = self@;
        let n = all.len();
        for i in 0..n
            invariant
                n == all.len(),
                self@ == refresh_all(start, device_views(all@).take(i as int)),
        {
            proof {
                assert(device_views(all@).take(i + 1).drop_last() =~= device_views(all@).take(
                    i as int,
                ));
            }
            self.take_mount_points(&all[i]);
        }
        assert(device_views(all@).take(n as int) =~= device_views(all@));
        proof {
            use_type_invariant(&*self);
            lemma_refresh_all_keeps_devices(start, device_views(all@));
        }
    }

    /// The partitions to unmount when drive `drive` is ejected: the mounted tracked devices
    /// on that drive, in order, with their labels.
    pub fn eject_targets(&self, drive: &str) -> (r: Vec<EjectTarget>)
        ensures
            target_views(r@) == eject_targets_of(self@, drive@),
    {
        let mut targets: Vec<EjectTarget> = Vec::new();
        let n = self.devices.len();
        let ghost s = device_views(self.devices@);
        for i in 0..n
            invariant
                n == self.devices.len(),
                s == device_views(self.devices@),
                target_views(targets@) == eject_targets_of(s.take(i as int), drive@),
        {
            proof {
                assert(s.take(i + 1).drop_last() =~= s.take(i as int));
            }
            let d = &self.devices[i];
            if same_text(d.drive_id(), drive) && d.is_mounted() {
                let t = EjectTarget { object_path: copy_text(&d.object_path), label: d.display_label() };
                let ghost before = targets@;
                targets.push(t);
                proof {
                    assert(target_views(targets@) =~= target_views(before).push(
                        (s[i as int].object_path, s[i as int].display_label()),
                    ));
                }
            }
        }
        assert(s.take(n as int) =~= s);
        targets
    }
}

/// Every unmount of an eject succeeded.
pub open spec fn all_succeeded(outcomes: Seq<Result<(), String>>) -> bool {
    forall|i: int| 0 <= i < outcomes.len() ==> (#[trigger] outcomes[i]) is Ok
}

/// The name under which a finished eject is announced, given the outcome of each partition's
/// unmount: the first partition's label with " (all partitions)", where every unmount succeeded
/// and there was something to unmount.
pub fn eject_summary(targets: &Vec<EjectTarget>, outcomes: &Vec<Result<(), String>>) -> (r: Option<String>)
    ensures
        r is Some <==> (all_succeeded(outcomes@) && targets.len() > 0),
        r matches Some(s) ==> s@ == targets@[0].label@ + " (all partitions)"@,
        (exists|i: int| 0 <= i < outcomes@.len() && (#[trigger] outcomes@[i]) is Err) ==> r is None,
        (forall|i: int| 0 <= i < outcomes@.len() ==> (#[trigger] outcomes@[i]) is Ok) && targets.len()
            > 0 ==> r is Some,
{
    let mut all_ok = true;
    let n = outcomes.len();
    for i in 0..n
        invariant
            n == outcomes.len(),
            all_ok == forall|j: int| 0 <= j < i ==> (#[trigger] outcomes@[j]) is Ok,
    {
        if outcomes[i].is_err() {
            all_ok = false;
        }
    }
    if all_ok && targets.len() > 0 {
        let mut s = copy_text(&targets[0].label);
        s.append(" (all partitions)");
        Some(s)
    } else {
        None
    }
}

/// Once a device is removed, no tracked device has its object path, and every tracked device
/// with another object path is still tracked.
pub proof fn lemma_removed_path_is_gone(s: Seq<DeviceView>, path: Seq<char>)
    ensures
        forall|i: int|
            0 <= i < without_path(s, path).len() ==> (#[trigger] without_path(s, path)[i]).object_path
                != path,
        forall|i: int|
            0 <= i < s.len() && (#[trigger] s[i]).object_path != path ==> without_path(
                s,
                path,
            ).contains(s[i]),
        without_path(s, path).len() <= s.len(),
    decreases s.len(),
{
    if s.len() > 0 {
        let t = s.drop_last();
        lemma_removed_path_is_gone(t, path);
        assert forall|i: int|
            0 <= i < s.len() && (#[trigger] s[i]).object_path != path implies without_path(
            s,
            path,
        ).contains(s[i]) by {
            if i < s.len() - 1 {
                assert(t[i] == s[i]);
                let k = choose|k: int| 0 <= k < without_path(t, path).len() && without_path(t, path)[k] == t[i];
                if s.last().object_path != path {
                    assert(without_path(s, path)[k] == s[i]);
                }
            } else {
                let w = without_path(s, path);
                assert(w[w.len() - 1] == s[i]);
            }
        }
    }
}

/// Removing a path leaves a list without that path as it is.
pub proof fn lemma_remove_absent_path(s: Seq<DeviceView>, path: Seq<char>)
    requires
        forall|i: int| 0 <= i < s.len() ==> (#[trigger] s[i]).object_path != path,
    ensures
        without_path(s, path) == s,
    decreases s.len(),
{
    if s.len() > 0 {
        lemma_remove_absent_path(s.drop_last(), path);
        assert(s.drop_last().push(s.last()) =~= s);
    }
}

/// Tracking a newly added device under a path that no tracked device had, and then removing
/// that path, gives back the devices tracked before.
pub proof fn lemma_add_then_remove(s: Seq<DeviceView>, d: DeviceView)
    requires
        forall|i: int| 0 <= i < s.len() ==> (#[trigger] s[i]).object_path != d.object_path,
    ensures
        without_path(s.push(d), d.object_path) == s,
{
    assert(s.push(d).drop_last() =~= s);
    lemma_remove_absent_path(s, d.object_path);
}

/// Refreshing mount points keeps every device in its place and changes nothing but mount points.
pub proof fn lemma_refresh_one_keeps_devices(s: Seq<DeviceView>, fresh: DeviceView)
    ensures
        refresh_one(s, fresh).len() == s.len(),
        forall|i: int|
            0 <= i < s.len() ==> #[trigger] refresh_one(s, fresh)[i] == with_mount_points(
                s[i],
                refresh_one(s, fresh)[i].filesystem_mount_points,
            ),
{
    match first_with_path(s, fresh.object_path) {
        Some(j) => {
            assert(path_at(s, fresh.object_path, j));
        },
        None => {
            assert forall|i: int| 0 <= i < s.len() implies #[trigger] s[i] == with_mount_points(
                s[i],
                s[i].filesystem_mount_points,
            ) by {}
        },
    }
}

/// Refreshing mount points after an eject keeps every device in its place, with its object
/// path, drive, labels, hints and type; only mount points change.
pub proof fn lemma_refresh_all_keeps_devices(s: Seq<DeviceView>, all: Seq<DeviceView>)
    ensures
        refresh_all(s, all).len() == s.len(),
        forall|i: int|
            0 <= i < s.len() ==> #[trigger] refresh_all(s, all)[i] == with_mount_points(
                s[i],
                refresh_all(s, all)[i].filesystem_mount_points,
            ),
    decreases all.len(),
{
    if all.len() > 0 {
        let mid = refresh_all(s, all.drop_last());
        lemma_refresh_all_keeps_devices(s, all.drop_last());
        lemma_refresh_one_keeps_devices(mid, all.last());
        assert forall|i: int| 0 <= i < s.len() implies #[trigger] refresh_all(s, all)[i]
            == with_mount_points(s[i], refresh_all(s, all)[i].filesystem_mount_points) by {
            assert(mid[i] == with_mount_points(s[i], mid[i].filesystem_mount_points));
            assert(refresh_one(mid, all.last())[i] == with_mount_points(
                mid[i],
                refresh_one(mid, all.last())[i].filesystem_mount_points,
            ));
        }
    }
}

/// Every partition chosen for an eject is a tracked, mounted device on the ejected drive.
pub proof fn lemma_eject_targets_are_mounted_on_drive(s: Seq<DeviceView>, drive: Seq<char>)
    ensures
        eject_targets_of(s, drive).len() <= s.len(),
        forall|k: int|
            0 <= k < eject_targets_of(s, drive).len() ==> exists|i: int|
                0 <= i < s.len() && (#[trigger] s[i]).object_path == (#[trigger] eject_targets_of(
                    s,
                    drive,
                )[k]).0 && s[i].drive_id() == drive && s[i].is_mounted() && s[i].display_label()
                    == eject_targets_of(s, drive)[k].1,
    decreases s.len(),
{
    if s.len() > 0 {
        let t = s.drop_last();
        lemma_eject_targets_are_mounted_on_drive(t, drive);
        let e = eject_targets_of(s, drive);
        assert forall|k: int| 0 <= k < e.len() implies exists|i: int|
            0 <= i < s.len() && (#[trigger] s[i]).object_path == (#[trigger] e[k]).0
                && s[i].drive_id() == drive && s[i].is_mounted() && s[i].display_label()
                == e[k].1 by {
            if k < eject_targets_of(t, drive).len() {
                assert(e[k] == eject_targets_of(t, drive)[k]);
                let i = choose|i: int|
                    0 <= i < t.len() && (#[trigger] t[i]).object_path == (#[trigger] eject_targets_of(
                        t,
                        drive,
                    )[k]).0 && t[i].drive_id() == drive && t[i].is_mounted() && t[i].display_label()
                        == eject_targets_of(t, drive)[k].1;
                assert(s[i] == t[i]);
            } else {
                assert(s[s.len() - 1] == s.last());
            }
        }
    }
}

/// The first position of a path is unique.
pub proof fn lemma_path_at_unique(s: Seq<DeviceView>, path: Seq<char>, i: int, k: int)
    requires
        path_at(s, path, i),
        path_at(s, path, k),
    ensures
        i == k,
{
    if i < k {
        assert(s[i].object_path != path);
    } else if k < i {
        assert(s[k].object_path != path);
    }
}

/// `first_with_path` names the first position of the path, if any.
pub proof fn lemma_first_with_path(s: Seq<DeviceView>, path: Seq<char>)
    ensures
        forall|i: int| path_at(s, path, i) ==> first_with_path(s, path) == Some(i),
        (forall|i: int| 0 <= i < s.len() ==> (#[trigger] s[i]).object_path != path) ==> first_with_path(
            s,
            path,
        ) is None,
        first_with_path(s, path) matches Some(i) ==> path_at(s, path, i),
{
    assert forall|i: int| path_at(s, path, i) implies first_with_path(s, path) == Some(i) by {
        let k = choose|k: int| path_at(s, path, k);
        lemma_path_at_unique(s, path, i, k);
    }
}

/// A mount-point refresh for a fresh device: the first tracked device with its object path
/// takes exactly the fresh mount points (an empty list too) and keeps everything else; every
/// other tracked device is left as it was.
pub proof fn lemma_refresh_one_sets_mount_points(s: Seq<DeviceView>, fresh: DeviceView)
    ensures
        refresh_one(s, fresh).len() == s.len(),
        forall|j: int|
            path_at(s, fresh.object_path, j) ==> {
                let d = #[trigger] refresh_one(s, fresh)[j];
                &&& d.filesystem_mount_points == fresh.filesystem_mount_points
                &&& d.object_path == s[j].object_path
                &&& d.block_device == s[j].block_device
                &&& d.label == s[j].label
                &&& d.size == s[j].size
                &&& d.hint_auto == s[j].hint_auto
                &&& d.hint_system == s[j].hint_system
                &&& d.drive == s[j].drive
                &&& d.device_type == s[j].device_type
                &&& d.cleartext_device == s[j].cleartext_device
                &&& d.crypto_backing_device == s[j].crypto_backing_device
            },
        forall|j: int|
            0 <= j < s.len() && !path_at(s, fresh.object_path, j) ==> #[trigger] refresh_one(s, fresh)[j]
                == s[j],
{
    lemma_first_with_path(s, fresh.object_path);
    match first_with_path(s, fresh.object_path) {
        Some(j0) => {
            assert forall|j: int|
                0 <= j < s.len() && !path_at(s, fresh.object_path, j) implies #[trigger] refresh_one(
                s,
                fresh,
            )[j] == s[j] by {
                assert(j != j0);
            }
            assert forall|j: int| path_at(s, fresh.object_path, j) implies (#[trigger] refresh_one(
                s,
                fresh,
            )[j]).filesystem_mount_points == fresh.filesystem_mount_points by {
                lemma_path_at_unique(s, fresh.object_path, j, j0);
            }
        },
        None => {},
    }
}

/// Lists with the same object paths, position by position, have the same first positions.
proof fn lemma_same_paths(s: Seq<DeviceView>, m: Seq<DeviceView>, p: Seq<char>, j: int)
    requires
        m.len() == s.len(),
        forall|k: int| 0 <= k < s.len() ==> (#[trigger] m[k]).object_path == s[k].object_path,
    ensures
        path_at(m, p, j) == path_at(s, p, j),
{
    if 0 <= j < s.len() {
        if path_at(s, p, j) {
            assert forall|k: int| 0 <= k < j implies (#[trigger] m[k]).object_path != p by {
                assert(s[k].object_path != p);
            }
        }
        if path_at(m, p, j) {
            assert forall|k: int| 0 <= k < j implies (#[trigger] s[k]).object_path != p by {
                assert(m[k].object_path != p);
            }
        }
    }
}

/// One step of an eject's refresh, seen from a tracked device at `j`.
proof fn lemma_refresh_all_step(s: Seq<DeviceView>, all: Seq<DeviceView>, j: int)
    requires
        all.len() > 0,
        0 <= j < s.len(),
        refresh_all(s, all.drop_last()).len() == s.len(),
        forall|k: int|
            0 <= k < s.len() ==> (#[trigger] refresh_all(s, all.drop_last())[k]).object_path
                == s[k].object_path,
    ensures
        path_at(s, all.last().object_path, j) ==> refresh_all(s, all)[j].filesystem_mount_points
            == all.last().filesystem_mount_points,
        !path_at(s, all.last().object_path, j) ==> refresh_all(s, all)[j] == refresh_all(
            s,
            all.drop_last(),
        )[j],
{
    let mid = refresh_all(s, all.drop_last());
    lemma_refresh_one_sets_mount_points(mid, all.last());
    lemma_same_paths(s, mid, all.last().object_path, j);
}

/// After an eject's refresh: a tracked device that is the first with its object path has the
/// mount points of the last enumerated device with that path, or keeps its own where none is
/// enumerated; every later tracked device with a repeated path is left as it was.
#[verifier::rlimit(40)]
pub proof fn lemma_refresh_all_effect(s: Seq<DeviceView>, all: Seq<DeviceView>, j: int)
    requires
        0 <= j < s.len(),
    ensures
        refresh_all(s, all).len() == s.len(),
        refresh_all(s, all)[j].object_path == s[j].object_path,
        forall|i: int|
            path_at(s, s[j].object_path, j) && 0 <= i < all.len() && (#[trigger] all[i]).object_path
                == s[j].object_path && (forall|k: int|
                i < k < all.len() ==> (#[trigger] all[k]).object_path != s[j].object_path)
                ==> refresh_all(s, all)[j].filesystem_mount_points == all[i].filesystem_mount_points,
        (forall|i: int| 0 <= i < all.len() ==> (#[trigger] all[i]).object_path != s[j].object_path)
            ==> refresh_all(s, all)[j] == s[j],
        !path_at(s, s[j].object_path, j) ==> refresh_all(s, all)[j] == s[j],
    decreases all.len(),
{
    lemma_refresh_all_keeps_devices(s, all);
    if all.len() > 0 {
        let t = all.drop_last();
        let f = all.last();
        lemma_refresh_all_keeps_devices(s, t);
        assert forall|k: int| 0 <= k < s.len() implies (#[trigger] refresh_all(s, t)[k]).object_path
            == s[k].object_path by {
            lemma_refresh_all_keeps_devices(s, t);
        }
        lemma_refresh_all_effect(s, t, j);
        lemma_refresh_all_step(s, all, j);
        assert forall|i: int|
            path_at(s, s[j].object_path, j) && 0 <= i < all.len() && (#[trigger] all[i]).object_path
                == s[j].object_path && (forall|k: int|
                i < k < all.len() ==> (#[trigger] all[k]).object_path != s[j].object_path) implies refresh_all(
            s,
            all,
        )[j].filesystem_mount_points == all[i].filesystem_mount_points by {
            if i < all.len() - 1 {
                assert(all[all.len() - 1].object_path != s[j].object_path);
                assert(t[i] == all[i]);
                assert forall|k: int| i < k < t.len() implies (#[trigger] t[k]).object_path
                    != s[j].object_path by {
                    assert(t[k] == all[k]);
                }
            }
        }
        if forall|i: int| 0 <= i < all.len() ==> (#[trigger] all[i]).object_path != s[j].object_path {
            assert(all[all.len() - 1].object_path != s[j].object_path);
            assert forall|i: int| 0 <= i < t.len() implies (#[trigger] t[i]).object_path
                != s[j].object_path by {
                assert(t[i] == all[i]);
            }
        }
        if !path_at(s, s[j].object_path, j) {
            assert(!path_at(s, f.object_path, j));
        }
    }
}

/// The name for a path is the label of the first tracked device with that object path, or its
/// block device where the label is empty, whatever drive it is on; where no tracked device has
/// that object path, it is the path itself.
pub proof fn lemma_label_for_path(s: Seq<DeviceView>, path: Seq<char>)
    ensures
        forall|i: int|
            path_at(s, path, i) ==> label_for_path(s, path) == if s[i].label.len() == 0 {
                s[i].block_device
            } else {
                s[i].label
            },
        (forall|i: int| 0 <= i < s.len() ==> (#[trigger] s[i]).object_path != path) ==> label_for_path(
            s,
            path,
        ) == path,
{
    lemma_first_with_path(s, path);
}

/// The summary exists exactly when every unmount succeeded: one failure, anywhere, rules it out.
pub proof fn lemma_all_succeeded(outcomes: Seq<Result<(), String>>)
    ensures
        all_succeeded(outcomes) <==> forall|i: int| 0 <= i < outcomes.len() ==> (#[trigger] outcomes[i]) is Ok,
        (exists|i: int| 0 <= i < outcomes.len() && (#[trigger] outcomes[i]) is Err) ==> !all_succeeded(outcomes),
{
}

/// Every mounted tracked device on the ejected drive is among the partitions to unmount, with its
/// label (or its block device where the label is empty); none on another drive or unmounted is.
pub proof fn lemma_eject_targets_complete(s: Seq<DeviceView>, drive: Seq<char>)
    ensures
        forall|i: int|
            0 <= i < s.len() && (#[trigger] s[i]).drive_id() == drive && s[i].filesystem_mount_points.len()
                > 0 ==> eject_targets_of(s, drive).contains(
                (
                    s[i].object_path,
                    if s[i].label.len() == 0 {
                        s[i].block_device
                    } else {
                        s[i].label
                    },
                ),
            ),
        forall|k: int|
            0 <= k < eject_targets_of(s, drive).len() ==> exists|i: int|
                0 <= i < s.len() && (#[trigger] s[i]).object_path == (#[trigger] eject_targets_of(
                    s,
                    drive,
                )[k]).0 && s[i].drive_id() == drive && s[i].filesystem_mount_points.len() > 0,
    decreases s.len(),
{
    lemma_eject_targets_are_mounted_on_drive(s, drive);
    if s.len() > 0 {
        let t = s.drop_last();
        lemma_eject_targets_complete(t, drive);
        let e = eject_targets_of(s, drive);
        let et = eject_targets_of(t, drive);
        assert forall|i: int|
            0 <= i < s.len() && (#[trigger] s[i]).drive_id() == drive && s[i].filesystem_mount_points.len()
                > 0 implies e.contains(
            (
                s[i].object_path,
                if s[i].label.len() == 0 {
                    s[i].block_device
                } else {
                    s[i].label
                },
            ),
        ) by {
            if i < s.len() - 1 {
                assert(t[i] == s[i]);
                let x = (
                    s[i].object_path,
                    if s[i].label.len() == 0 {
                        s[i].block_device
                    } else {
                        s[i].label
                    },
                );
                let k = choose|k: int| 0 <= k < et.len() && et[k] == x;
                assert(e[k] == x);
            } else {
                assert(e[e.len() - 1] == (s.last().object_path, s.last().display_label()));
            }
        }
    }
}

} // verus!
