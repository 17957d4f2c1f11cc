use vstd::prelude::*;
use crate::device::{
    device_views, opt_names_object, path_names_object, Device, DeviceType, DeviceView,
};
use crate::properties::{
    bool_property, byte_string_property, get_property_bool, get_property_byte_array,
    get_property_mount_points, get_property_object_path, get_property_string, get_property_u64,
    mount_points_property, object_path_property, string_property, u64_property, Properties,
    lookup, mount_points_key, PropValue, lemma_path_list_non_empty,
};
use crate::text::{copy_text, same_text, texts};

verus! {

/// One D-Bus interface of a managed object, with its properties.
#[derive(Debug, PartialEq)]
pub struct Interface {
    pub name: String,
    pub props: Properties,
}

/// An object that the udisks2 object manager reports, with its interfaces.
#[derive(Debug, PartialEq)]
pub struct ManagedObject {
    pub path: String,
    pub interfaces: Vec<Interface>,
}

pub open spec fn block_interface() -> Seq<char> {
    "org.freedesktop.UDisks2.Block"@
}

pub open spec fn filesystem_interface() -> Seq<char> {
    "org.freedesktop.UDisks2.Filesystem"@
}

pub open spec fn encrypted_interface() -> Seq<char> {
    "org.freedesktop.UDisks2.Encrypted"@
}

/// `i` is the first position of interface `name`.
pub open spec fn first_interface_at(ifaces: Seq<Interface>, name: Seq<char>, i: int) -> bool {
    &&& 0 <= i < ifaces.len()
    &&& ifaces[i].name@ == name
    &&& forall|j: int| 0 <= j < i ==> (#[trigger] ifaces[j]).name@ != name
}

/// The properties of interface `name` of an object, if it has that interface.
pub open spec fn interface_props(ifaces: Seq<Interface>, name: Seq<char>) -> Option<Properties> {
    if exists|i: int| first_interface_at(ifaces, name, i) {
        Some(ifaces[choose|i: int| first_interface_at(ifaces, name, i)].props)
    } else {
        None
    }
}

pub open spec fn or_empty(s: Option<Seq<char>>) -> Seq<char> {
    match s {
        Some(t) => t,
        None => Seq::empty(),
    }
}

/// How an object is classified: its type, cleartext device and crypto backing device;
/// `None` for an object that is neither a filesystem nor an encrypted container.
pub open spec fn classify(ifaces: Seq<Interface>, block: Properties) -> Option<
    (DeviceType, Option<Seq<char>>, Option<Seq<char>>),
> {
    match interface_props(ifaces, encrypted_interface()) {
        Some(enc) => Some(
            (DeviceType::Encrypted, object_path_property(enc, "CleartextDevice"@), None),
        ),
        None => match interface_props(ifaces, filesystem_interface()) {
            Some(_) => {
                let backing = object_path_property(block, "CryptoBackingDevice"@);
                if opt_names_object(backing) {
                    Some((DeviceType::Cleartext, None, backing))
                } else {
                    Some((DeviceType::Filesystem, None, None))
                }
            },
            None => None,
        },
    }
}

/// The device that an object stands for: objects without a block interface, and block
/// objects that are neither filesystems nor encrypted containers, stand for none.
pub open spec fn device_of(obj: ManagedObject) -> Option<DeviceView> {
    let ifaces = obj.interfaces@;
    match interface_props(ifaces, block_interface()) {
        None => None,
        Some(block) => match classify(ifaces, block) {
            None => None,
            Some(c) => Some(
                DeviceView {
                    object_path: obj.path@,
                    block_device: or_empty(byte_string_property(block, "Device"@)),
                    label: or_empty(string_property(block, "IdLabel"@)),
                    size: match u64_property(block, "Size"@) {
                        Some(n) => n,
                        None => 0,
                    },
                    filesystem_mount_points: match interface_props(ifaces, filesystem_interface()) {
                        Some(fs) => match mount_points_property(fs) {
                            Some(l) => l,
                            None => Seq::empty(),
                        },
                        None => Seq::empty(),
                    },
                    hint_auto: match bool_property(block, "HintAuto"@) {
                        Some(b) => b,
                        None => false,
                    },
                    hint_system: match bool_property(block, "HintSystem"@) {
                        Some(b) => b,
                        None => true,
                    },
                    drive: object_path_property(block, "Drive"@),
                    device_type: c.0,
                    cleartext_device: c.1,
                    crypto_backing_device: c.2,
                },
            ),
        },
    }
}

/// The devices that a list of objects stands for, in order.
pub open spec fn devices_of(objs: Seq<ManagedObject>) -> Seq<DeviceView>
    decreases objs.len(),
{
    if objs.len() == 0 {
        Seq::empty()
    } else {
        let rest = devices_of(objs.drop_last());
        match device_of(objs.last()) {
            Some(d) => rest.push(d),
            None => rest,
        }
    }
}

/// The first interface named `name`.
pub fn find_interface<'a>(ifaces: &'a Vec<Interface>, name: &str) -> (r: Option<&'a Properties>)
    ensures
        match r {
            Some(p) => interface_props(ifaces@, name@) == Some(*p),
            None => interface_props(ifaces@, name@) is None,
        },
{
    let n = ifaces.len();
    for i in 0..n
        invariant
            n == ifaces.len(),
            forall|j: int| 0 <= j < i ==> (#[trigger] ifaces@[j]).name@ != name@,
    {
        if same_text(ifaces[i].name.as_str(), name) {
            proof {
                assert(first_interface_at(ifaces@, name@, i as int));
                let k = choose|k: int| first_interface_at(ifaces@, name@, k);
                if k < i {
                    assert(ifaces@[k].name@ != name@);
                } else if i < k {
                    assert(ifaces@[i as int].name@ != name@);
                }
            }
            return Some(&ifaces[i].props);
        }
    }
    proof {
        assert forall|i: int| !first_interface_at(ifaces@, name@, i) by {
            if 0 <= i < n {
                assert(ifaces@[i].name@ != name@);
            }
        }
    }
    None
}

/// Builds the device that an object stands for, if any.
pub fn device_from_object(obj: &ManagedObject) -> (r: Option<Device>)
    ensures
        match r {
            Some(d) => device_of(*obj) == Some(d@),
            None => device_of(*obj) is None,
        },
        r matches Some(d) ==> d@.filesystem_mount_points == match interface_props(
            obj.interfaces@,
            filesystem_interface(),
        ) {
            Some(f) => match mount_points_property(f) {
                Some(l) => l,
                None => Seq::empty(),
            },
            None => Seq::empty(),
        },
{
    proof {
        reveal_strlit("org.freedesktop.UDisks2.Block");
        reveal_strlit("org.freedesktop.UDisks2.Filesystem");
        reveal_strlit("org.freedesktop.UDisks2.Encrypted");
        reveal_strlit("CleartextDevice");
        reveal_strlit("CryptoBackingDevice");
        reveal_strlit("Device");
        reveal_strlit("IdLabel");
        reveal_strlit("Size");
        reveal_strlit("HintAuto");
        reveal_strlit("HintSystem");
        reveal_strlit("Drive");
    }
    let block = match find_interface(&obj.interfaces, "org.freedesktop.UDisks2.Block") {
        Some(p) => p,
        None => return None,
    };
    let filesystem = find_interface(&obj.interfaces, "org.freedesktop.UDisks2.Filesystem");
    let encrypted = find_interface(&obj.interfaces, "org.freedesktop.UDisks2.Encrypted");
    let (device_type, cleartext_device, crypto_backing_device) = match encrypted {
        Some(enc) => (DeviceType::Encrypted, get_property_object_path(enc, "CleartextDevice"), None),
        None => match filesystem {
            Some(_) => {
                let backing = get_property_object_path(block, "CryptoBackingDevice");
                let is_backed = match &backing {
                    Some(p) => path_names_object(p.as_str()),
                    None => false,
                };
                if is_backed {
                    (DeviceType::Cleartext, None, backing)
                } else {
                    (DeviceType::Filesystem, None, None)
                }
            },
            None => return None,
        },
    };
    let block_device = match get_property_byte_array(block, "Device") {
        Some(s) => s,
        None => String::new(),
    };
    let label = match get_property_string(block, "IdLabel") {
        Some(s) => s,
        None => String::new(),
    };
    let size = match get_property_u64(block, "Size") {
        Some(n) => n,
        None => 0,
    };
    let hint_auto = match get_property_bool(block, "HintAuto") {
        Some(b) => b,
        None => false,
    };
    let hint_system = match get_property_bool(block, "HintSystem") {
        Some(b) => b,
        None => true,
    };
    let drive = get_property_object_path(block, "Drive");
    let filesystem_mount_points = match filesystem {
        Some(fs) => match get_property_mount_points(fs) {
            Some(l) => l,
            None => Vec::new(),
        },
        None => Vec::new(),
    };
    let d = Device {
        object_path: copy_text(&obj.path),
        block_device,
        label,
        size,
        filesystem_mount_points,
        hint_auto,
        hint_system,
        drive,
        device_type,
        cleartext_device,
        crypto_backing_device,
    };
    proof {
        assert(texts(Seq::<String>::empty()) =~= Seq::<Seq<char>>::empty());
    }
    Some(d)
}

/// The devices that the object manager's objects stand for, in the order given.
pub fn devices_from_objects(objects: &Vec<ManagedObject>) -> (r: Vec<Device>)
    ensures
        device_views(r@) == devices_of(objects@),
{
    let mut devices: Vec<Device> = Vec::new();
    let n = objects.len();
    for i in 0..n
        invariant
            n == objects.len(),
            device_views(devices@) == devices_of(objects@.take(i as int)),
    {
        proof {
            assert(objects@.take(i + 1).drop_last() =~= objects@.take(i as int));
        }
        match device_from_object(&objects[i]) {
            Some(d) => {
                let ghost before = devices@;
                devices.push(d);
                proof {
                    assert(device_views(devices@) =~= device_views(before).push(d@));
                }
            },
            None => {},
        }
    }
    assert(objects@.take(n as int) =~= objects@);
    devices
}

/// Whether the interfaces named in an added or removed signal include the block interface,
/// the signals that the daemon passes on as device events.
pub fn announces_block_device(interface_names: &Vec<String>) -> (r: bool)
    ensures
        r == texts(interface_names@).contains(block_interface()),
{
    proof {
        reveal_strlit("org.freedesktop.UDisks2.Block");
    }
    let n = interface_names.len();
    for i in 0..n
        invariant
            n == interface_names.len(),
            forall|j: int| 0 <= j < i ==> (#[trigger] interface_names@[j])@ != block_interface(),
    {
        if same_text(interface_names[i].as_str(), "org.freedesktop.UDisks2.Block") {
            assert(texts(interface_names@)[i as int] == block_interface());
            return true;
        }
    }
    proof {
        if texts(interface_names@).contains(block_interface()) {
            let k = choose|k: int| 0 <= k < n && texts(interface_names@)[k] == block_interface();
            assert(interface_names@[k]@ != block_interface());
        }
    }
    false
}

/// What an enumerated device's type says about its object: only objects with a block
/// interface stand for devices; a device is an encrypted container exactly when its object has
/// the encrypted interface; otherwise its object has a filesystem interface, and it is a
/// cleartext device exactly when its block names a crypto backing device; no enumerated
/// device is of the other type.
pub proof fn lemma_device_classification(obj: ManagedObject)
    ensures
        device_of(obj) matches Some(d) ==> {
            &&& interface_props(obj.interfaces@, block_interface()) is Some
            &&& d.device_type != DeviceType::Other
            &&& (d.is_encrypted() <==> interface_props(obj.interfaces@, encrypted_interface()) is Some)
            &&& (!d.is_encrypted() ==> interface_props(obj.interfaces@, filesystem_interface()) is Some)
            &&& (d.is_cleartext() <==> !d.is_encrypted() && opt_names_object(
                object_path_property(
                    interface_props(obj.interfaces@, block_interface())->0,
                    "CryptoBackingDevice"@,
                ),
            ))
            &&& (d.is_cleartext() ==> d.crypto_backing_device == object_path_property(
                interface_props(obj.interfaces@, block_interface())->0,
                "CryptoBackingDevice"@,
            ))
            &&& (!d.is_encrypted() ==> d.cleartext_device is None)
        },
{
}

/// An object stands for a device when it has the block interface and a filesystem or an
/// encrypted interface.
pub open spec fn stands_for_device(obj: ManagedObject) -> bool {
    &&& interface_props(obj.interfaces@, block_interface()) is Some
    &&& (interface_props(obj.interfaces@, filesystem_interface()) is Some || interface_props(
        obj.interfaces@,
        encrypted_interface(),
    ) is Some)
}

/// The paths of the objects that stand for devices, in order.
pub open spec fn device_object_paths(objs: Seq<ManagedObject>) -> Seq<Seq<char>>
    decreases objs.len(),
{
    if objs.len() == 0 {
        Seq::empty()
    } else if stands_for_device(objs.last()) {
        device_object_paths(objs.drop_last()).push(objs.last().path@)
    } else {
        device_object_paths(objs.drop_last())
    }
}

/// `q` is the path of an object that stands for a device.
pub open spec fn is_device_object_path(objs: Seq<ManagedObject>, q: Seq<char>) -> bool {
    exists|i: int| 0 <= i < objs.len() && stands_for_device(objs[i]) && objs[i].path@ == q
}

/// An object stands for a device exactly when it has the block interface and a filesystem or an
/// encrypted interface; the device keeps the object's path.
pub proof fn lemma_device_of_exactly(obj: ManagedObject)
    ensures
        device_of(obj) is Some <==> stands_for_device(obj),
        device_of(obj) matches Some(d) ==> d.object_path == obj.path@,
{
}

/// The enumerated devices are, in order, exactly the objects that have the block interface and a
/// filesystem or an encrypted interface, each with that object's path; where the objects' paths
/// are distinct, as those of a map are, so are the devices' paths.
pub proof fn lemma_enumerated_devices(objs: Seq<ManagedObject>)
    ensures
        devices_of(objs).map_values(|d: DeviceView| d.object_path) == device_object_paths(objs),
        objs.map_values(|o: ManagedObject| o.path@).no_duplicates() ==> device_object_paths(
            objs,
        ).no_duplicates(),
        forall|k: int|
            0 <= k < device_object_paths(objs).len() ==> is_device_object_path(
                objs,
                #[trigger] device_object_paths(objs)[k],
            ),
    decreases objs.len(),
{
    if objs.len() > 0 {
        let t = objs.drop_last();
        let o = objs.last();
        lemma_enumerated_devices(t);
        lemma_device_of_exactly(o);
        let pt = device_object_paths(t);
        let p = device_object_paths(objs);
        if stands_for_device(o) {
            assert(devices_of(objs).map_values(|d: DeviceView| d.object_path) =~= devices_of(
                t,
            ).map_values(|d: DeviceView| d.object_path).push(o.path@));
        } else {
            assert(devices_of(objs) == devices_of(t));
        }
        assert forall|k: int| 0 <= k < p.len() implies is_device_object_path(objs, #[trigger] p[k]) by {
            if k < pt.len() {
                assert(p[k] == pt[k]);
                assert(is_device_object_path(t, pt[k]));
                let i = choose|i: int|
                    0 <= i < t.len() && stands_for_device(t[i]) && t[i].path@ == pt[k];
                assert(objs[i] == t[i]);
            } else {
                assert(objs[objs.len() - 1] == o);
            }
        }
        if objs.map_values(|o: ManagedObject| o.path@).no_duplicates() {
            let all = objs.map_values(|o: ManagedObject| o.path@);
            assert(t.map_values(|o: ManagedObject| o.path@).no_duplicates()) by {
                let tp = t.map_values(|o: ManagedObject| o.path@);
                assert forall|a: int, b: int| 0 <= a < tp.len() && 0 <= b < tp.len() && a != b implies tp[a]
                    != tp[b] by {
                    assert(tp[a] == all[a] && tp[b] == all[b]);
                }
            }
            if stands_for_device(o) {
                assert forall|a: int, b: int| 0 <= a < p.len() && 0 <= b < p.len() && a != b implies p[a]
                    != p[b] by {
                    if a < pt.len() && b < pt.len() {
                        assert(p[a] == pt[a] && p[b] == pt[b]);
                    } else {
                        let k = if a < pt.len() {
                            a
                        } else {
                            b
                        };
                        if k < pt.len() {
                            assert(is_device_object_path(t, pt[k]));
                            let i = choose|i: int|
                                0 <= i < t.len() && stands_for_device(t[i]) && t[i].path@ == pt[k];
                            assert(all[i] == t[i].path@);
                            assert(all[objs.len() - 1] == o.path@);
                            assert(p[k] == pt[k]);
                        }
                    }
                }
            }
        }
    }
}

/// What a device reads from its object's properties, whatever its type: its mount points are
/// the filesystem interface's `MountPoints` (none without that interface or that property), so
/// it is mounted exactly when its filesystem interface lists a mount point; its label, block
/// device, size, hints and drive come from its block interface, with the defaults "", "", 0,
/// no auto hint and a system hint.
pub proof fn lemma_device_properties(obj: ManagedObject)
    ensures
        device_of(obj) matches Some(d) ==> {
            let block = interface_props(obj.interfaces@, block_interface())->0;
            let fs = interface_props(obj.interfaces@, filesystem_interface());
            &&& d.filesystem_mount_points == match fs {
                Some(f) => match mount_points_property(f) {
                    Some(l) => l,
                    None => Seq::empty(),
                },
                None => Seq::empty(),
            }
            &&& (d.is_mounted() <==> (fs matches Some(f) && mount_points_property(f) is Some))
            &&& (string_property(block, "IdLabel"@) matches Some(l) ==> d.label == l)
            &&& (string_property(block, "IdLabel"@) is None ==> d.label.len() == 0)
            &&& (byte_string_property(block, "Device"@) matches Some(b) ==> d.block_device == b)
            &&& (byte_string_property(block, "Device"@) is None ==> d.block_device.len() == 0)
            &&& (u64_property(block, "Size"@) matches Some(n) ==> d.size == n)
            &&& (u64_property(block, "Size"@) is None ==> d.size == 0)
            &&& (bool_property(block, "HintAuto"@) matches Some(b) ==> d.hint_auto == b)
            &&& (bool_property(block, "HintAuto"@) is None ==> !d.hint_auto)
            &&& (bool_property(block, "HintSystem"@) matches Some(b) ==> d.hint_system == b)
            &&& (bool_property(block, "HintSystem"@) is None ==> d.hint_system)
            &&& d.drive == object_path_property(block, "Drive"@)
            &&& d.object_path == obj.path@
        },
{
    match interface_props(obj.interfaces@, filesystem_interface()) {
        Some(f) => match mount_points_property(f) {
            Some(l) => {
                match lookup(f.entries@, mount_points_key()) {
                    Some(v) => {
                        match v {
                            PropValue::Array(items) => {
                                lemma_path_list_non_empty(items@);
                            },
                            _ => {},
                        }
                    },
                    None => {},
                }
            },
            None => {},
        },
        None => {},
    }
}

} // verus!
