use vstd::prelude::*;
use vstd::multiset::Multiset;
use crate::device::{device_views, Device, DeviceView};
use crate::text::{copy_text, join2, join3, same_text, texts};

verus! {

/// A request that a tray menu item sends to the daemon.
#[derive(Debug, Clone, PartialEq, Eq)]
pub enum TrayCommand {
    /// Mount the device at this object path.
    Mount(String),
    /// Unmount the device at this object path.
    Unmount(String),
    /// Unmount every mounted partition of the drive with this id.
    EjectAll(String),
    /// Stop the daemon.
    Exit,
}

/// The mathematical value of a [`TrayCommand`].
pub enum TrayCommandView {
    Mount(Seq<char>),
    Unmount(Seq<char>),
    EjectAll(Seq<char>),
    Exit,
}

impl View for TrayCommand {
    type V = TrayCommandView;

    open spec fn view(&self) -> TrayCommandView {
        match self {
            TrayCommand::Mount(p) => TrayCommandView::Mount(p@),
            TrayCommand::Unmount(p) => TrayCommandView::Unmount(p@),
            TrayCommand::EjectAll(d) => TrayCommandView::EjectAll(d@),
            TrayCommand::Exit => TrayCommandView::Exit,
        }
    }
}

/// The icon of a menu item.
#[derive(Debug, Clone, Copy, PartialEq, Eq, Structural)]
pub enum MenuIcon {
    DriveRemovableMedia,
    DriveHarddisk,
    MediaEject,
    ApplicationExit,
}

/// The freedesktop icon name of each menu icon.
pub open spec fn icon_name_of(icon: MenuIcon) -> Seq<char> {
    match icon {
        MenuIcon::DriveRemovableMedia => "drive-removable-media"@,
        MenuIcon::DriveHarddisk => "drive-harddisk"@,
        MenuIcon::MediaEject => "media-eject"@,
        MenuIcon::ApplicationExit => "application-exit"@,
    }
}

impl MenuIcon {
    /// The freedesktop icon name.
    pub fn icon_name(&self) -> (r: &'static str)
        ensures
            r@ == icon_name_of(*self),
    {
        proof {
            reveal_strlit("drive-removable-media");
            reveal_strlit("drive-harddisk");
            reveal_strlit("media-eject");
            reveal_strlit("application-exit");
        }
        match self {
            MenuIcon::DriveRemovableMedia => "drive-removable-media",
            MenuIcon::DriveHarddisk => "drive-harddisk",
            MenuIcon::MediaEject => "media-eject",
            MenuIcon::ApplicationExit => "application-exit",
        }
    }
}

/// One item of the tray menu.
#[derive(Debug, PartialEq, Eq)]
pub enum MenuEntry {
    /// A disabled item that names a drive, shown with the removable-media icon.
    Header { label: String },
    /// A disabled item with a message and no icon.
    Notice { label: String },
    /// An enabled item that sends `command` when activated.
    Action { label: String, icon: MenuIcon, command: TrayCommand },
    /// A separator line.
    Separator,
}

/// The mathematical value of a [`MenuEntry`].
pub enum MenuEntryView {
    Header(Seq<char>),
    Notice(Seq<char>),
    Action(Seq<char>, MenuIcon, TrayCommandView),
    Separator,
}

impl View for MenuEntry {
    type V = MenuEntryView;

    open spec fn view(&self) -> MenuEntryView {
        match self {
            MenuEntry::Header { label } => MenuEntryView::Header(label@),
            MenuEntry::Notice { label } => MenuEntryView::Notice(label@),
            MenuEntry::Action { label, icon, command } => MenuEntryView::Action(
                label@,
                *icon,
                command@,
            ),
            MenuEntry::Separator => MenuEntryView::Separator,
        }
    }
}

/// The views of a list of menu entries.
pub open spec fn entry_views(v: Seq<MenuEntry>) -> Seq<MenuEntryView> {
    v.map_values(|e: MenuEntry| e@)
}

/// The drives of the devices, each once, in the order of their first device.
pub open spec fn drive_order(devs: Seq<DeviceView>) -> Seq<Seq<char>>
    decreases devs.len(),
{
    if devs.len() == 0 {
        Seq::empty()
    } else {
        let rest = drive_order(devs.drop_last());
        if rest.contains(devs.last().drive_id()) {
            rest
        } else {
            rest.push(devs.last().drive_id())
        }
    }
}

/// The devices on drive `id`, in order.
pub open spec fn on_drive(devs: Seq<DeviceView>, id: Seq<char>) -> Seq<DeviceView>
    decreases devs.len(),
{
    if devs.len() == 0 {
        Seq::empty()
    } else if devs.last().drive_id() == id {
        on_drive(devs.drop_last(), id).push(devs.last())
    } else {
        on_drive(devs.drop_last(), id)
    }
}

/// Some device of the list is mounted.
pub open spec fn any_mounted(parts: Seq<DeviceView>) -> bool {
    exists|i: int| 0 <= i < parts.len() && (#[trigger] parts[i]).is_mounted()
}

/// The item that mounts an unmounted partition or unmounts a mounted one.
pub open spec fn partition_entry(d: DeviceView) -> MenuEntryView {
    if d.is_mounted() {
        MenuEntryView::Action(
            "  Unmount "@ + d.display_label(),
            MenuIcon::DriveHarddisk,
            TrayCommandView::Unmount(d.object_path),
        )
    } else {
        MenuEntryView::Action(
            "  Mount "@ + d.display_label(),
            MenuIcon::DriveHarddisk,
            TrayCommandView::Mount(d.object_path),
        )
    }
}

/// The label of a drive: that of its first partition.
pub open spec fn drive_label(parts: Seq<DeviceView>) -> Seq<char> {
    if parts.len() > 0 {
        parts[0].display_label()
    } else {
        "Unknown Drive"@
    }
}

/// The item that ejects a drive; it says "(unmount all)" where the drive has several partitions.
pub open spec fn eject_entry(id: Seq<char>, parts: Seq<DeviceView>) -> MenuEntryView {
    MenuEntryView::Action(
        if parts.len() == 1 {
            "  Eject "@ + drive_label(parts)
        } else {
            "  Eject "@ + drive_label(parts) + " (unmount all)"@
        },
        MenuIcon::MediaEject,
        TrayCommandView::EjectAll(id),
    )
}

/// The items of one drive: its header, an item per partition, an eject item where a partition
/// is mounted, and a separator.
pub open spec fn drive_entries(id: Seq<char>, parts: Seq<DeviceView>) -> Seq<MenuEntryView> {
    seq![MenuEntryView::Header(drive_label(parts))] + parts.map_values(
        |d: DeviceView| partition_entry(d),
    ) + (if any_mounted(parts) {
        seq![eject_entry(id, parts)]
    } else {
        Seq::empty()
    }) + seq![MenuEntryView::Separator]
}

/// The items of the drives `ids`, one drive after the other.
pub open spec fn drives_entries(ids: Seq<Seq<char>>, devs: Seq<DeviceView>) -> Seq<MenuEntryView>
    decreases ids.len(),
{
    if ids.len() == 0 {
        Seq::empty()
    } else {
        drives_entries(ids.drop_last(), devs) + drive_entries(ids.last(), on_drive(devs, ids.last()))
    }
}

/// The two items that close the menu: a separator and the exit item.
pub open spec fn closing_entries() -> Seq<MenuEntryView> {
    seq![
        MenuEntryView::Separator,
        MenuEntryView::Action("Exit"@, MenuIcon::ApplicationExit, TrayCommandView::Exit),
    ]
}

/// The tray menu for the tracked devices.
pub open spec fn menu_of(devs: Seq<DeviceView>) -> Seq<MenuEntryView> {
    (if devs.len() == 0 {
        seq![MenuEntryView::Notice("No removable devices"@)]
    } else {
        drives_entries(drive_order(devs), devs)
    }) + closing_entries()
}

/// Whether a list of strings holds `s`.
pub fn contains_text(v: &Vec<String>, s: &str) -> (r: bool)
    ensures
        r == texts(v@).contains(s@),
{
    let n = v.len();
    for i in 0..n
        invariant
            n == v.len(),
            forall|j: int| 0 <= j < i ==> (#[trigger] v@[j])@ != s@,
    {
        if same_text(v[i].as_str(), s) {
            assert(texts(v@)[i as int] == s@);
            return true;
        }
    }
    proof {
        if texts(v@).contains(s@) {
            let k = choose|k: int| 0 <= k < n && texts(v@)[k] == s@;
            assert(v@[k]@ != s@);
        }
    }
    false
}

/// The drives of the devices, each once, in the order of their first device.
pub fn drives_in_order(devices: &Vec<Device>) -> (r: Vec<String>)
    ensures
        texts(r@) == drive_order(device_views(devices@)),
{
    let ghost s = device_views(devices@);
    let mut ids: Vec<String> = Vec::new();
    let n = devices.len();
    for i in 0..n
        invariant
            n == devices.len(),
            s == device_views(devices@),
            texts(ids@) == drive_order(s.take(i as int)),
    {
        proof {
            assert(s.take(i + 1).drop_last() =~= s.take(i as int));
        }
        let id = devices[i].drive_id();
        if !contains_text(&ids, id) {
            let ghost before = ids@;
            ids.push(String::from_str(id));
            proof {
                assert(texts(ids@) =~= texts(before).push(id@));
            }
        }
    }
    assert(s.take(n as int) =~= s);
    ids
}

/// The devices on drive `id`, in order.
pub fn devices_on_drive(devices: &Vec<Device>, id: &str) -> (r: Vec<Device>)
    ensures
        device_views(r@) == on_drive(device_views(devices@), id@),
{
    let ghost s = device_views(devices@);
    let mut parts: Vec<Device> = Vec::new();
    let n = devices.len();
    for i in 0..n
        invariant
            n == devices.len(),
            s == device_views(devices@),
            device_views(parts@) == on_drive(s.take(i as int), id@),
    {
        proof {
            assert(s.take(i + 1).drop_last() =~= s.take(i as int));
        }
        if same_text(devices[i].drive_id(), id) {
            let ghost before = parts@;
            parts.push(devices[i].clone());
            proof {
                assert(device_views(parts@) =~= device_views(before).push(s[i as int]));
            }
        }
    }
    assert(s.take(n as int) =~= s);
    parts
}

/// The item that mounts or unmounts one partition.
pub fn partition_item(d: &Device) -> (r: MenuEntry)
    ensures
        r@ == partition_entry(d@),
{
    proof {
        reveal_strlit("  Unmount ");
        reveal_strlit("  Mount ");
    }
    let label = d.display_label();
    if d.is_mounted() {
        MenuEntry::Action {
            label: join2("  Unmount ", label.as_str()),
            icon: MenuIcon::DriveHarddisk,
            command: TrayCommand::Unmount(copy_text(&d.object_path)),
        }
    } else {
        MenuEntry::Action {
            label: join2("  Mount ", label.as_str()),
            icon: MenuIcon::DriveHarddisk,
            command: TrayCommand::Mount(copy_text(&d.object_path)),
        }
    }
}

/// Appends the items of drive `id` with partitions `parts`.
fn push_drive_items(items: &mut Vec<MenuEntry>, id: &str, parts: &Vec<Device>)
    ensures
        entry_views(final(items)@) == entry_views(old(items)@) + drive_entries(
            id@,
            device_views(parts@),
        ),
{
    proof {
        reveal_strlit("Unknown Drive");
        reveal_strlit("  Eject ");
        reveal_strlit(" (unmount all)");
    }
    let ghost p = device_views(parts@);
    let ghost start = entry_views(items@);
    let title = if parts.len() > 0 {
        parts[0].display_label()
    } else {
        String::from_str("Unknown Drive")
    };
    items.push(MenuEntry::Header { label: copy_text(&title) });
    let ghost head = entry_views(items@);
    assert(head =~= start + seq![MenuEntryView::Header(drive_label(p))]);
    let mut any = false;
    let n = parts.len();
    for i in 0..n
        invariant
            n == parts.len(),
            p == device_views(parts@),
            entry_views(items@) == head + p.take(i as int).map_values(
                |d: DeviceView| partition_entry(d),
            ),
            any == exists|j: int| 0 <= j < i && (#[trigger] p[j]).is_mounted(),
    {
        let ghost before = items@;
        items.push(partition_item(&parts[i]));
        if parts[i].is_mounted() {
            any = true;
        }
        proof {
            assert(entry_views(items@) =~= entry_views(before).push(partition_entry(p[i as int])));
            assert(p.take(i + 1).map_values(|d: DeviceView| partition_entry(d)) =~= p.take(
                i as int,
            ).map_values(|d: DeviceView| partition_entry(d)).push(partition_entry(p[i as int])));
        }
    }
    assert(p.take(n as int) =~= p);
    let ghost mid = entry_views(items@);
    if any {
        let label = if parts.len() == 1 {
            join2("  Eject ", title.as_str())
        } else {
            join3("  Eject ", title.as_str(), " (unmount all)")
        };
        items.push(
            MenuEntry::Action {
                label,
                icon: MenuIcon::MediaEject,
                command: TrayCommand::EjectAll(String::from_str(id)),
            },
        );
        assert(entry_views(items@) =~= mid.push(eject_entry(id@, p)));
    } else {
        assert(entry_views(items@) =~= mid);
    }
    let ghost last = entry_views(items@);
    items.push(MenuEntry::Separator);
    assert(entry_views(items@) =~= last.push(MenuEntryView::Separator));
    assert(entry_views(items@) =~= start + drive_entries(id@, p));
}

/// The tray menu for the tracked devices: where there are none, a notice saying so; otherwise,
/// drive by drive in the order of their first device, a header, an item per partition that
/// mounts or unmounts it, an eject item where a partition is mounted, and a separator; then a
/// separator and the exit item.
pub fn build_menu(devices: &Vec<Device>) -> (r: Vec<MenuEntry>)
    ensures
        entry_views(r@) == menu_of(device_views(devices@)),
{
    proof {
        reveal_strlit("No removable devices");
        reveal_strlit("Exit");
    }
    let ghost s = device_views(devices@);
    let mut items: Vec<MenuEntry> = Vec::new();
    if devices.len() == 0 {
        items.push(MenuEntry::Notice { label: String::from_str("No removable devices") });
        assert(entry_views(items@) =~= seq![MenuEntryView::Notice("No removable devices"@)]);
    } else {
        let ids = drives_in_order(devices);
        let n = ids.len();
        for i in 0..n
            invariant
                n == ids.len(),
                s == device_views(devices@),
                entry_views(items@) == drives_entries(texts(ids@).take(i as int), s),
        {
            proof {
                assert(texts(ids@).take(i + 1).drop_last() =~= texts(ids@).take(i as int));
            }
            let parts = devices_on_drive(devices, ids[i].as_str());
            push_drive_items(&mut items, ids[i].as_str(), &parts);
        }
        assert(texts(ids@).take(n as int) =~= texts(ids@));
    }
    let ghost body = entry_views(items@);
    items.push(MenuEntry::Separator);
    items.push(
        MenuEntry::Action {
            label: String::from_str("Exit"),
            icon: MenuIcon::ApplicationExit,
            command: TrayCommand::Exit,
        },
    );
    assert(entry_views(items@) =~= body + closing_entries());
    items
}

/// A device is among the devices of its own drive.
pub proof fn lemma_device_on_its_drive(devs: Seq<DeviceView>, i: int)
    requires
        0 <= i < devs.len(),
    ensures
        on_drive(devs, devs[i].drive_id()).contains(devs[i]),
    decreases devs.len(),
{
    let id = devs[i].drive_id();
    if i < devs.len() - 1 {
        lemma_device_on_its_drive(devs.drop_last(), i);
        let t = on_drive(devs.drop_last(), id);
        let k = choose|k: int| 0 <= k < t.len() && t[k] == devs.drop_last()[i];
        if devs.last().drive_id() == id {
            assert(on_drive(devs, id)[k] == devs[i]);
        } else {
            assert(on_drive(devs, id)[k] == devs[i]);
        }
    } else {
        let o = on_drive(devs, id);
        assert(o[o.len() - 1] == devs[i]);
    }
}

/// The drive of every device is listed in the menu's drive order.
pub proof fn lemma_drive_listed(devs: Seq<DeviceView>, i: int)
    requires
        0 <= i < devs.len(),
    ensures
        drive_order(devs).contains(devs[i].drive_id()),
    decreases devs.len(),
{
    let id = devs[i].drive_id();
    if i < devs.len() - 1 {
        lemma_drive_listed(devs.drop_last(), i);
        let t = drive_order(devs.drop_last());
        let k = choose|k: int| 0 <= k < t.len() && t[k] == id;
        if !t.contains(devs.last().drive_id()) {
            assert(drive_order(devs)[k] == id);
        }
    } else {
        let t = drive_order(devs.drop_last());
        if !t.contains(id) {
            let o = drive_order(devs);
            assert(o[o.len() - 1] == id);
        }
    }
}

/// Every item of every listed drive is an item of the drives' part of the menu.
pub proof fn lemma_drive_items_in_menu(ids: Seq<Seq<char>>, devs: Seq<DeviceView>, k: int, x: MenuEntryView)
    requires
        0 <= k < ids.len(),
        drive_entries(ids[k], on_drive(devs, ids[k])).contains(x),
    ensures
        drives_entries(ids, devs).contains(x),
    decreases ids.len(),
{
    let front = drives_entries(ids.drop_last(), devs);
    let back = drive_entries(ids.last(), on_drive(devs, ids.last()));
    assert(drives_entries(ids, devs) == front + back);
    if k < ids.len() - 1 {
        assert(ids.drop_last()[k] == ids[k]);
        lemma_drive_items_in_menu(ids.drop_last(), devs, k, x);
        let j = choose|j: int| 0 <= j < front.len() && front[j] == x;
        assert((front + back)[j] == x);
    } else {
        let j = choose|j: int| 0 <= j < back.len() && back[j] == x;
        assert((front + back)[front.len() + j] == x);
    }
}

/// Every tracked device has a menu item that mounts it, or unmounts it where it is mounted;
/// and where it is mounted, the menu has the item that ejects its drive.
pub proof fn lemma_every_device_has_an_item(devs: Seq<DeviceView>, i: int)
    requires
        0 <= i < devs.len(),
    ensures
        menu_of(devs).contains(partition_entry(devs[i])),
        devs[i].is_mounted() ==> menu_of(devs).contains(
            eject_entry(devs[i].drive_id(), on_drive(devs, devs[i].drive_id())),
        ),
{
    let id = devs[i].drive_id();
    let parts = on_drive(devs, id);
    let ids = drive_order(devs);
    lemma_device_on_its_drive(devs, i);
    lemma_drive_listed(devs, i);
    let k = choose|k: int| 0 <= k < ids.len() && ids[k] == id;
    let j = choose|j: int| 0 <= j < parts.len() && parts[j] == devs[i];
    let head = seq![MenuEntryView::Header(drive_label(parts))];
    let acts = parts.map_values(|d: DeviceView| partition_entry(d));
    let ej: Seq<MenuEntryView> = if any_mounted(parts) {
        seq![eject_entry(id, parts)]
    } else {
        Seq::empty()
    };
    let de = drive_entries(id, parts);
    assert(de == head + acts + ej + seq![MenuEntryView::Separator]);
    assert(de[1 + j] == partition_entry(devs[i]));
    lemma_drive_items_in_menu(ids, devs, k, partition_entry(devs[i]));
    let body = drives_entries(ids, devs);
    let m = menu_of(devs);
    assert(m == body + closing_entries());
    let b = choose|b: int| 0 <= b < body.len() && body[b] == partition_entry(devs[i]);
    assert(m[b] == partition_entry(devs[i]));
    if devs[i].is_mounted() {
        assert(parts[j].is_mounted());
        assert(any_mounted(parts));
        assert(de[1 + parts.len() as int] == eject_entry(id, parts));
        lemma_drive_items_in_menu(ids, devs, k, eject_entry(id, parts));
        let c = choose|c: int| 0 <= c < body.len() && body[c] == eject_entry(id, parts);
        assert(m[c] == eject_entry(id, parts));
    }
}

/// The menu always ends with a separator and the exit item.
pub proof fn lemma_menu_ends_with_exit(devs: Seq<DeviceView>)
    ensures
        menu_of(devs).len() >= 2,
        menu_of(devs)[menu_of(devs).len() - 2] == MenuEntryView::Separator,
        menu_of(devs)[menu_of(devs).len() - 1] == MenuEntryView::Action(
            "Exit"@,
            MenuIcon::ApplicationExit,
            TrayCommandView::Exit,
        ),
{
}

/// The partitions of the drives `ids`, drive after drive.
pub open spec fn grouped(ids: Seq<Seq<char>>, devs: Seq<DeviceView>) -> Seq<DeviceView>
    decreases ids.len(),
{
    if ids.len() == 0 {
        Seq::empty()
    } else {
        grouped(ids.drop_last(), devs) + on_drive(devs, ids.last())
    }
}

/// The item is an action with `icon`.
pub open spec fn has_icon(e: MenuEntryView, icon: MenuIcon) -> bool {
    match e {
        MenuEntryView::Action(_, i, _) => i == icon,
        _ => false,
    }
}

/// The actions of a list of menu items that carry `icon`, in order.
pub open spec fn items_with_icon(es: Seq<MenuEntryView>, icon: MenuIcon) -> Seq<MenuEntryView>
    decreases es.len(),
{
    if es.len() == 0 {
        Seq::empty()
    } else {
        let rest = items_with_icon(es.drop_last(), icon);
        match es.last() {
            MenuEntryView::Action(_, i, _) => if i == icon {
                rest.push(es.last())
            } else {
                rest
            },
            _ => rest,
        }
    }
}

/// The eject items of the drives `ids` that have a mounted partition, drive after drive.
pub open spec fn drive_ejects(ids: Seq<Seq<char>>, devs: Seq<DeviceView>) -> Seq<MenuEntryView>
    decreases ids.len(),
{
    if ids.len() == 0 {
        Seq::empty()
    } else {
        let id = ids.last();
        drive_ejects(ids.drop_last(), devs) + if any_mounted(on_drive(devs, id)) {
            seq![eject_entry(id, on_drive(devs, id))]
        } else {
            Seq::empty()
        }
    }
}

/// The number of items that the drives `ids` take in the menu.
pub open spec fn drives_len(ids: Seq<Seq<char>>, devs: Seq<DeviceView>) -> int
    decreases ids.len(),
{
    if ids.len() == 0 {
        0
    } else {
        let parts = on_drive(devs, ids.last());
        drives_len(ids.drop_last(), devs) + parts.len() + 2 + if any_mounted(parts) {
            1int
        } else {
            0int
        }
    }
}

proof fn lemma_items_with_icon_concat(a: Seq<MenuEntryView>, b: Seq<MenuEntryView>, icon: MenuIcon)
    ensures
        items_with_icon(a + b, icon) == items_with_icon(a, icon) + items_with_icon(b, icon),
    decreases b.len(),
{
    if b.len() == 0 {
        assert(a + b =~= a);
        assert(items_with_icon(a, icon) + Seq::<MenuEntryView>::empty() =~= items_with_icon(a, icon));
    } else {
        assert((a + b).drop_last() =~= a + b.drop_last());
        lemma_items_with_icon_concat(a, b.drop_last(), icon);
        match b.last() {
            MenuEntryView::Action(_, i, _) => if i == icon {
                assert(items_with_icon(a, icon) + items_with_icon(b.drop_last(), icon).push(b.last())
                    =~= (items_with_icon(a, icon) + items_with_icon(b.drop_last(), icon)).push(
                    b.last(),
                ));
            },
            _ => {},
        }
    }
}

proof fn lemma_items_with_icon_actions(parts: Seq<DeviceView>)
    ensures
        items_with_icon(parts.map_values(|d: DeviceView| partition_entry(d)), MenuIcon::DriveHarddisk)
            == parts.map_values(|d: DeviceView| partition_entry(d)),
        items_with_icon(parts.map_values(|d: DeviceView| partition_entry(d)), MenuIcon::MediaEject)
            == Seq::<MenuEntryView>::empty(),
    decreases parts.len(),
{
    if parts.len() > 0 {
        let m = parts.map_values(|d: DeviceView| partition_entry(d));
        assert(m.drop_last() =~= parts.drop_last().map_values(|d: DeviceView| partition_entry(d)));
        lemma_items_with_icon_actions(parts.drop_last());
        assert(m =~= m.drop_last().push(m.last()));
    }
}

proof fn lemma_drive_entries_items(id: Seq<char>, parts: Seq<DeviceView>)
    ensures
        items_with_icon(drive_entries(id, parts), MenuIcon::DriveHarddisk) == parts.map_values(
            |d: DeviceView| partition_entry(d),
        ),
        items_with_icon(drive_entries(id, parts), MenuIcon::MediaEject) == if any_mounted(parts) {
            seq![eject_entry(id, parts)]
        } else {
            Seq::empty()
        },
{
    let head = seq![MenuEntryView::Header(drive_label(parts))];
    let acts = parts.map_values(|d: DeviceView| partition_entry(d));
    let ej: Seq<MenuEntryView> = if any_mounted(parts) {
        seq![eject_entry(id, parts)]
    } else {
        Seq::empty()
    };
    let sep = seq![MenuEntryView::Separator];
    lemma_items_with_icon_actions(parts);
    lemma_items_with_icon_concat(head, acts, MenuIcon::DriveHarddisk);
    lemma_items_with_icon_concat(head + acts, ej, MenuIcon::DriveHarddisk);
    lemma_items_with_icon_concat(head + acts + ej, sep, MenuIcon::DriveHarddisk);
    lemma_items_with_icon_concat(head, acts, MenuIcon::MediaEject);
    lemma_items_with_icon_concat(head + acts, ej, MenuIcon::MediaEject);
    lemma_items_with_icon_concat(head + acts + ej, sep, MenuIcon::MediaEject);
    assert(head.drop_last() =~= Seq::<MenuEntryView>::empty());
    assert(sep.drop_last() =~= Seq::<MenuEntryView>::empty());
    if any_mounted(parts) {
        assert(ej.drop_last() =~= Seq::<MenuEntryView>::empty());
        assert(items_with_icon(ej, MenuIcon::MediaEject) =~= ej);
    }
    assert(Seq::<MenuEntryView>::empty() + acts =~= acts);
    assert(acts + Seq::<MenuEntryView>::empty() =~= acts);
    assert(Seq::<MenuEntryView>::empty() + ej =~= ej);
    assert(ej + Seq::<MenuEntryView>::empty() =~= ej);
}

proof fn lemma_drives_entries_items(ids: Seq<Seq<char>>, devs: Seq<DeviceView>)
    ensures
        items_with_icon(drives_entries(ids, devs), MenuIcon::DriveHarddisk) == grouped(ids, devs).map_values(
            |d: DeviceView| partition_entry(d),
        ),
        items_with_icon(drives_entries(ids, devs), MenuIcon::MediaEject) == drive_ejects(ids, devs),
        drives_entries(ids, devs).len() == drives_len(ids, devs),
    decreases ids.len(),
{
    if ids.len() == 0 {
        assert(grouped(ids, devs).map_values(|d: DeviceView| partition_entry(d)) =~= Seq::<
            MenuEntryView,
        >::empty());
    } else {
        let id = ids.last();
        let front = drives_entries(ids.drop_last(), devs);
        let back = drive_entries(id, on_drive(devs, id));
        lemma_drives_entries_items(ids.drop_last(), devs);
        lemma_drive_entries_items(id, on_drive(devs, id));
        lemma_items_with_icon_concat(front, back, MenuIcon::DriveHarddisk);
        lemma_items_with_icon_concat(front, back, MenuIcon::MediaEject);
        assert((grouped(ids.drop_last(), devs) + on_drive(devs, id)).map_values(
            |d: DeviceView| partition_entry(d),
        ) =~= grouped(ids.drop_last(), devs).map_values(|d: DeviceView| partition_entry(d))
            + on_drive(devs, id).map_values(|d: DeviceView| partition_entry(d)));
    }
}

/// Every device of a drive that no device has is absent.
proof fn lemma_on_unused_drive(devs: Seq<DeviceView>, id: Seq<char>)
    requires
        forall|i: int| 0 <= i < devs.len() ==> (#[trigger] devs[i]).drive_id() != id,
    ensures
        on_drive(devs, id) == Seq::<DeviceView>::empty(),
    decreases devs.len(),
{
    if devs.len() > 0 {
        lemma_on_unused_drive(devs.drop_last(), id);
    }
}

/// Each drive appears once in the drive order, and each drive in it has a partition.
pub proof fn lemma_drive_order_distinct(devs: Seq<DeviceView>)
    ensures
        drive_order(devs).no_duplicates(),
        forall|k: int|
            0 <= k < drive_order(devs).len() ==> on_drive(devs, #[trigger] drive_order(devs)[k]).len()
                > 0,
    decreases devs.len(),
{
    if devs.len() > 0 {
        let t = devs.drop_last();
        lemma_drive_order_distinct(t);
        let o = drive_order(devs);
        assert forall|k: int| 0 <= k < o.len() implies on_drive(devs, #[trigger] o[k]).len() > 0 by {
            if k < drive_order(t).len() {
                assert(o[k] == drive_order(t)[k]);
                if devs.last().drive_id() == o[k] {
                } else {
                    assert(on_drive(devs, o[k]) == on_drive(t, o[k]));
                }
            }
        }
    }
}

proof fn lemma_grouped_push(ids: Seq<Seq<char>>, t: Seq<DeviceView>, d: DeviceView)
    requires
        ids.no_duplicates(),
    ensures
        grouped(ids, t.push(d)).to_multiset() == if ids.contains(d.drive_id()) {
            grouped(ids, t).to_multiset().insert(d)
        } else {
            grouped(ids, t).to_multiset()
        },
    decreases ids.len(),
{
    broadcast use vstd::multiset::group_multiset_axioms;

    if ids.len() > 0 {
        let p = ids.drop_last();
        let x = ids.last();
        assert(p.no_duplicates());
        lemma_grouped_push(p, t, d);
        let devs = t.push(d);
        assert(devs.drop_last() =~= t);
        vstd::seq_lib::lemma_multiset_commutative(grouped(p, devs), on_drive(devs, x));
        vstd::seq_lib::lemma_multiset_commutative(grouped(p, t), on_drive(t, x));
        if x == d.drive_id() {
            assert(on_drive(devs, x) == on_drive(t, x).push(d));
            vstd::seq_lib::to_multiset_build(on_drive(t, x), d);
            assert(!p.contains(x)) by {
                if p.contains(x) {
                    let j = choose|j: int| 0 <= j < p.len() && p[j] == x;
                    assert(ids[j] == ids[ids.len() - 1]);
                }
            }
            assert(ids.contains(d.drive_id()));
            assert(grouped(ids, devs).to_multiset() =~= grouped(ids, t).to_multiset().insert(d));
        } else {
            assert(on_drive(devs, x) == on_drive(t, x));
            assert(ids.contains(d.drive_id()) == p.contains(d.drive_id())) by {
                if p.contains(d.drive_id()) {
                    let j = choose|j: int| 0 <= j < p.len() && p[j] == d.drive_id();
                    assert(ids[j] == d.drive_id());
                }
                if ids.contains(d.drive_id()) {
                    let j = choose|j: int| 0 <= j < ids.len() && ids[j] == d.drive_id();
                    assert(p[j] == d.drive_id());
                }
            }
            if p.contains(d.drive_id()) {
                assert(grouped(ids, devs).to_multiset() =~= grouped(ids, t).to_multiset().insert(d));
            } else {
                assert(grouped(ids, devs).to_multiset() =~= grouped(ids, t).to_multiset());
            }
        }
    }
}

/// Grouping the partitions by drive keeps every device exactly once: the groups, drive after
/// drive, hold the same devices as the list, as many times each.
pub proof fn lemma_grouping_is_a_permutation(devs: Seq<DeviceView>)
    ensures
        grouped(drive_order(devs), devs).to_multiset() == devs.to_multiset(),
        grouped(drive_order(devs), devs).len() == devs.len(),
    decreases devs.len(),
{
    broadcast use vstd::multiset::group_multiset_axioms;

    if devs.len() == 0 {
        assert(devs.to_multiset() =~= Multiset::<DeviceView>::empty()) by {
            vstd::seq_lib::to_multiset_len(devs);
        }
        assert(grouped(drive_order(devs), devs).to_multiset() =~= Multiset::<DeviceView>::empty())
            by {
            vstd::seq_lib::to_multiset_len(grouped(drive_order(devs), devs));
        }
    } else {
        let t = devs.drop_last();
        let d = devs.last();
        let ids = drive_order(t);
        lemma_grouping_is_a_permutation(t);
        lemma_drive_order_distinct(t);
        assert(t.push(d) =~= devs);
        lemma_grouped_push(ids, t, d);
        vstd::seq_lib::to_multiset_build(t, d);
        if ids.contains(d.drive_id()) {
            assert(drive_order(devs) == ids);
        } else {
            assert(drive_order(devs) == ids.push(d.drive_id()));
            assert(drive_order(devs).drop_last() =~= ids);
            assert forall|i: int| 0 <= i < t.len() implies (#[trigger] t[i]).drive_id() != d.drive_id() by {
                lemma_drive_listed(t, i);
            }
            lemma_on_unused_drive(t, d.drive_id());
            assert(on_drive(devs, d.drive_id()) == on_drive(t, d.drive_id()).push(d));
            assert(on_drive(devs, d.drive_id()) =~= seq![d]);
            vstd::seq_lib::lemma_multiset_commutative(grouped(ids, devs), seq![d]);
            vstd::seq_lib::to_multiset_build(Seq::<DeviceView>::empty(), d);
            vstd::seq_lib::to_multiset_len(Seq::<DeviceView>::empty());
            assert(seq![d] =~= Seq::<DeviceView>::empty().push(d));
        }
        vstd::seq_lib::to_multiset_len(grouped(drive_order(devs), devs));
        vstd::seq_lib::to_multiset_len(devs);
    }
}

/// Exactly one mount or unmount item per tracked device: the menu's items with the hard-disk
/// icon are, in order, the items of the devices grouped by drive, and that grouping holds every
/// device exactly once.
pub proof fn lemma_one_item_per_device(devs: Seq<DeviceView>)
    ensures
        items_with_icon(menu_of(devs), MenuIcon::DriveHarddisk) == grouped(drive_order(devs), devs).map_values(
            |d: DeviceView| partition_entry(d),
        ),
        grouped(drive_order(devs), devs).to_multiset() == devs.to_multiset(),
{
    lemma_grouping_is_a_permutation(devs);
    let body = if devs.len() == 0 {
        seq![MenuEntryView::Notice("No removable devices"@)]
    } else {
        drives_entries(drive_order(devs), devs)
    };
    lemma_items_with_icon_concat(body, closing_entries(), MenuIcon::DriveHarddisk);
    let c = closing_entries();
    assert(c.drop_last().drop_last() =~= Seq::<MenuEntryView>::empty());
    assert(c.drop_last() =~= seq![MenuEntryView::Separator]);
    assert(items_with_icon(c.drop_last().drop_last(), MenuIcon::DriveHarddisk) == Seq::<MenuEntryView>::empty());
    assert(items_with_icon(c.drop_last(), MenuIcon::DriveHarddisk) == items_with_icon(
        c.drop_last().drop_last(),
        MenuIcon::DriveHarddisk,
    ));
    assert(items_with_icon(c, MenuIcon::DriveHarddisk) == items_with_icon(c.drop_last(), MenuIcon::DriveHarddisk));
    if devs.len() == 0 {
        assert(body.drop_last() =~= Seq::<MenuEntryView>::empty());
        assert(items_with_icon(body.drop_last(), MenuIcon::DriveHarddisk) == Seq::<MenuEntryView>::empty());
        assert(items_with_icon(body, MenuIcon::DriveHarddisk) == Seq::<MenuEntryView>::empty());
        assert(grouped(drive_order(devs), devs).map_values(|d: DeviceView| partition_entry(d))
            =~= Seq::<MenuEntryView>::empty());
    } else {
        lemma_drives_entries_items(drive_order(devs), devs);
    }
    assert(items_with_icon(body, MenuIcon::DriveHarddisk) + Seq::<MenuEntryView>::empty()
        =~= items_with_icon(body, MenuIcon::DriveHarddisk));
}

/// The eject items of the menu are exactly those of the drives with a mounted partition, in
/// drive order; so a menu item with the eject icon is the eject item of a listed drive that has
/// a mounted partition, and such a drive always has one.
pub proof fn lemma_eject_items(devs: Seq<DeviceView>)
    ensures
        items_with_icon(menu_of(devs), MenuIcon::MediaEject) == drive_ejects(drive_order(devs), devs),
        forall|k: int|
            0 <= k < menu_of(devs).len() && has_icon(#[trigger] menu_of(devs)[k], MenuIcon::MediaEject)
                ==> exists|j: int|
                0 <= j < drive_order(devs).len() && any_mounted(
                    on_drive(devs, #[trigger] drive_order(devs)[j]),
                ) && menu_of(devs)[k] == eject_entry(
                    drive_order(devs)[j],
                    on_drive(devs, drive_order(devs)[j]),
                ),
{
    let body = if devs.len() == 0 {
        seq![MenuEntryView::Notice("No removable devices"@)]
    } else {
        drives_entries(drive_order(devs), devs)
    };
    lemma_items_with_icon_concat(body, closing_entries(), MenuIcon::MediaEject);
    let c = closing_entries();
    assert(c.drop_last().drop_last() =~= Seq::<MenuEntryView>::empty());
    assert(c.drop_last() =~= seq![MenuEntryView::Separator]);
    assert(items_with_icon(c.drop_last().drop_last(), MenuIcon::MediaEject) == Seq::<MenuEntryView>::empty());
    assert(items_with_icon(c.drop_last(), MenuIcon::MediaEject) == items_with_icon(
        c.drop_last().drop_last(),
        MenuIcon::MediaEject,
    ));
    assert(items_with_icon(c, MenuIcon::MediaEject) == items_with_icon(c.drop_last(), MenuIcon::MediaEject));
    if devs.len() == 0 {
        assert(body.drop_last() =~= Seq::<MenuEntryView>::empty());
        assert(items_with_icon(body.drop_last(), MenuIcon::MediaEject) == Seq::<MenuEntryView>::empty());
        assert(items_with_icon(body, MenuIcon::MediaEject) == Seq::<MenuEntryView>::empty());
        assert(drive_ejects(drive_order(devs), devs) == Seq::<MenuEntryView>::empty());
    } else {
        lemma_drives_entries_items(drive_order(devs), devs);
    }
    assert(items_with_icon(body, MenuIcon::MediaEject) + Seq::<MenuEntryView>::empty()
        =~= items_with_icon(body, MenuIcon::MediaEject));
    let m = menu_of(devs);
    assert forall|k: int|
        0 <= k < m.len() && has_icon(#[trigger] m[k], MenuIcon::MediaEject) implies exists|j: int|
        0 <= j < drive_order(devs).len() && any_mounted(on_drive(devs, #[trigger] drive_order(devs)[j]))
            && m[k] == eject_entry(drive_order(devs)[j], on_drive(devs, drive_order(devs)[j])) by {
        lemma_items_with_icon_contains(m, MenuIcon::MediaEject, k);
        lemma_drive_ejects_members(drive_order(devs), devs, m[k]);
    }
}

proof fn lemma_items_with_icon_contains(es: Seq<MenuEntryView>, icon: MenuIcon, k: int)
    requires
        0 <= k < es.len(),
        has_icon(es[k], icon),
    ensures
        items_with_icon(es, icon).contains(es[k]),
    decreases es.len(),
{
    let r = items_with_icon(es, icon);
    if k == es.len() - 1 {
        assert(r[r.len() - 1] == es[k]);
    } else {
        lemma_items_with_icon_contains(es.drop_last(), icon, k);
        let rest = items_with_icon(es.drop_last(), icon);
        let j = choose|j: int| 0 <= j < rest.len() && rest[j] == es[k];
        match es.last() {
            MenuEntryView::Action(_, i, _) => if i == icon {
                assert(r[j] == es[k]);
            } else {
                assert(r[j] == es[k]);
            },
            _ => {
                assert(r[j] == es[k]);
            },
        }
    }
}

proof fn lemma_drive_ejects_members(ids: Seq<Seq<char>>, devs: Seq<DeviceView>, x: MenuEntryView)
    requires
        drive_ejects(ids, devs).contains(x),
    ensures
        exists|j: int|
            0 <= j < ids.len() && any_mounted(on_drive(devs, #[trigger] ids[j])) && x == eject_entry(
                ids[j],
                on_drive(devs, ids[j]),
            ),
    decreases ids.len(),
{
    let p = ids.drop_last();
    let id = ids.last();
    let front = drive_ejects(p, devs);
    let back: Seq<MenuEntryView> = if any_mounted(on_drive(devs, id)) {
        seq![eject_entry(id, on_drive(devs, id))]
    } else {
        Seq::empty()
    };
    assert(drive_ejects(ids, devs) == front + back);
    let k = choose|k: int| 0 <= k < (front + back).len() && (front + back)[k] == x;
    if k < front.len() {
        assert(front[k] == x);
        lemma_drive_ejects_members(p, devs, x);
        let j = choose|j: int|
            0 <= j < p.len() && any_mounted(on_drive(devs, #[trigger] p[j])) && x == eject_entry(
                p[j],
                on_drive(devs, p[j]),
            );
        assert(ids[j] == p[j]);
    } else {
        assert(back[k - front.len()] == x);
        assert(ids[ids.len() - 1] == id);
    }
}

/// The menu's shape: where devices are tracked, it is the run of items of each listed drive,
/// one run per distinct drive (each with at least one partition), followed by a separator and
/// the exit item; its length is two more than the drives' items, which count each drive's
/// partitions, its header, its separator and its eject item where one is mounted; with no
/// devices it has three items.
pub proof fn lemma_menu_shape(devs: Seq<DeviceView>)
    ensures
        devs.len() == 0 ==> menu_of(devs).len() == 3,
        devs.len() > 0 ==> menu_of(devs) == drives_entries(drive_order(devs), devs) + closing_entries(),
        devs.len() > 0 ==> menu_of(devs).len() == drives_len(drive_order(devs), devs) + 2,
        drive_order(devs).no_duplicates(),
        forall|k: int|
            0 <= k < drive_order(devs).len() ==> on_drive(devs, #[trigger] drive_order(devs)[k]).len()
                > 0,
        forall|i: int| 0 <= i < devs.len() ==> drive_order(devs).contains(#[trigger] devs[i].drive_id()),
        grouped(drive_order(devs), devs).len() == devs.len(),
{
    lemma_drive_order_distinct(devs);
    lemma_grouping_is_a_permutation(devs);
    if devs.len() > 0 {
        lemma_drives_entries_items(drive_order(devs), devs);
    }
    assert forall|i: int| 0 <= i < devs.len() implies drive_order(devs).contains(
        #[trigger] devs[i].drive_id(),
    ) by {
        lemma_drive_listed(devs, i);
    }
}

/// The item of a partition matches its state: a mounted partition gets "  Unmount <name>",
/// which sends `Unmount` of its object path; an unmounted one gets "  Mount <name>", which sends
/// `Mount` of its object path; the name is its label, or its block device where the label is
/// empty; the icon is the hard disk.
pub proof fn lemma_partition_item_matches_state(d: DeviceView)
    ensures
        ({
            let name = if d.label.len() == 0 {
                d.block_device
            } else {
                d.label
            };
            if d.filesystem_mount_points.len() > 0 {
                partition_entry(d) == MenuEntryView::Action(
                    "  Unmount "@ + name,
                    MenuIcon::DriveHarddisk,
                    TrayCommandView::Unmount(d.object_path),
                )
            } else {
                partition_entry(d) == MenuEntryView::Action(
                    "  Mount "@ + name,
                    MenuIcon::DriveHarddisk,
                    TrayCommandView::Mount(d.object_path),
                )
            }
        }),
{
}

} // verus!
