use vstd::prelude::*;
use crate::text::{copy_text, push_char, same_text, texts};

verus! {

/// A D-Bus property value, as far as the device logic reads it.
#[derive(Debug, PartialEq)]
pub enum PropValue {
    /// A string (`s`).
    Str(String),
    /// An object path (`o`).
    ObjectPath(String),
    /// A byte (`y`).
    Byte(u8),
    /// A boolean (`b`).
    Bool(bool),
    /// A signed 64-bit integer (`x`).
    I64(i64),
    /// An unsigned 64-bit integer (`t`).
    U64(u64),
    /// An array of values (`a...`).
    Array(Vec<PropValue>),
    /// Any other kind of value.
    Other,
}

/// One named property.
#[derive(Debug, PartialEq)]
pub struct Property {
    pub name: String,
    pub value: PropValue,
}

/// The properties of one D-Bus interface of an object, by name.
#[derive(Debug, PartialEq)]
pub struct Properties {
    pub entries: Vec<Property>,
}

/// `i` is the first position of `key` among the entries.
pub open spec fn first_key_at(entries: Seq<Property>, key: Seq<char>, i: int) -> bool {
    &&& 0 <= i < entries.len()
    &&& entries[i].name@ == key
    &&& forall|j: int| 0 <= j < i ==> (#[trigger] entries[j]).name@ != key
}

/// The value stored under `key` (the first entry with that name).
pub open spec fn lookup(entries: Seq<Property>, key: Seq<char>) -> Option<PropValue> {
    if exists|i: int| first_key_at(entries, key, i) {
        Some(entries[choose|i: int| first_key_at(entries, key, i)].value)
    } else {
        None
    }
}

pub proof fn lemma_first_key_unique(entries: Seq<Property>, key: Seq<char>, i: int, k: int)
    requires
        first_key_at(entries, key, i),
        first_key_at(entries, key, k),
    ensures
        i == k,
{
    if i < k {
        assert(entries[i].name@ != key);
    } else if k < i {
        assert(entries[k].name@ != key);
    }
}

/// The first entry named `key`.
pub fn find_property<'a>(props: &'a Properties, key: &str) -> (r: Option<&'a PropValue>)
    ensures
        match r {
            Some(v) => lookup(props.entries@, key@) == Some(*v),
            None => lookup(props.entries@, key@) is None,
        },
{
    let n = props.entries.len();
    for i in 0..n
        invariant
            n == props.entries.len(),
            forall|j: int| 0 <= j < i ==> (#[trigger] props.entries@[j]).name@ != key@,
    {
        if same_text(props.entries[i].name.as_str(), key) {
            proof {
                assert(first_key_at(props.entries@, key@, i as int));
                let k = choose|k: int| first_key_at(props.entries@, key@, k);
                lemma_first_key_unique(props.entries@, key@, i as int, k);
            }
            return Some(&props.entries[i].value);
        }
    }
    proof {
        assert forall|i: int| !first_key_at(props.entries@, key@, i) by {
            if 0 <= i < n {
                assert(props.entries@[i].name@ != key@);
            }
        }
    }
    None
}

/// A string value.
pub open spec fn text_value(v: PropValue) -> Option<Seq<char>> {
    match v {
        PropValue::Str(s) => Some(s@),
        _ => None,
    }
}

/// An object path value, or a string value standing for one.
pub open spec fn object_path_value(v: PropValue) -> Option<Seq<char>> {
    match v {
        PropValue::ObjectPath(s) => Some(s@),
        PropValue::Str(s) => Some(s@),
        _ => None,
    }
}

/// An unsigned value; a signed one is reinterpreted as unsigned.
pub open spec fn u64_value(v: PropValue) -> Option<u64> {
    match v {
        PropValue::U64(n) => Some(n),
        PropValue::I64(n) => Some(n as u64),
        _ => None,
    }
}

pub open spec fn bool_value(v: PropValue) -> Option<bool> {
    match v {
        PropValue::Bool(b) => Some(b),
        _ => None,
    }
}

/// The characters of the bytes among `items`, each byte read as one character.
/// With `skip_nul`, zero bytes are left out.
pub open spec fn byte_chars(items: Seq<PropValue>, skip_nul: bool) -> Seq<char>
    decreases items.len(),
{
    if items.len() == 0 {
        Seq::empty()
    } else {
        let rest = byte_chars(items.drop_last(), skip_nul);
        match items.last() {
            PropValue::Byte(b) => if skip_nul && b == 0 {
                rest
            } else {
                rest.push(b as char)
            },
            _ => rest,
        }
    }
}

/// A byte-array value read as a NUL-free string; `None` where no non-zero byte is left.
pub open spec fn byte_string_value(v: PropValue) -> Option<Seq<char>> {
    match v {
        PropValue::Array(items) => {
            let s = byte_chars(items@, true);
            if s.len() > 0 {
                Some(s)
            } else {
                None
            }
        },
        _ => None,
    }
}

/// The non-empty strings of the byte arrays among `items` (bytes kept as they are).
pub open spec fn path_list(items: Seq<PropValue>) -> Seq<Seq<char>>
    decreases items.len(),
{
    if items.len() == 0 {
        Seq::empty()
    } else {
        let rest = path_list(items.drop_last());
        match items.last() {
            PropValue::Array(bytes) => {
                let p = byte_chars(bytes@, false);
                if p.len() > 0 {
                    rest.push(p)
                } else {
                    rest
                }
            },
            _ => rest,
        }
    }
}

/// An array of byte arrays read as a list of paths; `None` where it holds no path.
pub open spec fn path_list_value(v: PropValue) -> Option<Seq<Seq<char>>> {
    match v {
        PropValue::Array(items) => {
            let l = path_list(items@);
            if l.len() > 0 {
                Some(l)
            } else {
                None
            }
        },
        _ => None,
    }
}

/// Reads a property through one of the readers above.
pub open spec fn read_prop<T>(props: Properties, key: Seq<char>, f: spec_fn(PropValue) -> Option<T>) -> Option<T> {
    match lookup(props.entries@, key) {
        Some(v) => f(v),
        None => None,
    }
}

pub open spec fn string_property(props: Properties, key: Seq<char>) -> Option<Seq<char>> {
    read_prop(props, key, |v: PropValue| text_value(v))
}

pub open spec fn object_path_property(props: Properties, key: Seq<char>) -> Option<Seq<char>> {
    read_prop(props, key, |v: PropValue| object_path_value(v))
}

pub open spec fn u64_property(props: Properties, key: Seq<char>) -> Option<u64> {
    read_prop(props, key, |v: PropValue| u64_value(v))
}

pub open spec fn bool_property(props: Properties, key: Seq<char>) -> Option<bool> {
    read_prop(props, key, |v: PropValue| bool_value(v))
}

pub open spec fn byte_string_property(props: Properties, key: Seq<char>) -> Option<Seq<char>> {
    read_prop(props, key, |v: PropValue| byte_string_value(v))
}

/// The key under which udisks2 lists a filesystem's mount points.
pub open spec fn mount_points_key() -> Seq<char> {
    "MountPoints"@
}

pub open spec fn mount_points_property(props: Properties) -> Option<Seq<Seq<char>>> {
    read_prop(props, mount_points_key(), |v: PropValue| path_list_value(v))
}

/// Reads a string property.
pub fn get_property_string(props: &Properties, key: &str) -> (r: Option<String>)
    ensures
        crate::text::opt_text(r) == string_property(*props, key@),
{
    match find_property(props, key) {
        Some(PropValue::Str(s)) => Some(copy_text(s)),
        _ => None,
    }
}

/// Reads an object path property (an object path, or a string).
pub fn get_property_object_path(props: &Properties, key: &str) -> (r: Option<String>)
    ensures
        crate::text::opt_text(r) == object_path_property(*props, key@),
{
    match find_property(props, key) {
        Some(PropValue::ObjectPath(s)) => Some(copy_text(s)),
        Some(PropValue::Str(s)) => Some(copy_text(s)),
        _ => None,
    }
}

/// Reads an unsigned integer property; a signed one is reinterpreted.
pub fn get_property_u64(props: &Properties, key: &str) -> (r: Option<u64>)
    ensures
        r == u64_property(*props, key@),
{
    match find_property(props, key) {
        Some(PropValue::U64(n)) => Some(*n),
        Some(PropValue::I64(n)) => Some(*n as u64),
        _ => None,
    }
}

/// Reads a boolean property.
pub fn get_property_bool(props: &Properties, key: &str) -> (r: Option<bool>)
    ensures
        r == bool_property(*props, key@),
{
    match find_property(props, key) {
        Some(PropValue::Bool(b)) => Some(*b),
        _ => None,
    }
}

/// The characters of the bytes in `items` (zero bytes left out where `skip_nul`).
pub fn collect_byte_chars(items: &Vec<PropValue>, skip_nul: bool) -> (r: String)
    ensures
        r@ == byte_chars(items@, skip_nul),
{
    let mut s = String::new();
    let n = items.len();
    for i in 0..n
        invariant
            n == items.len(),
            s@ == byte_chars(items@.take(i as int), skip_nul),
    {
        proof {
            assert(items@.take(i + 1).drop_last() =~= items@.take(i as int));
        }
        match &items[i] {
            PropValue::Byte(b) => {
                if !(skip_nul && *b == 0) {
                    push_char(&mut s, *b as char);
                }
            },
            _ => {},
        }
    }
    assert(items@.take(n as int) =~= items@);
    s
}

/// Reads a byte-array property as a string, leaving zero bytes out.
pub fn get_property_byte_array(props: &Properties, key: &str) -> (r: Option<String>)
    ensures
        crate::text::opt_text(r) == byte_string_property(*props, key@),
{
    match find_property(props, key) {
        Some(PropValue::Array(items)) => {
            let s = collect_byte_chars(items, true);
            if s.as_str().is_empty() {
                None
            } else {
                Some(s)
            }
        },
        _ => None,
    }
}

/// Reads the `MountPoints` property: the non-empty byte strings it lists.
pub fn get_property_mount_points(props: &Properties) -> (r: Option<Vec<String>>)
    ensures
        match r {
            Some(v) => mount_points_property(*props) == Some(texts(v@)),
            None => mount_points_property(*props) is None,
        },
{
    let key = "MountPoints";
    proof {
        reveal_strlit("MountPoints");
    }
    match find_property(props, key) {
        Some(PropValue::Array(items)) => {
            let mut result: Vec<String> = Vec::new();
            let n = items.len();
            for i in 0..n
                invariant
                    n == items.len(),
                    texts(result@) == path_list(items@.take(i as int)),
            {
                proof {
                    assert(items@.take(i + 1).drop_last() =~= items@.take(i as int));
                }
                match &items[i] {
                    PropValue::Array(bytes) => {
                        let p = collect_byte_chars(bytes, false);
                        if !p.as_str().is_empty() {
                            let ghost before = result@;
                            result.push(p);
                            proof {
                                assert(texts(result@) =~= texts(before).push(p@));
                            }
                        }
                    },
                    _ => {},
                }
            }
            assert(items@.take(n as int) =~= items@);
            if result.len() == 0 {
                None
            } else {
                Some(result)
            }
        },
        _ => None,
    }
}

/// Zero bytes never reach a string read with `skip_nul`.
pub proof fn lemma_byte_chars_without_nul(items: Seq<PropValue>)
    ensures
        forall|i: int|
            0 <= i < byte_chars(items, true).len() ==> #[trigger] byte_chars(items, true)[i]
                != '\0',
    decreases items.len(),
{
    if items.len() > 0 {
        let rest = byte_chars(items.drop_last(), true);
        lemma_byte_chars_without_nul(items.drop_last());
        let all = byte_chars(items, true);
        match items.last() {
            PropValue::Byte(b) => {
                if b != 0 {
                    assert((b as char) as int == b as int);
                    assert(all == rest.push(b as char));
                    assert forall|i: int| 0 <= i < all.len() implies #[trigger] all[i] != '\0' by {
                        if i < rest.len() {
                            assert(all[i] == rest[i]);
                        } else {
                            assert(all[i] == b as char);
                        }
                    }
                }
            },
            _ => {},
        }
    }
}

/// A device name read from a byte-array property holds no NUL character and is not empty.
pub proof fn lemma_byte_string_property_clean(props: Properties, key: Seq<char>)
    ensures
        byte_string_property(props, key) matches Some(s) ==> s.len() > 0 && !s.contains('\0'),
{
    match lookup(props.entries@, key) {
        Some(PropValue::Array(items)) => {
            lemma_byte_chars_without_nul(items@);
        },
        _ => {},
    }
}

/// Every path in a list read from byte arrays is non-empty.
pub proof fn lemma_path_list_non_empty(items: Seq<PropValue>)
    ensures
        forall|i: int| 0 <= i < path_list(items).len() ==> (#[trigger] path_list(items)[i]).len() > 0,
    decreases items.len(),
{
    if items.len() > 0 {
        let rest = path_list(items.drop_last());
        lemma_path_list_non_empty(items.drop_last());
        let all = path_list(items);
        assert forall|i: int| 0 <= i < all.len() implies (#[trigger] all[i]).len() > 0 by {
            if i < rest.len() {
                match items.last() {
                    PropValue::Array(bytes) => {
                        let p = byte_chars(bytes@, false);
                        if p.len() > 0 {
                            assert(all == rest.push(p));
                        }
                    },
                    _ => {},
                }
                assert(all[i] == rest[i]);
            }
        }
    }
}

} // verus!
