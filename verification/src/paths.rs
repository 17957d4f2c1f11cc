use vstd::prelude::*;

verus! {

/// The error type of the D-Bus value crate.
#[verifier::external_type_specification]
#[verifier::external_body]
pub struct ExZvariantError(zbus::zvariant::Error);

/// A character allowed in a D-Bus object path: ASCII letter, digit, `_` or `/`.
pub open spec fn object_path_char(c: char) -> bool {
    ('a' <= c && c <= 'z') || ('A' <= c && c <= 'Z') || ('0' <= c && c <= '9') || c == '_'
        || c == '/'
}

/// A D-Bus object path: it starts with `/`, holds only allowed characters,
/// has no `//`, and does not end with `/` unless it is `/` itself.
pub open spec fn is_object_path(p: Seq<char>) -> bool {
    &&& p.len() >= 1
    &&& p[0] == '/'
    &&& forall|i: int| 0 <= i < p.len() ==> object_path_char(#[trigger] p[i])
    &&& forall|i: int| 0 <= i < p.len() - 1 ==> !(#[trigger] p[i] == '/' && p[i + 1] == '/')
    &&& (p.len() == 1 || p[p.len() - 1] != '/')
}

/// Why a request about a device could not be made.
#[derive(Debug, Clone, Copy, PartialEq, Eq, Structural)]
pub enum PathError {
    /// The string is not a D-Bus object path.
    InvalidObjectPath,
}

/// `zbus::zvariant::ObjectPath::try_from(String)`: the crate validates the string
/// against the D-Bus object path grammar and, on success, keeps the string as it is.
/// Claimed: `Ok` exactly for object paths (see `is_object_path`), holding the same text.
#[verifier::external_body]
fn zvariant_object_path(path: String) -> (r: Result<String, zbus::zvariant::Error>)
    ensures
        r is Ok <==> is_object_path(path@),
        r matches Ok(p) ==> p@ == path@,
{
    match zbus::zvariant::ObjectPath::try_from(path) {
        Ok(p) => Ok(p.as_str().to_string()),
        Err(e) => Err(e),
    }
}

/// Checks that a string is a D-Bus object path before a request names it,
/// as mounting, unmounting, ejecting, unlocking and locking do.
pub fn checked_object_path(path: String) -> (r: Result<String, PathError>)
    ensures
        r is Ok <==> is_object_path(path@),
        r matches Ok(p) ==> p@ == path@,
        r matches Err(e) ==> e == PathError::InvalidObjectPath,
{
    match zvariant_object_path(path) {
        Ok(p) => Ok(p),
        Err(_) => Err(PathError::InvalidObjectPath),
    }
}

} // verus!
