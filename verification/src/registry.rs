//! The partition types that the `gpt` crate knows by name.

use vstd::prelude::*;

verus! {

/// The type GUID that `gpt::partition_types::Type::from_name` finds for
/// `name`, or `None` where it finds no type. The lookup ignores case and
/// knows each type by the name of its constant and by its GUID.
pub uninterp spec fn registered_guid(name: Seq<char>) -> Option<Seq<char>>;

/// The type GUID of Linux filesystem data.
pub open spec fn linux_filesystem_guid() -> Seq<char> {
    "0FC63DAF-8483-4772-8E79-3D69D8477DE4"@
}

/// Calls `gpt::partition_types::Type::from_name` and hands back the `guid`
/// field of the type found. Trusted: the result is what `registered_guid`
/// names for the same text.
#[verifier::external_body]
pub(crate) fn lookup_guid(name: &str) -> (r: Option<String>)
    ensures
        r matches Some(guid) ==> registered_guid(name@) == Some(guid@),
        r is None ==> registered_guid(name@) is None,
{
    match gpt::partition_types::Type::from_name(name) {
        Ok(found) => Some(found.guid.to_string()),
        Err(_) => None,
    }
}

/// Hands back the `guid` field of `gpt::partition_types::LINUX_FS`.
/// Trusted: the constant holds the GUID written out in
/// `linux_filesystem_guid`, and the registry lists it under the constant's
/// own name.
#[verifier::external_body]
pub(crate) fn linux_filesystem() -> (guid: String)
    ensures
        guid@ == linux_filesystem_guid(),
        registered_guid("LINUX_FS"@) == Some(guid@),
{
    gpt::partition_types::LINUX_FS.guid.to_string()
}

} // verus!
