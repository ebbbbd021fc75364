//! Reading `cargo metadata` output.

use vstd::prelude::*;

use crate::error::CoverageError;
use crate::json::{find_member, json_eq, parse_json_bytes, spec_parse_json_bytes, JsonValue};
use crate::text::str_eq;

verus! {

/// Whether some element of `list` equals `value`.
pub open spec fn json_contains(list: Seq<JsonValue>, value: JsonValue) -> bool {
    exists|k: int| 0 <= k < list.len() && json_eq(#[trigger] list[k], value)
}

/// Reports whether some element of `list` equals `value`.
pub fn contains_json(list: &Vec<JsonValue>, value: &JsonValue) -> (res: bool)
    ensures
        res == json_contains(list@, *value),
{
    let n = list.len();
    let mut k: usize = 0;
    while k < n
        invariant
            n == list@.len(),
            0 <= k <= n,
            forall|j: int| 0 <= j < k ==> !json_eq(#[trigger] list@[j], *value),
        decreases n - k,
    {
        if list[k].equals(value) {
            return true;
        }
        k = k + 1;
    }
    false
}

/// The three lists that cargo metadata provides: workspace members, default
/// members and packages, or the error for the first one missing.
pub open spec fn spec_metadata_lists(metadata: JsonValue) -> Result<
    (Seq<JsonValue>, Seq<JsonValue>, Seq<JsonValue>),
    CoverageError,
> {
    match metadata.spec_index("workspace_members"@).spec_as_array() {
        None => Err(CoverageError::MetadataWithoutMembers),
        Some(members) => match metadata.spec_index("workspace_default_members"@).spec_as_array() {
            None => Err(CoverageError::MetadataWithoutDefaultMembers),
            Some(defaults) => match metadata.spec_index("packages"@).spec_as_array() {
                None => Err(CoverageError::MetadataWithoutPackages),
                Some(packages) => Ok((members, defaults, packages)),
            },
        },
    }
}

fn array_member<'a>(value: &'a JsonValue, key: &str) -> (res: Option<&'a Vec<JsonValue>>)
    ensures
        match res {
            Some(a) => value.spec_index(key@).spec_as_array() == Some(a@),
            None => value.spec_index(key@).spec_as_array() is None,
        },
{
    match value.get(key) {
        Some(v) => v.as_array(),
        None => None,
    }
}

/// Extracts the workspace members, default members and packages from
/// `cargo metadata` output.
pub fn metadata_lists(metadata: &JsonValue) -> (res: Result<
    (&Vec<JsonValue>, &Vec<JsonValue>, &Vec<JsonValue>),
    CoverageError,
>)
    ensures
        match (res, spec_metadata_lists(*metadata)) {
            (Ok((m, d, p)), Ok((sm, sd, sp))) => m@ == sm && d@ == sd && p@ == sp,
            (Err(e), Err(f)) => e == f,
            _ => false,
        },
{
    let members = match array_member(metadata, "workspace_members") {
        Some(a) => a,
        None => return Err(CoverageError::MetadataWithoutMembers),
    };
    let defaults = match array_member(metadata, "workspace_default_members") {
        Some(a) => a,
        None => return Err(CoverageError::MetadataWithoutDefaultMembers),
    };
    let packages = match array_member(metadata, "packages") {
        Some(a) => a,
        None => return Err(CoverageError::MetadataWithoutPackages),
    };
    Ok((members, defaults, packages))
}

/// A workspace member as the metadata describes it.
#[derive(Debug)]
pub struct PackageEntry {
    /// The package name.
    pub name: String,
    /// The manifest path as the metadata states it.
    pub manifest_path: String,
    /// Whether the package is a default member.
    pub is_default: bool,
}

/// The entry for a metadata package: `None` for a package that is not a
/// workspace member; for a member, its name, manifest path and default
/// membership, or the error for a missing name or manifest path.
pub open spec fn spec_package_entry(
    package: JsonValue,
    members: Seq<JsonValue>,
    defaults: Seq<JsonValue>,
) -> Result<Option<PackageEntry>, CoverageError> {
    let id = package.spec_index("id"@);
    if !json_contains(members, id) {
        Ok(None)
    } else {
        match package.spec_index("name"@).spec_as_str() {
            None => Err(CoverageError::PackageWithoutName),
            Some(name) => match package.spec_index("manifest_path"@).spec_as_str() {
                None => Err(CoverageError::PackageWithoutManifestPath),
                Some(manifest_path) => Ok(
                    Some(PackageEntry { name, manifest_path, is_default: json_contains(defaults, id) }),
                ),
            },
        }
    }
}

fn string_member<'a>(value: &'a JsonValue, key: &str) -> (res: Option<&'a String>)
    ensures
        match res {
            Some(s) => value.spec_index(key@).spec_as_str() == Some(*s),
            None => value.spec_index(key@).spec_as_str() is None,
        },
{
    match value.get(key) {
        Some(v) => v.as_str(),
        None => None,
    }
}

/// Reads one element of the metadata `packages` array.
pub fn package_entry(package: &JsonValue, members: &Vec<JsonValue>, defaults: &Vec<JsonValue>) -> (res:
    Result<Option<PackageEntry>, CoverageError>)
    ensures
        res == spec_package_entry(*package, members@, defaults@),
{
    let null = JsonValue::Null;
    let id = match package.get("id") {
        Some(v) => v,
        None => &null,
    };
    if !contains_json(members, id) {
        return Ok(None);
    }
    let name = match string_member(package, "name") {
        Some(s) => s,
        None => return Err(CoverageError::PackageWithoutName),
    };
    let manifest_path = match string_member(package, "manifest_path") {
        Some(s) => s,
        None => return Err(CoverageError::PackageWithoutManifestPath),
    };
    let is_default = contains_json(defaults, id);
    Ok(Some(PackageEntry { name: name.clone(), manifest_path: manifest_path.clone(), is_default }))
}

} // verus!

verus! {

/// The first member named `key` among the members from index `i` on: the
/// one at `i` if it has that key, else the first after it.
proof fn lemma_find_member_step(members: Seq<(String, JsonValue)>, i: int, key: Seq<char>)
    requires
        0 <= i < members.len(),
    ensures
        find_member(members.skip(i), key) == if members[i].0@ == key {
            Some(members[i].1)
        } else {
            find_member(members.skip(i + 1), key)
        },
{
    assert(members.skip(i)[0] == members[i]);
    assert(members.skip(i).drop_first() =~= members.skip(i + 1));
}

/// The elements of an array value.
pub open spec fn array_view(value: Option<Vec<JsonValue>>) -> Option<Seq<JsonValue>> {
    match value {
        Some(v) => Some(v@),
        None => None,
    }
}

fn into_array(value: Option<JsonValue>) -> (res: Option<Vec<JsonValue>>)
    ensures
        array_view(res) == match value {
            Some(v) => v.spec_as_array(),
            None => None,
        },
{
    match value {
        Some(JsonValue::Array(items)) => Some(items),
        _ => None,
    }
}

/// Takes the `workspace_members`, `workspace_default_members` and
/// `packages` arrays out of a metadata document.
#[verifier::loop_isolation(false)]
fn into_lists(doc: JsonValue) -> (res: (Option<Vec<JsonValue>>, Option<Vec<JsonValue>>, Option<Vec<JsonValue>>))
    ensures
        array_view(res.0) == doc.spec_index("workspace_members"@).spec_as_array(),
        array_view(res.1) == doc.spec_index("workspace_default_members"@).spec_as_array(),
        array_view(res.2) == doc.spec_index("packages"@).spec_as_array(),
{
    let mut members = match doc {
        JsonValue::Object(m) => m,
        _ => return (None, None, None),
    };
    proof {
        reveal_strlit("workspace_members");
        reveal_strlit("workspace_default_members");
        reveal_strlit("packages");
    }
    let ghost whole = members@;
    let ghost k1 = "workspace_members"@;
    let ghost k2 = "workspace_default_members"@;
    let ghost k3 = "packages"@;
    let mut first: Option<JsonValue> = None;
    let mut second: Option<JsonValue> = None;
    let mut third: Option<JsonValue> = None;
    assert(whole.skip(whole.len() as int) =~= Seq::<(String, JsonValue)>::empty());
    while members.len() > 0
        invariant
            members@ == whole.take(members@.len() as int),
            members@.len() <= whole.len(),
            first == find_member(whole.skip(members@.len() as int), k1),
            second == find_member(whole.skip(members@.len() as int), k2),
            third == find_member(whole.skip(members@.len() as int), k3),
        decreases members@.len(),
    {
        let ghost n = members@.len();
        let pair = members.pop().unwrap();
        proof {
            assert(pair == whole[n - 1]);
            assert(members@ =~= whole.take(n - 1));
            lemma_find_member_step(whole, n - 1, k1);
            lemma_find_member_step(whole, n - 1, k2);
            lemma_find_member_step(whole, n - 1, k3);
        }
        let (key, value) = pair;
        if str_eq(key.as_str(), "workspace_members") {
            assert(key@ != k2) by {
                assert(k1.len() != k2.len());
            }
            assert(key@ != k3) by {
                assert(k1.len() != k3.len());
            }
            first = Some(value);
        } else if str_eq(key.as_str(), "workspace_default_members") {
            assert(key@ != k3) by {
                assert(k2.len() != k3.len());
            }
            second = Some(value);
        } else if str_eq(key.as_str(), "packages") {
            third = Some(value);
        }
    }
    assert(whole.skip(0) =~= whole);
    (into_array(first), into_array(second), into_array(third))
}

/// Reads `cargo metadata` output: an `InvalidJson` error with serde_json's
/// message where the bytes do not parse, else the workspace members,
/// default members and packages, or the error for the first one missing.
pub fn metadata_from_stdout(stdout: &[u8]) -> (res: Result<
    (Vec<JsonValue>, Vec<JsonValue>, Vec<JsonValue>),
    CoverageError,
>)
    ensures
        match spec_parse_json_bytes(stdout@) {
            Err(m) => res matches Err(CoverageError::InvalidJson(e)) && e@ == m,
            Ok(doc) => match (res, spec_metadata_lists(doc)) {
                (Ok((m, d, p)), Ok((sm, sd, sp))) => m@ == sm && d@ == sd && p@ == sp,
                (Err(e), Err(f)) => e == f,
                _ => false,
            },
        },
{
    let doc = match parse_json_bytes(stdout) {
        Err(why) => return Err(CoverageError::InvalidJson(why)),
        Ok(doc) => doc,
    };
    let (members, defaults, packages) = into_lists(doc);
    let members = match members {
        Some(a) => a,
        None => return Err(CoverageError::MetadataWithoutMembers),
    };
    let defaults = match defaults {
        Some(a) => a,
        None => return Err(CoverageError::MetadataWithoutDefaultMembers),
    };
    let packages = match packages {
        Some(a) => a,
        None => return Err(CoverageError::MetadataWithoutPackages),
    };
    Ok((members, defaults, packages))
}

} // verus!
