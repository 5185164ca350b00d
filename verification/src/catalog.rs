//! The data model of the mod portal's catalog: the listing of all mods with
//! their latest releases, and the full per-mod metadata the engine's input
//! records are distilled from. Loaders fill these types in and hand them to
//! the pure selection helpers below.

use vstd::prelude::*;
use vstd::string::*;

use crate::dependency::Dep;
use crate::text::str_eq;

verus! {

/// The portal's listing of every mod with its latest release.
#[derive(Debug, Clone)]
pub struct ModList {
    pub results: Vec<Mod>,
}

/// The latest release of a mod, as the listing reports it.
pub type LatestRelease = Release<ShortInfoJson>;

/// One entry of the mod listing.
#[derive(Debug, Clone)]
pub struct Mod {
    pub name: String,
    pub latest_release: Option<LatestRelease>,
}

/// One published release of a mod.
#[derive(Debug, Clone)]
pub struct Release<INFO> {
    pub download_url: String,
    pub file_name: String,
    pub info_json: INFO,
    pub released_at: String,
    pub sha1: String,
    pub version: String,
}

/// The release info the listing carries: only the target platform version.
#[derive(Debug, Clone)]
pub struct ShortInfoJson {
    pub factorio_version: String,
}

/// The release info the full metadata carries: the parsed dependency
/// declarations and the target platform version.
#[derive(Debug, Clone)]
pub struct FullInfoJson {
    pub dependencies: Vec<Dep>,
    pub factorio_version: String,
}

/// An image attached to a mod's portal page.
#[derive(Debug, Clone)]
pub struct Image {
    pub id: String,
    pub thumbnail: String,
    pub url: String,
}

/// The license a mod is published under.
#[derive(Debug, Clone)]
pub struct License {
    pub description: String,
    pub id: String,
    pub name: String,
    pub title: String,
    pub url: String,
}

/// The position of the first release carrying exactly `version`, if any:
/// how the single already-selected release of a mod is picked out of its
/// full metadata.
pub fn find_release_by_version<INFO>(releases: &Vec<Release<INFO>>, version: &str) -> (r: Option<
    usize,
>)
    ensures
        r matches Some(i) ==> 0 <= i < releases@.len() && releases@[i as int].version@ == version@
            && (forall|j: int| 0 <= j < i ==> releases@[j].version@ != version@),
        r is None ==> forall|j: int| 0 <= j < releases@.len() ==> releases@[j].version@ != version@,
{
    let mut i: usize = 0;
    while i < releases.len()
        invariant
            i <= releases.len(),
            forall|j: int| 0 <= j < i ==> releases@[j].version@ != version@,
        decreases releases.len() - i,
    {
        if str_eq(releases[i].version.as_str(), version) {
            return Some(i);
        }
        i += 1;
    }
    None
}

/// Whether a mod's metadata is stale and must be fetched again: its stored
/// checksum differs from the listed one, either checksum is unknown, or no
/// metadata file exists yet.
pub fn needs_metadata_update(
    old_sha: Option<&String>,
    new_sha: Option<&String>,
    has_metadata: bool,
) -> (r: bool)
    ensures
        r == ((match (old_sha, new_sha) {
            (Some(o), Some(n)) => o@ != n@,
            _ => true,
        }) || !has_metadata),
{
    let stale = match (old_sha, new_sha) {
        (Some(o), Some(n)) => !str_eq(o.as_str(), n.as_str()),
        _ => true,
    };
    stale || !has_metadata
}

} // verus!
