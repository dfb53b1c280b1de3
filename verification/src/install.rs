//! The decisions of an install: which release and asset to download,
//! what the downloaded bytes are, and in which order the executable is
//! put in place.

use vstd::prelude::*;
use crate::error::ToolError;
use crate::home::{InstalledTool, InstalledToolView};
use crate::models::{Asset, Release};
use crate::resolve::{picks, resolve_index, unsatisfiable, VersionSpec};
use crate::select::{asset_pick, no_asset_fits, select_index, Os, Platform};
use crate::trust::ToolId;

verus! {

/// What a downloaded payload is.
#[derive(Clone, Copy, Debug, PartialEq, Eq, Structural)]
pub enum PayloadKind {
    /// The executable itself.
    Executable,
    /// A zip archive that holds the executable.
    Zip,
    /// A gzip stream that holds the executable.
    Gzip,
}

/// The four bytes that a zip archive starts with.
pub open spec fn starts_as_zip(b: Seq<u8>) -> bool {
    b.len() >= 4 && b[0] == 0x50 && b[1] == 0x4b && b[2] == 0x03 && b[3] == 0x04
}

/// The two bytes that a gzip stream starts with.
pub open spec fn starts_as_gzip(b: Seq<u8>) -> bool {
    b.len() >= 2 && b[0] == 0x1f && b[1] == 0x8b
}

/// What the bytes of a payload are, by the way they start.
pub open spec fn payload_kind(b: Seq<u8>) -> PayloadKind {
    if starts_as_zip(b) {
        PayloadKind::Zip
    } else if starts_as_gzip(b) {
        PayloadKind::Gzip
    } else {
        PayloadKind::Executable
    }
}

/// Looks at a downloaded payload. An empty one counts as a failed
/// download; any other is an archive of a known format or the
/// executable itself.
pub fn classify_payload(bytes: &[u8]) -> (r: Result<PayloadKind, ToolError>)
    ensures
        r == if bytes@.len() == 0 {
            Err::<PayloadKind, ToolError>(ToolError::NetworkError)
        } else {
            Ok(payload_kind(bytes@))
        },
{
    let n: usize = bytes.len();
    if n == 0 {
        Err(ToolError::NetworkError)
    } else if n >= 4 && bytes[0] == 0x50 && bytes[1] == 0x4b && bytes[2] == 0x03 && bytes[3]
        == 0x04 {
        Ok(PayloadKind::Zip)
    } else if n >= 2 && bytes[0] == 0x1f && bytes[1] == 0x8b {
        Ok(PayloadKind::Gzip)
    } else {
        Ok(PayloadKind::Executable)
    }
}

/// `i` is the one member of the archive with the expected name.
pub open spec fn only_member(names: Seq<String>, expected: Seq<char>, i: int) -> bool {
    &&& 0 <= i < names.len()
    &&& names[i]@ == expected
    &&& forall|j: int| 0 <= j < names.len() && j != i ==> (#[trigger] names[j])@ != expected
}

/// Finds the executable among the members of an archive: the one member
/// with the expected name. An archive with no such member, or with
/// several, is not a valid package.
pub fn single_member(names: &Vec<String>, expected: &String) -> (r: Result<usize, ToolError>)
    ensures
        match r {
            Ok(i) => only_member(names@, expected@, i as int),
            Err(e) => e == ToolError::InvalidPackage && forall|i: int|
                !only_member(names@, expected@, i),
        },
{
    let mut found: Option<usize> = None;
    let mut i: usize = 0;
    while i < names.len()
        invariant
            i <= names@.len(),
            match found {
                Some(f) => f < i && names@[f as int]@ == expected@ && forall|j: int|
                    0 <= j < i && j != f ==> (#[trigger] names@[j])@ != expected@,
                None => forall|j: int| 0 <= j < i ==> (#[trigger] names@[j])@ != expected@,
            },
        decreases names@.len() - i,
    {
        if names[i] == *expected {
            match found {
                Some(f) => {
                    assert forall|k: int| !only_member(names@, expected@, k) by {
                        if only_member(names@, expected@, k) {
                            if k == f as int {
                                assert(names@[i as int]@ == expected@);
                            } else {
                                assert(names@[f as int]@ == expected@);
                            }
                        }
                    }
                    return Err(ToolError::InvalidPackage);
                },
                None => {
                    found = Some(i);
                },
            }
        }
        i = i + 1;
    }
    match found {
        Some(f) => Ok(f),
        None => Err(ToolError::InvalidPackage),
    }
}

/// One step of putting an executable in place.
#[derive(Clone, Copy, Debug, PartialEq, Eq, Structural)]
pub enum FileStep {
    /// Write the bytes to a temporary file beside the final path.
    WriteTemporary,
    /// Give the temporary file the owner's execute bit.
    MarkExecutable,
    /// Rename the temporary file to the final path.
    RenameIntoPlace,
}

/// The steps for a system: the execute bit only where the system has one.
pub open spec fn steps_for(os: Os) -> Seq<FileStep> {
    match os {
        Os::Windows => seq![FileStep::WriteTemporary, FileStep::RenameIntoPlace],
        _ => seq![FileStep::WriteTemporary, FileStep::MarkExecutable, FileStep::RenameIntoPlace],
    }
}

/// The steps that put an executable in place, in their order.
pub fn write_steps(os: Os) -> (r: Vec<FileStep>)
    ensures
        r@ == steps_for(os),
{
    let mut r: Vec<FileStep> = Vec::new();
    r.push(FileStep::WriteTemporary);
    match os {
        Os::Windows => {},
        _ => {
            r.push(FileStep::MarkExecutable);
        },
    }
    r.push(FileStep::RenameIntoPlace);
    assert(r@ =~= steps_for(os));
    r
}

/// The final path is touched once, by the rename, and that is the last
/// step: whatever interrupts the steps before it leaves the final path
/// as it was.
pub proof fn law_rename_comes_last(os: Os)
    ensures
        steps_for(os).last() == FileStep::RenameIntoPlace,
        forall|k: int|
            0 <= k < steps_for(os).len() - 1 ==> steps_for(os)[k] != FileStep::RenameIntoPlace,
{
}

/// The release at `i` is the one that the specifier selects, and its
/// asset at `k` the one that fits the platform.
pub open spec fn download_pick(
    spec: VersionSpec,
    releases: Seq<Release>,
    platform: Platform,
    allow_prerelease: bool,
    i: int,
    k: int,
) -> bool {
    &&& 0 <= i < releases.len()
    &&& picks(spec, releases, allow_prerelease, i)
    &&& 0 <= k < releases[i].assets@.len()
    &&& asset_pick(releases[i].assets@, platform, k)
}

/// What to download for a specifier, from the releases that the source
/// listed: the release that the specifier selects and, of it, the asset
/// that fits the platform.
pub fn choose_download<'a>(
    spec: &VersionSpec,
    releases: &'a Vec<Release>,
    platform: &Platform,
    allow_prerelease: bool,
) -> (r: Result<(&'a Release, &'a Asset), ToolError>)
    ensures
        match r {
            Ok((rel, asset)) => exists|i: int, k: int|
                download_pick(*spec, releases@, *platform, allow_prerelease, i, k) && *rel
                    == releases@[i] && *asset == releases@[i].assets@[k],
            Err(e) => if releases@.len() == 0 {
                e == ToolError::NotFound
            } else if unsatisfiable(*spec, releases@, allow_prerelease) {
                e == ToolError::SpecNotSatisfiable
            } else {
                e == ToolError::NoMatchingAsset && exists|i: int|
                    0 <= i < releases@.len() && picks(*spec, releases@, allow_prerelease, i)
                        && no_asset_fits(releases@[i].assets@, *platform)
            },
        },
{
    if releases.len() == 0 {
        return Err(ToolError::NotFound);
    }
    match resolve_index(spec, releases, allow_prerelease) {
        None => Err(ToolError::SpecNotSatisfiable),
        Some(i) => {
            let rel = &releases[i];
            proof {
                lemma_pick_excludes_unsatisfiable(*spec, releases@, allow_prerelease, i as int);
            }
            match select_index(&rel.assets, platform) {
                None => {
                    assert(0 <= i < releases@.len() && picks(
                        *spec,
                        releases@,
                        allow_prerelease,
                        i as int,
                    ) && no_asset_fits(releases@[i as int].assets@, *platform));
                    Err(ToolError::NoMatchingAsset)
                },
                Some(k) => {
                    let asset = &rel.assets[k];
                    assert(download_pick(
                        *spec,
                        releases@,
                        *platform,
                        allow_prerelease,
                        i as int,
                        k as int,
                    ));
                    Ok((rel, asset))
                },
            }
        },
    }
}

proof fn lemma_pick_excludes_unsatisfiable(
    spec: VersionSpec,
    releases: Seq<Release>,
    allow_prerelease: bool,
    i: int,
)
    requires
        0 <= i < releases.len(),
        picks(spec, releases, allow_prerelease, i),
    ensures
        !unsatisfiable(spec, releases, allow_prerelease),
{
}

/// Where an executable is stored, as the names of the directories below
/// the storage root and of the file: the identifier's scope and name,
/// the tag of the release, and the name again. Each version of each
/// tool has a path of its own.
pub fn storage_path(id: &ToolId, release: &Release) -> (r: Vec<String>)
    ensures
        r@.len() == 4,
        r@[0]@ == id@.scope,
        r@[1]@ == id@.name,
        r@[2]@ == release.tag_name@,
        r@[3]@ == id@.name,
{
    let mut r: Vec<String> = Vec::new();
    r.push(id.scope.clone());
    r.push(id.name.clone());
    r.push(release.tag_name.clone());
    r.push(id.name.clone());
    r
}

/// The record of a finished install.
pub fn installed(id: ToolId, release: &Release, path: String) -> (r: InstalledTool)
    ensures
        r@ == (InstalledToolView { id: id@, version: release.tag_name@, path: path@ }),
{
    InstalledTool { id, version: release.tag_name.clone(), path }
}

} // verus!
