//! Choosing the asset of a release that fits a platform, by file name.

use vstd::prelude::*;
use crate::error::ToolError;
use crate::models::{text_bytes, Asset, Release};

verus! {

/// An operating system family.
#[derive(Clone, Copy, Debug, PartialEq, Eq, Structural)]
pub enum Os {
    Linux,
    MacOs,
    Windows,
}

/// A processor architecture.
#[derive(Clone, Copy, Debug, PartialEq, Eq, Structural)]
pub enum Arch {
    X86_64,
    Aarch64,
}

/// The platform that a tool is to run on.
#[derive(Clone, Copy, Debug, PartialEq, Eq, Structural)]
pub struct Platform {
    pub os: Os,
    pub arch: Arch,
}

/// An ASCII capital letter turned into its small letter; any other byte as it is.
pub open spec fn lower(c: u8) -> u8 {
    if 65 <= c <= 90 {
        (c + 32) as u8
    } else {
        c
    }
}

/// The bytes of a token.
pub open spec fn token(s: &str) -> Seq<u8> {
    vstd::utf8::encode_utf8(s@)
}

/// Whether `token` stands in `name` at offset `k`, letter case aside.
pub open spec fn occurs_at(name: Seq<u8>, token: Seq<u8>, k: int) -> bool {
    &&& 0 <= k
    &&& k + token.len() <= name.len()
    &&& forall|i: int|
        0 <= i < token.len() ==> lower(name[k + i]) == lower(#[trigger] token[i])
}

/// Whether `token` stands somewhere in `name`, letter case aside.
pub open spec fn has_token(name: Seq<u8>, token: Seq<u8>) -> bool {
    exists|k: int| occurs_at(name, token, k)
}

/// Whether a file name names the operating system.
pub open spec fn os_match(name: Seq<u8>, os: Os) -> bool {
    match os {
        Os::Linux => has_token(name, token("linux")),
        Os::MacOs => has_token(name, token("macos")) || has_token(name, token("darwin"))
            || has_token(name, token("osx")),
        Os::Windows => has_token(name, token("windows")) || has_token(name, token("win64"))
            || has_token(name, token("win32")),
    }
}

/// Whether a file name names the architecture, under any of its usual names.
pub open spec fn arch_match(name: Seq<u8>, arch: Arch) -> bool {
    match arch {
        Arch::X86_64 => has_token(name, token("x86_64")) || has_token(name, token("x86-64"))
            || has_token(name, token("amd64")) || has_token(name, token("x64")),
        Arch::Aarch64 => has_token(name, token("aarch64")) || has_token(name, token("arm64")),
    }
}

/// Whether a file name declares that it runs on every architecture.
pub open spec fn universal(name: Seq<u8>) -> bool {
    has_token(name, token("universal"))
}

/// How well a file name fits: 2 for the system and the architecture, 1
/// for the system with the marker of an architecture-agnostic build, 0
/// for no fit.
pub open spec fn rank(name: Seq<u8>, p: Platform) -> nat {
    if os_match(name, p.os) && arch_match(name, p.arch) {
        2
    } else if os_match(name, p.os) && universal(name) {
        1
    } else {
        0
    }
}

/// The rank of an asset, by its file name.
pub open spec fn asset_rank(a: Asset, p: Platform) -> nat {
    rank(text_bytes(&a.name), p)
}

/// `i` is the first asset of the best rank, and that rank is not 0.
pub open spec fn asset_pick(assets: Seq<Asset>, p: Platform, i: int) -> bool {
    &&& 0 <= i < assets.len()
    &&& asset_rank(assets[i], p) > 0
    &&& forall|j: int|
        0 <= j < assets.len() ==> asset_rank(#[trigger] assets[j], p) <= asset_rank(assets[i], p)
    &&& forall|j: int| 0 <= j < i ==> asset_rank(#[trigger] assets[j], p) < asset_rank(assets[i], p)
}

/// No asset fits the platform.
pub open spec fn no_asset_fits(assets: Seq<Asset>, p: Platform) -> bool {
    forall|j: int| 0 <= j < assets.len() ==> asset_rank(#[trigger] assets[j], p) == 0
}

fn lower_byte(c: u8) -> (r: u8)
    ensures
        r == lower(c),
{
    if 65 <= c && c <= 90 {
        c + 32
    } else {
        c
    }
}

fn token_at(name: &[u8], tok: &[u8], k: usize) -> (r: bool)
    requires
        k + tok@.len() <= name@.len(),
    ensures
        r == occurs_at(name@, tok@, k as int),
{
    let n: usize = name.len();
    let mut i: usize = 0;
    while i < tok.len()
        invariant
            i <= tok@.len(),
            n == name@.len(),
            k + tok@.len() <= name@.len(),
            forall|m: int| 0 <= m < i ==> lower(name@[k + m]) == lower(#[trigger] tok@[m]),
        decreases tok@.len() - i,
    {
        if lower_byte(name[k + i]) != lower_byte(tok[i]) {
            return false;
        }
        i = i + 1;
    }
    true
}

/// Searches a file name for a token, letter case aside.
pub fn contains_token(name: &[u8], tok: &[u8]) -> (r: bool)
    ensures
        r == has_token(name@, tok@),
{
    if tok.len() > name.len() {
        return false;
    }
    let last: usize = name.len() - tok.len();
    let mut k: usize = 0;
    loop
        invariant
            k <= last,
            last == name@.len() - tok@.len(),
            forall|m: int| 0 <= m < k ==> !occurs_at(name@, tok@, m),
        decreases last - k,
    {
        if token_at(name, tok, k) {
            return true;
        }
        if k == last {
            return false;
        }
        k = k + 1;
    }
}

fn names_os(name: &[u8], os: Os) -> (r: bool)
    ensures
        r == os_match(name@, os),
{
    match os {
        Os::Linux => contains_token(name, "linux".as_bytes()),
        Os::MacOs => contains_token(name, "macos".as_bytes()) || contains_token(
            name,
            "darwin".as_bytes(),
        ) || contains_token(name, "osx".as_bytes()),
        Os::Windows => contains_token(name, "windows".as_bytes()) || contains_token(
            name,
            "win64".as_bytes(),
        ) || contains_token(name, "win32".as_bytes()),
    }
}

fn names_arch(name: &[u8], arch: Arch) -> (r: bool)
    ensures
        r == arch_match(name@, arch),
{
    match arch {
        Arch::X86_64 => contains_token(name, "x86_64".as_bytes()) || contains_token(
            name,
            "x86-64".as_bytes(),
        ) || contains_token(name, "amd64".as_bytes()) || contains_token(name, "x64".as_bytes()),
        Arch::Aarch64 => contains_token(name, "aarch64".as_bytes()) || contains_token(
            name,
            "arm64".as_bytes(),
        ),
    }
}

/// Ranks a file name for a platform.
pub fn rank_name(name: &String, platform: &Platform) -> (r: u8)
    ensures
        r == rank(text_bytes(name), *platform),
{
    let b = name.as_str().as_bytes();
    if !names_os(b, platform.os) {
        0
    } else if names_arch(b, platform.arch) {
        2
    } else if contains_token(b, "universal".as_bytes()) {
        1
    } else {
        0
    }
}

/// The index of the asset that fits the platform best, the first listed
/// among equals.
pub fn select_index(assets: &Vec<Asset>, platform: &Platform) -> (r: Option<usize>)
    ensures
        match r {
            Some(i) => asset_pick(assets@, *platform, i as int),
            None => no_asset_fits(assets@, *platform),
        },
{
    let mut best: usize = 0;
    let mut best_rank: u8 = 0;
    let mut i: usize = 0;
    while i < assets.len()
        invariant
            i <= assets@.len(),
            forall|j: int| 0 <= j < i ==> asset_rank(#[trigger] assets@[j], *platform) <= best_rank,
            best_rank > 0 ==> best < i && asset_rank(assets@[best as int], *platform) == best_rank
                && forall|j: int|
                0 <= j < best ==> asset_rank(#[trigger] assets@[j], *platform) < best_rank,
        decreases assets@.len() - i,
    {
        let r: u8 = rank_name(&assets[i].name, platform);
        if r > best_rank {
            best = i;
            best_rank = r;
        }
        i = i + 1;
    }
    if best_rank > 0 {
        Some(best)
    } else {
        None
    }
}

/// Picks the asset of a release for a platform: one whose name names the
/// system and the architecture before one that names the system and is
/// marked universal; the first listed among equals.
pub fn select<'a>(release: &'a Release, platform: &Platform) -> (r: Result<&'a Asset, ToolError>)
    ensures
        match r {
            Ok(a) => exists|i: int|
                asset_pick(release.assets@, *platform, i) && 0 <= i < release.assets@.len() && *a
                    == release.assets@[i],
            Err(e) => e == ToolError::NoMatchingAsset && no_asset_fits(release.assets@, *platform),
        },
{
    match select_index(&release.assets, platform) {
        Some(i) => {
            assert(asset_pick(release.assets@, *platform, i as int) && 0 <= i
                < release.assets@.len());
            Ok(&release.assets[i])
        },
        None => Err(ToolError::NoMatchingAsset),
    }
}

} // verus!
