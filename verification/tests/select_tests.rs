use aftman::error::ToolError;
use aftman::install::{
    choose_download, classify_payload, installed, single_member, storage_path, write_steps,
    FileStep, PayloadKind,
};
use aftman::models::{Asset, Release};
use aftman::resolve::VersionSpec;
use aftman::select::{contains_token, rank_name, select, select_index, Arch, Os, Platform};
use aftman::trust::{SourceKind, ToolId};

fn asset(id: u64, name: &str) -> Asset {
    Asset { id, url: url::Url::parse(&format!("https://example.com/{}", id)).unwrap(), name: name.to_string() }
}

fn release_with(tag: &str, names: &[&str]) -> Release {
    let mut assets = Vec::new();
    for (i, n) in names.iter().enumerate() {
        assets.push(asset(i as u64 + 1, n));
    }
    Release { assets, tag_name: tag.to_string(), prerelease: false }
}

const LINUX_X64: Platform = Platform { os: Os::Linux, arch: Arch::X86_64 };
const MAC_ARM: Platform = Platform { os: Os::MacOs, arch: Arch::Aarch64 };
const WIN_X64: Platform = Platform { os: Os::Windows, arch: Arch::X86_64 };

#[test]
fn selects_first_asset_for_linux() {
    let r = release_with("v1.0.0", &["tool-linux-x86_64", "tool-darwin-arm64"]);
    let a = select(&r, &LINUX_X64).unwrap();
    assert_eq!(a.name, "tool-linux-x86_64");
    assert_eq!(a.id, 1);
}

#[test]
fn selects_second_asset_for_mac() {
    let r = release_with("v1.0.0", &["tool-linux-x86_64", "tool-darwin-arm64"]);
    assert_eq!(select_index(&r.assets, &MAC_ARM), Some(1));
}

#[test]
fn tolerates_synonyms_and_case() {
    let r = release_with("v1.0.0", &["Tool-MacOS-AArch64.zip", "TOOL-LINUX-AMD64.zip", "tool-Win64-x64.zip"]);
    assert_eq!(select_index(&r.assets, &LINUX_X64), Some(1));
    assert_eq!(select_index(&r.assets, &MAC_ARM), Some(0));
    assert_eq!(select_index(&r.assets, &WIN_X64), Some(2));
}

#[test]
fn exact_match_beats_universal() {
    let r = release_with("v1.0.0", &["tool-macos-universal", "tool-macos-arm64"]);
    assert_eq!(select_index(&r.assets, &MAC_ARM), Some(1));
}

#[test]
fn universal_is_second_choice() {
    let r = release_with("v1.0.0", &["tool-linux-x86_64", "tool-macos-universal"]);
    assert_eq!(select_index(&r.assets, &MAC_ARM), Some(1));
}

#[test]
fn first_listed_wins_a_tie() {
    let r = release_with("v1.0.0", &["tool-linux-amd64", "tool-linux-x86_64"]);
    assert_eq!(select_index(&r.assets, &LINUX_X64), Some(0));
}

#[test]
fn system_alone_is_not_enough() {
    let r = release_with("v1.0.0", &["tool-linux-arm64", "tool-windows-x86_64"]);
    assert_eq!(select(&r, &LINUX_X64).err(), Some(ToolError::NoMatchingAsset));
}

#[test]
fn no_assets_no_match() {
    let r = release_with("v1.0.0", &[]);
    assert_eq!(select(&r, &LINUX_X64).err(), Some(ToolError::NoMatchingAsset));
}

#[test]
fn darwin_is_not_windows() {
    let r = release_with("v1.0.0", &["tool-darwin-x86_64"]);
    assert_eq!(select_index(&r.assets, &WIN_X64), None);
}

#[test]
fn ranks_are_two_one_zero() {
    assert_eq!(rank_name(&"tool-linux-x86_64".to_string(), &LINUX_X64), 2);
    assert_eq!(rank_name(&"tool-linux-universal".to_string(), &LINUX_X64), 1);
    assert_eq!(rank_name(&"tool-linux".to_string(), &LINUX_X64), 0);
    assert_eq!(rank_name(&"tool-x86_64".to_string(), &LINUX_X64), 0);
}

#[test]
fn token_search() {
    assert!(contains_token(b"tool-Linux", b"linux"));
    assert!(contains_token(b"linux", b"LINUX"));
    assert!(!contains_token(b"linu", b"linux"));
    assert!(!contains_token(b"tool-linu-x", b"linux"));
    assert!(contains_token(b"abc", b""));
}

#[test]
fn payload_kinds() {
    assert_eq!(classify_payload(&[]), Err(ToolError::NetworkError));
    assert_eq!(classify_payload(&[0x50, 0x4b, 0x03, 0x04, 0x00]), Ok(PayloadKind::Zip));
    assert_eq!(classify_payload(&[0x1f, 0x8b, 0x08]), Ok(PayloadKind::Gzip));
    assert_eq!(classify_payload(&[0x7f, 0x45, 0x4c, 0x46]), Ok(PayloadKind::Executable));
    assert_eq!(classify_payload(&[0x50, 0x4b, 0x03]), Ok(PayloadKind::Executable));
    assert_eq!(classify_payload(&[0x1f]), Ok(PayloadKind::Executable));
}

#[test]
fn archive_with_one_expected_member() {
    let names = vec!["README.md".to_string(), "tool".to_string(), "LICENSE".to_string()];
    assert_eq!(single_member(&names, &"tool".to_string()), Ok(1));
}

#[test]
fn archive_without_expected_member() {
    let names = vec!["README.md".to_string()];
    assert_eq!(single_member(&names, &"tool".to_string()), Err(ToolError::InvalidPackage));
    assert_eq!(single_member(&Vec::new(), &"tool".to_string()), Err(ToolError::InvalidPackage));
}

#[test]
fn archive_with_ambiguous_member() {
    let names = vec!["tool".to_string(), "x".to_string(), "tool".to_string()];
    assert_eq!(single_member(&names, &"tool".to_string()), Err(ToolError::InvalidPackage));
}

#[test]
fn rename_is_the_last_step() {
    assert_eq!(
        write_steps(Os::Linux),
        vec![FileStep::WriteTemporary, FileStep::MarkExecutable, FileStep::RenameIntoPlace]
    );
    assert_eq!(
        write_steps(Os::MacOs),
        vec![FileStep::WriteTemporary, FileStep::MarkExecutable, FileStep::RenameIntoPlace]
    );
    assert_eq!(write_steps(Os::Windows), vec![FileStep::WriteTemporary, FileStep::RenameIntoPlace]);
}

#[test]
fn download_is_release_and_asset() {
    let releases = vec![
        release_with("v2.0.0", &["tool-linux-x86_64", "tool-darwin-arm64"]),
        release_with("v1.0.0", &["old-linux-x86_64"]),
    ];
    let (rel, a) = choose_download(&VersionSpec::Latest, &releases, &MAC_ARM, false).unwrap();
    assert_eq!(rel.tag_name, "v2.0.0");
    assert_eq!(a.name, "tool-darwin-arm64");
    let (rel, a) =
        choose_download(&VersionSpec::Exact("1.0.0".to_string()), &releases, &LINUX_X64, false)
            .unwrap();
    assert_eq!(rel.tag_name, "v1.0.0");
    assert_eq!(a.name, "old-linux-x86_64");
}

#[test]
fn download_errors() {
    let none: Vec<Release> = Vec::new();
    assert_eq!(
        choose_download(&VersionSpec::Latest, &none, &LINUX_X64, false).err(),
        Some(ToolError::NotFound)
    );
    let releases = vec![release_with("v2.0.0", &["tool-linux-x86_64"])];
    assert_eq!(
        choose_download(&VersionSpec::Exact("3.0.0".to_string()), &releases, &LINUX_X64, false)
            .err(),
        Some(ToolError::SpecNotSatisfiable)
    );
    assert_eq!(
        choose_download(&VersionSpec::Latest, &releases, &WIN_X64, false).err(),
        Some(ToolError::NoMatchingAsset)
    );
}

#[test]
fn install_record_names_the_release() {
    let id = ToolId { source: SourceKind::GitHub, scope: "rojo-rbx".to_string(), name: "rojo".to_string() };
    let r = release_with("v7.4.1", &[]);
    let t = installed(id, &r, "/home/tools/rojo-rbx/rojo/7.4.1/rojo".to_string());
    assert_eq!(t.version, "v7.4.1");
    assert_eq!(t.path, "/home/tools/rojo-rbx/rojo/7.4.1/rojo");
    assert_eq!(t.id.name, "rojo");
    assert_eq!(t.id.scope, "rojo-rbx");
}

#[test]
fn storage_path_is_scoped_to_tool_and_version() {
    let id = ToolId { source: SourceKind::GitHub, scope: "rojo-rbx".to_string(), name: "rojo".to_string() };
    let r = release_with("v7.4.1", &[]);
    assert_eq!(storage_path(&id, &r), vec!["rojo-rbx", "rojo", "v7.4.1", "rojo"]);
}
