//! Releases and their downloadable assets, as a release catalog lists them.

use vstd::prelude::*;

verus! {

/// The address type of the `url` crate, which an asset carries to the
/// download untouched. Nothing is stated of its contents.
#[verifier::external_type_specification]
#[verifier::external_body]
pub struct ExUrl(url::Url);

/// `Clone::clone` of `url::Url`, which the derived `Clone` of an asset
/// calls. The address is opaque here, so nothing is claimed of the copy.
pub assume_specification[ <url::Url as std::clone::Clone>::clone ](_0: &url::Url) -> url::Url;

/// A downloadable artifact of a release.
#[derive(Debug, Clone)]
pub struct Asset {
    pub id: u64,
    /// The download address.
    pub url: url::Url,
    /// The file name, by which the asset is matched against a platform.
    pub name: String,
}

/// A published release of a tool.
#[derive(Debug, Clone)]
pub struct Release {
    pub assets: Vec<Asset>,
    pub tag_name: String,
    pub prerelease: bool,
}

/// The bytes of a text, which all matching in this library works on.
pub open spec fn text_bytes(s: &String) -> Seq<u8> {
    vstd::utf8::encode_utf8(s@)
}

} // verus!
