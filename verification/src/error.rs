//! Failures that the components report.

use vstd::prelude::*;

verus! {

/// Every way in which a component can fail.
#[derive(Clone, Copy, Debug, PartialEq, Eq, Structural)]
pub enum ToolError {
    /// A state file does not exist (healed while loading).
    FileNotFound,
    /// A state file exists but cannot be parsed.
    FileCorrupt,
    /// The transport failed, or delivered nothing.
    NetworkError,
    /// The identifier has no releases.
    NotFound,
    /// No release satisfies the version specifier.
    SpecNotSatisfiable,
    /// No asset of the release fits the platform.
    NoMatchingAsset,
    /// The downloaded package does not hold the one expected executable.
    InvalidPackage,
    /// The identifier has not been approved for installation.
    Untrusted,
    /// The platform has no native symbolic links.
    PlatformUnsupported,
    /// Any other failure of the file system.
    Io,
}

} // verus!
