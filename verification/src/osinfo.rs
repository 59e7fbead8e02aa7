//! Host identity facts: the platform family and, on Linux, the
//! distribution id and its "id-like" family list.
//!
//! Detection reads `/etc/os-release` and lives outside the verified core;
//! the engine receives an `OsInfo` value and never asks the host again.

use vstd::prelude::*;

verus! {

/// The operating-system family a host belongs to.
#[derive(Debug, Clone, Copy, PartialEq, Eq, Structural)]
pub enum Platform {
    Linux,
    MacOS,
    Windows,
}

/// The lower-case name of a platform, as selection expressions write it.
pub open spec fn spec_platform_name(p: Platform) -> Seq<char> {
    match p {
        Platform::Linux => "linux"@,
        Platform::MacOS => "macos"@,
        Platform::Windows => "windows"@,
    }
}

impl Platform {
    /// The platform's name, matched case-insensitively by OS expressions.
    pub fn as_str(self) -> (r: &'static str)
        ensures
            r@ == spec_platform_name(self),
    {
        match self {
            Platform::Linux => "linux",
            Platform::MacOS => "macos",
            Platform::Windows => "windows",
        }
    }
}

/// Identity facts of the host a run executes on.
pub struct OsInfo {
    pub platform: Platform,
    pub id: Option<String>,
    pub id_like: Vec<String>,
}

/// Mathematical image of an `OsInfo`: platform plus distribution names
/// as character sequences.
#[verifier::ext_equal]
pub struct OsInfoV {
    pub platform: Platform,
    pub id: Option<Seq<char>>,
    pub id_like: Seq<Seq<char>>,
}

impl View for OsInfo {
    type V = OsInfoV;

    open spec fn view(&self) -> OsInfoV {
        OsInfoV {
            platform: self.platform,
            id: match self.id {
                Some(s) => Some(s@),
                None => None,
            },
            id_like: self.id_like.deep_view(),
        }
    }
}

} // verus!
