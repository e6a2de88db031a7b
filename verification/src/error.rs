//! Error types for wowctl.

use vstd::prelude::*;

verus! {

/// Main error type for wowctl operations. Each variant carries the text
/// shown after its label.
#[derive(Debug, Clone)]
pub enum WowctlError {
    Config(String),
    Registry(String),
    Source(String),
    CurseForge(String),
    AddonNotFound(String),
    DistributionDenied(String),
    Network(String),
    CircuitBreakerOpen,
    Io(String),
    Serialization(String),
    Extraction(String),
    InvalidAddonDir(String),
    MissingApiKey(String),
    Dependency(String),
    Unauthorized(String),
}

/// The message an error displays.
pub open spec fn error_text(e: WowctlError) -> Seq<char> {
    match e {
        WowctlError::Config(s) => "Configuration error: "@ + s@,
        WowctlError::Registry(s) => "Registry error: "@ + s@,
        WowctlError::Source(s) => "Addon source error: "@ + s@,
        WowctlError::CurseForge(s) => "CurseForge API error: "@ + s@,
        WowctlError::AddonNotFound(s) => "Addon not found: "@ + s@,
        WowctlError::DistributionDenied(s) => "Distribution denied: "@ + s@,
        WowctlError::Network(s) => "Network error: "@ + s@,
        WowctlError::CircuitBreakerOpen => circuit_open_text(),
        WowctlError::Io(s) => "IO error: "@ + s@,
        WowctlError::Serialization(s) => "Serialization error: "@ + s@,
        WowctlError::Extraction(s) => "Extraction error: "@ + s@,
        WowctlError::InvalidAddonDir(s) => "Invalid addon directory: "@ + s@,
        WowctlError::MissingApiKey(s) => "Missing API key: "@ + s@,
        WowctlError::Dependency(s) => "Dependency error: "@ + s@,
        WowctlError::Unauthorized(s) => "Unauthorized: "@ + s@,
    }
}

pub open spec fn circuit_open_text() -> Seq<char> {
    "CurseForge API is temporarily unavailable after multiple consecutive failures. Please try again in a few seconds."@
}

fn labeled(label: &str, s: &String) -> (r: String)
    ensures
        r@ == label@ + s@,
{
    proof {
        reveal_strlit("");
    }
    crate::text::concat3(label, s.as_str(), "")
}

impl WowctlError {
    /// The message this error displays.
    pub fn message(&self) -> (r: String)
        ensures
            r@ == error_text(*self),
    {
        match self {
            WowctlError::Config(s) => labeled("Configuration error: ", s),
            WowctlError::Registry(s) => labeled("Registry error: ", s),
            WowctlError::Source(s) => labeled("Addon source error: ", s),
            WowctlError::CurseForge(s) => labeled("CurseForge API error: ", s),
            WowctlError::AddonNotFound(s) => labeled("Addon not found: ", s),
            WowctlError::DistributionDenied(s) => labeled("Distribution denied: ", s),
            WowctlError::Network(s) => labeled("Network error: ", s),
            WowctlError::CircuitBreakerOpen => {
                proof {
                    reveal_strlit("");
                }
                crate::text::concat3(
                "CurseForge API is temporarily unavailable after multiple consecutive failures. Please try again in a few seconds.",
                "",
                "",
            )
            },
            WowctlError::Io(s) => labeled("IO error: ", s),
            WowctlError::Serialization(s) => labeled("Serialization error: ", s),
            WowctlError::Extraction(s) => labeled("Extraction error: ", s),
            WowctlError::InvalidAddonDir(s) => labeled("Invalid addon directory: ", s),
            WowctlError::MissingApiKey(s) => labeled("Missing API key: ", s),
            WowctlError::Dependency(s) => labeled("Dependency error: ", s),
            WowctlError::Unauthorized(s) => labeled("Unauthorized: ", s),
        }
    }
}

} // verus!
