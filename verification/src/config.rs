//! Configuration: the settings wowctl keeps, and how each is resolved from
//! the command line, the environment, the configuration file and built-in
//! defaults. What the environment holds is read by the program and handed
//! in.

use vstd::prelude::*;
use vstd::string::StringExecFns;
use crate::addon::ReleaseChannel;
use crate::error::WowctlError;
use crate::sources::opt_view;
use crate::text::{trim, trim_string};

verus! {

broadcast use vstd::string::group_string_axioms;

/// Main configuration structure for wowctl.
#[derive(Debug, Clone)]
pub struct Config {
    /// Path to the WoW addon directory. If None, will be auto-detected.
    pub addon_dir: Option<String>,
    /// CurseForge API key. Can also be set via WOWCTL_CURSEFORGE_API_KEY env var.
    pub curseforge_api_key: Option<String>,
    /// Wago Addons personal access key. Can also be set via
    /// WOWCTL_WAGO_ACCESS_KEY env var.
    pub wago_access_key: Option<String>,
    /// Whether to use colored output.
    pub color: bool,
    /// Default release channel for addon installs/updates (stable, beta, alpha).
    pub default_release_channel: Option<ReleaseChannel>,
}

impl Default for Config {
    fn default() -> (r: Config)
        ensures
            r.addon_dir is None,
            r.curseforge_api_key is None,
            r.wago_access_key is None,
            r.color,
            r.default_release_channel is None,
    {
        Config {
            addon_dir: None,
            curseforge_api_key: None,
            wago_access_key: None,
            color: true,
            default_release_channel: None,
        }
    }
}

pub open spec fn missing_key_text() -> Seq<char> {
    "CurseForge API key not found. Run 'wowctl config init' or set WOWCTL_CURSEFORGE_API_KEY environment variable"@
}

pub open spec fn undetected_dir_text() -> Seq<char> {
    "Could not auto-detect WoW addon directory. Please set it manually with 'wowctl config set addon_dir <path>'"@
}

/// A value that is present and not blank.
pub open spec fn usable(o: Option<Seq<char>>) -> bool {
    o matches Some(s) && trim(s).len() > 0
}

/// Resolves a Wago access key from an env-var value and a config value:
/// the environment wins; blank values count as unset.
pub open spec fn wago_key_choice(env_val: Option<Seq<char>>, config_val: Option<Seq<char>>) -> Option<Seq<char>> {
    if usable(env_val) {
        env_val
    } else if usable(config_val) {
        config_val
    } else {
        None
    }
}

fn is_usable(o: &Option<String>) -> (r: bool)
    ensures
        r == usable(opt_view(*o)),
{
    match o {
        Some(s) => {
            let t = trim_string(s.as_str());
            crate::text::chars_of(t.as_str()).len() > 0
        },
        None => false,
    }
}

/// Resolves a Wago access key from an env-var value and a config value.
/// Env takes precedence; blank/whitespace values are treated as unset.
pub fn resolve_wago_key(env_val: Option<String>, config_val: Option<String>) -> (r: Option<String>)
    ensures
        opt_view(r) == wago_key_choice(opt_view(env_val), opt_view(config_val)),
{
    if is_usable(&env_val) {
        env_val
    } else if is_usable(&config_val) {
        config_val
    } else {
        None
    }
}

impl Config {
    /// Gets the CurseForge API key. Precedence: the environment variable's
    /// value > config file > the key built into the program.
    pub fn get_api_key(&self, env_key: Option<String>, embedded_key: Option<String>) -> (r: Result<String, WowctlError>)
        ensures
            env_key matches Some(k) ==> (r matches Ok(v) && v@ == k@),
            (env_key is None && self.curseforge_api_key is Some) ==> (r matches Ok(v) && v@ == self.curseforge_api_key->0@),
            (env_key is None && self.curseforge_api_key is None && embedded_key is Some) ==> (r matches Ok(v)
                && v@ == embedded_key->0@),
            env_key is None && self.curseforge_api_key is None && embedded_key is None ==> (r matches Err(
                WowctlError::MissingApiKey(m),
            ) && m@ == missing_key_text()),
    {
        if let Some(k) = env_key {
            return Ok(k);
        }
        if let Some(k) = &self.curseforge_api_key {
            return Ok(k.clone());
        }
        if let Some(k) = embedded_key {
            return Ok(k);
        }
        proof {
            reveal_strlit("CurseForge API key not found. Run 'wowctl config init' or set WOWCTL_CURSEFORGE_API_KEY environment variable");
        }
        Err(WowctlError::MissingApiKey(String::from_str(
            "CurseForge API key not found. Run 'wowctl config init' or set WOWCTL_CURSEFORGE_API_KEY environment variable",
        )))
    }

    /// Gets the Wago access key, if configured: the environment variable's
    /// value > config file; there is no built-in key. `None` means the Wago
    /// source is unconfigured.
    pub fn get_wago_access_key(&self, env_val: Option<String>) -> (r: Option<String>)
        ensures
            opt_view(r) == wago_key_choice(opt_view(env_val), opt_view(self.wago_access_key)),
    {
        let cfg = match &self.wago_access_key {
            Some(k) => Some(k.clone()),
            None => None,
        };
        resolve_wago_key(env_val, cfg)
    }

    /// Resolves the release channel: CLI override > config default > Stable.
    pub fn resolve_channel(&self, cli_override: Option<ReleaseChannel>) -> (r: ReleaseChannel)
        ensures
            r == (match cli_override {
                Some(c) => c,
                None => match self.default_release_channel {
                    Some(c) => c,
                    None => ReleaseChannel::Stable,
                },
            }),
    {
        match cli_override {
            Some(c) => c,
            None => match self.default_release_channel {
                Some(c) => c,
                None => ReleaseChannel::Stable,
            },
        }
    }

    /// Gets the addon directory path: the override variable's value, else
    /// the configured directory, else what detection found.
    pub fn get_addon_dir(&self, env_override: Option<String>, detected: Result<String, WowctlError>) -> (r: Result<
        String,
        WowctlError,
    >)
        ensures
            env_override matches Some(d) ==> (r matches Ok(v) && v@ == d@),
            (env_override is None && self.addon_dir is Some) ==> (r matches Ok(v) && v@ == self.addon_dir->0@),
            env_override is None && self.addon_dir is None ==> r == detected,
    {
        if let Some(d) = env_override {
            return Ok(d);
        }
        if let Some(d) = &self.addon_dir {
            return Ok(d.clone());
        }
        detected
    }

    /// The detected addon directory: the platform's usual install location
    /// (`candidate`, none on other platforms) when it exists.
    pub fn detect_addon_dir(candidate: Option<&str>, exists: bool) -> (r: Result<String, WowctlError>)
        ensures
            (candidate is Some && exists) ==> (r matches Ok(v) && v@ == candidate->0@),
            !(candidate is Some && exists) ==> (r matches Err(WowctlError::InvalidAddonDir(m)) && m@
                == undetected_dir_text()),
    {
        if let Some(c) = candidate {
            if exists {
                return Ok(String::from_str(c));
            }
        }
        proof {
            reveal_strlit("Could not auto-detect WoW addon directory. Please set it manually with 'wowctl config set addon_dir <path>'");
        }
        Err(WowctlError::InvalidAddonDir(String::from_str(
            "Could not auto-detect WoW addon directory. Please set it manually with 'wowctl config set addon_dir <path>'",
        )))
    }
}

pub open spec fn missing_wago_key_text() -> Seq<char> {
    "Wago access key not found. Set WOWCTL_WAGO_ACCESS_KEY or run 'wowctl config set wago_access_key <key>'. Personal access keys come from https://addons.wago.io/patreon and require the 'Wago Addons Supporter' Patreon tier."@
}

/// The Wago source needs an access key: the resolved one, or the error
/// that tells where keys come from.
pub fn require_wago_key(key: Option<String>) -> (r: Result<String, WowctlError>)
    ensures
        key matches Some(k) ==> (r matches Ok(v) && v@ == k@),
        key is None ==> (r matches Err(WowctlError::MissingApiKey(m)) && m@ == missing_wago_key_text()),
{
    match key {
        Some(k) => Ok(k),
        None => {
            proof {
                reveal_strlit("Wago access key not found. Set WOWCTL_WAGO_ACCESS_KEY or run 'wowctl config set wago_access_key <key>'. Personal access keys come from https://addons.wago.io/patreon and require the 'Wago Addons Supporter' Patreon tier.");
            }
            Err(WowctlError::MissingApiKey(String::from_str(
                "Wago access key not found. Set WOWCTL_WAGO_ACCESS_KEY or run 'wowctl config set wago_access_key <key>'. Personal access keys come from https://addons.wago.io/patreon and require the 'Wago Addons Supporter' Patreon tier.",
            )))
        },
    }
}

/// The blank-is-unset rule sends a blank environment value to the
/// configured key, and never yields a blank key.
pub proof fn law_wago_key_never_blank(env_val: Option<Seq<char>>, config_val: Option<Seq<char>>)
    ensures
        wago_key_choice(env_val, config_val) matches Some(k) ==> trim(k).len() > 0,
        !usable(env_val) ==> wago_key_choice(env_val, config_val) == (if usable(config_val) {
            config_val
        } else {
            None
        }),
{
}

} // verus!
