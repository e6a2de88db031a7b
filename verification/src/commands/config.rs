//! The decisions of `wowctl config`: how a setting is changed, and how a
//! key is shown.

use vstd::prelude::*;
use vstd::string::{StringExecFns, StringSliceAdditionalSpecFns};
use crate::addon::{channel_from_name, channel_name, unknown_channel_message, ReleaseChannel};
use crate::config::Config;
use crate::error::WowctlError;
use crate::sources::opt_view;
use crate::text::{lemma_utf8_concat, utf8_bytes};

verus! {

broadcast use vstd::string::group_string_axioms;

/// A short key as `config show` prints it: one `*` per byte.
pub open spec fn masked(key: Seq<char>) -> Seq<char> {
    Seq::new(utf8_bytes(key).len(), |i: int| '*')
}

/// Masks an API key for display: a key of up to 8 bytes as one `*` per
/// byte; a longer one as its first and last four bytes around `...`. A key
/// longer than 8 bytes must not split a character at its fourth byte or
/// fourth-last byte.
pub fn mask_api_key(key: &str) -> (r: String)
    requires
        utf8_bytes(key@).len() > 8 ==> vstd::utf8::is_char_boundary(utf8_bytes(key@), 4)
            && vstd::utf8::is_char_boundary(utf8_bytes(key@), utf8_bytes(key@).len() - 4),
    ensures
        utf8_bytes(key@).len() <= 8 ==> r@ == masked(key@),
        utf8_bytes(key@).len() > 8 ==> utf8_bytes(r@) == utf8_bytes(key@).subrange(0, 4) + seq![46u8, 46u8, 46u8]
            + utf8_bytes(key@).subrange(utf8_bytes(key@).len() - 4, utf8_bytes(key@).len() as int),
{
    let n = key.as_bytes().len();
    assert(key.spec_bytes() == utf8_bytes(key@));
    if n <= 8 {
        let mut r = String::new();
        let mut i: usize = 0;
        while i < n
            invariant
                0 <= i <= n,
                n == utf8_bytes(key@).len(),
                r@ == Seq::new(i as nat, |j: int| '*'),
            decreases n - i,
        {
            crate::text::push_char(&mut r, '*');
            assert(r@ =~= Seq::new((i + 1) as nat, |j: int| '*'));
            i += 1;
        }
        return r;
    }
    let (head, _) = key.split_at(4);
    let (_, tail) = key.split_at(n - 4);
    let mut r = head.to_owned();
    r.append("...");
    r.append(tail);
    proof {
        reveal_strlit("...");
        lemma_utf8_concat(head@, "..."@);
        lemma_utf8_concat(head@ + "..."@, tail@);
        let dots = "..."@;
        assert(vstd::utf8::is_ascii_chars(dots));
        vstd::utf8::is_ascii_chars_encode_utf8(dots);
        assert(dots[0] as u8 == 46u8 && dots[1] as u8 == 46u8 && dots[2] as u8 == 46u8);
        assert(utf8_bytes(dots) =~= seq![46u8, 46u8, 46u8]);
    }
    r
}

pub open spec fn bool_error_text(value: Seq<char>) -> Seq<char> {
    "Invalid boolean value: '"@ + value + "'. Use 'true' or 'false'"@
}

pub open spec fn unknown_key_text(key: Seq<char>) -> Seq<char> {
    "Unknown configuration key: '"@ + key + "'. Valid keys: addon_dir, curseforge_api_key, wago_access_key, color, default_release_channel"@
}

/// The setting a key names.
#[derive(PartialEq, Eq, Structural)]
pub enum SettingKey {
    AddonDir,
    CurseForgeKey,
    WagoKey,
    Color,
    Channel,
    Unknown,
}

pub open spec fn setting_key(key: Seq<char>) -> SettingKey {
    if key == "addon_dir"@ {
        SettingKey::AddonDir
    } else if key == "curseforge_api_key"@ {
        SettingKey::CurseForgeKey
    } else if key == "wago_access_key"@ {
        SettingKey::WagoKey
    } else if key == "color"@ {
        SettingKey::Color
    } else if key == "default_release_channel"@ || key == "channel"@ {
        SettingKey::Channel
    } else {
        SettingKey::Unknown
    }
}

/// `b` is `a` with at most the named settings changed.
pub open spec fn others_kept(a: Config, b: Config, k: SettingKey) -> bool {
    &&& k != SettingKey::AddonDir ==> b.addon_dir == a.addon_dir
    &&& k != SettingKey::CurseForgeKey ==> b.curseforge_api_key == a.curseforge_api_key
    &&& k != SettingKey::WagoKey ==> b.wago_access_key == a.wago_access_key
    &&& k != SettingKey::Color ==> b.color == a.color
    &&& k != SettingKey::Channel ==> b.default_release_channel == a.default_release_channel
}

/// Changes one setting: `addon_dir`, `curseforge_api_key`,
/// `wago_access_key`, `color` (`true` or `false`) or
/// `default_release_channel` (also `channel`). Returns the line to print.
pub fn apply_setting(config: &mut Config, key: &str, value: &str) -> (r: Result<String, WowctlError>)
    ensures
        r is Ok ==> others_kept(*old(config), *final(config), setting_key(key@)),
        r is Err ==> *final(config) == *old(config),
        match setting_key(key@) {
            SettingKey::AddonDir => r matches Ok(m) && m@ == "Set addon directory to: "@ + value@ && opt_view(
                final(config).addon_dir,
            ) == Some(value@),
            SettingKey::CurseForgeKey => r matches Ok(m) && m@ == "Set CurseForge API key"@ && opt_view(
                final(config).curseforge_api_key,
            ) == Some(value@),
            SettingKey::WagoKey => r matches Ok(m) && m@ == "Set Wago access key"@ && opt_view(
                final(config).wago_access_key,
            ) == Some(value@),
            SettingKey::Color => if value@ == "true"@ || value@ == "false"@ {
                r matches Ok(m) && m@ == "Set color output to: "@ + value@ && final(config).color == (value@
                    == "true"@)
            } else {
                r matches Err(WowctlError::Config(m)) && m@ == bool_error_text(value@)
            },
            SettingKey::Channel => match channel_from_name(value@) {
                Some(c) => r matches Ok(m) && m@ == "Set default release channel to: "@ + channel_name(c)
                    && final(config).default_release_channel == Some(c),
                None => r matches Err(WowctlError::Config(m)) && m@ == unknown_channel_message(value@),
            },
            SettingKey::Unknown => r matches Err(WowctlError::Config(m)) && m@ == unknown_key_text(key@),
        },
{
    proof {
        reveal_strlit("addon_dir");
        reveal_strlit("curseforge_api_key");
        reveal_strlit("wago_access_key");
        reveal_strlit("color");
        reveal_strlit("true");
        reveal_strlit("false");
        reveal_strlit("default_release_channel");
        reveal_strlit("channel");
        reveal_strlit("");
    }
    let k = String::from_str(key);
    let v = String::from_str(value);
    if k == String::from_str("addon_dir") {
        config.addon_dir = Some(String::from_str(value));
        return Ok(crate::text::concat3("Set addon directory to: ", value, ""));
    }
    if k == String::from_str("curseforge_api_key") {
        config.curseforge_api_key = Some(String::from_str(value));
        return Ok(String::from_str("Set CurseForge API key"));
    }
    if k == String::from_str("wago_access_key") {
        config.wago_access_key = Some(String::from_str(value));
        return Ok(String::from_str("Set Wago access key"));
    }
    if k == String::from_str("color") {
        if v == String::from_str("true") {
            config.color = true;
            return Ok(crate::text::concat3("Set color output to: ", "true", ""));
        } else if v == String::from_str("false") {
            config.color = false;
            return Ok(crate::text::concat3("Set color output to: ", "false", ""));
        } else {
            return Err(
                WowctlError::Config(crate::text::concat3("Invalid boolean value: '", value, "'. Use 'true' or 'false'")),
            );
        }
    }
    if k == String::from_str("default_release_channel") || k == String::from_str("channel") {
        match ReleaseChannel::parse(value) {
            Ok(c) => {
                config.default_release_channel = Some(c);
                return Ok(crate::text::concat3("Set default release channel to: ", c.as_str(), ""));
            },
            Err(e) => {
                return Err(WowctlError::Config(e));
            },
        }
    }
    Err(
        WowctlError::Config(
            crate::text::concat3(
                "Unknown configuration key: '",
                key,
                "'. Valid keys: addon_dir, curseforge_api_key, wago_access_key, color, default_release_channel",
            ),
        ),
    )
}

} // verus!
