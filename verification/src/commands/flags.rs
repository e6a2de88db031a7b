//! The per-addon switches of `wowctl ignore`, `unignore` and
//! `auto-update enable|disable`.

use vstd::prelude::*;
use crate::addon::{flag, AddonModel};
use crate::commands::remove::not_installed_text;
use crate::error::WowctlError;
use crate::registry::{lemma_keys_are_slugs, Registry};
use crate::text::concat3;

verus! {

/// A switch recorded on an installed addon.
#[derive(Debug, Clone, Copy, PartialEq, Eq, Structural)]
pub enum AddonFlag {
    /// Skipped during update checks.
    Ignored,
    /// Updated without asking.
    AutoUpdate,
}

/// Whether the switch is on for the addon.
pub open spec fn flag_on(m: AddonModel, which: AddonFlag) -> bool {
    match which {
        AddonFlag::Ignored => flag(m.ignored),
        AddonFlag::AutoUpdate => flag(m.auto_update),
    }
}

/// The addon with the switch turned on (`Some(true)`) or off (`None`).
pub open spec fn with_flag(m: AddonModel, which: AddonFlag, on: bool) -> AddonModel {
    let v = if on {
        Some(true)
    } else {
        None
    };
    match which {
        AddonFlag::Ignored => AddonModel { ignored: v, ..m },
        AddonFlag::AutoUpdate => AddonModel { auto_update: v, ..m },
    }
}

/// A switch reads back as it was set, and the other switch is untouched.
pub proof fn law_flag_reads_back(m: AddonModel, which: AddonFlag, on: bool)
    ensures
        flag_on(with_flag(m, which, on), which) == on,
        forall|other: AddonFlag| other != which ==> flag_on(#[trigger] with_flag(m, which, on), other) == flag_on(m, other),
{
}

/// Turns a switch of an installed addon on or off. An addon that is not
/// installed is an error; one already in the requested state is left as
/// it is (`Ok(false)`); otherwise the entry is rewritten (`Ok(true)`).
pub fn set_addon_flag(registry: &mut Registry, slug: &str, which: AddonFlag, on: bool) -> (r: Result<bool, WowctlError>)
    requires
        old(registry).wf(),
    ensures
        final(registry).wf(),
        !old(registry)@.contains_key(slug@) ==> (r matches Err(WowctlError::AddonNotFound(m)) && m@ == not_installed_text(slug@)
            && final(registry)@ == old(registry)@),
        old(registry)@.contains_key(slug@) && flag_on(old(registry)@[slug@].model(), which) == on ==> (r == Ok::<
            bool,
            WowctlError,
        >(false) && final(registry)@ == old(registry)@),
        old(registry)@.contains_key(slug@) && flag_on(old(registry)@[slug@].model(), which) != on ==> (r == Ok::<
            bool,
            WowctlError,
        >(true) && final(registry)@.dom() == old(registry)@.dom() && (forall|k: Seq<char>| #[trigger]
            final(registry)@.contains_key(k) && k != slug@ ==> final(registry)@[k] == old(registry)@[k])
            && final(registry)@[slug@].model() == with_flag(old(registry)@[slug@].model(), which, on)),
{
    let current = match registry.get(slug) {
        Some(a) => a,
        None => {
            return Err(WowctlError::AddonNotFound(concat3("Addon '", slug, "' is not installed")));
        },
    };
    let is_on = match which {
        AddonFlag::Ignored => current.is_ignored(),
        AddonFlag::AutoUpdate => current.is_auto_update(),
    };
    if is_on == on {
        return Ok(false);
    }
    let mut updated = current.duplicate();
    let v = if on {
        Some(true)
    } else {
        None
    };
    match which {
        AddonFlag::Ignored => {
            updated.ignored = v;
        },
        AddonFlag::AutoUpdate => {
            updated.auto_update = v;
        },
    }
    let ghost before = registry@;
    proof {
        lemma_keys_are_slugs(*registry);
        assert(updated.slug@ == slug@);
    }
    registry.add(updated);
    proof {
        assert(registry@.dom() =~= before.dom());
    }
    Ok(true)
}

} // verus!
