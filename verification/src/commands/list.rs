//! The decisions of `wowctl list`: what is shown beside each addon.

use vstd::prelude::*;
use vstd::string::StringExecFns;
use crate::addon::{flag, InstalledAddon};
use crate::utils::{char_safe_prefix, prefix_chars};

verus! {

broadcast use vstd::string::group_string_axioms;

/// Which addons `list` shows.
#[derive(Debug, Clone, Copy, PartialEq, Eq, Structural)]
pub enum ListFilter {
    All,
    Managed,
    Unmanaged,
}

impl ListFilter {
    /// Whether the managed section is shown.
    pub fn shows_managed(self) -> (r: bool)
        ensures
            r == (self != ListFilter::Unmanaged),
    {
        !matches!(self, ListFilter::Unmanaged)
    }

    /// Whether the unmanaged section is shown.
    pub fn shows_unmanaged(self) -> (r: bool)
        ensures
            r == (self != ListFilter::Managed),
    {
        !matches!(self, ListFilter::Managed)
    }
}

/// The release-date marker: two spaces and the first ten characters of
/// the date, or nothing.
pub open spec fn date_marker(released_at: Option<Seq<char>>) -> Seq<char> {
    match released_at {
        Some(d) => "  "@ + prefix_chars(d, 10),
        None => Seq::empty(),
    }
}

/// Formats the release-date marker shown next to a managed addon (e.g.
/// "  2025-02-15"), or an empty string if no release date is recorded.
/// Truncates on a char boundary — release dates come from an external API
/// and are not guaranteed to be pure ASCII.
pub fn format_date_marker(released_at: Option<&str>) -> (r: String)
    ensures
        r@ == date_marker(match released_at {
            Some(d) => Some(d@),
            None => None,
        }),
{
    match released_at {
        Some(d) => {
            let p = char_safe_prefix(d, 10);
            let mut r = String::from_str("  ");
            r.append(p.as_str());
            proof {
                reveal_strlit("  ");
            }
            r
        },
        None => String::new(),
    }
}

/// The markers after a managed addon: dependency, ignored, auto-update.
pub open spec fn markers(a: InstalledAddon) -> Seq<char> {
    (if a.is_dependency {
        " (dependency)"@
    } else {
        Seq::empty()
    }) + (if flag(a.ignored) {
        " (ignored)"@
    } else {
        Seq::empty()
    }) + (if flag(a.auto_update) {
        " (auto-update)"@
    } else {
        Seq::empty()
    })
}

pub fn addon_markers(a: &InstalledAddon) -> (r: String)
    ensures
        r@ == markers(*a),
{
    let mut r = String::new();
    if a.is_dependency {
        r.append(" (dependency)");
    }
    if a.is_ignored() {
        r.append(" (ignored)");
    }
    if a.is_auto_update() {
        r.append(" (auto-update)");
    }
    assert(r@ =~= markers(*a));
    r
}

} // verus!
