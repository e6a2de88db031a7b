//! The registry side of `wowctl remove`.

use vstd::prelude::*;
use crate::error::WowctlError;
use crate::registry::{is_orphan, law_references_dropped, unreferenced, Registry};
use crate::text::views;

verus! {

broadcast use vstd::string::group_string_axioms;

pub open spec fn not_installed_text(slug: Seq<char>) -> Seq<char> {
    "Addon '"@ + slug + "' is not installed"@
}

/// Takes an addon out of the registry (its directories having been
/// deleted from disk), drops it from every `required_by` list, and returns
/// the dependencies nothing requires any more.
pub fn remove_addon_from_registry(registry: &mut Registry, slug: &str) -> (r: Result<Vec<String>, WowctlError>)
    requires
        old(registry).wf(),
    ensures
        final(registry).wf(),
        !old(registry)@.contains_key(slug@) ==> (r matches Err(WowctlError::AddonNotFound(m)) && m@ == not_installed_text(slug@)
            && final(registry)@ == old(registry)@),
        old(registry)@.contains_key(slug@) ==> (r matches Ok(orphans) && final(registry)@.dom() == old(registry)@.dom().remove(
            slug@,
        ) && (forall|k: Seq<char>| #[trigger]
            final(registry)@.contains_key(k) ==> unreferenced(old(registry)@[k], final(registry)@[k], slug@))
            && (forall|k: Seq<char>| #[trigger]
            final(registry)@.contains_key(k) ==> !views(final(registry)@[k].required_by@).contains(slug@))
            && (forall|k: Seq<char>| #[trigger]
            views(orphans@).contains(k) <==> (final(registry)@.contains_key(k) && is_orphan(final(registry)@[k])))),
{
    if registry.get(slug).is_none() {
        return Err(WowctlError::AddonNotFound(crate::text::concat3("Addon '", slug, "' is not installed")));
    }
    let ghost before = registry@;
    registry.remove(slug);
    let ghost mid = *registry;
    registry.update_dependency_references(slug);
    proof {
        assert(mid@ == before.remove(slug@));
        law_references_dropped(mid, *registry, slug@);
        assert(registry@.dom() =~= before.dom().remove(slug@));
    }
    Ok(registry.find_orphaned_dependencies())
}

} // verus!
