//! The decisions of `wowctl install`: which addons a request brings in
//! (the addon and, breadth first, the dependencies not yet installed), the
//! order they are installed in (dependencies first, the addon last), and
//! how each is recorded.

use vstd::prelude::*;
use vstd::string::StringExecFns;
use crate::addon::{channel_name, AddonInfo, AddonModel, InstalledAddon, ReleaseChannel, VersionInfo};
use crate::error::WowctlError;
use crate::registry::Registry;
use crate::sources::{kind_name, SourceKind};
use crate::sources::{clone_opt_string, opt_view};
use crate::text::{concat3, contains_string, copy_strings, views};

verus! {

broadcast use vstd::string::group_string_axioms;

/// An ID that is worth fetching: neither requested before nor the source
/// ID of an installed addon.
pub open spec fn is_new_dependency(id: Seq<char>, visited: Seq<Seq<char>>, reg: Registry) -> bool {
    !visited.contains(id) && !(exists|k: Seq<char>| #[trigger] reg@.contains_key(k) && reg@[k].addon_id@ == id)
}

/// The IDs of `ids` worth fetching, in order.
pub open spec fn new_dependencies(ids: Seq<Seq<char>>, visited: Seq<Seq<char>>, reg: Registry) -> Seq<Seq<char>>
    decreases ids.len(),
{
    if ids.len() == 0 {
        Seq::empty()
    } else {
        let prev = new_dependencies(ids.drop_last(), visited, reg);
        if is_new_dependency(ids.last(), visited, reg) {
            prev.push(ids.last())
        } else {
            prev
        }
    }
}

/// The breadth-first walk over an addon's dependencies: what is still to
/// be resolved, which IDs were requested, and what will be installed. Each
/// addon has a depth: the requested addon 0, and what an addon of depth `d`
/// pulls in `d + 1`.
pub struct InstallPlanner {
    queue: Vec<(AddonInfo, bool)>,
    visited: Vec<String>,
    plan: Vec<(AddonInfo, bool)>,
    queue_depths: Ghost<Seq<nat>>,
    plan_depths: Ghost<Seq<nat>>,
    depth: Ghost<nat>,
}

impl InstallPlanner {
    /// The addons still to resolve, each with whether it is a dependency.
    pub closed spec fn pending(&self) -> Seq<(AddonInfo, bool)> {
        self.queue@
    }

    /// The depths of the addons still to resolve.
    pub closed spec fn pending_depths(&self) -> Seq<nat> {
        self.queue_depths@
    }

    /// The source IDs requested so far.
    pub closed spec fn requested(&self) -> Seq<Seq<char>> {
        views(self.visited@)
    }

    /// The addons resolved so far, in the order they were resolved.
    pub closed spec fn planned(&self) -> Seq<(AddonInfo, bool)> {
        self.plan@
    }

    /// The depths of the addons resolved so far.
    pub closed spec fn planned_depths(&self) -> Seq<nat> {
        self.plan_depths@
    }

    /// The depth of the addon being resolved.
    pub closed spec fn current_depth(&self) -> nat {
        self.depth@
    }

    /// Breadth first: the resolved addons come by depth and lie no deeper
    /// than the one being resolved; what is pending lies at its depth or one
    /// deeper, by depth.
    pub open spec fn wf(&self) -> bool {
        &&& self.pending().len() == self.pending_depths().len()
        &&& self.planned().len() == self.planned_depths().len()
        &&& forall|i: int, j: int|
            0 <= i < j < self.pending_depths().len() ==> self.pending_depths()[i] <= self.pending_depths()[j]
        &&& forall|i: int|
            0 <= i < self.pending_depths().len() ==> self.current_depth() <= #[trigger] self.pending_depths()[i]
                <= self.current_depth() + 1
        &&& forall|i: int, j: int|
            0 <= i < j < self.planned_depths().len() ==> self.planned_depths()[i] <= self.planned_depths()[j]
        &&& forall|i: int|
            0 <= i < self.planned_depths().len() ==> #[trigger] self.planned_depths()[i] <= self.current_depth()
    }

    /// Starts from the requested addon.
    pub fn new(root: AddonInfo) -> (r: InstallPlanner)
        ensures
            r.wf(),
            r.pending() == seq![(root, false)],
            r.pending_depths() == seq![0nat],
            r.current_depth() == 0,
            r.requested() == seq![root.id@],
            r.planned() == Seq::<(AddonInfo, bool)>::empty(),
    {
        let mut visited: Vec<String> = Vec::new();
        visited.push(root.id.clone());
        let mut queue: Vec<(AddonInfo, bool)> = Vec::new();
        queue.push((root, false));
        let r = InstallPlanner {
            queue,
            visited,
            plan: Vec::new(),
            queue_depths: Ghost(Seq::<nat>::empty().push(0nat)),
            plan_depths: Ghost(Seq::<nat>::empty()),
            depth: Ghost(0nat),
        };
        assert(r.requested() =~= seq![root.id@]);
        r
    }

    /// The next addon to resolve, dropping those already installed (by
    /// slug) on the way; `None` when nothing is left.
    pub fn next_to_resolve(&mut self, registry: &Registry) -> (r: Option<(AddonInfo, bool)>)
        requires
            registry.wf(),
            old(self).wf(),
        ensures
            final(self).wf(),
            final(self).requested() == old(self).requested(),
            final(self).planned() == old(self).planned(),
            final(self).planned_depths() == old(self).planned_depths(),
            match r {
                Some(x) => exists|k: int|
                    0 <= k < old(self).pending().len() && old(self).pending()[k] == x && !registry@.contains_key(x.0.slug@)
                        && (forall|j: int| 0 <= j < k ==> #[trigger] registry@.contains_key(old(self).pending()[j].0.slug@))
                        && final(self).pending() == old(self).pending().skip(k + 1)
                        && final(self).pending_depths() == old(self).pending_depths().skip(k + 1)
                        && final(self).current_depth() == old(self).pending_depths()[k],
                None => final(self).pending().len() == 0 && forall|j: int|
                    0 <= j < old(self).pending().len() ==> #[trigger] registry@.contains_key(old(self).pending()[j].0.slug@),
            },
    {
        let ghost start = self.queue@;
        let ghost depths = self.queue_depths@;
        let ghost mut k: int = 0;
        assert(depths.skip(0) =~= depths);
        while self.queue.len() > 0
            invariant
                registry.wf(),
                old(self).wf(),
                start == old(self).pending(),
                depths == old(self).pending_depths(),
                0 <= k <= start.len(),
                self.queue@ == start.skip(k),
                self.queue_depths@ == depths.skip(k),
                self.depth@ == old(self).current_depth(),
                self.visited@ == old(self).visited@,
                self.plan@ == old(self).plan@,
                self.plan_depths@ == old(self).plan_depths@,
                forall|j: int| 0 <= j < k ==> #[trigger] registry@.contains_key(start[j].0.slug@),
            decreases self.queue@.len(),
        {
            let x = self.queue.remove(0);
            proof {
                assert(start.skip(k)[0] == start[k]);
                assert(start.skip(k).remove(0) =~= start.skip(k + 1));
                self.queue_depths = Ghost(depths.skip(k + 1));
            }
            if registry.get(x.0.slug.as_str()).is_none() {
                proof {
                    self.depth = Ghost(depths[k]);
                    assert(start[k] == x);
                    assert(self.queue@ == start.skip(k + 1));
                    assert(!registry@.contains_key(x.0.slug@));
                    assert(0 <= k < old(self).pending().len() && old(self).pending()[k] == x);
                    assert forall|i: int| 0 <= i < self.pending_depths().len() implies self.current_depth()
                        <= #[trigger] self.pending_depths()[i] <= self.current_depth() + 1 by {
                        assert(self.pending_depths()[i] == depths[k + 1 + i]);
                    }
                    assert forall|i: int, j: int| 0 <= i < j < self.pending_depths().len() implies
                        self.pending_depths()[i] <= self.pending_depths()[j] by {
                        assert(self.pending_depths()[i] == depths[k + 1 + i]);
                        assert(self.pending_depths()[j] == depths[k + 1 + j]);
                    }
                    assert forall|i: int| 0 <= i < self.planned_depths().len() implies
                        #[trigger] self.planned_depths()[i] <= self.current_depth() by {
                        assert(old(self).planned_depths()[i] <= old(self).current_depth());
                    }
                }
                return Some(x);
            }
            proof {
                k = k + 1;
            }
        }
        proof {
            assert(self.pending_depths().len() == 0);
        }
        None
    }

    /// The dependency IDs of the addon being resolved that are worth
    /// fetching (neither requested before nor installed), now counted as
    /// requested.
    pub fn new_dependency_ids(&mut self, dep_ids: &[String], registry: &Registry) -> (r: Vec<String>)
        requires
            registry.wf(),
            old(self).wf(),
        ensures
            final(self).wf(),
            views(r@) == new_dependencies(views(dep_ids@), old(self).requested(), *registry),
            final(self).requested() == old(self).requested() + views(r@),
            final(self).pending() == old(self).pending(),
            final(self).pending_depths() == old(self).pending_depths(),
            final(self).planned() == old(self).planned(),
            final(self).planned_depths() == old(self).planned_depths(),
            final(self).current_depth() == old(self).current_depth(),
    {
        let ghost seen = views(self.visited@);
        let mut r: Vec<String> = Vec::new();
        let mut i: usize = 0;
        while i < dep_ids.len()
            invariant
                0 <= i <= dep_ids.len(),
                registry.wf(),
                seen == views(self.visited@),
                views(r@) == new_dependencies(views(dep_ids@).take(i as int), seen, *registry),
            decreases dep_ids.len() - i,
        {
            let id = &dep_ids[i];
            proof {
                assert(views(dep_ids@).take(i + 1).drop_last() =~= views(dep_ids@).take(i as int));
                assert(views(dep_ids@).take(i + 1).last() == id@);
            }
            if !contains_string(self.visited.as_slice(), id) && !registry.has_addon_id(id) {
                let ghost before = r@;
                r.push(id.clone());
                assert(views(r@) =~= views(before).push(id@));
            }
            i += 1;
        }
        assert(views(dep_ids@).take(dep_ids.len() as int) =~= views(dep_ids@));
        let mut j: usize = 0;
        while j < r.len()
            invariant
                0 <= j <= r.len(),
                views(self.visited@) == seen + views(r@).take(j as int),
                self.queue@ == old(self).queue@,
                self.plan@ == old(self).plan@,
                self.queue_depths@ == old(self).queue_depths@,
                self.plan_depths@ == old(self).plan_depths@,
                self.depth@ == old(self).depth@,
            decreases r.len() - j,
        {
            let ghost before = views(self.visited@);
            self.visited.push(r[j].clone());
            assert(views(self.visited@) =~= before.push(r@[j as int]@));
            assert(views(r@).take(j + 1) =~= views(r@).take(j as int).push(r@[j as int]@));
            j += 1;
        }
        assert(views(r@).take(r.len() as int) =~= views(r@));
        r
    }

    /// Queues the dependencies the addon being resolved pulls in, one
    /// level deeper than it, after what is already pending.
    pub fn enqueue(&mut self, deps: Vec<AddonInfo>)
        requires
            old(self).wf(),
        ensures
            final(self).wf(),
            final(self).pending() == old(self).pending() + deps@.map_values(|d: AddonInfo| (d, true)),
            final(self).pending_depths() == old(self).pending_depths() + Seq::new(
                deps@.len(),
                |i: int| old(self).current_depth() + 1,
            ),
            final(self).requested() == old(self).requested(),
            final(self).planned() == old(self).planned(),
            final(self).planned_depths() == old(self).planned_depths(),
            final(self).current_depth() == old(self).current_depth(),
    {
        let ghost start = self.queue@;
        let ghost d0 = self.queue_depths@;
        let ghost next: nat = self.depth@ + 1;
        let mut rest = deps;
        let ghost all = rest@;
        let mut rev: Vec<AddonInfo> = Vec::new();
        while rest.len() > 0
            invariant
                rest@.len() + rev@.len() == all.len(),
                forall|i: int| 0 <= i < rest@.len() ==> #[trigger] rest@[i] == all[i],
                forall|i: int| 0 <= i < rev@.len() ==> #[trigger] rev@[i] == all[all.len() - 1 - i],
            decreases rest@.len(),
        {
            let d = rest.pop().unwrap();
            rev.push(d);
        }
        while rev.len() > 0
            invariant
                0 <= rev@.len() <= all.len(),
                forall|i: int| 0 <= i < rev@.len() ==> #[trigger] rev@[i] == all[all.len() - 1 - i],
                self.queue@ == start + all.take(all.len() - rev@.len()).map_values(|d: AddonInfo| (d, true)),
                self.queue_depths@ == d0 + Seq::new((all.len() - rev@.len()) as nat, |i: int| next),
                self.visited@ == old(self).visited@,
                self.plan@ == old(self).plan@,
                self.plan_depths@ == old(self).plan_depths@,
                self.depth@ == old(self).depth@,
            decreases rev@.len(),
        {
            let ghost m = all.len() - rev@.len();
            let d = rev.pop().unwrap();
            assert(d == all[m]);
            self.queue.push((d, true));
            proof {
                self.queue_depths = Ghost(d0 + Seq::new((m + 1) as nat, |i: int| next));
            }
            assert(all.take(m + 1).map_values(|d: AddonInfo| (d, true)) =~= all.take(m).map_values(|d: AddonInfo| (d, true)).push((d, true)));
        }
        assert(all.take(all.len() as int) =~= all);
        proof {
            let qd = self.queue_depths@;
            assert(qd =~= d0 + Seq::new(all.len(), |i: int| next));
            assert forall|i: int| 0 <= i < qd.len() implies self.current_depth() <= #[trigger] qd[i]
                <= self.current_depth() + 1 by {
                if i >= d0.len() {
                    assert(qd[i] == next);
                } else {
                    assert(qd[i] == d0[i]);
                }
            }
            assert forall|i: int, j: int| 0 <= i < j < qd.len() implies qd[i] <= qd[j] by {
                if j >= d0.len() {
                    assert(qd[j] == next);
                    if i < d0.len() {
                        assert(qd[i] == d0[i]);
                    }
                } else {
                    assert(qd[i] == d0[i] && qd[j] == d0[j]);
                }
            }
        }
    }

    /// Adds the addon being resolved to the plan, at its depth.
    pub fn record(&mut self, addon: AddonInfo, is_dependency: bool)
        requires
            old(self).wf(),
        ensures
            final(self).wf(),
            final(self).planned() == old(self).planned().push((addon, is_dependency)),
            final(self).planned_depths() == old(self).planned_depths().push(old(self).current_depth()),
            final(self).pending() == old(self).pending(),
            final(self).pending_depths() == old(self).pending_depths(),
            final(self).requested() == old(self).requested(),
            final(self).current_depth() == old(self).current_depth(),
    {
        self.plan.push((addon, is_dependency));
        proof {
            self.plan_depths = Ghost(self.plan_depths@.push(self.depth@));
        }
    }

    /// The addons to install, in order: the reverse of the order they were
    /// resolved in, so the deepest come first, each dependency before the
    /// addon that pulled it in (which lies one level higher), and the
    /// requested addon last.
    pub fn into_plan(self) -> (r: Vec<(AddonInfo, bool)>)
        requires
            self.wf(),
        ensures
            r@ == self.planned().reverse(),
            forall|i: int, j: int|
                0 <= i < j < r@.len() ==> self.planned_depths().reverse()[i] >= self.planned_depths().reverse()[j],
    {
        let mut plan = self.plan;
        let ghost p = plan@;
        let mut r: Vec<(AddonInfo, bool)> = Vec::new();
        while plan.len() > 0
            invariant
                plan@ == p.take(plan@.len() as int),
                plan@.len() <= p.len(),
                r@ == p.skip(plan@.len() as int).reverse(),
            decreases plan@.len(),
        {
            let ghost n = plan@.len();
            let x = plan.pop().unwrap();
            r.push(x);
            assert(p.skip(n - 1).reverse() =~= p.skip(n as int).reverse().push(p[n - 1]));
            assert(plan@ =~= p.take(n - 1));
        }
        assert(p.skip(0) =~= p);
        r
    }
}

/// An ID is fetched at most once: what is returned as new was not
/// requested before, and is requested afterwards.
pub proof fn law_dependency_requested_once(ids: Seq<Seq<char>>, visited: Seq<Seq<char>>, reg: Registry)
    ensures
        forall|i: int| 0 <= i < new_dependencies(ids, visited, reg).len() ==> !visited.contains(
            #[trigger] new_dependencies(ids, visited, reg)[i],
        ),
    decreases ids.len(),
{
    if ids.len() > 0 {
        law_dependency_requested_once(ids.drop_last(), visited, reg);
        let prev = new_dependencies(ids.drop_last(), visited, reg);
        assert forall|i: int| 0 <= i < new_dependencies(ids, visited, reg).len() implies !visited.contains(
            #[trigger] new_dependencies(ids, visited, reg)[i],
        ) by {
            if i < prev.len() {
                assert(new_dependencies(ids, visited, reg)[i] == prev[i]);
            }
        }
    }
}

pub open spec fn collision_message(slug: Seq<char>, installed_from: Seq<char>, wanted: Seq<char>) -> Seq<char> {
    "'"@ + slug + "' is already installed from "@ + installed_from
        + ". An addon can only have one update origin — run 'wowctl remove "@ + slug + "' first, then install it from "@
        + wanted + "."@
}

/// Keeps one source per slug: `Ok(None)` when the slug is not installed,
/// the installed entry when it came from the same source, and an error
/// when it came from another.
pub fn check_source_collision(registry: &Registry, slug: &str, kind: SourceKind) -> (r: Result<
    Option<InstalledAddon>,
    WowctlError,
>)
    requires
        registry.wf(),
    ensures
        !registry@.contains_key(slug@) ==> r matches Ok(None),
        registry@.contains_key(slug@) && registry@[slug@].source@ == kind_name(kind) ==> (r matches Ok(Some(a))
            && a.model() == registry@[slug@].model()),
        registry@.contains_key(slug@) && registry@[slug@].source@ != kind_name(kind) ==> (r matches Err(
            WowctlError::Source(m),
        ) && m@ == collision_message(slug@, registry@[slug@].source@, kind_name(kind))),
{
    match registry.get(slug) {
        None => Ok(None),
        Some(existing) => {
            let wanted = String::from_str(kind.as_str());
            if existing.source == wanted {
                Ok(Some(existing.duplicate()))
            } else {
                let mut m = concat3("'", slug, "' is already installed from ");
                m.append(existing.source.as_str());
                m.append(". An addon can only have one update origin — run 'wowctl remove ");
                m.append(slug);
                m.append("' first, then install it from ");
                m.append(kind.as_str());
                m.append(".");
                assert(m@ =~= collision_message(slug@, registry@[slug@].source@, kind_name(kind)));
                Err(WowctlError::Source(m))
            }
        },
    }
}

/// A version as printed: with a leading `v`, added unless there is one.
pub open spec fn version_shown(version: Seq<char>) -> Seq<char> {
    if version.len() > 0 && version[0] == 'v' {
        version
    } else {
        "v"@ + version
    }
}

pub fn version_display(version: &str) -> (r: String)
    ensures
        r@ == version_shown(version@),
{
    proof {
        reveal_strlit("v");
        reveal_strlit("");
    }
    let v = crate::text::chars_of(version);
    if v.len() > 0 && v[0] == 'v' {
        String::from_str(version)
    } else {
        crate::text::concat3("v", version, "")
    }
}

/// The channel note after the addon's name: nothing for stable.
pub open spec fn channel_note(channel: ReleaseChannel) -> Seq<char> {
    if channel == ReleaseChannel::Stable {
        Seq::empty()
    } else {
        " ("@ + channel_name(channel) + ")"@
    }
}

pub fn channel_label(channel: ReleaseChannel) -> (r: String)
    ensures
        r@ == channel_note(channel),
{
    if channel == ReleaseChannel::Stable {
        String::new()
    } else {
        crate::text::concat3(" (", channel.as_str(), ")")
    }
}

/// The registry entry of a freshly installed addon.
pub open spec fn installed_model(
    info: AddonInfo,
    v: VersionInfo,
    directories: Seq<Seq<char>>,
    is_dependency: bool,
    root_slug: Seq<char>,
    channel: ReleaseChannel,
) -> AddonModel {
    AddonModel {
        name: info.name@,
        slug: info.slug@,
        version: v.version@,
        source: info.source@,
        addon_id: info.id@,
        directories,
        is_dependency,
        required_by: if is_dependency {
            seq![root_slug]
        } else {
            Seq::empty()
        },
        installed_file_id: v.file_id,
        display_name: Some(v.display_name@),
        channel: if channel != ReleaseChannel::Stable {
            Some(channel)
        } else {
            None
        },
        ignored: None,
        game_versions: Some(views(v.game_versions@)),
        released_at: Some(v.released_at@),
        auto_update: None,
        external_release_id: opt_view(v.external_release_id),
    }
}

/// Builds the registry entry of an installed addon; a dependency records
/// the addon whose installation brought it in.
pub fn installed_record(
    info: &AddonInfo,
    v: &VersionInfo,
    directories: Vec<String>,
    is_dependency: bool,
    root_slug: &str,
    channel: ReleaseChannel,
) -> (r: InstalledAddon)
    ensures
        r.model() == installed_model(*info, *v, views(directories@), is_dependency, root_slug@, channel),
{
    let mut required_by: Vec<String> = Vec::new();
    if is_dependency {
        required_by.push(String::from_str(root_slug));
    }
    let r = InstalledAddon {
        name: info.name.clone(),
        slug: info.slug.clone(),
        version: v.version.clone(),
        source: info.source.clone(),
        addon_id: info.id.clone(),
        directories,
        is_dependency,
        required_by,
        installed_file_id: v.file_id,
        display_name: Some(v.display_name.clone()),
        channel: if channel != ReleaseChannel::Stable {
            Some(channel)
        } else {
            None
        },
        ignored: None,
        game_versions: Some(copy_strings(&v.game_versions)),
        released_at: Some(v.released_at.clone()),
        auto_update: None,
        external_release_id: clone_opt_string(&v.external_release_id),
    };
    assert(views(r.required_by@) =~= (if is_dependency {
        seq![root_slug@]
    } else {
        Seq::<Seq<char>>::empty()
    }));
    r
}

} // verus!
