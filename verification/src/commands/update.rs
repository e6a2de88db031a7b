//! The decisions of `wowctl update`: which addons to check, which have a
//! newer release, and how a release is recorded in the registry.

use vstd::prelude::*;
use crate::addon::{flag, AddonModel, InstalledAddon, ReleaseChannel, VersionInfo};
use crate::registry::{lemma_keys_are_slugs, Registry};
use crate::sources::curseforge::{extract_version, version_of};
use crate::sources::{clone_opt_string, kind_from_name, opt_view, BatchVersionCheck, SourceKind};
use crate::text::{copy_strings, views};

verus! {

broadcast use vstd::string::group_string_axioms;

/// The channel an addon is checked on: the command-line override, else
/// the addon's stored channel, else the default.
pub open spec fn channel_for(
    stored: Option<ReleaseChannel>,
    cli_override: Option<ReleaseChannel>,
    default_channel: ReleaseChannel,
) -> ReleaseChannel {
    match cli_override {
        Some(c) => c,
        None => match stored {
            Some(c) => c,
            None => default_channel,
        },
    }
}

/// Resolves the effective channel for an addon: CLI override > addon's
/// stored channel > default.
pub fn resolve_addon_channel(
    installed: &InstalledAddon,
    cli_override: Option<ReleaseChannel>,
    default_channel: ReleaseChannel,
) -> (r: ReleaseChannel)
    ensures
        r == channel_for(installed.channel, cli_override, default_channel),
{
    match cli_override {
        Some(c) => c,
        None => match installed.channel {
            Some(c) => c,
            None => default_channel,
        },
    }
}

/// A newer release is available when the strongest release identity both
/// sides have differs: external release ID (Wago), then numeric file ID
/// (CurseForge), then the version string.
pub open spec fn update_available(
    installed_release: Option<Seq<char>>,
    installed_file: Option<u32>,
    installed_version: Seq<char>,
    latest_release: Option<Seq<char>>,
    latest_file: Option<u32>,
    latest_version: Seq<char>,
) -> bool {
    if installed_release is Some && latest_release is Some {
        installed_release != latest_release
    } else if installed_file is Some && latest_file is Some {
        installed_file != latest_file
    } else {
        installed_version != latest_version
    }
}

/// Determines whether a newer release is available by comparing the
/// strongest release identity both sides share.
pub fn is_update_available(installed: &InstalledAddon, latest: &BatchVersionCheck) -> (r: bool)
    ensures
        r == update_available(
            opt_view(installed.external_release_id),
            installed.installed_file_id,
            installed.version@,
            opt_view(latest.external_release_id),
            latest.file_id,
            latest.version@,
        ),
{
    match (&installed.external_release_id, &latest.external_release_id) {
        (Some(a), Some(b)) => !(*a == *b),
        _ => match (installed.installed_file_id, latest.file_id) {
            (Some(a), Some(b)) => a != b,
            _ => !(installed.version == latest.version),
        },
    }
}

/// A registry entry is stale when it lacks the release identity its
/// source uses for update detection: the release ID on Wago, the file ID
/// elsewhere.
pub open spec fn needs_refresh(source: Seq<char>, release_id: Option<u32>, external: Option<Seq<char>>) -> bool {
    if kind_from_name(source) == Some(SourceKind::Wago) {
        external is None
    } else {
        release_id is None
    }
}

pub fn needs_metadata_refresh(addon: &InstalledAddon) -> (r: bool)
    ensures
        r == needs_refresh(addon.source@, addon.installed_file_id, opt_view(addon.external_release_id)),
{
    match SourceKind::parse(addon.source.as_str()) {
        Ok(SourceKind::Wago) => addon.external_release_id.is_none(),
        _ => addon.installed_file_id.is_none(),
    }
}

/// The addons of a source, in order.
pub open spec fn of_source(addons: Seq<InstalledAddon>, kind: Option<SourceKind>) -> Seq<AddonModel>
    decreases addons.len(),
{
    if addons.len() == 0 {
        Seq::empty()
    } else {
        let prev = of_source(addons.drop_last(), kind);
        if kind_from_name(addons.last().source@) == kind {
            prev.push(addons.last().model())
        } else {
            prev
        }
    }
}

pub open spec fn models(v: Seq<InstalledAddon>) -> Seq<AddonModel> {
    v.map_values(|a: InstalledAddon| a.model())
}

/// Each addon is checked against the source it was installed from: a
/// source's group holds only addons of that source, and the groups of the
/// two sources and the group of unknown sources together hold every addon
/// once.
pub proof fn law_grouped_by_own_source(addons: Seq<InstalledAddon>)
    ensures
        forall|kind: Option<SourceKind>, i: int|
            0 <= i < of_source(addons, kind).len() ==> kind_from_name(
                #[trigger] of_source(addons, kind)[i].source,
            ) == kind,
        of_source(addons, Some(SourceKind::CurseForge)).len() + of_source(addons, Some(SourceKind::Wago)).len()
            + of_source(addons, None).len() == addons.len(),
    decreases addons.len(),
{
    if addons.len() > 0 {
        law_grouped_by_own_source(addons.drop_last());
        let k = kind_from_name(addons.last().source@);
        assert(k == Some(SourceKind::CurseForge) || k == Some(SourceKind::Wago) || k is None) by {
            match k {
                Some(SourceKind::CurseForge) => {},
                Some(SourceKind::Wago) => {},
                None => {},
            }
        }
        assert forall|kind: Option<SourceKind>, i: int|
            0 <= i < of_source(addons, kind).len() implies kind_from_name(
                #[trigger] of_source(addons, kind)[i].source,
            ) == kind by {
            let prev = of_source(addons.drop_last(), kind);
            if i < prev.len() {
                assert(of_source(addons, kind)[i] == prev[i]);
            }
        }
    }
}

/// The non-empty groups in order (CurseForge, then Wago).
pub open spec fn source_groups(addons: Seq<InstalledAddon>) -> Seq<(SourceKind, Seq<AddonModel>)> {
    let cf = of_source(addons, Some(SourceKind::CurseForge));
    let wago = of_source(addons, Some(SourceKind::Wago));
    let g = if cf.len() > 0 {
        seq![(SourceKind::CurseForge, cf)]
    } else {
        Seq::empty()
    };
    if wago.len() > 0 {
        g.push((SourceKind::Wago, wago))
    } else {
        g
    }
}

pub open spec fn group_models(g: Seq<(SourceKind, Vec<InstalledAddon>)>) -> Seq<(SourceKind, Seq<AddonModel>)> {
    g.map_values(|p: (SourceKind, Vec<InstalledAddon>)| (p.0, models(p.1@)))
}

/// Groups addons by their registry Source in deterministic order
/// (CurseForge, then Wago). Addons with an unrecognized source string are
/// returned separately so the caller can warn and skip them.
pub fn group_by_source(addons: &[InstalledAddon]) -> (r: (Vec<(SourceKind, Vec<InstalledAddon>)>, Vec<InstalledAddon>))
    ensures
        group_models(r.0@) == source_groups(addons@),
        models(r.1@) == of_source(addons@, None),
{
    let mut unknown: Vec<InstalledAddon> = Vec::new();
    let mut cf: Vec<InstalledAddon> = Vec::new();
    let mut wago: Vec<InstalledAddon> = Vec::new();
    let mut i: usize = 0;
    while i < addons.len()
        invariant
            0 <= i <= addons.len(),
            models(cf@) == of_source(addons@.take(i as int), Some(SourceKind::CurseForge)),
            models(wago@) == of_source(addons@.take(i as int), Some(SourceKind::Wago)),
            models(unknown@) == of_source(addons@.take(i as int), None),
        decreases addons.len() - i,
    {
        let a = &addons[i];
        proof {
            assert(addons@.take(i + 1).drop_last() =~= addons@.take(i as int));
            assert(addons@.take(i + 1).last() == *a);
        }
        match SourceKind::parse(a.source.as_str()) {
            Ok(SourceKind::CurseForge) => {
                let ghost before = cf@;
                cf.push(a.duplicate());
                assert(models(cf@) =~= models(before).push(a.model()));
            },
            Ok(SourceKind::Wago) => {
                let ghost before = wago@;
                wago.push(a.duplicate());
                assert(models(wago@) =~= models(before).push(a.model()));
            },
            Err(_) => {
                let ghost before = unknown@;
                unknown.push(a.duplicate());
                assert(models(unknown@) =~= models(before).push(a.model()));
            },
        }
        i += 1;
    }
    assert(addons@.take(addons.len() as int) =~= addons@);
    let ghost cfm = models(cf@);
    let ghost wm = models(wago@);
    let mut groups: Vec<(SourceKind, Vec<InstalledAddon>)> = Vec::new();
    if cf.len() > 0 {
        groups.push((SourceKind::CurseForge, cf));
    }
    let ghost g1 = groups@;
    if wago.len() > 0 {
        groups.push((SourceKind::Wago, wago));
        assert(group_models(groups@) =~= group_models(g1).push((SourceKind::Wago, wm)));
    }
    assert(group_models(groups@) =~= source_groups(addons@));
    (groups, unknown)
}

/// The version a stored display name gives, when it differs from the
/// stored version.
pub open spec fn corrected_version(a: InstalledAddon) -> Option<Seq<char>> {
    match a.display_name {
        Some(d) => if version_of(d@) != a.version@ {
            Some(version_of(d@))
        } else {
            None
        },
        None => None,
    }
}

/// `b` is `a` with another version.
pub open spec fn with_version(a: AddonModel, b: AddonModel, version: Seq<char>) -> bool {
    b == AddonModel { version, ..a }
}

/// The corrected version the last of `addons` with slug `k` gives, if any
/// of them gives one: the version the registry entry `k` ends with.
pub open spec fn last_fix(addons: Seq<InstalledAddon>, k: Seq<char>) -> Option<Seq<char>>
    decreases addons.len(),
{
    if addons.len() == 0 {
        None
    } else if addons.last().slug@ == k && corrected_version(addons.last()) is Some {
        corrected_version(addons.last())
    } else {
        last_fix(addons.drop_last(), k)
    }
}

/// How many of `addons` are installed and have a corrected version.
pub open spec fn fix_count(addons: Seq<InstalledAddon>, reg: Map<Seq<char>, InstalledAddon>) -> nat
    decreases addons.len(),
{
    if addons.len() == 0 {
        0
    } else {
        fix_count(addons.drop_last(), reg) + if reg.contains_key(addons.last().slug@) && corrected_version(
            addons.last(),
        ) is Some {
            1nat
        } else {
            0nat
        }
    }
}

/// Re-extracts version strings from stored display names using the
/// current extraction logic, fixing entries that were written with an
/// older heuristic. Returns the number of corrections made.
pub fn fix_version_strings(registry: &mut Registry, addons: &[InstalledAddon]) -> (fixed: usize)
    requires
        old(registry).wf(),
    ensures
        final(registry).wf(),
        final(registry)@.dom() == old(registry)@.dom(),
        fixed == fix_count(addons@, old(registry)@),
        forall|k: Seq<char>| #[trigger]
            old(registry)@.contains_key(k) ==> match last_fix(addons@, k) {
                Some(v) => with_version(old(registry)@[k].model(), final(registry)@[k].model(), v),
                None => final(registry)@[k] == old(registry)@[k],
            },
{
    let ghost m0 = registry@;
    let mut fixed: usize = 0;
    let mut i: usize = 0;
    while i < addons.len()
        invariant
            0 <= i <= addons.len(),
            fixed <= i,
            fixed == fix_count(addons@.take(i as int), m0),
            registry.wf(),
            registry@.dom() == m0.dom(),
            forall|k: Seq<char>| #[trigger]
                m0.contains_key(k) ==> match last_fix(addons@.take(i as int), k) {
                    Some(v) => with_version(m0[k].model(), registry@[k].model(), v),
                    None => registry@[k] == m0[k],
                },
        decreases addons.len() - i,
    {
        let a = &addons[i];
        let ghost before = registry@;
        proof {
            assert(addons@.take(i + 1).drop_last() =~= addons@.take(i as int));
            assert(addons@.take(i + 1).last() == *a);
            lemma_keys_are_slugs(*registry);
        }
        if let Some(d) = &a.display_name {
            let correct = extract_version(d.as_str());
            if !(correct == a.version) {
                match registry.get(a.slug.as_str()) {
                    Some(entry) => {
                        let mut e = entry.duplicate();
                        e.version = correct;
                        let ghost e_model = e.model();
                        registry.add(e);
                        fixed += 1;
                        proof {
                            assert(before.insert(a.slug@, registry@[a.slug@]).dom() =~= before.dom());
                            assert forall|k: Seq<char>| #[trigger] m0.contains_key(k) implies match last_fix(
                                addons@.take(i + 1),
                                k,
                            ) {
                                Some(v) => with_version(m0[k].model(), registry@[k].model(), v),
                                None => registry@[k] == m0[k],
                            } by {
                                if k == a.slug@ {
                                    assert(registry@[k].model() =~= AddonModel { version: version_of(d@), ..m0[k].model() });
                                }
                            }
                        }
                    },
                    None => {},
                }
            }
        }
        i += 1;
    }
    assert(addons@.take(addons.len() as int) =~= addons@);
    fixed
}

/// `after` records the release `v` (checked on `channel`) over `before`,
/// with `dirs` as its directories when given.
pub open spec fn records_release(
    before: AddonModel,
    after: AddonModel,
    v: VersionInfo,
    channel: ReleaseChannel,
    dirs: Option<Seq<Seq<char>>>,
) -> bool {
    after == AddonModel {
        version: v.version@,
        directories: match dirs {
            Some(d) => d,
            None => before.directories,
        },
        installed_file_id: v.file_id,
        external_release_id: opt_view(v.external_release_id),
        display_name: Some(v.display_name@),
        game_versions: Some(views(v.game_versions@)),
        released_at: Some(v.released_at@),
        channel: if channel != ReleaseChannel::Stable {
            Some(channel)
        } else {
            before.channel
        },
        ..before
    }
}

/// Records a newly installed (or re-read) release in the registry entry
/// `slug`, if there is one: its version, file and release identity,
/// display name, game versions, release date, the channel when it is not
/// stable, and, when given, its directories. Returns whether an entry was
/// there.
pub fn record_release(
    registry: &mut Registry,
    slug: &str,
    v: &VersionInfo,
    channel: ReleaseChannel,
    directories: Option<Vec<String>>,
) -> (found: bool)
    requires
        old(registry).wf(),
    ensures
        final(registry).wf(),
        found == old(registry)@.contains_key(slug@),
        final(registry)@.dom() == old(registry)@.dom(),
        forall|k: Seq<char>| #[trigger] old(registry)@.contains_key(k) && k != slug@ ==> final(registry)@[k] == old(
            registry,
        )@[k],
        found ==> records_release(
            old(registry)@[slug@].model(),
            final(registry)@[slug@].model(),
            *v,
            channel,
            match directories {
                Some(d) => Some(views(d@)),
                None => None,
            },
        ),
{
    proof {
        lemma_keys_are_slugs(*registry);
    }
    match registry.get(slug) {
        Some(entry) => {
            let ghost before = registry@;
            let mut e = entry.duplicate();
            e.version = v.version.clone();
            match directories {
                Some(d) => {
                    e.directories = d;
                },
                None => {},
            }
            e.installed_file_id = v.file_id;
            e.external_release_id = clone_opt_string(&v.external_release_id);
            e.display_name = Some(v.display_name.clone());
            e.game_versions = Some(copy_strings(&v.game_versions));
            e.released_at = Some(v.released_at.clone());
            if channel != ReleaseChannel::Stable {
                e.channel = Some(channel);
            }
            registry.add(e);
            proof {
                assert(before.insert(slug@, e).dom() =~= before.dom());
            }
            true
        },
        None => false,
    }
}

/// The directories an update installs: the file's modules when it names
/// any, else the top-level directories the archive held.
pub fn update_directories(modules: &Vec<String>, extracted: &Vec<String>) -> (r: Vec<String>)
    ensures
        modules@.len() > 0 ==> views(r@) == views(modules@),
        modules@.len() == 0 ==> views(r@) == views(extracted@),
{
    if modules.len() > 0 {
        copy_strings(modules)
    } else {
        copy_strings(extracted)
    }
}

/// Why no addons are checked, or which are.
pub enum CheckSelection {
    /// The named addon is not installed.
    NotInstalled,
    /// The named addon is ignored.
    Ignored,
    /// `--auto-only` found no addon with auto-update enabled.
    NoAutoUpdate,
    /// The addons to check.
    Check(Vec<InstalledAddon>),
}

/// Picks the addons an update run checks: the named one unless it is
/// ignored, else every addon that is not ignored, limited with `auto_only`
/// to those with auto-update enabled.
pub fn select_addons_to_check(registry: &Registry, addon: Option<&str>, auto_only: bool) -> (r: CheckSelection)
    requires
        registry.wf(),
    ensures
        addon matches Some(s) ==> match r {
            CheckSelection::NotInstalled => !registry@.contains_key(s@),
            CheckSelection::Ignored => registry@.contains_key(s@) && flag(registry@[s@].ignored),
            CheckSelection::Check(v) => registry@.contains_key(s@) && !flag(registry@[s@].ignored) && v@.len() == 1
                && v@[0].model() == registry@[s@].model(),
            CheckSelection::NoAutoUpdate => false,
        },
        addon is None ==> match r {
            CheckSelection::Check(v) => selected_exactly(v@, *registry, auto_only),
            CheckSelection::NoAutoUpdate => auto_only && forall|k: Seq<char>| #[trigger]
                registry@.contains_key(k) ==> flag(registry@[k].ignored) || !flag(registry@[k].auto_update),
            _ => false,
        },
{
    match addon {
        Some(slug) => match registry.get(slug) {
            Some(a) => {
                if a.is_ignored() {
                    CheckSelection::Ignored
                } else {
                    let mut v: Vec<InstalledAddon> = Vec::new();
                    v.push(a.duplicate());
                    CheckSelection::Check(v)
                }
            },
            None => CheckSelection::NotInstalled,
        },
        None => {
            let v = select_all(registry, auto_only);
            if auto_only && v.len() == 0 {
                proof {
                    assert forall|k: Seq<char>| #[trigger]
                        registry@.contains_key(k) implies flag(registry@[k].ignored) || !flag(registry@[k].auto_update) by {
                        if !flag(registry@[k].ignored) && flag(registry@[k].auto_update) {
                            assert(exists|i: int| 0 <= i < v@.len() && v@[i].slug@ == k);
                        }
                    }
                }
                CheckSelection::NoAutoUpdate
            } else {
                CheckSelection::Check(v)
            }
        },
    }
}

/// Every addon that is not ignored (with `auto_only`, only those with
/// auto-update enabled), each once, copied from the registry.
pub open spec fn selected_from(v: Seq<InstalledAddon>, registry: Registry, auto_only: bool) -> bool {
    forall|i: int| 0 <= i < v.len() ==> #[trigger] registry@.contains_key(v[i].slug@)
        && v[i].model() =~= registry@[v[i].slug@].model() && !flag(v[i].ignored) && (auto_only ==> flag(
        v[i].auto_update,
    ))
}

pub open spec fn selection_covers(v: Seq<InstalledAddon>, registry: Registry, auto_only: bool) -> bool {
    forall|k: Seq<char>| #[trigger]
        registry@.contains_key(k) && !flag(registry@[k].ignored) && (auto_only ==> flag(registry@[k].auto_update))
            ==> exists|i: int| 0 <= i < v.len() && v[i].slug@ == k
}

pub open spec fn selected_exactly(v: Seq<InstalledAddon>, registry: Registry, auto_only: bool) -> bool {
    &&& selected_from(v, registry, auto_only)
    &&& selection_covers(v, registry, auto_only)
    &&& crate::registry::slugs_unique(v)
}

fn select_all(registry: &Registry, auto_only: bool) -> (v: Vec<InstalledAddon>)
    requires
        registry.wf(),
    ensures
        selected_exactly(v@, *registry, auto_only),
{
    let all = registry.list_all();
    let ghost rs = all@.map_values(|a: &InstalledAddon| *a);
    let mut v: Vec<InstalledAddon> = Vec::new();
    let ghost mut idx: Seq<int> = Seq::empty();
    let mut i: usize = 0;
    while i < all.len()
        invariant
            0 <= i <= all.len(),
            rs == all@.map_values(|a: &InstalledAddon| *a),
            crate::registry::lists_exactly(rs, registry@),
            v@.len() == idx.len(),
            forall|p: int| 0 <= p < idx.len() ==> 0 <= #[trigger] idx[p] < i && v@[p].model() == rs[idx[p]].model()
                && v@[p].slug@ == rs[idx[p]].slug@ && !flag(rs[idx[p]].ignored) && (auto_only ==> flag(
                rs[idx[p]].auto_update,
            )),
            forall|p: int, q: int| 0 <= p < q < idx.len() ==> idx[p] < idx[q],
            forall|j: int|
                0 <= j < i && !flag(#[trigger] rs[j].ignored) && (auto_only ==> flag(rs[j].auto_update)) ==> exists|p: int|
                    0 <= p < idx.len() && idx[p] == j,
        decreases all.len() - i,
    {
        let a: &InstalledAddon = all[i];
        let ghost idx_before = idx;
        assert(rs[i as int] == *a);
        if !a.is_ignored() && (!auto_only || a.is_auto_update()) {
            v.push(a.duplicate());
            proof {
                idx = idx.push(i as int);
            }
        }
        proof {
            assert forall|j: int|
                0 <= j < i + 1 && !flag(#[trigger] rs[j].ignored) && (auto_only ==> flag(rs[j].auto_update)) implies exists|p: int|
                    0 <= p < idx.len() && idx[p] == j by {
                if j < i {
                    let p = choose|p: int| 0 <= p < idx_before.len() && idx_before[p] == j;
                    assert(idx[p] == j);
                } else {
                    assert(idx[idx.len() - 1] == j);
                }
            }
        }
        i += 1;
    }
    proof {
        assert forall|p: int, q: int|
            0 <= p < v@.len() && 0 <= q < v@.len() && p != q implies #[trigger] v@[p].slug@ != #[trigger] v@[q].slug@ by {
            if p < q {
                assert(idx[p] < idx[q]);
            } else {
                assert(idx[q] < idx[p]);
            }
        }
        assert forall|k: Seq<char>| #[trigger]
            registry@.contains_key(k) && !flag(registry@[k].ignored) && (auto_only ==> flag(registry@[k].auto_update))
                implies exists|i: int| 0 <= i < v@.len() && v@[i].slug@ == k by {
            let j = choose|j: int| 0 <= j < rs.len() && rs[j].slug@ == k;
            assert(registry@[rs[j].slug@] == rs[j]);
            let p = choose|p: int| 0 <= p < idx.len() && idx[p] == j;
            assert(v@[p].slug@ == k);
        }
        assert forall|i: int| 0 <= i < v@.len() implies #[trigger] registry@.contains_key(v@[i].slug@)
            && v@[i].model() == registry@[v@[i].slug@].model() && !flag(v@[i].ignored) && (auto_only ==> flag(
            v@[i].auto_update,
        )) by {
            assert(registry@.contains_key(rs[idx[i]].slug@) && registry@[rs[idx[i]].slug@] == rs[idx[i]]);
        }
        assert(selected_from(v@, *registry, auto_only));
        assert(selection_covers(v@, *registry, auto_only));
        assert(crate::registry::slugs_unique(v@));
    }
    v
}

/// A pending update: an addon whose source has a newer release.
#[derive(Debug, Clone)]
pub struct UpdateInfo {
    pub slug: String,
    pub name: String,
    pub current_version: String,
    pub new_version: String,
    pub addon_id: String,
    pub channel: ReleaseChannel,
    pub kind: SourceKind,
}

/// The update of `installed` that a version check reports, if it reports a
/// newer release.
pub fn update_for(
    installed: &InstalledAddon,
    check: &BatchVersionCheck,
    channel: ReleaseChannel,
    kind: SourceKind,
) -> (r: Option<UpdateInfo>)
    ensures
        match r {
            Some(u) => update_available(
                opt_view(installed.external_release_id),
                installed.installed_file_id,
                installed.version@,
                opt_view(check.external_release_id),
                check.file_id,
                check.version@,
            ) && u.slug@ == installed.slug@ && u.name@ == installed.name@ && u.current_version@
                == installed.version@ && u.new_version@ == check.version@ && u.addon_id@ == installed.addon_id@
                && u.channel == channel && u.kind == kind,
            None => !update_available(
                opt_view(installed.external_release_id),
                installed.installed_file_id,
                installed.version@,
                opt_view(check.external_release_id),
                check.file_id,
                check.version@,
            ),
        },
{
    if is_update_available(installed, check) {
        Some(
            UpdateInfo {
                slug: installed.slug.clone(),
                name: installed.name.clone(),
                current_version: installed.version.clone(),
                new_version: check.version.clone(),
                addon_id: installed.addon_id.clone(),
                channel,
                kind,
            },
        )
    } else {
        None
    }
}

/// The position of the version check for `addon_id` in a batch answer;
/// where the answer holds it twice, the later one counts, as a map built
/// from the answer would keep it.
pub fn find_check(checks: &[BatchVersionCheck], addon_id: &String) -> (r: Option<usize>)
    ensures
        match r {
            Some(i) => i < checks.len() && checks@[i as int].addon_id@ == addon_id@ && forall|j: int|
                i < j < checks.len() ==> checks@[j].addon_id@ != addon_id@,
            None => forall|i: int| 0 <= i < checks.len() ==> checks@[i].addon_id@ != addon_id@,
        },
{
    let mut i: usize = checks.len();
    while i > 0
        invariant
            0 <= i <= checks.len(),
            forall|j: int| i <= j < checks.len() ==> checks@[j].addon_id@ != addon_id@,
        decreases i,
    {
        i -= 1;
        if checks[i].addon_id == *addon_id {
            return Some(i);
        }
    }
    None
}

/// The strongest identity both sides carry decides: an unchanged release
/// ID means no update whatever the file IDs and versions say; without
/// release IDs on both sides an unchanged file ID means none whatever the
/// versions say; and the same identity on both sides is never an update.
pub proof fn law_strongest_identity_decides(
    installed_release: Option<Seq<char>>,
    installed_file: Option<u32>,
    installed_version: Seq<char>,
    latest_release: Option<Seq<char>>,
    latest_file: Option<u32>,
    latest_version: Seq<char>,
)
    ensures
        installed_release is Some && installed_release == latest_release ==> !update_available(
            installed_release,
            installed_file,
            installed_version,
            latest_release,
            latest_file,
            latest_version,
        ),
        installed_release is Some && latest_release is Some && installed_release != latest_release
            ==> update_available(
            installed_release,
            installed_file,
            installed_version,
            latest_release,
            latest_file,
            latest_version,
        ),
        !(installed_release is Some && latest_release is Some) && installed_file is Some && installed_file
            == latest_file ==> !update_available(
            installed_release,
            installed_file,
            installed_version,
            latest_release,
            latest_file,
            latest_version,
        ),
        !update_available(
            installed_release,
            installed_file,
            installed_version,
            installed_release,
            installed_file,
            installed_version,
        ),
{
}

/// A recorded release is current: after `v` is recorded for an addon, the
/// entry carries `v`'s release identity (its release ID, file ID and
/// version) and release date, so checking the entry against `v` finds no
/// update; which addon the entry is, and where it comes from, stay as they
/// were.
pub proof fn law_recorded_release_is_current(
    before: AddonModel,
    after: AddonModel,
    v: VersionInfo,
    channel: ReleaseChannel,
    dirs: Option<Seq<Seq<char>>>,
)
    requires
        records_release(before, after, v, channel, dirs),
    ensures
        after.external_release_id == opt_view(v.external_release_id),
        after.installed_file_id == v.file_id,
        after.version == v.version@,
        after.released_at == Some(v.released_at@),
        after.slug == before.slug && after.source == before.source && after.addon_id == before.addon_id,
        after.ignored == before.ignored && after.auto_update == before.auto_update,
        !update_available(
            after.external_release_id,
            after.installed_file_id,
            after.version,
            opt_view(v.external_release_id),
            v.file_id,
            v.version@,
        ),
{
}

} // verus!
