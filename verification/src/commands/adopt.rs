//! The decisions of `wowctl adopt`: which requests are valid, which
//! directories an adopted addon claims, how the proposals of a scan are
//! merged and ordered, and what the registry records.

use vstd::prelude::*;
use vstd::string::StringExecFns;
use crate::addon::{opt_views, AddonInfo, AddonModel, InstalledAddon, VersionInfo};
use crate::error::WowctlError;
use crate::registry::Registry;
use crate::sources::opt_view;
use crate::text::{concat3, contains_string, lex_lt, lemma_lex_basic, lemma_lex_trans, str_lt, views};
use crate::utils::{claimed, find_dirs_claimed_by_modules, group_index, group_views, pair_views, set_views};

verus! {

broadcast use vstd::string::group_string_axioms;

pub open spec fn folder_or_all_message() -> Seq<char> {
    "Specify an addon folder name, or use --all to adopt all unmanaged addons"@
}

pub open spec fn slug_with_all_message() -> Seq<char> {
    "--slug cannot be used with --all"@
}

/// Checks the combination of arguments: a folder or `--all` is needed,
/// and `--slug` names one addon, so it cannot go with `--all`.
pub fn check_adopt_args(has_folder: bool, all: bool, has_slug: bool) -> (r: Result<(), WowctlError>)
    ensures
        !has_folder && !all ==> (r matches Err(WowctlError::Config(m)) && m@ == folder_or_all_message()),
        (has_folder || all) && all && has_slug ==> (r matches Err(WowctlError::Config(m)) && m@
            == slug_with_all_message()),
        (has_folder || all) && !(all && has_slug) ==> r is Ok,
{
    if !has_folder && !all {
        return Err(
            WowctlError::Config(
                String::from_str("Specify an addon folder name, or use --all to adopt all unmanaged addons"),
            ),
        );
    }
    if all && has_slug {
        return Err(WowctlError::Config(String::from_str("--slug cannot be used with --all")));
    }
    Ok(())
}

pub open spec fn missing_folder_message(folder: Seq<char>, addon_dir: Seq<char>) -> Seq<char> {
    "Folder '"@ + folder + "' does not exist in "@ + addon_dir
}

pub open spec fn already_managed_message(folder: Seq<char>) -> Seq<char> {
    "'"@ + folder + "' is already managed by wowctl"@
}

/// Whether some installed addon lists `dir` among its directories.
pub open spec fn dir_managed(reg: Registry, dir: Seq<char>) -> bool {
    exists|k: Seq<char>| #[trigger] reg@.contains_key(k) && views(reg@[k].directories@).contains(dir)
}

/// Checks that a single folder can be adopted: it is a directory of the
/// addon directory (as the file system reported) and no installed addon
/// claims it yet.
pub fn check_adopt_target(folder: &str, addon_dir: &str, is_dir: bool, registry: &Registry) -> (r: Result<
    (),
    WowctlError,
>)
    requires
        registry.wf(),
    ensures
        !is_dir ==> (r matches Err(WowctlError::InvalidAddonDir(m)) && m@ == missing_folder_message(
            folder@,
            addon_dir@,
        )),
        is_dir && dir_managed(*registry, folder@) ==> (r matches Err(WowctlError::Config(m)) && m@
            == already_managed_message(folder@)),
        is_dir && !dir_managed(*registry, folder@) ==> r is Ok,
{
    if !is_dir {
        let mut m = concat3("Folder '", folder, "' does not exist in ");
        m.append(addon_dir);
        return Err(WowctlError::InvalidAddonDir(m));
    }
    match registry.find_by_directory(folder) {
        Some(a) => {
            proof {
                assert(registry@.contains_key(a.slug@));
            }
            Err(WowctlError::Config(concat3("'", folder, "' is already managed by wowctl")))
        },
        None => Ok(()),
    }
}

/// `acc` followed by the items of `extra` it does not hold yet, each once.
pub open spec fn add_new(acc: Seq<Seq<char>>, extra: Seq<Seq<char>>) -> Seq<Seq<char>>
    decreases extra.len(),
{
    if extra.len() == 0 {
        acc
    } else {
        let prev = add_new(acc, extra.drop_last());
        if prev.contains(extra.last()) {
            prev
        } else {
            prev.push(extra.last())
        }
    }
}

/// Each directory is claimed once: from a list without repeats, adding
/// keeps the list as its prefix, has no repeats, and holds exactly the
/// items of both.
pub proof fn law_add_new_distinct(acc: Seq<Seq<char>>, extra: Seq<Seq<char>>)
    requires
        acc.no_duplicates(),
    ensures
        add_new(acc, extra).no_duplicates(),
        acc.len() <= add_new(acc, extra).len(),
        add_new(acc, extra).take(acc.len() as int) == acc,
        forall|x: Seq<char>| #[trigger] add_new(acc, extra).contains(x) <==> acc.contains(x) || extra.contains(x),
    decreases extra.len(),
{
    if extra.len() == 0 {
        assert(acc.take(acc.len() as int) =~= acc);
    } else {
        let rest = extra.drop_last();
        let l = extra.last();
        law_add_new_distinct(acc, rest);
        let prev = add_new(acc, rest);
        assert forall|x: Seq<char>| extra.contains(x) <==> rest.contains(x) || x == l by {
            if extra.contains(x) {
                let i = choose|i: int| 0 <= i < extra.len() && extra[i] == x;
                if i < extra.len() - 1 {
                    assert(rest[i] == x);
                }
            }
            if rest.contains(x) {
                let i = choose|i: int| 0 <= i < rest.len() && rest[i] == x;
                assert(extra[i] == x);
            }
            if x == l {
                assert(extra[extra.len() - 1] == x);
            }
        }
        if !prev.contains(l) {
            let next = prev.push(l);
            assert(next.take(acc.len() as int) =~= prev.take(acc.len() as int));
            assert forall|x: Seq<char>| #[trigger] next.contains(x) <==> prev.contains(x) || x == l by {
                if next.contains(x) {
                    let i = choose|i: int| 0 <= i < next.len() && next[i] == x;
                    if i < prev.len() {
                        assert(prev[i] == x);
                    }
                }
                if prev.contains(x) {
                    let i = choose|i: int| 0 <= i < prev.len() && prev[i] == x;
                    assert(next[i] == x);
                }
                if x == l {
                    assert(next[prev.len() as int] == x);
                }
            }
            assert forall|i: int, j: int| 0 <= i < j < next.len() implies next[i] != next[j] by {
                if j == prev.len() {
                    assert(prev[i] == next[i]);
                }
            }
        }
    }
}

/// Appends to `acc` the items of `extra` it does not hold yet.
pub fn push_new(acc: &mut Vec<String>, extra: &[String])
    ensures
        views(final(acc)@) == add_new(views(old(acc)@), views(extra@)),
{
    let ghost start = views(acc@);
    let mut i: usize = 0;
    while i < extra.len()
        invariant
            0 <= i <= extra.len(),
            views(acc@) == add_new(start, views(extra@).take(i as int)),
        decreases extra.len() - i,
    {
        let x = &extra[i];
        proof {
            assert(views(extra@).take(i + 1).drop_last() =~= views(extra@).take(i as int));
            assert(views(extra@).take(i + 1).last() == x@);
        }
        if !contains_string(acc.as_slice(), x) {
            let ghost before = acc@;
            acc.push(x.clone());
            assert(views(acc@) =~= views(before).push(x@));
        }
        i += 1;
    }
    assert(views(extra@).take(extra.len() as int) =~= views(extra@));
}

/// The items of `v` that `keep` holds, in order.
pub open spec fn kept_in(v: Seq<Seq<char>>, keep: Seq<Seq<char>>) -> Seq<Seq<char>> {
    v.filter(|x: Seq<char>| keep.contains(x))
}

/// The directories grouped under `id`, or none.
pub open spec fn siblings_of(groups: Seq<(Seq<char>, Seq<Seq<char>>)>, id: Seq<char>) -> Seq<Seq<char>> {
    if group_index(groups, id) >= 0 {
        groups[group_index(groups, id)].1
    } else {
        Seq::empty()
    }
}

proof fn lemma_group_index_prefix(g: Seq<(Seq<char>, Seq<Seq<char>>)>, pid: Seq<char>, j: int)
    requires
        0 <= j <= g.len(),
        group_index(g.take(j), pid) >= 0,
    ensures
        group_index(g, pid) == group_index(g.take(j), pid),
    decreases g.len() - j,
{
    if j == g.len() {
        assert(g.take(j) =~= g);
    } else {
        assert(g.take(j + 1).drop_last() =~= g.take(j));
        lemma_group_index_prefix(g, pid, j + 1);
    }
}

proof fn lemma_group_index_bound(g: Seq<(Seq<char>, Seq<Seq<char>>)>, pid: Seq<char>)
    ensures
        -1 <= group_index(g, pid) < g.len(),
        group_index(g, pid) >= 0 ==> g[group_index(g, pid)].0 == pid,
    decreases g.len(),
{
    if g.len() > 0 {
        lemma_group_index_bound(g.drop_last(), pid);
    }
}

fn find_group<'a>(groups: &'a Vec<(String, Vec<String>)>, id: &str) -> (r: Option<&'a Vec<String>>)
    ensures
        match r {
            Some(v) => group_index(group_views(groups@), id@) >= 0 && views(v@) == siblings_of(
                group_views(groups@),
                id@,
            ),
            None => group_index(group_views(groups@), id@) < 0,
        },
{
    let ghost g = group_views(groups@);
    let key = String::from_str(id);
    let mut i: usize = 0;
    while i < groups.len()
        invariant
            0 <= i <= groups.len(),
            key@ == id@,
            g == group_views(groups@),
            g.len() == groups@.len(),
            group_index(g.take(i as int), id@) == -1,
        decreases groups.len() - i,
    {
        proof {
            assert(g.take(i + 1).drop_last() =~= g.take(i as int));
            assert(g.take(i + 1).last() == g[i as int]);
            assert(g[i as int].0 == groups@[i as int].0@);
        }
        if groups[i].0 == key {
            proof {
                assert(groups@[i as int].0@ == id@);
                assert(group_index(g.take(i + 1), id@) == i);
                lemma_group_index_prefix(g, id@, i + 1);
                assert(g[i as int].1 == views(groups@[i as int].1@));
            }
            return Some(&groups[i].1);
        }
        i += 1;
    }
    assert(g.take(groups.len() as int) =~= g);
    None
}

/// The directories that adopting `folder` as the addon `addon_id` claims:
/// the folder, the unmanaged directories whose `.toc` names the same
/// project, and the unmanaged directories among the release's modules.
pub open spec fn single_adopt_dirs(
    folder: Seq<char>,
    groups: Seq<(Seq<char>, Seq<Seq<char>>)>,
    addon_id: Seq<char>,
    modules: Seq<Seq<char>>,
    unmanaged: Seq<Seq<char>>,
) -> Seq<Seq<char>> {
    add_new(add_new(seq![folder], siblings_of(groups, addon_id)), kept_in(modules, unmanaged))
}

/// The directories that adopting a folder claims hold each directory
/// once, the folder first.
pub proof fn law_adopt_dirs_distinct(
    folder: Seq<char>,
    groups: Seq<(Seq<char>, Seq<Seq<char>>)>,
    addon_id: Seq<char>,
    modules: Seq<Seq<char>>,
    unmanaged: Seq<Seq<char>>,
)
    ensures
        single_adopt_dirs(folder, groups, addon_id, modules, unmanaged).no_duplicates(),
        single_adopt_dirs(folder, groups, addon_id, modules, unmanaged).len() >= 1,
        single_adopt_dirs(folder, groups, addon_id, modules, unmanaged)[0] == folder,
{
    let first = add_new(seq![folder], siblings_of(groups, addon_id));
    law_add_new_distinct(seq![folder], siblings_of(groups, addon_id));
    law_add_new_distinct(first, kept_in(modules, unmanaged));
    let all = single_adopt_dirs(folder, groups, addon_id, modules, unmanaged);
    assert(all.take(first.len() as int)[0] == all[0]);
    assert(first.take(1)[0] == first[0]);
}

pub fn adopt_directories(
    folder: &str,
    groups: &Vec<(String, Vec<String>)>,
    addon_id: &str,
    modules: &[String],
    unmanaged: &[String],
) -> (r: Vec<String>)
    ensures
        views(r@) == single_adopt_dirs(folder@, group_views(groups@), addon_id@, views(modules@), views(unmanaged@)),
{
    let mut dirs: Vec<String> = Vec::new();
    dirs.push(String::from_str(folder));
    assert(views(dirs@) =~= seq![folder@]);
    match find_group(groups, addon_id) {
        Some(sibs) => push_new(&mut dirs, sibs.as_slice()),
        None => {
            assert(add_new(seq![folder@], Seq::empty()) == seq![folder@]);
        },
    }
    let mut wanted: Vec<String> = Vec::new();
    let mut i: usize = 0;
    while i < modules.len()
        invariant
            0 <= i <= modules.len(),
            views(wanted@) == kept_in(views(modules@).take(i as int), views(unmanaged@)),
        decreases modules.len() - i,
    {
        let m = &modules[i];
        proof {
            let t = views(modules@).take(i + 1);
            assert(t.drop_last() =~= views(modules@).take(i as int));
            assert(t.last() == m@);
            assert(t =~= t.drop_last().push(m@));
            t.drop_last().lemma_filter_push(m@, |x: Seq<char>| views(unmanaged@).contains(x));
        }
        if contains_string(unmanaged, m) {
            let ghost before = wanted@;
            wanted.push(m.clone());
            assert(views(wanted@) =~= views(before).push(m@));
        }
        i += 1;
    }
    assert(views(modules@).take(modules.len() as int) =~= views(modules@));
    push_new(&mut dirs, wanted.as_slice());
    dirs
}

/// An addon that a scan proposes to adopt, with what it claims.
pub struct AdoptProposal {
    pub addon_info: AddonInfo,
    pub directories: Vec<String>,
    pub version: String,
    pub file_id: Option<u32>,
    pub display_name: Option<String>,
    pub game_versions: Option<Vec<String>>,
    pub released_at: Option<String>,
    /// Canonical module directory names of the release, used to detect
    /// child directories.
    pub modules: Vec<String>,
}

/// The content of a proposal, strings taken by their text.
#[verifier::ext_equal]
pub struct ProposalModel {
    pub addon_info: AddonInfo,
    pub directories: Seq<Seq<char>>,
    pub version: Seq<char>,
    pub file_id: Option<u32>,
    pub display_name: Option<Seq<char>>,
    pub game_versions: Option<Seq<Seq<char>>>,
    pub released_at: Option<Seq<char>>,
    pub modules: Seq<Seq<char>>,
}

pub open spec fn unknown_version() -> Seq<char> {
    "unknown"@
}

impl AdoptProposal {
    pub open spec fn model(&self) -> ProposalModel {
        ProposalModel {
            addon_info: self.addon_info,
            directories: views(self.directories@),
            version: self.version@,
            file_id: self.file_id,
            display_name: opt_view(self.display_name),
            game_versions: opt_views(self.game_versions),
            released_at: opt_view(self.released_at),
            modules: views(self.modules@),
        }
    }

    /// A proposal for `addon_info` claiming `directories`, described by its
    /// latest stable release where that could be fetched, else with an
    /// unknown version.
    pub fn new(addon_info: AddonInfo, directories: Vec<String>, latest: Option<VersionInfo>) -> (r: AdoptProposal)
        ensures
            r.addon_info == addon_info,
            r.directories == directories,
            match latest {
                Some(v) => r.version@ == v.version@ && r.file_id == v.file_id && opt_view(r.display_name) == Some(
                    v.display_name@,
                ) && opt_views(r.game_versions) == Some(views(v.game_versions@)) && opt_view(r.released_at) == Some(
                    v.released_at@,
                ) && views(r.modules@) == views(v.modules@),
                None => r.version@ == unknown_version() && r.file_id is None && r.display_name is None
                    && r.game_versions is None && r.released_at is None && r.modules@.len() == 0,
            },
    {
        match latest {
            Some(v) => AdoptProposal {
                addon_info,
                directories,
                version: v.version,
                file_id: v.file_id,
                display_name: Some(v.display_name),
                game_versions: Some(v.game_versions),
                released_at: Some(v.released_at),
                modules: v.modules,
            },
            None => AdoptProposal {
                addon_info,
                directories,
                version: String::from_str("unknown"),
                file_id: None,
                display_name: None,
                game_versions: None,
                released_at: None,
                modules: Vec::new(),
            },
        }
    }
}

/// The registry entry that adopting a proposal records: a top-level
/// addon, required by nothing, on the stable channel.
pub open spec fn adopted_model(p: ProposalModel) -> AddonModel {
    AddonModel {
        name: p.addon_info.name@,
        slug: p.addon_info.slug@,
        version: p.version,
        source: p.addon_info.source@,
        addon_id: p.addon_info.id@,
        directories: p.directories,
        is_dependency: false,
        required_by: Seq::empty(),
        installed_file_id: p.file_id,
        display_name: p.display_name,
        channel: None,
        ignored: None,
        game_versions: p.game_versions,
        released_at: p.released_at,
        auto_update: None,
        external_release_id: None,
    }
}

pub fn adopted_addon(p: AdoptProposal) -> (r: InstalledAddon)
    ensures
        r.model() == adopted_model(p.model()),
{
    let r = InstalledAddon {
        name: p.addon_info.name,
        slug: p.addon_info.slug,
        version: p.version,
        source: p.addon_info.source,
        addon_id: p.addon_info.id,
        directories: p.directories,
        is_dependency: false,
        required_by: Vec::new(),
        installed_file_id: p.file_id,
        display_name: p.display_name,
        channel: None,
        ignored: None,
        game_versions: p.game_versions,
        released_at: p.released_at,
        auto_update: None,
        external_release_id: None,
    };
    assert(views(r.required_by@) =~= Seq::<Seq<char>>::empty());
    r
}

/// Whether some proposal claims `dir`.
pub open spec fn covered(ps: Seq<AdoptProposal>, dir: Seq<char>) -> bool {
    exists|i: int| 0 <= i < ps.len() && views(#[trigger] ps[i].directories@).contains(dir)
}

fn is_covered(ps: &Vec<AdoptProposal>, dir: &String) -> (r: bool)
    ensures
        r == covered(ps@, dir@),
{
    let mut i: usize = 0;
    while i < ps.len()
        invariant
            0 <= i <= ps.len(),
            forall|j: int| 0 <= j < i ==> !views(#[trigger] ps@[j].directories@).contains(dir@),
        decreases ps.len() - i,
    {
        if contains_string(ps[i].directories.as_slice(), dir) {
            return true;
        }
        i += 1;
    }
    false
}

/// The directories still to identify by name: those without a project ID
/// and those whose project could not be looked up, less the ones a
/// proposal already claims.
pub fn search_candidates(no_id: &Vec<String>, failed: &Vec<String>, proposals: &Vec<AdoptProposal>) -> (r: Vec<
    String,
>)
    ensures
        views(r@) == (views(no_id@) + views(failed@)).filter(|d: Seq<char>| !covered(proposals@, d)),
{
    let ghost all = views(no_id@) + views(failed@);
    let ghost pred = |d: Seq<char>| !covered(proposals@, d);
    let mut r: Vec<String> = Vec::new();
    let mut i: usize = 0;
    while i < no_id.len()
        invariant
            0 <= i <= no_id.len(),
            all == views(no_id@) + views(failed@),
            pred == (|d: Seq<char>| !covered(proposals@, d)),
            views(r@) == all.take(i as int).filter(pred),
        decreases no_id.len() - i,
    {
        let d = &no_id[i];
        proof {
            assert(all.take(i + 1) =~= all.take(i as int).push(d@));
            all.take(i as int).lemma_filter_push(d@, pred);
        }
        if !is_covered(proposals, d) {
            let ghost before = r@;
            r.push(d.clone());
            assert(views(r@) =~= views(before).push(d@));
        }
        i += 1;
    }
    let mut j: usize = 0;
    while j < failed.len()
        invariant
            0 <= j <= failed.len(),
            all == views(no_id@) + views(failed@),
            pred == (|d: Seq<char>| !covered(proposals@, d)),
            views(r@) == all.take(no_id@.len() + j).filter(pred),
        decreases failed.len() - j,
    {
        let d = &failed[j];
        proof {
            assert(all.take(no_id@.len() + j + 1) =~= all.take(no_id@.len() + j).push(d@));
            all.take(no_id@.len() + j).lemma_filter_push(d@, pred);
        }
        if !is_covered(proposals, d) {
            let ghost before = r@;
            r.push(d.clone());
            assert(views(r@) =~= views(before).push(d@));
        }
        j += 1;
    }
    assert(all.take((no_id@.len() + failed@.len()) as int) =~= all);
    r
}

/// The positions of the first occurrence of each search term, in order:
/// a term searched once is not searched again, whatever it gave.
pub open spec fn first_occurrences(terms: Seq<Seq<char>>) -> Seq<int>
    decreases terms.len(),
{
    if terms.len() == 0 {
        Seq::empty()
    } else {
        let prev = first_occurrences(terms.drop_last());
        if terms.drop_last().contains(terms.last()) {
            prev
        } else {
            prev.push(terms.len() - 1)
        }
    }
}

pub fn first_per_term(terms: &Vec<String>) -> (r: Vec<usize>)
    ensures
        r@.map_values(|i: usize| i as int) == first_occurrences(views(terms@)),
{
    let ghost t = views(terms@);
    let mut seen: Vec<String> = Vec::new();
    let mut r: Vec<usize> = Vec::new();
    let mut i: usize = 0;
    while i < terms.len()
        invariant
            0 <= i <= terms.len(),
            t == views(terms@),
            views(seen@) == t.take(i as int),
            r@.map_values(|i: usize| i as int) == first_occurrences(t.take(i as int)),
        decreases terms.len() - i,
    {
        let x = &terms[i];
        proof {
            assert(t.take(i + 1).drop_last() =~= t.take(i as int));
            assert(t.take(i + 1).last() == x@);
        }
        if !contains_string(seen.as_slice(), x) {
            let ghost before = r@;
            r.push(i);
            assert(r@.map_values(|i: usize| i as int) =~= before.map_values(|i: usize| i as int).push(i as int));
        }
        let ghost sb = seen@;
        seen.push(x.clone());
        assert(views(seen@) =~= views(sb).push(x@));
        assert(t.take(i + 1) =~= t.take(i as int).push(x@));
        i += 1;
    }
    assert(t.take(terms.len() as int) =~= t);
    r
}

pub open spec fn pid(p: AdoptProposal) -> Seq<char> {
    p.addon_info.id@
}

/// The addon IDs of the proposals, each once, in order of first appearance.
pub open spec fn group_ids(ps: Seq<AdoptProposal>) -> Seq<Seq<char>>
    decreases ps.len(),
{
    if ps.len() == 0 {
        Seq::empty()
    } else {
        let prev = group_ids(ps.drop_last());
        if prev.contains(pid(ps.last())) {
            prev
        } else {
            prev.push(pid(ps.last()))
        }
    }
}

/// The directories of the proposals for `g`, each once, in order.
pub open spec fn merged_dirs(ps: Seq<AdoptProposal>, g: Seq<char>) -> Seq<Seq<char>>
    decreases ps.len(),
{
    if ps.len() == 0 {
        Seq::empty()
    } else {
        let prev = merged_dirs(ps.drop_last(), g);
        if pid(ps.last()) == g {
            add_new(prev, views(ps.last().directories@))
        } else {
            prev
        }
    }
}

/// The modules of the first proposal for `g`, followed by the new ones
/// of the later proposals for `g`.
pub open spec fn merged_modules(ps: Seq<AdoptProposal>, g: Seq<char>) -> Seq<Seq<char>>
    decreases ps.len(),
{
    if ps.len() == 0 {
        Seq::empty()
    } else {
        let prev = merged_modules(ps.drop_last(), g);
        if pid(ps.last()) == g {
            if group_ids(ps.drop_last()).contains(g) {
                add_new(prev, views(ps.last().modules@))
            } else {
                views(ps.last().modules@)
            }
        } else {
            prev
        }
    }
}

/// The first proposal for `g`.
pub open spec fn first_member(ps: Seq<AdoptProposal>, g: Seq<char>) -> AdoptProposal
    decreases ps.len(),
{
    if ps.len() == 0 {
        arbitrary()
    } else if pid(ps.last()) == g && !group_ids(ps.drop_last()).contains(g) {
        ps.last()
    } else {
        first_member(ps.drop_last(), g)
    }
}

/// The proposals for `g` merged into one: the first one's addon and
/// release, with the directories and modules of all of them.
pub open spec fn merged_model(ps: Seq<AdoptProposal>, g: Seq<char>) -> ProposalModel {
    let f = first_member(ps, g);
    ProposalModel {
        addon_info: f.addon_info,
        directories: merged_dirs(ps, g),
        version: f.version@,
        file_id: f.file_id,
        display_name: opt_view(f.display_name),
        game_versions: opt_views(f.game_versions),
        released_at: opt_view(f.released_at),
        modules: merged_modules(ps, g),
    }
}

/// A merged proposal claims each directory once.
pub proof fn law_merged_dirs_distinct(ps: Seq<AdoptProposal>, g: Seq<char>)
    ensures
        merged_dirs(ps, g).no_duplicates(),
    decreases ps.len(),
{
    if ps.len() > 0 {
        law_merged_dirs_distinct(ps.drop_last(), g);
        if pid(ps.last()) == g {
            law_add_new_distinct(merged_dirs(ps.drop_last(), g), views(ps.last().directories@));
        }
    }
}

/// `p` is the merge of the proposals for `g`.
#[verifier::opaque]
pub open spec fn is_merged(p: AdoptProposal, ps: Seq<AdoptProposal>, g: Seq<char>) -> bool {
    p.addon_info.id@ == g && p.model() == merged_model(ps, g)
}

proof fn lemma_absent_group(ps: Seq<AdoptProposal>, g: Seq<char>)
    requires
        !group_ids(ps).contains(g),
    ensures
        merged_dirs(ps, g) == Seq::<Seq<char>>::empty(),
        forall|i: int| 0 <= i < ps.len() ==> pid(#[trigger] ps[i]) != g,
    decreases ps.len(),
{
    if ps.len() > 0 {
        let prev = group_ids(ps.drop_last());
        if prev.contains(g) {
            let i = choose|i: int| 0 <= i < prev.len() && prev[i] == g;
            assert(group_ids(ps)[i] == g);
        }
        if pid(ps.last()) == g && !prev.contains(g) {
            assert(group_ids(ps)[prev.len() as int] == g);
        }
        lemma_absent_group(ps.drop_last(), g);
        assert forall|i: int| 0 <= i < ps.len() implies pid(#[trigger] ps[i]) != g by {
            if i < ps.len() - 1 {
                assert(ps[i] == ps.drop_last()[i]);
            }
        }
    }
}

/// Groups the proposals by addon ID (in order of first appearance).
/// No two proposals share an addon ID.
pub open spec fn distinct_ids(s: Seq<AdoptProposal>) -> bool {
    forall|a: int, b: int| 0 <= a < b < s.len() ==> s[a].addon_info.id@ != s[b].addon_info.id@
}

fn merge_by_id(proposals: Vec<AdoptProposal>) -> (out: Vec<AdoptProposal>)
    ensures
        out@.len() == group_ids(proposals@).len(),
        distinct_ids(out@),
        forall|j: int| 0 <= j < out@.len() ==> is_merged(#[trigger] out@[j], proposals@, group_ids(proposals@)[j]),
{
    let ghost all = proposals@;
    let mut rest = proposals;
    let mut out: Vec<AdoptProposal> = Vec::new();
    let ghost mut k: int = 0;
    while rest.len() > 0
        invariant
            0 <= k <= all.len(),
            rest@ == all.skip(k),
            out@.len() == group_ids(all.take(k)).len(),
            forall|j: int| 0 <= j < out@.len() ==> (#[trigger] out@[j]).model() == merged_model(
                all.take(k),
                group_ids(all.take(k))[j],
            ),
            forall|j: int| 0 <= j < out@.len() ==> (#[trigger] out@[j]).addon_info.id@ == group_ids(all.take(k))[j],
            forall|a: int, b: int|
                0 <= a < b < group_ids(all.take(k)).len() ==> group_ids(all.take(k))[a] != group_ids(all.take(k))[b],
        decreases rest@.len(),
    {
        let p = rest.remove(0);
        let ghost done = all.take(k);
        let ghost next = all.take(k + 1);
        let ghost ids = group_ids(done);
        proof {
            assert(all.skip(k)[0] == all[k]);
            assert(rest@ =~= all.skip(k + 1));
            assert(next.drop_last() =~= done);
            assert(next.last() == p);
        }
        let mut j: usize = 0;
        while j < out.len()
            invariant
                0 <= j <= out@.len(),
                forall|l: int| 0 <= l < j ==> (#[trigger] out@[l]).addon_info.id@ != p.addon_info.id@,
            ensures
                0 <= j <= out@.len(),
                forall|l: int| 0 <= l < j ==> (#[trigger] out@[l]).addon_info.id@ != p.addon_info.id@,
                j < out@.len() ==> out@[j as int].addon_info.id@ == p.addon_info.id@,
            decreases out.len() - j,
        {
            if out[j].addon_info.id == p.addon_info.id {
                break;
            }
            j += 1;
        }
        if j < out.len() {
            let ghost g = pid(p);
            proof {
                assert(out@[j as int].addon_info.id@ == g);
                assert(ids[j as int] == g);
                assert(ids.contains(g));
                assert(group_ids(next) == ids);
            }
            let ghost before = out@;
            let mut e = out.remove(j);
            push_new(&mut e.directories, p.directories.as_slice());
            push_new(&mut e.modules, p.modules.as_slice());
            out.insert(j, e);
            proof {
                assert(out@ =~= before.update(j as int, e));
                assert forall|l: int| 0 <= l < out@.len() implies (#[trigger] out@[l]).model() == merged_model(
                    next,
                    group_ids(next)[l],
                ) by {
                    if l != j {
                        assert(ids[l] != g);
                        assert(out@[l] == before[l]);
                    }
                }
            }
        } else {
            let ghost g = pid(p);
            proof {
                if ids.contains(g) {
                    let a = choose|a: int| 0 <= a < ids.len() && ids[a] == g;
                    assert(out@[a].addon_info.id@ == g);
                }
                assert(group_ids(next) == ids.push(g));
                lemma_absent_group(done, g);
            }
            let AdoptProposal {
                addon_info,
                directories,
                version,
                file_id,
                display_name,
                game_versions,
                released_at,
                modules,
            } = p;
            let mut dirs: Vec<String> = Vec::new();
            assert(views(dirs@) =~= Seq::<Seq<char>>::empty());
            push_new(&mut dirs, directories.as_slice());
            proof {
                assert(views(dirs@) == add_new(Seq::empty(), views(directories@)));
            }
            let ghost before = out@;
            out.push(
                AdoptProposal { addon_info, directories: dirs, version, file_id, display_name, game_versions, released_at, modules },
            );
            proof {
                assert forall|l: int| 0 <= l < out@.len() implies (#[trigger] out@[l]).model() == merged_model(
                    next,
                    group_ids(next)[l],
                ) by {
                    if l < before.len() {
                        assert(ids[l] != g);
                        assert(out@[l] == before[l]);
                    }
                }
            }
        }
        proof {
            k = k + 1;
        }
    }
    assert(all.take(all.len() as int) =~= all);
    proof {
        reveal(is_merged);
    }
    out
}

/// Ordered by addon name.
pub open spec fn by_name(s: Seq<AdoptProposal>) -> bool {
    forall|i: int, j: int| 0 <= i < j < s.len() ==> !lex_lt(s[j].addon_info.name@, s[i].addon_info.name@)
}

/// The proposals ordered by name; of equal names, the earlier first.
#[verifier::rlimit(40)]
fn sort_by_name(v: Vec<AdoptProposal>) -> (r: Vec<AdoptProposal>)
    ensures
        r@.len() == v@.len(),
        by_name(r@),
        distinct_ids(v@) ==> distinct_ids(r@),
        forall|i: int| 0 <= i < r@.len() ==> v@.contains(#[trigger] r@[i]),
        forall|j: int| 0 <= j < v@.len() ==> r@.contains(#[trigger] v@[j]),
{
    let ghost all = v@;
    let mut rest = v;
    let mut sorted: Vec<AdoptProposal> = Vec::new();
    let ghost mut k: int = 0;
    while rest.len() > 0
        invariant
            0 <= k <= all.len(),
            rest@ == all.skip(k),
            sorted@.len() == k,
            by_name(sorted@),
            forall|i: int| 0 <= i < sorted@.len() ==> all.contains(#[trigger] sorted@[i]),
            forall|i: int| 0 <= i < sorted@.len() ==> all.take(k).contains(#[trigger] sorted@[i]),
            forall|j: int| 0 <= j < k ==> sorted@.contains(#[trigger] all[j]),
            distinct_ids(all) ==> distinct_ids(sorted@),
        decreases rest@.len(),
    {
        let x = rest.remove(0);
        proof {
            assert(all.skip(k)[0] == all[k]);
            assert(rest@ =~= all.skip(k + 1));
        }
        let mut pos: usize = 0;
        while pos < sorted.len() && !str_lt(x.addon_info.name.as_str(), sorted[pos].addon_info.name.as_str())
            invariant
                0 <= pos <= sorted@.len(),
                forall|l: int| 0 <= l < pos ==> !lex_lt(x.addon_info.name@, (#[trigger] sorted@[l]).addon_info.name@),
            decreases sorted@.len() - pos,
        {
            pos += 1;
        }
        let ghost before = sorted@;
        proof {
            if pos < before.len() {
                assert(lex_lt(x.addon_info.name@, before[pos as int].addon_info.name@));
                assert forall|l: int| pos <= l < before.len() implies !lex_lt(
                    (#[trigger] before[l]).addon_info.name@,
                    x.addon_info.name@,
                ) by {
                    lemma_lex_basic(before[l].addon_info.name@, x.addon_info.name@);
                    lemma_lex_trans(before[l].addon_info.name@, x.addon_info.name@, before[pos as int].addon_info.name@);
                }
            }
        }
        sorted.insert(pos, x);
        proof {
            let after = sorted@;
            assert(after == before.insert(pos as int, x));
            assert forall|i: int, j: int| 0 <= i < j < after.len() implies !lex_lt(
                after[j].addon_info.name@,
                after[i].addon_info.name@,
            ) by {
                if j < pos {
                    assert(after[i] == before[i] && after[j] == before[j]);
                } else if j == pos {
                    assert(after[i] == before[i]);
                } else if i < pos {
                    assert(after[i] == before[i] && after[j] == before[j - 1]);
                    assert(!lex_lt(x.addon_info.name@, before[i].addon_info.name@));
                    assert(!lex_lt(before[j - 1].addon_info.name@, x.addon_info.name@));
                    if lex_lt(before[j - 1].addon_info.name@, before[i].addon_info.name@) {
                        lemma_lex_basic(x.addon_info.name@, before[i].addon_info.name@);
                        lemma_lex_trans(before[j - 1].addon_info.name@, before[i].addon_info.name@, x.addon_info.name@);
                    }
                } else if i == pos {
                    assert(after[j] == before[j - 1]);
                } else {
                    assert(after[j] == before[j - 1]);
                    assert(after[i] == before[i - 1]);
                }
            }
            assert forall|i: int| 0 <= i < after.len() implies all.contains(#[trigger] after[i]) by {
                if i < pos {
                    assert(after[i] == before[i]);
                } else if i == pos {
                    assert(all[k] == after[i]);
                } else {
                    assert(after[i] == before[i - 1]);
                }
            }
            assert forall|i: int| 0 <= i < after.len() implies all.take(k + 1).contains(#[trigger] after[i]) by {
                if i == pos {
                    assert(all.take(k + 1)[k] == after[i]);
                } else {
                    let b = if i < pos { i } else { i - 1 };
                    assert(after[i] == before[b]);
                    assert(all.take(k).contains(before[b]));
                    let c = choose|c: int| 0 <= c < k && all.take(k)[c] == before[b];
                    assert(all.take(k + 1)[c] == before[b]);
                }
            }
            if distinct_ids(all) {
                assert forall|i: int| 0 <= i < before.len() implies (#[trigger] before[i]).addon_info.id@
                    != x.addon_info.id@ by {
                    assert(all.take(k).contains(before[i]));
                    let c = choose|c: int| 0 <= c < k && all.take(k)[c] == before[i];
                    assert(all[c] == before[i]);
                    assert(all[k] == x);
                }
                assert forall|a: int, b: int| 0 <= a < b < after.len() implies after[a].addon_info.id@
                    != after[b].addon_info.id@ by {
                    let ia = if a < pos { a } else if a == pos { -1 } else { a - 1 };
                    let ib = if b < pos { b } else if b == pos { -1 } else { b - 1 };
                    if a == pos {
                        assert(after[b] == before[ib]);
                    } else if b == pos {
                        assert(after[a] == before[ia]);
                    } else {
                        assert(after[a] == before[ia] && after[b] == before[ib]);
                    }
                }
            }
            assert forall|j: int| 0 <= j < k + 1 implies after.contains(#[trigger] all[j]) by {
                if j == k {
                    assert(after[pos as int] == all[j]);
                } else {
                    assert(before.contains(all[j]));
                    let i0 = choose|i0: int| 0 <= i0 < before.len() && before[i0] == all[j];
                    if i0 < pos {
                        assert(after[i0] == all[j]);
                    } else {
                        assert(after[i0 + 1] == all[j]);
                    }
                }
            }
            k = k + 1;
        }
    }
    sorted
}

/// `p` is the merge of the proposals for one of their addon IDs.
pub open spec fn is_group_merge(p: AdoptProposal, ps: Seq<AdoptProposal>) -> bool {
    group_ids(ps).contains(p.addon_info.id@) && is_merged(p, ps, p.addon_info.id@)
}

/// Some proposal of `r` is the merge of the proposals for `g`.
pub open spec fn merge_listed(r: Seq<AdoptProposal>, ps: Seq<AdoptProposal>, g: Seq<char>) -> bool {
    exists|i: int| 0 <= i < r.len() && is_merged(#[trigger] r[i], ps, g)
}

/// Merges the proposals that share an addon ID and orders the result by
/// addon name (where names are equal, the order is left open).
pub fn merge_proposals(proposals: Vec<AdoptProposal>) -> (r: Vec<AdoptProposal>)
    ensures
        r@.len() == group_ids(proposals@).len(),
        by_name(r@),
        distinct_ids(r@),
        forall|i: int| 0 <= i < r@.len() ==> is_group_merge(#[trigger] r@[i], proposals@),
        forall|j: int|
            0 <= j < group_ids(proposals@).len() ==> #[trigger] merge_listed(r@, proposals@, group_ids(proposals@)[j]),
{
    let ghost ps = proposals@;
    let out = merge_by_id(proposals);
    let ghost m = out@;
    let r = sort_by_name(out);
    proof {
        let ids = group_ids(ps);
        assert forall|i: int| 0 <= i < r@.len() implies is_group_merge(#[trigger] r@[i], ps) by {
            assert(m.contains(r@[i]));
            let j = choose|j: int| 0 <= j < m.len() && m[j] == r@[i];
            assert(is_merged(m[j], ps, ids[j]));
            reveal(is_merged);
            assert(ids[j] == r@[i].addon_info.id@);
        }
        assert forall|j: int| 0 <= j < ids.len() implies #[trigger] merge_listed(r@, ps, ids[j]) by {
            assert(is_merged(m[j], ps, ids[j]));
            assert(r@.contains(m[j]));
            let i = choose|i: int| 0 <= i < r@.len() && r@[i] == m[j];
            assert(is_merged(r@[i], ps, ids[j]));
        }
    }
    r
}

/// The module sets of the proposals: each slug with its modules.
pub open spec fn module_views(ps: Seq<AdoptProposal>) -> Seq<(Seq<char>, Seq<Seq<char>>)> {
    ps.map_values(|p: AdoptProposal| (p.addon_info.slug@, views(p.modules@)))
}

/// The position of the first proposal, from `i` on, with slug `s`, or -1.
pub open spec fn slug_index(ps: Seq<AdoptProposal>, s: Seq<char>, i: int) -> int
    decreases ps.len() - i,
{
    if i < 0 || i >= ps.len() {
        -1
    } else if ps[i].addon_info.slug@ == s {
        i
    } else {
        slug_index(ps, s, i + 1)
    }
}

/// The claimed directories that go to the proposal at position `i`.
pub open spec fn claims_of(cl: Seq<(Seq<char>, Seq<char>)>, ps: Seq<AdoptProposal>, i: int) -> Seq<Seq<char>>
    decreases cl.len(),
{
    if cl.len() == 0 {
        Seq::empty()
    } else {
        let prev = claims_of(cl.drop_last(), ps, i);
        if slug_index(ps, cl.last().1, 0) == i {
            prev.push(cl.last().0)
        } else {
            prev
        }
    }
}

/// A proposal with more directories.
pub open spec fn with_dirs(m: ProposalModel, dirs: Seq<Seq<char>>) -> ProposalModel {
    ProposalModel { directories: dirs, ..m }
}

fn find_slug(ps: &Vec<AdoptProposal>, s: &String) -> (r: Option<usize>)
    ensures
        match r {
            Some(i) => i < ps@.len() && slug_index(ps@, s@, 0) == i,
            None => slug_index(ps@, s@, 0) == -1,
        },
{
    let mut i: usize = 0;
    while i < ps.len()
        invariant
            0 <= i <= ps.len(),
            slug_index(ps@, s@, i as int) == slug_index(ps@, s@, 0),
        decreases ps.len() - i,
    {
        if ps[i].addon_info.slug == *s {
            return Some(i);
        }
        i += 1;
    }
    None
}

/// Gives each unresolved directory that a proposal's release lists among
/// its modules to that proposal (the first whose modules list it), and
/// returns the directories that remain unresolved.
#[verifier::rlimit(40)]
pub fn claim_module_dirs(proposals: &mut Vec<AdoptProposal>, unresolved: Vec<String>) -> (r: Vec<String>)
    ensures
        final(proposals)@.len() == old(proposals)@.len(),
        forall|i: int|
            0 <= i < final(proposals)@.len() ==> (#[trigger] final(proposals)@[i]).model() == with_dirs(
                old(proposals)@[i].model(),
                add_new(
                    views(old(proposals)@[i].directories@),
                    claims_of(claimed(views(unresolved@), module_views(old(proposals)@)), old(proposals)@, i),
                ),
            ),
        views(r@) == views(unresolved@).filter(
            |d: Seq<char>|
                !claimed(views(unresolved@), module_views(old(proposals)@)).map_values(
                    |c: (Seq<char>, Seq<char>)| c.0,
                ).contains(d),
        ),
{
    let ghost orig = proposals@;
    let claims: Vec<(String, String)>;
    {
        let mut sets: Vec<(&str, &[String])> = Vec::new();
        let mut i: usize = 0;
        while i < proposals.len()
            invariant
                0 <= i <= proposals@.len(),
                proposals@ == orig,
                set_views(sets@) == module_views(orig).take(i as int),
            decreases proposals@.len() - i,
        {
            let ghost before = sets@;
            sets.push((proposals[i].addon_info.slug.as_str(), proposals[i].modules.as_slice()));
            assert(set_views(sets@) =~= set_views(before).push(module_views(orig)[i as int]));
            assert(module_views(orig).take(i + 1) =~= module_views(orig).take(i as int).push(module_views(orig)[i as int]));
            i += 1;
        }
        assert(module_views(orig).take(orig.len() as int) =~= module_views(orig));
        claims = find_dirs_claimed_by_modules(unresolved.as_slice(), sets.as_slice());
    }
    let ghost cl = claimed(views(unresolved@), module_views(orig));
    assert(pair_views(claims@) == cl);
    let mut k: usize = 0;
    while k < claims.len()
        invariant
            0 <= k <= claims@.len(),
            pair_views(claims@) == cl,
            proposals@.len() == orig.len(),
            forall|i: int|
                0 <= i < proposals@.len() ==> (#[trigger] proposals@[i]).model() == with_dirs(
                    orig[i].model(),
                    add_new(views(orig[i].directories@), claims_of(cl.take(k as int), orig, i)),
                ),
        decreases claims@.len() - k,
    {
        let ghost now = proposals@;
        let d = &claims[k].0;
        let s = &claims[k].1;
        proof {
            assert(cl[k as int] == (d@, s@));
            assert(cl.take(k + 1).drop_last() =~= cl.take(k as int));
            assert(cl.take(k + 1).last() == (d@, s@));
            assert forall|i: int| 0 <= i < now.len() implies #[trigger] now[i].addon_info.slug@ == orig[i].addon_info.slug@ by {
                assert(now[i].model().addon_info == orig[i].model().addon_info);
            }
            assert forall|i: int| #![trigger slug_index(now, s@, i)] 0 <= i <= now.len() implies slug_index(now, s@, i)
                == slug_index(orig, s@, i) by {
                lemma_slug_index_same(now, orig, s@, i);
            }
        }
        match find_slug(proposals, s) {
            Some(j) => {
                let mut e = proposals.remove(j);
                if !contains_string(e.directories.as_slice(), d) {
                    let ghost bd = e.directories@;
                    e.directories.push(d.clone());
                    assert(views(e.directories@) =~= views(bd).push(d@));
                }
                proposals.insert(j, e);
                proof {
                    assert(proposals@ =~= now.update(j as int, e));
                    assert forall|i: int| 0 <= i < proposals@.len() implies (#[trigger] proposals@[i]).model()
                        == with_dirs(orig[i].model(), add_new(views(orig[i].directories@), claims_of(cl.take(k + 1), orig, i))) by {
                        if i != j {
                            assert(proposals@[i] == now[i]);
                        } else {
                            assert(claims_of(cl.take(k + 1), orig, i) == claims_of(cl.take(k as int), orig, i).push(d@));
                            assert(claims_of(cl.take(k + 1), orig, i).drop_last() =~= claims_of(cl.take(k as int), orig, i));
                        }
                    }
                }
            },
            None => {
                proof {
                    assert forall|i: int| 0 <= i < proposals@.len() implies (#[trigger] proposals@[i]).model()
                        == with_dirs(orig[i].model(), add_new(views(orig[i].directories@), claims_of(cl.take(k + 1), orig, i))) by {
                        assert(claims_of(cl.take(k + 1), orig, i) == claims_of(cl.take(k as int), orig, i));
                    }
                }
            },
        }
        k += 1;
    }
    assert(cl.take(claims@.len() as int) =~= cl);
    let ghost keys = cl.map_values(|c: (Seq<char>, Seq<char>)| c.0);
    let ghost pred = |x: Seq<char>| !keys.contains(x);
    let mut r: Vec<String> = Vec::new();
    let mut i: usize = 0;
    while i < unresolved.len()
        invariant
            0 <= i <= unresolved@.len(),
            pair_views(claims@) == cl,
            keys == cl.map_values(|c: (Seq<char>, Seq<char>)| c.0),
            pred == (|x: Seq<char>| !keys.contains(x)),
            views(r@) == views(unresolved@).take(i as int).filter(pred),
        decreases unresolved@.len() - i,
    {
        let d = &unresolved[i];
        proof {
            assert(views(unresolved@).take(i + 1) =~= views(unresolved@).take(i as int).push(d@));
            views(unresolved@).take(i as int).lemma_filter_push(d@, pred);
        }
        if !is_claimed(&claims, d) {
            let ghost before = r@;
            r.push(d.clone());
            assert(views(r@) =~= views(before).push(d@));
        }
        i += 1;
    }
    assert(views(unresolved@).take(unresolved@.len() as int) =~= views(unresolved@));
    r
}

fn is_claimed(claims: &Vec<(String, String)>, d: &String) -> (r: bool)
    ensures
        r == pair_views(claims@).map_values(|c: (Seq<char>, Seq<char>)| c.0).contains(d@),
{
    let ghost keys = pair_views(claims@).map_values(|c: (Seq<char>, Seq<char>)| c.0);
    let mut i: usize = 0;
    while i < claims.len()
        invariant
            0 <= i <= claims@.len(),
            keys == pair_views(claims@).map_values(|c: (Seq<char>, Seq<char>)| c.0),
            forall|j: int| 0 <= j < i ==> claims@[j].0@ != d@,
        decreases claims@.len() - i,
    {
        if claims[i].0 == *d {
            assert(keys[i as int] == d@);
            return true;
        }
        i += 1;
    }
    assert forall|j: int| 0 <= j < keys.len() implies keys[j] != d@ by {
        assert(keys[j] == claims@[j].0@);
    }
    false
}

proof fn lemma_slug_index_same(a: Seq<AdoptProposal>, b: Seq<AdoptProposal>, s: Seq<char>, i: int)
    requires
        a.len() == b.len(),
        0 <= i <= a.len(),
        forall|j: int| 0 <= j < a.len() ==> #[trigger] a[j].addon_info.slug@ == b[j].addon_info.slug@,
    ensures
        slug_index(a, s, i) == slug_index(b, s, i),
    decreases a.len() - i,
{
    if i < a.len() {
        lemma_slug_index_same(a, b, s, i + 1);
    }
}

/// How a search result is offered for selection.
pub open spec fn choice_label(a: AddonInfo) -> Seq<char> {
    a.name@ + " ("@ + a.slug@ + ")"@
}

/// The labels of the first ten search results, offered for selection.
pub fn selection_labels(addons: &Vec<AddonInfo>) -> (r: Vec<String>)
    ensures
        r@.len() == if addons@.len() < 10 {
            addons@.len()
        } else {
            10
        },
        forall|i: int| 0 <= i < r@.len() ==> (#[trigger] r@[i])@ == choice_label(addons@[i]),
{
    let mut r: Vec<String> = Vec::new();
    let mut i: usize = 0;
    while i < addons.len() && i < 10
        invariant
            0 <= i <= addons@.len(),
            i <= 10,
            r@.len() == i,
            forall|j: int| 0 <= j < i ==> (#[trigger] r@[j])@ == choice_label(addons@[j]),
        decreases addons@.len() - i,
    {
        let mut label = concat3(addons[i].name.as_str(), " (", addons[i].slug.as_str());
        label.append(")");
        r.push(label);
        i += 1;
    }
    r
}

/// The directories `claimed` hands out all come from `dirs`.
proof fn lemma_claimed_from(dirs: Seq<Seq<char>>, sets: Seq<(Seq<char>, Seq<Seq<char>>)>)
    ensures
        forall|k: int| 0 <= k < claimed(dirs, sets).len() ==> dirs.contains(#[trigger] claimed(dirs, sets)[k].0),
    decreases dirs.len(),
{
    if dirs.len() > 0 {
        lemma_claimed_from(dirs.drop_last(), sets);
        let prev = claimed(dirs.drop_last(), sets);
        assert forall|k: int| 0 <= k < claimed(dirs, sets).len() implies dirs.contains(
            #[trigger] claimed(dirs, sets)[k].0,
        ) by {
            if k < prev.len() {
                assert(claimed(dirs, sets)[k] == prev[k]);
                let j = choose|j: int| 0 <= j < dirs.drop_last().len() && dirs.drop_last()[j] == prev[k].0;
                assert(dirs[j] == prev[k].0);
            } else {
                assert(claimed(dirs, sets)[k].0 == dirs.last());
                assert(dirs[dirs.len() - 1] == dirs.last());
            }
        }
    }
}

/// `claimed` hands each directory out once.
proof fn lemma_claimed_once(dirs: Seq<Seq<char>>, sets: Seq<(Seq<char>, Seq<Seq<char>>)>)
    ensures
        forall|a: int, b: int|
            0 <= a < b < claimed(dirs, sets).len() ==> #[trigger] claimed(dirs, sets)[a].0 != #[trigger] claimed(
                dirs,
                sets,
            )[b].0,
    decreases dirs.len(),
{
    if dirs.len() > 0 {
        lemma_claimed_once(dirs.drop_last(), sets);
        let prev = claimed(dirs.drop_last(), sets);
        let firsts = prev.map_values(|p: (Seq<char>, Seq<char>)| p.0);
        assert forall|a: int, b: int| 0 <= a < b < claimed(dirs, sets).len() implies #[trigger] claimed(dirs, sets)[a].0
            != #[trigger] claimed(dirs, sets)[b].0 by {
            if b >= prev.len() {
                assert(claimed(dirs, sets)[b].0 == dirs.last());
                assert(!firsts.contains(dirs.last()));
                assert(claimed(dirs, sets)[a] == prev[a]);
                assert(firsts[a] == prev[a].0);
            } else {
                assert(claimed(dirs, sets)[a] == prev[a] && claimed(dirs, sets)[b] == prev[b]);
            }
        }
    }
}

/// The directories given to proposal `i` are all claimed ones, claimed by
/// the slug of proposal `i`.
proof fn lemma_claims_of_from(cl: Seq<(Seq<char>, Seq<char>)>, ps: Seq<AdoptProposal>, i: int)
    ensures
        forall|d: Seq<char>| #[trigger] claims_of(cl, ps, i).contains(d) ==> exists|k: int|
            0 <= k < cl.len() && cl[k].0 == d && slug_index(ps, cl[k].1, 0) == i,
    decreases cl.len(),
{
    if cl.len() > 0 {
        lemma_claims_of_from(cl.drop_last(), ps, i);
        let prev = claims_of(cl.drop_last(), ps, i);
        assert forall|d: Seq<char>| #[trigger] claims_of(cl, ps, i).contains(d) implies exists|k: int|
            0 <= k < cl.len() && cl[k].0 == d && slug_index(ps, cl[k].1, 0) == i by {
            let s = claims_of(cl, ps, i);
            let j = choose|j: int| 0 <= j < s.len() && s[j] == d;
            if j < prev.len() {
                assert(prev[j] == d);
                assert(prev.contains(d));
                let k = choose|k: int| 0 <= k < cl.drop_last().len() && cl.drop_last()[k].0 == d && slug_index(
                    ps,
                    cl.drop_last()[k].1,
                    0,
                ) == i;
                assert(cl[k] == cl.drop_last()[k]);
            } else {
                assert(cl[cl.len() - 1] == cl.last());
                assert(cl[cl.len() - 1].0 == d);
                assert(slug_index(ps, cl[cl.len() - 1].1, 0) == i);
            }
        }
    }
}

/// A merged proposal's directories all come from proposals for its addon.
proof fn lemma_merged_dirs_from(ps: Seq<AdoptProposal>, g: Seq<char>)
    ensures
        forall|d: Seq<char>| #[trigger] merged_dirs(ps, g).contains(d) ==> exists|k: int|
            0 <= k < ps.len() && pid(ps[k]) == g && views(ps[k].directories@).contains(d),
    decreases ps.len(),
{
    if ps.len() > 0 {
        let init = ps.drop_last();
        lemma_merged_dirs_from(init, g);
        law_merged_dirs_distinct(init, g);
        assert forall|d: Seq<char>| #[trigger] merged_dirs(ps, g).contains(d) implies exists|k: int|
            0 <= k < ps.len() && pid(ps[k]) == g && views(ps[k].directories@).contains(d) by {
            if pid(ps.last()) == g {
                law_add_new_distinct(merged_dirs(init, g), views(ps.last().directories@));
            }
            if merged_dirs(init, g).contains(d) {
                let k = choose|k: int| 0 <= k < init.len() && pid(init[k]) == g && views(init[k].directories@).contains(d);
                assert(ps[k] == init[k]);
            } else {
                assert(ps[ps.len() - 1] == ps.last());
            }
        }
    }
}

/// Every addon proposed has its group.
proof fn lemma_group_ids_cover(ps: Seq<AdoptProposal>)
    ensures
        forall|k: int| 0 <= k < ps.len() ==> group_ids(ps).contains(#[trigger] pid(ps[k])),
    decreases ps.len(),
{
    if ps.len() > 0 {
        let init = ps.drop_last();
        lemma_group_ids_cover(init);
        assert forall|k: int| 0 <= k < ps.len() implies group_ids(ps).contains(#[trigger] pid(ps[k])) by {
            let prev = group_ids(init);
            if k < init.len() {
                assert(ps[k] == init[k]);
                let j = choose|j: int| 0 <= j < prev.len() && prev[j] == pid(init[k]);
                assert(group_ids(ps)[j] == prev[j]);
            } else if prev.contains(pid(ps.last())) {
            } else {
                assert(group_ids(ps)[prev.len() as int] == pid(ps.last()));
            }
        }
    }
}

/// The lookups found disjoint directories: proposals for different addons
/// share none, and none of them is among the unresolved ones.
pub open spec fn lookups_disjoint(ps: Seq<AdoptProposal>, un: Seq<Seq<char>>) -> bool {
    &&& forall|a: int, b: int, d: Seq<char>|
        0 <= a < ps.len() && 0 <= b < ps.len() && ps[a].addon_info.id@ != ps[b].addon_info.id@ && #[trigger] views(
            ps[a].directories@,
        ).contains(d) ==> !#[trigger] views(ps[b].directories@).contains(d)
    &&& forall|a: int, d: Seq<char>| 0 <= a < ps.len() && #[trigger] views(ps[a].directories@).contains(d) ==> !un.contains(d)
}

/// The adoptions `adopt --all` proposes, from what the lookups found: the
/// proposals merged per addon and ordered by name, with the unresolved
/// directories that a proposal's modules list given to it; and the
/// directories left unresolved. Each addon is proposed once, every addon
/// found is proposed, each proposal claims each directory once, and every
/// directory claimed comes from a lookup for that addon or from the
/// unresolved ones.
pub fn plan_adoptions(proposals: Vec<AdoptProposal>, unresolved: Vec<String>) -> (r: (
    Vec<AdoptProposal>,
    Vec<String>,
))
    ensures
        distinct_ids(r.0@),
        forall|k: int| 0 <= k < proposals@.len() ==> exists|i: int|
            0 <= i < r.0@.len() && (#[trigger] proposals@[k]).addon_info.id@ == r.0@[i].addon_info.id@,
        forall|i: int| 0 <= i < r.0@.len() ==> views((#[trigger] r.0@[i]).directories@).no_duplicates(),
        forall|i: int, d: Seq<char>|
            0 <= i < r.0@.len() && #[trigger] views(r.0@[i].directories@).contains(d) ==> views(unresolved@).contains(d)
                || exists|k: int|
                0 <= k < proposals@.len() && proposals@[k].addon_info.id@ == r.0@[i].addon_info.id@ && views(
                    proposals@[k].directories@,
                ).contains(d),
        forall|d: Seq<char>| #[trigger] views(r.1@).contains(d) ==> views(unresolved@).contains(d),
        lookups_disjoint(proposals@, views(unresolved@)) ==> forall|i: int, j: int, d: Seq<char>|
            0 <= i < r.0@.len() && 0 <= j < r.0@.len() && i != j && #[trigger] views(r.0@[i].directories@).contains(d)
                ==> !#[trigger] views(r.0@[j].directories@).contains(d),
{
    let ghost ps = proposals@;
    let mut merged = merge_proposals(proposals);
    let ghost m = merged@;
    let ghost un = views(unresolved@);
    let rest = claim_module_dirs(&mut merged, unresolved);
    proof {
        let cl = claimed(un, module_views(m));
        lemma_claimed_from(un, module_views(m));
        reveal(is_merged);
        assert forall|a: int, b: int| 0 <= a < b < merged@.len() implies merged@[a].addon_info.id@
            != merged@[b].addon_info.id@ by {
            assert(merged@[a].model() == with_dirs(m[a].model(), add_new(views(m[a].directories@), claims_of(cl, m, a))));
            assert(merged@[b].model() == with_dirs(m[b].model(), add_new(views(m[b].directories@), claims_of(cl, m, b))));
        }
        lemma_group_ids_cover(ps);
        assert forall|k: int| 0 <= k < ps.len() implies exists|i: int|
            0 <= i < merged@.len() && (#[trigger] ps[k]).addon_info.id@ == merged@[i].addon_info.id@ by {
            let g = pid(ps[k]);
            let j = choose|j: int| 0 <= j < group_ids(ps).len() && group_ids(ps)[j] == g;
            assert(merge_listed(m, ps, group_ids(ps)[j]));
            let i = choose|i: int| 0 <= i < m.len() && is_merged(#[trigger] m[i], ps, group_ids(ps)[j]);
            assert(merged@[i].model() == with_dirs(m[i].model(), add_new(views(m[i].directories@), claims_of(cl, m, i))));
        }
        assert forall|i: int| 0 <= i < merged@.len() implies views((#[trigger] merged@[i]).directories@).no_duplicates() by {
            assert(merged@[i].model() == with_dirs(m[i].model(), add_new(views(m[i].directories@), claims_of(cl, m, i))));
            assert(is_group_merge(m[i], ps));
            law_merged_dirs_distinct(ps, m[i].addon_info.id@);
            law_add_new_distinct(views(m[i].directories@), claims_of(cl, m, i));
        }
        assert forall|i: int, d: Seq<char>|
            0 <= i < merged@.len() && #[trigger] views(merged@[i].directories@).contains(d) implies un.contains(d)
                || exists|k: int|
                0 <= k < ps.len() && ps[k].addon_info.id@ == merged@[i].addon_info.id@ && views(ps[k].directories@).contains(
                    d,
                ) by {
            let g = m[i].addon_info.id@;
            assert(merged@[i].model() == with_dirs(m[i].model(), add_new(views(m[i].directories@), claims_of(cl, m, i))));
            assert(is_group_merge(m[i], ps));
            law_merged_dirs_distinct(ps, g);
            law_add_new_distinct(views(m[i].directories@), claims_of(cl, m, i));
            lemma_merged_dirs_from(ps, g);
            lemma_claims_of_from(cl, m, i);
            if claims_of(cl, m, i).contains(d) {
                let k = choose|k: int| 0 <= k < cl.len() && cl[k].0 == d;
                assert(un.contains(cl[k].0));
            } else {
                assert(merged_dirs(ps, g).contains(d));
            }
        }
        lemma_claimed_once(un, module_views(m));
        if lookups_disjoint(ps, un) {
            assert forall|i: int, j: int, d: Seq<char>|
                0 <= i < merged@.len() && 0 <= j < merged@.len() && i != j && #[trigger] views(
                    merged@[i].directories@,
                ).contains(d) implies !#[trigger] views(merged@[j].directories@).contains(d) by {
                let gi = m[i].addon_info.id@;
                let gj = m[j].addon_info.id@;
                assert(merged@[i].model() == with_dirs(m[i].model(), add_new(views(m[i].directories@), claims_of(cl, m, i))));
                assert(merged@[j].model() == with_dirs(m[j].model(), add_new(views(m[j].directories@), claims_of(cl, m, j))));
                assert(is_group_merge(m[i], ps) && is_group_merge(m[j], ps));
                assert(gi != gj);
                law_merged_dirs_distinct(ps, gi);
                law_merged_dirs_distinct(ps, gj);
                law_add_new_distinct(views(m[i].directories@), claims_of(cl, m, i));
                law_add_new_distinct(views(m[j].directories@), claims_of(cl, m, j));
                lemma_merged_dirs_from(ps, gi);
                lemma_merged_dirs_from(ps, gj);
                lemma_claims_of_from(cl, m, i);
                lemma_claims_of_from(cl, m, j);
                if views(merged@[j].directories@).contains(d) {
                    if merged_dirs(ps, gi).contains(d) {
                        let a = choose|a: int| 0 <= a < ps.len() && pid(ps[a]) == gi && views(ps[a].directories@).contains(d);
                        if merged_dirs(ps, gj).contains(d) {
                            let b = choose|b: int| 0 <= b < ps.len() && pid(ps[b]) == gj && views(ps[b].directories@).contains(d);
                            assert(!views(ps[b].directories@).contains(d));
                        } else {
                            assert(claims_of(cl, m, j).contains(d));
                            let k = choose|k: int| 0 <= k < cl.len() && cl[k].0 == d && slug_index(m, cl[k].1, 0) == j;
                            assert(un.contains(cl[k].0));
                        }
                    } else {
                        assert(claims_of(cl, m, i).contains(d));
                        let k1 = choose|k: int| 0 <= k < cl.len() && cl[k].0 == d && slug_index(m, cl[k].1, 0) == i;
                        assert(un.contains(cl[k1].0));
                        if merged_dirs(ps, gj).contains(d) {
                            let b = choose|b: int| 0 <= b < ps.len() && pid(ps[b]) == gj && views(ps[b].directories@).contains(d);
                        } else {
                            assert(claims_of(cl, m, j).contains(d));
                            let k2 = choose|k: int| 0 <= k < cl.len() && cl[k].0 == d && slug_index(m, cl[k].1, 0) == j;
                            assert(k1 != k2);
                            if k1 < k2 {
                                assert(cl[k1].0 != cl[k2].0);
                            } else {
                                assert(cl[k2].0 != cl[k1].0);
                            }
                        }
                    }
                }
            }
        }
        assert forall|d: Seq<char>| #[trigger] views(rest@).contains(d) implies un.contains(d) by {
            let j = choose|j: int| 0 <= j < views(rest@).len() && views(rest@)[j] == d;
            let f = un.filter(
                |x: Seq<char>| !cl.map_values(|c: (Seq<char>, Seq<char>)| c.0).contains(x),
            );
            assert(views(rest@) == f);
            assert(f.contains(d));
            un.lemma_filter_contains_rev(|x: Seq<char>| !cl.map_values(|c: (Seq<char>, Seq<char>)| c.0).contains(x), d);
        }
    }
    (merged, rest)
}

} // verus!
