//! Decisions behind addon directory management.
//!
//! The file system is read by the caller; these functions take what it
//! found (names, flags, sizes) and decide.

use vstd::prelude::*;
use vstd::string::StringExecFns;
use crate::addon::{flavor_suffix, GameFlavor};
use crate::error::WowctlError;
use crate::registry::Registry;
use crate::sources::{find_segment_end, lemma_segment_end, segment_end};
use crate::text::{
    find_from, find_seq, lemma_find_from_bounds, string_of_range,
    after_last, chars_of, concat3, contains_seq, contains_str, contains_string, dec_digits, decimal,
    eq_ignore_ascii_case, last_segment, range_eq_ignore_case, views,
};

verus! {

broadcast use vstd::string::group_string_axioms;

pub open spec fn curseforge_addons_marker() -> Seq<char> {
    "curseforge.com/wow/addons/"@
}

pub open spec fn invalid_url_message(url: Seq<char>) -> Seq<char> {
    "Invalid CurseForge URL: "@ + url
}

/// The slug a CurseForge addon URL names: the text right after the first
/// `curseforge.com/wow/addons/`, up to the first `/`, `?` or `#` (or the
/// end); `None` when the URL holds no such marker.
pub open spec fn curseforge_url_slug(url: Seq<char>) -> Option<Seq<char>> {
    match find_from(url, curseforge_addons_marker(), 0) {
        None => None,
        Some(i) => {
            let a = i + curseforge_addons_marker().len();
            Some(url.subrange(a, segment_end(url, a)))
        },
    }
}

/// Extracts the addon slug from a CurseForge URL: the path segment after
/// `curseforge.com/wow/addons/`, without a trailing `/`, query or fragment.
pub fn extract_slug_from_url(url: &str) -> (r: Result<String, WowctlError>)
    ensures
        r is Ok <==> contains_seq(url@, curseforge_addons_marker()),
        curseforge_url_slug(url@) matches Some(s) ==> (r matches Ok(slug) && slug@ == s),
        !contains_seq(url@, curseforge_addons_marker()) ==> (r matches Err(WowctlError::Source(m)) && m@
            == invalid_url_message(url@)),
{
    proof {
        reveal_strlit("curseforge.com/wow/addons/");
    }
    let v = chars_of(url);
    let m = chars_of("curseforge.com/wow/addons/");
    let ghost marker = curseforge_addons_marker();
    let found = find_seq(&v, &m, 0);
    proof {
        lemma_find_from_bounds(v@, m@, 0);
    }
    match found {
        Some(i) => {
            let a = i + m.len();
            let e = find_segment_end(&v, a);
            proof {
                lemma_segment_end(v@, a as int);
                assert(v@.subrange(i as int, i + marker.len()) == marker);
            }
            Ok(string_of_range(&v, a, e))
        },
        None => {
            proof {
                reveal_strlit("");
                if contains_seq(url@, marker) {
                    let k = choose|k: int| 0 <= k <= url@.len() - marker.len() && #[trigger] url@.subrange(k, k + marker.len()) == marker;
                    assert(url@.subrange(k, k + marker.len()) == marker);
                }
            }
            Err(WowctlError::Source(concat3("Invalid CurseForge URL: ", url, "")))
        },
    }
}

pub open spec fn missing_dir_message(path: Seq<char>) -> Seq<char> {
    "Directory does not exist: "@ + path
}

pub open spec fn not_a_dir_message(path: Seq<char>) -> Seq<char> {
    "Path is not a directory: "@ + path
}

/// Validates that a path exists and is a directory, from what the file
/// system reported of it.
pub fn validate_addon_dir(path: &str, exists: bool, is_dir: bool) -> (r: Result<(), WowctlError>)
    ensures
        exists && is_dir ==> r is Ok,
        !exists ==> (r matches Err(WowctlError::InvalidAddonDir(m)) && m@ == missing_dir_message(path@)),
        exists && !is_dir ==> (r matches Err(WowctlError::InvalidAddonDir(m)) && m@ == not_a_dir_message(path@)),
{
    proof {
        reveal_strlit("");
    }
    if !exists {
        return Err(WowctlError::InvalidAddonDir(concat3("Directory does not exist: ", path, "")));
    }
    if !is_dir {
        return Err(WowctlError::InvalidAddonDir(concat3("Path is not a directory: ", path, "")));
    }
    Ok(())
}

/// Whether colored output should be used: never with the `--no-color`
/// flag or with `NO_COLOR` set in the environment, else as configured.
pub fn should_use_color(config_color: bool, no_color_flag: bool, no_color_env: bool) -> (r: bool)
    ensures
        r == (config_color && !no_color_flag && !no_color_env),
{
    if no_color_flag {
        return false;
    }
    if no_color_env {
        return false;
    }
    config_color
}

/// Whether `k` is the slug of the addon being installed.
pub open spec fn is_current(k: Seq<char>, current: Option<&str>) -> bool {
    current matches Some(c) && c@ == k
}

/// `k` is a registered addon that lists `dir` among its directories.
pub open spec fn owns(reg: Registry, k: Seq<char>, dir: Seq<char>) -> bool {
    reg@.contains_key(k) && views(reg@[k].directories@).contains(dir)
}

pub open spec fn conflict_message(dir: Seq<char>, owner_name: Seq<char>) -> Seq<char> {
    "Directory '"@ + dir + "' is already owned by addon '"@ + owner_name + "'"@
}

/// `dir` raises no conflict: whoever owns it, the addon being installed
/// owns it too (so with one owner per directory: no owner, or that addon).
pub open spec fn settled(reg: Registry, dir: Seq<char>, current: Option<&str>) -> bool {
    forall|k: Seq<char>| #[trigger] owns(reg, k, dir) ==> exists|c: Seq<char>| owns(reg, c, dir) && is_current(c, current)
}

/// Checks if any of the directories are already owned by another addon;
/// the error names the first such directory, in the order given. Where
/// several addons own one directory, which of them is found is left open.
pub fn check_directory_conflicts(
    registry: &Registry,
    directories: &[String],
    current_addon_slug: Option<&str>,
) -> (r: Result<(), WowctlError>)
    requires
        registry.wf(),
    ensures
        (forall|i: int, k: Seq<char>|
            0 <= i < directories.len() && #[trigger] owns(*registry, k, directories@[i]@) ==> is_current(
                k,
                current_addon_slug,
            )) ==> r is Ok,
        r is Ok ==> forall|i: int|
            0 <= i < directories.len() ==> #[trigger] settled(*registry, directories@[i]@, current_addon_slug),
        r matches Err(e) ==> exists|i: int, k: Seq<char>|
            0 <= i < directories.len() && #[trigger] owns(*registry, k, directories@[i]@) && !is_current(
                k,
                current_addon_slug,
            ) && (e matches WowctlError::Source(m) && m@ == conflict_message(directories@[i]@, registry@[k].name@))
                && forall|j: int| 0 <= j < i ==> #[trigger] settled(*registry, directories@[j]@, current_addon_slug),
{
    let mut i: usize = 0;
    while i < directories.len()
        invariant
            0 <= i <= directories.len(),
            registry.wf(),
            forall|j: int| 0 <= j < i ==> #[trigger] settled(*registry, directories@[j]@, current_addon_slug),
        decreases directories.len() - i,
    {
        let dir = &directories[i];
        match registry.find_by_directory(dir.as_str()) {
            Some(existing) => {
                let mine = match current_addon_slug {
                    Some(c) => existing.slug == String::from_str(c),
                    None => false,
                };
                proof {
                    assert(owns(*registry, existing.slug@, directories@[i as int]@));
                }
                if !mine {
                    let mut m = String::from_str("Directory '");
                    m.append(dir.as_str());
                    m.append("' is already owned by addon '");
                    m.append(existing.name.as_str());
                    m.append("'");
                    proof {
                        assert(owns(*registry, existing.slug@, directories@[i as int]@));
                        assert(!is_current(existing.slug@, current_addon_slug));
                        assert(m@ =~= conflict_message(directories@[i as int]@, registry@[existing.slug@].name@));
                    }
                    return Err(WowctlError::Source(m));
                }
                proof {
                    assert(is_current(existing.slug@, current_addon_slug));
                    assert forall|k: Seq<char>| #[trigger] owns(*registry, k, directories@[i as int]@) implies exists|
                        c: Seq<char>,
                    | owns(*registry, c, directories@[i as int]@) && is_current(c, current_addon_slug) by {
                        assert(owns(*registry, existing.slug@, directories@[i as int]@));
                    }
                    assert(settled(*registry, directories@[i as int]@, current_addon_slug));
                }
            },
            None => {
                proof {
                    assert forall|k: Seq<char>| #[trigger] owns(*registry, k, directories@[i as int]@) implies exists|
                        c: Seq<char>,
                    | owns(*registry, c, directories@[i as int]@) && is_current(c, current_addon_slug) by {
                        assert(registry@.contains_key(k));
                    }
                    assert(settled(*registry, directories@[i as int]@, current_addon_slug));
                }
            },
        }
        i += 1;
    }
    Ok(())
}

/// The first module set, from position `j` on, that lists `dir`; its slug.
pub open spec fn claim_from(dir: Seq<char>, sets: Seq<(Seq<char>, Seq<Seq<char>>)>, j: int) -> Option<Seq<char>>
    decreases sets.len() - j,
{
    if j < 0 || j >= sets.len() {
        None
    } else if sets[j].1.contains(dir) {
        Some(sets[j].0)
    } else {
        claim_from(dir, sets, j + 1)
    }
}

/// The directories of `dirs` that a module set claims, each once, in the
/// order of their first appearance, with the slug of the first set that
/// lists it.
pub open spec fn claimed(dirs: Seq<Seq<char>>, sets: Seq<(Seq<char>, Seq<Seq<char>>)>) -> Seq<(Seq<char>, Seq<char>)>
    decreases dirs.len(),
{
    if dirs.len() == 0 {
        Seq::empty()
    } else {
        let prev = claimed(dirs.drop_last(), sets);
        let d = dirs.last();
        if prev.map_values(|p: (Seq<char>, Seq<char>)| p.0).contains(d) {
            prev
        } else {
            match claim_from(d, sets, 0) {
                Some(slug) => prev.push((d, slug)),
                None => prev,
            }
        }
    }
}

/// Module sets by the text of their slugs and directory names.
pub open spec fn set_views(sets: Seq<(&str, &[String])>) -> Seq<(Seq<char>, Seq<Seq<char>>)> {
    sets.map_values(|s: (&str, &[String])| (s.0@, views(s.1@)))
}

pub open spec fn pair_views(v: Seq<(String, String)>) -> Seq<(Seq<char>, Seq<char>)> {
    v.map_values(|p: (String, String)| (p.0@, p.1@))
}

fn first_claim(dir: &String, sets: &[(&str, &[String])]) -> (r: Option<String>)
    ensures
        match r {
            Some(s) => claim_from(dir@, set_views(sets@), 0) == Some(s@),
            None => claim_from(dir@, set_views(sets@), 0) is None,
        },
{
    let mut j: usize = 0;
    while j < sets.len()
        invariant
            0 <= j <= sets.len(),
            claim_from(dir@, set_views(sets@), j as int) == claim_from(dir@, set_views(sets@), 0),
        decreases sets.len() - j,
    {
        let (slug, modules) = sets[j];
        assert(set_views(sets@)[j as int] == (slug@, views(modules@)));
        if contains_string(modules, dir) {
            return Some(String::from_str(slug));
        }
        j += 1;
    }
    None
}

fn has_claim(v: &Vec<(String, String)>, dir: &String) -> (r: bool)
    ensures
        r == pair_views(v@).map_values(|p: (Seq<char>, Seq<char>)| p.0).contains(dir@),
{
    let ghost keys = pair_views(v@).map_values(|p: (Seq<char>, Seq<char>)| p.0);
    let mut i: usize = 0;
    while i < v.len()
        invariant
            0 <= i <= v.len(),
            keys == pair_views(v@).map_values(|p: (Seq<char>, Seq<char>)| p.0),
            forall|j: int| 0 <= j < i ==> v@[j].0@ != dir@,
        decreases v.len() - i,
    {
        if v[i].0 == *dir {
            assert(keys[i as int] == dir@);
            return true;
        }
        i += 1;
    }
    assert forall|j: int| 0 <= j < keys.len() implies keys[j] != dir@ by {
        assert(keys[j] == v@[j].0@);
    }
    false
}

/// Identifies unmanaged directories that are child modules of known
/// addons: for each such directory, the slug of the first addon whose
/// module list names it.
pub fn find_dirs_claimed_by_modules(unmanaged: &[String], module_sets: &[(&str, &[String])]) -> (r: Vec<(String, String)>)
    ensures
        pair_views(r@) == claimed(views(unmanaged@), set_views(module_sets@)),
{
    let mut r: Vec<(String, String)> = Vec::new();
    let mut i: usize = 0;
    while i < unmanaged.len()
        invariant
            0 <= i <= unmanaged.len(),
            pair_views(r@) == claimed(views(unmanaged@).take(i as int), set_views(module_sets@)),
        decreases unmanaged.len() - i,
    {
        let dir = &unmanaged[i];
        let ghost pre = views(unmanaged@).take(i as int);
        proof {
            let cur = views(unmanaged@).take(i + 1);
            assert(cur.drop_last() =~= pre);
            assert(cur.last() == dir@);
        }
        if !has_claim(&r, dir) {
            match first_claim(dir, module_sets) {
                Some(slug) => {
                    let ghost before = r@;
                    r.push((dir.clone(), slug));
                    proof {
                        assert(pair_views(r@) =~= pair_views(before).push((dir@, slug@)));
                    }
                },
                None => {},
            }
        }
        i += 1;
    }
    assert(views(unmanaged@).take(unmanaged.len() as int) =~= views(unmanaged@));
    r
}

/// Position of the group keyed `pid`, or -1.
pub open spec fn group_index(g: Seq<(Seq<char>, Seq<Seq<char>>)>, pid: Seq<char>) -> int
    decreases g.len(),
{
    if g.len() == 0 {
        -1
    } else if group_index(g.drop_last(), pid) >= 0 {
        group_index(g.drop_last(), pid)
    } else if g.last().0 == pid {
        g.len() - 1
    } else {
        -1
    }
}

/// Directories grouped by project ID (groups in order of first
/// appearance, members in order), and the directories without one.
pub open spec fn grouped(dirs: Seq<Seq<char>>, ids: Seq<Option<Seq<char>>>) -> (
    Seq<(Seq<char>, Seq<Seq<char>>)>,
    Seq<Seq<char>>,
)
    decreases dirs.len(),
{
    if dirs.len() == 0 || ids.len() < dirs.len() {
        (Seq::empty(), Seq::empty())
    } else {
        let n = dirs.len() - 1;
        let prev = grouped(dirs.drop_last(), ids.take(n));
        let d = dirs.last();
        match ids[n] {
            None => (prev.0, prev.1.push(d)),
            Some(pid) => {
                let k = group_index(prev.0, pid);
                if k >= 0 {
                    (prev.0.update(k, (pid, prev.0[k].1.push(d))), prev.1)
                } else {
                    (prev.0.push((pid, seq![d])), prev.1)
                }
            },
        }
    }
}

pub open spec fn group_views(v: Seq<(String, Vec<String>)>) -> Seq<(Seq<char>, Seq<Seq<char>>)> {
    v.map_values(|p: (String, Vec<String>)| (p.0@, views(p.1@)))
}

pub open spec fn opt_views(v: Seq<Option<String>>) -> Seq<Option<Seq<char>>> {
    v.map_values(
        |o: Option<String>|
            match o {
                Some(s) => Some(s@),
                None => None,
            },
    )
}

fn find_group(g: &Vec<(String, Vec<String>)>, pid: &String) -> (r: Option<usize>)
    ensures
        match r {
            Some(k) => k < g.len() && group_index(group_views(g@), pid@) == k,
            None => group_index(group_views(g@), pid@) == -1,
        },
{
    let ghost gv = group_views(g@);
    let mut i: usize = 0;
    while i < g.len()
        invariant
            0 <= i <= g.len(),
            gv == group_views(g@),
            group_index(gv.take(i as int), pid@) == -1,
        decreases g.len() - i,
    {
        proof {
            assert(gv.take(i + 1).drop_last() =~= gv.take(i as int));
            assert(gv.take(i + 1).last() == gv[i as int]);
        }
        if g[i].0 == *pid {
            proof {
                lemma_group_index_prefix(gv, pid@, i + 1);
            }
            return Some(i);
        }
        i += 1;
    }
    assert(gv.take(g.len() as int) =~= gv);
    None
}

/// The position found holds the key looked for.
proof fn lemma_group_index(g: Seq<(Seq<char>, Seq<Seq<char>>)>, pid: Seq<char>)
    ensures
        -1 <= group_index(g, pid) < g.len(),
        group_index(g, pid) >= 0 ==> g[group_index(g, pid)].0 == pid,
    decreases g.len(),
{
    if g.len() > 0 {
        lemma_group_index(g.drop_last(), pid);
        if group_index(g.drop_last(), pid) >= 0 {
            assert(g.drop_last()[group_index(g.drop_last(), pid)] == g[group_index(g.drop_last(), pid)]);
        }
    }
}

/// Once the group is found in a prefix, the whole sequence finds it there.
proof fn lemma_group_index_prefix(g: Seq<(Seq<char>, Seq<Seq<char>>)>, pid: Seq<char>, n: int)
    requires
        0 <= n <= g.len(),
        group_index(g.take(n), pid) >= 0,
    ensures
        group_index(g, pid) == group_index(g.take(n), pid),
    decreases g.len() - n,
{
    if n < g.len() {
        assert(g.take(n + 1).drop_last() =~= g.take(n));
        lemma_group_index_prefix(g, pid, n + 1);
    } else {
        assert(g.take(n) =~= g);
    }
}

/// Groups directories by the CurseForge project ID their `.toc` metadata
/// gives (`project_ids[i]` for `dirs[i]`). Returns (grouped_by_id,
/// dirs_without_id).
pub fn group_dirs_by_project_id(dirs: &[String], project_ids: &[Option<String>]) -> (r: (
    Vec<(String, Vec<String>)>,
    Vec<String>,
))
    requires
        dirs.len() == project_ids.len(),
    ensures
        (group_views(r.0@), views(r.1@)) == grouped(views(dirs@), opt_views(project_ids@)),
{
    let mut groups: Vec<(String, Vec<String>)> = Vec::new();
    let mut no_id: Vec<String> = Vec::new();
    let mut i: usize = 0;
    while i < dirs.len()
        invariant
            0 <= i <= dirs.len() == project_ids.len(),
            (group_views(groups@), views(no_id@)) == grouped(
                views(dirs@).take(i as int),
                opt_views(project_ids@).take(i as int),
            ),
        decreases dirs.len() - i,
    {
        let dir = &dirs[i];
        let ghost prev = grouped(views(dirs@).take(i as int), opt_views(project_ids@).take(i as int));
        proof {
            let cd = views(dirs@).take(i + 1);
            let ci = opt_views(project_ids@).take(i + 1);
            assert(cd.drop_last() =~= views(dirs@).take(i as int));
            assert(ci.take(i as int) =~= opt_views(project_ids@).take(i as int));
            assert(cd.last() == dir@);
            assert(ci[i as int] == opt_views(project_ids@)[i as int]);
        }
        match &project_ids[i] {
            None => {
                let ghost before = no_id@;
                no_id.push(dir.clone());
                proof {
                    assert(views(no_id@) =~= views(before).push(dir@));
                }
            },
            Some(pid) => {
                let ghost before = groups@;
                match find_group(&groups, pid) {
                    Some(k) => {
                        proof {
                            lemma_group_index(group_views(groups@), pid@);
                        }
                        let (key, mut members) = groups.remove(k);
                        let ghost old_members = members@;
                        members.push(dir.clone());
                        groups.insert(k, (key, members));
                        proof {
                            assert(views(members@) =~= views(old_members).push(dir@));
                            assert(key@ == pid@);
                            assert(groups@ =~= before.update(k as int, (key, members)));
                            assert(group_views(groups@) =~= group_views(before).update(
                                k as int,
                                (pid@, group_views(before)[k as int].1.push(dir@)),
                            ));
                        }
                    },
                    None => {
                        let mut members: Vec<String> = Vec::new();
                        members.push(dir.clone());
                        groups.push((pid.clone(), members));
                        proof {
                            assert(views(members@) =~= seq![dir@]);
                            assert(group_views(groups@) =~= group_views(before).push((pid@, seq![dir@])));
                        }
                    },
                }
            },
        }
        i += 1;
    }
    assert(views(dirs@).take(dirs.len() as int) =~= views(dirs@));
    assert(opt_views(project_ids@).take(dirs.len() as int) =~= opt_views(project_ids@));
    (groups, no_id)
}

/// A file name whose extension (the text after its last `.`, where that
/// `.` is not the first character) is `toc`, in any case.
pub open spec fn toc_extension(name: Seq<char>) -> bool {
    let e = last_segment(name, '.');
    e.len() + 1 < name.len() && eq_ignore_ascii_case(e, "toc"@)
}

/// Whether a file name has the `.toc` extension, in any letter case.
pub fn is_toc_file_name(name: &str) -> (r: bool)
    ensures
        r == toc_extension(name@),
{
    proof {
        reveal_strlit("toc");
    }
    let e = after_last(name, '.');
    let ev = chars_of(e.as_str());
    let nv = chars_of(name);
    if nv.len() == 0 || ev.len() >= nv.len() - 1 {
        return false;
    }
    let toc = chars_of("toc");
    let r = range_eq_ignore_case(&ev, 0, ev.len(), &toc);
    assert(ev@.subrange(0, ev@.len() as int) =~= ev@);
    r
}

/// The positions of the `.toc` files among `names`, in order.
pub open spec fn toc_positions(names: Seq<Seq<char>>) -> Seq<int>
    decreases names.len(),
{
    if names.len() == 0 {
        Seq::empty()
    } else {
        let prev = toc_positions(names.drop_last());
        if toc_extension(names.last()) {
            prev.push(names.len() - 1)
        } else {
            prev
        }
    }
}

/// The first of the positions `pos[k..]` whose name is `target`, ignoring
/// ASCII case.
pub open spec fn first_named(names: Seq<Seq<char>>, pos: Seq<int>, target: Seq<char>, k: int) -> Option<int>
    decreases pos.len() - k,
{
    if k < 0 || k >= pos.len() {
        None
    } else if eq_ignore_ascii_case(names[pos[k]], target) {
        Some(pos[k])
    } else {
        first_named(names, pos, target, k + 1)
    }
}

/// The `.toc` file to read: `{folder}{flavor suffix}.toc`, else
/// `{folder}.toc`, else the first `.toc` file, names compared ignoring
/// ASCII case.
pub open spec fn toc_choice(names: Seq<Seq<char>>, folder: Seq<char>, flavor: GameFlavor) -> Option<int> {
    let pos = toc_positions(names);
    match first_named(names, pos, folder + flavor_suffix(flavor) + ".toc"@, 0) {
        Some(i) => Some(i),
        None => match first_named(names, pos, folder + ".toc"@, 0) {
            Some(i) => Some(i),
            None => if pos.len() > 0 {
                Some(pos[0])
            } else {
                None
            },
        },
    }
}

fn toc_positions_of(names: &[String]) -> (r: Vec<usize>)
    ensures
        r@.map_values(|p: usize| p as int) == toc_positions(views(names@)),
        forall|k: int| 0 <= k < r.len() ==> #[trigger] r@[k] < names.len(),
{
    let mut r: Vec<usize> = Vec::new();
    let mut i: usize = 0;
    while i < names.len()
        invariant
            0 <= i <= names.len(),
            r@.map_values(|p: usize| p as int) == toc_positions(views(names@).take(i as int)),
            forall|k: int| 0 <= k < r.len() ==> #[trigger] r@[k] < i,
        decreases names.len() - i,
    {
        proof {
            let cur = views(names@).take(i + 1);
            assert(cur.drop_last() =~= views(names@).take(i as int));
            assert(cur.last() == names@[i as int]@);
        }
        if is_toc_file_name(names[i].as_str()) {
            let ghost before = r@;
            r.push(i);
            proof {
                assert(r@.map_values(|p: usize| p as int) =~= before.map_values(|p: usize| p as int).push(i as int));
            }
        }
        i += 1;
    }
    assert(views(names@).take(names.len() as int) =~= views(names@));
    r
}

fn first_named_of(names: &[String], pos: &Vec<usize>, target: &String) -> (r: Option<usize>)
    requires
        forall|k: int| 0 <= k < pos.len() ==> #[trigger] pos@[k] < names.len(),
    ensures
        match r {
            Some(i) => first_named(views(names@), pos@.map_values(|p: usize| p as int), target@, 0) == Some(
                i as int,
            ),
            None => first_named(views(names@), pos@.map_values(|p: usize| p as int), target@, 0) is None,
        },
{
    let ghost ps = pos@.map_values(|p: usize| p as int);
    let tv = chars_of(target.as_str());
    let mut k: usize = 0;
    while k < pos.len()
        invariant
            0 <= k <= pos.len(),
            ps == pos@.map_values(|p: usize| p as int),
            tv@ == target@,
            forall|j: int| 0 <= j < pos.len() ==> #[trigger] pos@[j] < names.len(),
            first_named(views(names@), ps, target@, k as int) == first_named(views(names@), ps, target@, 0),
        decreases pos.len() - k,
    {
        let nv = chars_of(names[pos[k]].as_str());
        assert(nv@.subrange(0, nv@.len() as int) =~= nv@);
        assert(views(names@)[ps[k as int]] == nv@);
        if range_eq_ignore_case(&nv, 0, nv.len(), &tv) {
            return Some(pos[k]);
        }
        k += 1;
    }
    None
}

/// Selects the best `.toc` file among the entries of an addon directory
/// for the given game flavor; its position in `names`.
///
/// Preference order:
/// 1. `{FolderName}{flavor_suffix}.toc` (e.g., `MyAddon_Mainline.toc` for Retail)
/// 2. `{FolderName}.toc` (base TOC)
/// 3. Any `.toc` file (fallback for non-standard naming)
pub fn select_toc_file(names: &[String], folder_name: &str, flavor: GameFlavor) -> (r: Option<usize>)
    ensures
        match r {
            Some(i) => toc_choice(views(names@), folder_name@, flavor) == Some(i as int),
            None => toc_choice(views(names@), folder_name@, flavor) is None,
        },
{
    let pos = toc_positions_of(names);
    let flavored = concat3(folder_name, flavor.toc_suffix(), ".toc");
    if let Some(i) = first_named_of(names, &pos, &flavored) {
        return Some(i);
    }
    proof {
        reveal_strlit("");
    }
    let base = concat3(folder_name, ".toc", "");
    assert(base@ =~= folder_name@ + ".toc"@);
    if let Some(i) = first_named_of(names, &pos, &base) {
        return Some(i);
    }
    if pos.len() > 0 {
        Some(pos[0])
    } else {
        None
    }
}

/// Whether any entry of a directory is a `.toc` file.
pub fn has_toc_file(names: &[String]) -> (r: bool)
    ensures
        r == (toc_positions(views(names@)).len() > 0),
{
    let pos = toc_positions_of(names);
    pos.len() > 0
}

/// Room kept free beyond what an operation needs: 100 MiB.
pub const SAFETY_MARGIN: u64 = 104857600;

pub const MIB: u64 = 1048576;

/// How the free space compares with what is needed.
#[derive(Debug, Clone, Copy, PartialEq, Eq, Structural)]
pub enum SpaceCheck {
    /// At least twice what is needed is free.
    Ample,
    /// Enough, but less than twice what is needed, is free (in MiB).
    Low { available_mb: u64, needed_mb: u64 },
}

pub open spec fn insufficient_space_message(available_mb: nat, needed_mb: nat) -> Seq<char> {
    "Insufficient disk space: "@ + dec_digits(available_mb) + " MB available, "@ + dec_digits(needed_mb)
        + " MB required"@
}

/// Checks whether `available` free bytes suffice for `required_bytes` plus
/// the safety margin.
pub fn disk_space_verdict(available: u64, required_bytes: u64) -> (r: Result<SpaceCheck, WowctlError>)
    requires
        required_bytes + SAFETY_MARGIN <= u64::MAX,
        available >= required_bytes + SAFETY_MARGIN ==> 2 * (required_bytes + SAFETY_MARGIN) <= u64::MAX,
    ensures
        ({
            let needed: int = required_bytes + SAFETY_MARGIN;
            &&& available < needed ==> (r matches Err(WowctlError::Io(m)) && m@ == insufficient_space_message(
                (available / MIB) as nat,
                (needed / (MIB as int)) as nat,
            ))
            &&& needed <= available < 2 * needed ==> r == Ok::<SpaceCheck, WowctlError>(
                SpaceCheck::Low { available_mb: (available / MIB) as u64, needed_mb: (needed / (MIB as int)) as u64 },
            )
            &&& 2 * needed <= available ==> r == Ok::<SpaceCheck, WowctlError>(SpaceCheck::Ample)
        }),
{
    let needed = required_bytes + SAFETY_MARGIN;
    if available < needed {
        let mut m = String::from_str("Insufficient disk space: ");
        m.append(decimal(available / MIB).as_str());
        m.append(" MB available, ");
        m.append(decimal(needed / MIB).as_str());
        m.append(" MB required");
        proof {
            assert(m@ =~= insufficient_space_message((available / MIB) as nat, (needed / MIB) as nat));
        }
        return Err(WowctlError::Io(m));
    }
    if available < needed * 2 {
        return Ok(SpaceCheck::Low { available_mb: available / MIB, needed_mb: needed / MIB });
    }
    Ok(SpaceCheck::Ample)
}

/// The first `n` characters of `s` (all of it when shorter).
pub open spec fn prefix_chars(s: Seq<char>, n: int) -> Seq<char> {
    if n < s.len() {
        s.take(n)
    } else {
        s
    }
}

/// The first `n` characters of `s`, cut between characters (never inside
/// one, as a byte slice could).
pub fn char_safe_prefix(s: &str, n: usize) -> (r: String)
    ensures
        r@ == prefix_chars(s@, n as int),
{
    let v = chars_of(s);
    let end = if n < v.len() {
        n
    } else {
        v.len()
    };
    let r = crate::text::string_of_range(&v, 0, end);
    assert(v@.subrange(0, end as int) =~= prefix_chars(s@, n as int));
    r
}

/// Sorted strictly by `lex_lt`.
pub open spec fn strictly_sorted(v: Seq<Seq<char>>) -> bool {
    forall|i: int, j: int| 0 <= i < j < v.len() ==> crate::text::lex_lt(v[i], v[j])
}

/// A directory some registered addon lists.
pub open spec fn is_managed(reg: Registry, d: Seq<char>) -> bool {
    exists|k: Seq<char>| #[trigger] owns(reg, k, d)
}

/// Whether a registered addon lists `d`.
fn managed(registry: &Registry, d: &String) -> (r: bool)
    requires
        registry.wf(),
    ensures
        r == is_managed(*registry, d@),
{
    match registry.find_by_directory(d.as_str()) {
        Some(a) => {
            assert(owns(*registry, a.slug@, d@));
            true
        },
        None => false,
    }
}

/// Inserts `d` into a sorted list of distinct names, unless present.
fn insert_name(v: &mut Vec<String>, d: &String)
    requires
        strictly_sorted(views(old(v)@)),
    ensures
        strictly_sorted(views(final(v)@)),
        forall|x: Seq<char>| #[trigger] views(final(v)@).contains(x) <==> (views(old(v)@).contains(x) || x == d@),
{
    let mut pos: usize = 0;
    while pos < v.len() && crate::text::str_lt(v[pos].as_str(), d.as_str())
        invariant
            0 <= pos <= v.len(),
            v@ == old(v)@,
            forall|j: int| 0 <= j < pos ==> crate::text::lex_lt(#[trigger] v@[j]@, d@),
        decreases v.len() - pos,
    {
        pos += 1;
    }
    let ghost before = views(v@);
    if pos < v.len() && v[pos] == *d {
        proof {
            assert forall|x: Seq<char>| #[trigger] views(v@).contains(x) <==> (before.contains(x) || x == d@) by {
                if x == d@ {
                    assert(views(v@)[pos as int] == x);
                }
            }
        }
        return;
    }
    proof {
        assert forall|j: int| pos <= j < before.len() implies crate::text::lex_lt(d@, #[trigger] before[j]) by {
            assert(before[j] == v@[j]@);
            crate::text::lemma_lex_basic(v@[pos as int]@, d@);
            if j > pos {
                crate::text::lemma_lex_trans(d@, before[pos as int], before[j]);
            }
        }
    }
    v.insert(pos, d.clone());
    proof {
        let after = views(v@);
        assert(after =~= before.insert(pos as int, d@));
        assert forall|i: int, j: int| 0 <= i < j < after.len() implies crate::text::lex_lt(after[i], after[j]) by {
            if j < pos {
                assert(after[i] == before[i] && after[j] == before[j]);
            } else if j == pos {
                assert(after[i] == before[i]);
            } else if i < pos {
                assert(after[i] == before[i] && after[j] == before[j - 1]);
                crate::text::lemma_lex_trans(before[i], d@, before[j - 1]);
            } else if i == pos {
                assert(after[j] == before[j - 1]);
            } else {
                assert(after[i] == before[i - 1] && after[j] == before[j - 1]);
            }
        }
        assert forall|x: Seq<char>| #[trigger] after.contains(x) <==> (before.contains(x) || x == d@) by {
            if after.contains(x) {
                let i = choose|i: int| 0 <= i < after.len() && after[i] == x;
                if i < pos {
                    assert(before[i] == x);
                } else if i > pos {
                    assert(before[i - 1] == x);
                }
            }
            if before.contains(x) {
                let i = choose|i: int| 0 <= i < before.len() && before[i] == x;
                if i < pos {
                    assert(after[i] == x);
                } else {
                    assert(after[i + 1] == x);
                }
            }
            if x == d@ {
                assert(after[pos as int] == x);
            }
        }
    }
}

/// The name a directory is backed up under while it is replaced.
pub open spec fn backup_name(dir: Seq<char>) -> Seq<char> {
    dir + "-wowctl-bak"@
}

pub fn backup_dir_name(dir: &str) -> (r: String)
    ensures
        r@ == backup_name(dir@),
{
    proof {
        reveal_strlit("");
    }
    concat3("", dir, "-wowctl-bak")
}

pub open spec fn missing_addon_dir_message(path: Seq<char>) -> Seq<char> {
    "Addon directory does not exist: "@ + path
}

/// The addon directory must exist before its folders are listed.
pub fn require_addon_dir(path: &str, exists: bool) -> (r: Result<(), WowctlError>)
    ensures
        exists ==> r is Ok,
        !exists ==> (r matches Err(WowctlError::InvalidAddonDir(m)) && m@ == missing_addon_dir_message(path@)),
{
    proof {
        reveal_strlit("");
    }
    if exists {
        Ok(())
    } else {
        Err(WowctlError::InvalidAddonDir(concat3("Addon directory does not exist: ", path, "")))
    }
}

/// The addon directory names not tracked by the registry, sorted, each
/// once (`all_dirs` being the directories the addon folder holds).
pub fn unmanaged_dirs(all_dirs: &[String], registry: &Registry) -> (r: Vec<String>)
    requires
        registry.wf(),
    ensures
        strictly_sorted(views(r@)),
        forall|x: Seq<char>| #[trigger] views(r@).contains(x) <==> (views(all_dirs@).contains(x) && !is_managed(*registry, x)),
{
    let mut r: Vec<String> = Vec::new();
    let mut i: usize = 0;
    while i < all_dirs.len()
        invariant
            0 <= i <= all_dirs.len(),
            registry.wf(),
            strictly_sorted(views(r@)),
            forall|x: Seq<char>| #[trigger] views(r@).contains(x) <==> (views(all_dirs@).take(i as int).contains(x)
                && !is_managed(*registry, x)),
        decreases all_dirs.len() - i,
    {
        let d = &all_dirs[i];
        let ghost pre = views(all_dirs@).take(i as int);
        let ghost cur = views(all_dirs@).take(i + 1);
        proof {
            assert(cur =~= pre.push(d@));
            assert forall|x: Seq<char>| #[trigger] cur.contains(x) <==> (pre.contains(x) || x == d@) by {
                if cur.contains(x) {
                    let k = choose|k: int| 0 <= k < cur.len() && cur[k] == x;
                    if k < pre.len() {
                        assert(pre[k] == x);
                    }
                }
                if pre.contains(x) {
                    let k = choose|k: int| 0 <= k < pre.len() && pre[k] == x;
                    assert(cur[k] == x);
                }
                if x == d@ {
                    assert(cur[i as int] == x);
                }
            }
        }
        if !managed(registry, d) {
            insert_name(&mut r, d);
        }
        i += 1;
    }
    assert(views(all_dirs@).take(all_dirs.len() as int) =~= views(all_dirs@));
    r
}

} // verus!
