//! Local addon registry: the addons managed by wowctl, keyed by slug.
//!
//! The registry is modelled as a map from slug to entry. Entries are kept
//! in a vector whose slugs are pairwise distinct; the map is what the
//! vector holds.

use vstd::prelude::*;
use vstd::string::StringExecFns;
use crate::addon::InstalledAddon;
use crate::text::views;

verus! {

broadcast use vstd::string::group_string_axioms;

/// No two entries share a slug.
pub open spec fn slugs_unique(s: Seq<InstalledAddon>) -> bool {
    forall|i: int, j: int|
        0 <= i < s.len() && 0 <= j < s.len() && i != j ==> #[trigger] s[i].slug@ != #[trigger] s[j].slug@
}

/// The map from slug to entry that a sequence of entries describes.
pub open spec fn entry_map(s: Seq<InstalledAddon>) -> Map<Seq<char>, InstalledAddon>
    decreases s.len(),
{
    if s.len() == 0 {
        Map::empty()
    } else {
        entry_map(s.drop_last()).insert(s.last().slug@, s.last())
    }
}

/// The keys of `entry_map(s)` are the slugs of `s`, and each slug maps to
/// its entry.
pub proof fn lemma_entry_map(s: Seq<InstalledAddon>)
    requires
        slugs_unique(s),
    ensures
        forall|k: Seq<char>|
            #[trigger] entry_map(s).contains_key(k) <==> exists|i: int| 0 <= i < s.len() && s[i].slug@ == k,
        forall|i: int| 0 <= i < s.len() ==> entry_map(s)[#[trigger] s[i].slug@] == s[i],
    decreases s.len(),
{
    if s.len() > 0 {
        let t = s.drop_last();
        assert(slugs_unique(t)) by {
            assert forall|i: int, j: int|
                0 <= i < t.len() && 0 <= j < t.len() && i != j implies #[trigger] t[i].slug@ != #[trigger] t[j].slug@ by {
                assert(t[i] == s[i] && t[j] == s[j]);
            }
        }
        lemma_entry_map(t);
        assert forall|k: Seq<char>|
            #[trigger] entry_map(s).contains_key(k) implies exists|i: int| 0 <= i < s.len() && s[i].slug@ == k by {
            if k == s.last().slug@ {
                assert(s[s.len() - 1].slug@ == k);
            } else {
                assert(entry_map(t).contains_key(k));
                let i = choose|i: int| 0 <= i < t.len() && t[i].slug@ == k;
                assert(s[i] == t[i]);
            }
        }
        assert forall|k: Seq<char>|
            (exists|i: int| 0 <= i < s.len() && s[i].slug@ == k) implies #[trigger] entry_map(s).contains_key(k) by {
            let i = choose|i: int| 0 <= i < s.len() && s[i].slug@ == k;
            if i < s.len() - 1 {
                assert(t[i] == s[i]);
                assert(entry_map(t).contains_key(t[i].slug@));
            }
        }
        assert forall|i: int| 0 <= i < s.len() implies entry_map(s)[#[trigger] s[i].slug@] == s[i] by {
            if i < s.len() - 1 {
                assert(t[i] == s[i]);
                assert(s[i].slug@ != s[s.len() - 1].slug@);
            }
        }
    }
}

/// Each slug of a registry maps to the entry with that slug.
pub proof fn lemma_keys_are_slugs(r: Registry)
    requires
        r.wf(),
    ensures
        forall|k: Seq<char>| #[trigger] r@.contains_key(k) ==> r@[k].slug@ == k,
{
    lemma_entry_map(r.entries());
    assert forall|k: Seq<char>| #[trigger] r@.contains_key(k) implies r@[k].slug@ == k by {
        let i = choose|i: int| 0 <= i < r.entries().len() && r.entries()[i].slug@ == k;
        assert(r@[r.entries()[i].slug@] == r.entries()[i]);
    }
}

/// Adding an entry to the end maps its slug to it.
pub proof fn lemma_entry_map_push(s: Seq<InstalledAddon>, a: InstalledAddon)
    ensures
        entry_map(s.push(a)) == entry_map(s).insert(a.slug@, a),
{
    assert(s.push(a).drop_last() =~= s);
}

/// Two sequences of distinct slugs with the same slugs and the same entry
/// for each slug describe the same map.
pub proof fn lemma_entry_map_ext(s: Seq<InstalledAddon>, m: Map<Seq<char>, InstalledAddon>)
    requires
        slugs_unique(s),
        forall|k: Seq<char>| #[trigger] m.contains_key(k) <==> exists|i: int| 0 <= i < s.len() && s[i].slug@ == k,
        forall|i: int| 0 <= i < s.len() ==> m[#[trigger] s[i].slug@] == s[i],
    ensures
        entry_map(s) == m,
{
    lemma_entry_map(s);
    assert forall|k: Seq<char>| #[trigger] entry_map(s).contains_key(k) implies entry_map(s)[k] == m[k] by {
        let i = choose|i: int| 0 <= i < s.len() && s[i].slug@ == k;
        assert(entry_map(s)[s[i].slug@] == s[i]);
    }
    assert(entry_map(s) =~= m);
}

/// Registry of installed addons. Maps addon slug to addon metadata.
pub struct Registry {
    addons: Vec<InstalledAddon>,
}

impl View for Registry {
    type V = Map<Seq<char>, InstalledAddon>;

    open spec fn view(&self) -> Map<Seq<char>, InstalledAddon> {
        entry_map(self.entries())
    }
}

/// The slugs of the sequence are exactly the keys of the map, each once,
/// and each entry is the one the map holds for its slug.
pub open spec fn lists_exactly(r: Seq<InstalledAddon>, m: Map<Seq<char>, InstalledAddon>) -> bool {
    &&& slugs_unique(r)
    &&& forall|i: int| 0 <= i < r.len() ==> #[trigger] m.contains_key(r[i].slug@) && m[r[i].slug@] == r[i]
    &&& forall|k: Seq<char>| #[trigger] m.contains_key(k) ==> exists|i: int| 0 <= i < r.len() && r[i].slug@ == k
}

/// `v` with every occurrence of `x` left out.
pub open spec fn without(v: Seq<Seq<char>>, x: Seq<char>) -> Seq<Seq<char>>
    decreases v.len(),
{
    if v.len() == 0 {
        v
    } else if v.last() == x {
        without(v.drop_last(), x)
    } else {
        without(v.drop_last(), x).push(v.last())
    }
}

/// An entry with `removed` taken out of its `required_by` list, all else
/// unchanged.
pub open spec fn unreferenced(a: InstalledAddon, b: InstalledAddon, removed: Seq<char>) -> bool {
    &&& views(b.required_by@) == without(views(a.required_by@), removed)
    &&& b == (InstalledAddon { required_by: b.required_by, ..a })
}

/// A dependency that nothing requires any more.
pub open spec fn is_orphan(a: InstalledAddon) -> bool {
    a.is_dependency && a.required_by@.len() == 0
}

impl Registry {
    /// The entries, in the order they are kept.
    pub closed spec fn entries(&self) -> Seq<InstalledAddon> {
        self.addons@
    }

    /// Well-formedness: the slugs of the entries are distinct.
    pub open spec fn wf(&self) -> bool {
        slugs_unique(self.entries())
    }

    /// An empty registry.
    pub fn new() -> (r: Registry)
        ensures
            r.wf(),
            r@ == Map::<Seq<char>, InstalledAddon>::empty(),
    {
        Registry { addons: Vec::new() }
    }

    /// Position of the entry whose slug is `key`, if any.
    fn position(&self, key: &String) -> (r: Option<usize>)
        requires
            self.wf(),
        ensures
            match r {
                Some(i) => i < self.entries().len() && self.entries()[i as int].slug@ == key@,
                None => forall|i: int| 0 <= i < self.entries().len() ==> self.entries()[i].slug@ != key@,
            },
    {
        let mut i: usize = 0;
        while i < self.addons.len()
            invariant
                0 <= i <= self.addons.len(),
                forall|j: int| 0 <= j < i ==> self.addons@[j].slug@ != key@,
            decreases self.addons.len() - i,
        {
            if self.addons[i].slug == *key {
                return Some(i);
            }
            i += 1;
        }
        None
    }

    /// Gets an addon by slug.
    pub fn get(&self, slug: &str) -> (r: Option<&InstalledAddon>)
        requires
            self.wf(),
        ensures
            match r {
                Some(a) => self@.contains_key(slug@) && *a == self@[slug@],
                None => !self@.contains_key(slug@),
            },
    {
        proof {
            lemma_entry_map(self.entries());
        }
        let key = String::from_str(slug);
        match self.position(&key) {
            Some(i) => Some(&self.addons[i]),
            None => None,
        }
    }

    /// Adds or updates an addon in the registry.
    pub fn add(&mut self, addon: InstalledAddon)
        requires
            old(self).wf(),
        ensures
            final(self).wf(),
            final(self)@ == old(self)@.insert(addon.slug@, addon),
    {
        proof {
            lemma_entry_map(self.entries());
        }
        let ghost old_entries = self.entries();
        let key = addon.slug.clone();
        match self.position(&key) {
            Some(i) => {
                self.addons.set(i, addon);
                proof {
                    let s = self.entries();
                    assert(s == old_entries.update(i as int, addon));
                    assert(slugs_unique(s)) by {
                        assert forall|p: int, q: int|
                            0 <= p < s.len() && 0 <= q < s.len() && p != q implies #[trigger] s[p].slug@
                            != #[trigger] s[q].slug@ by {
                            assert(old_entries[p].slug@ == s[p].slug@);
                            assert(old_entries[q].slug@ == s[q].slug@);
                        }
                    }
                    let m = old_entries.len();
                    assert forall|k: Seq<char>|
                        #[trigger] entry_map(old_entries).insert(addon.slug@, addon).contains_key(k) <==> exists|j: int|
                            0 <= j < s.len() && s[j].slug@ == k by {
                        if exists|j: int| 0 <= j < s.len() && s[j].slug@ == k {
                            let j = choose|j: int| 0 <= j < s.len() && s[j].slug@ == k;
                            if j != i {
                                assert(old_entries[j] == s[j]);
                            }
                        }
                        if entry_map(old_entries).contains_key(k) && k != addon.slug@ {
                            let j = choose|j: int| 0 <= j < old_entries.len() && old_entries[j].slug@ == k;
                            assert(s[j] == old_entries[j]);
                        }
                        if k == addon.slug@ {
                            assert(s[i as int].slug@ == k);
                        }
                    }
                    assert forall|j: int| 0 <= j < s.len() implies entry_map(old_entries).insert(addon.slug@, addon)[
                        #[trigger] s[j].slug@] == s[j] by {
                        if j != i {
                            assert(s[j] == old_entries[j]);
                            assert(old_entries[j].slug@ != old_entries[i as int].slug@);
                        }
                    }
                    lemma_entry_map_ext(s, entry_map(old_entries).insert(addon.slug@, addon));
                }
            },
            None => {
                self.addons.push(addon);
                proof {
                    lemma_entry_map_push(old_entries, addon);
                    let s = self.entries();
                    assert(s == old_entries.push(addon));
                    assert(slugs_unique(s)) by {
                        assert forall|p: int, q: int|
                            0 <= p < s.len() && 0 <= q < s.len() && p != q implies #[trigger] s[p].slug@
                            != #[trigger] s[q].slug@ by {
                            if p < old_entries.len() {
                                assert(s[p] == old_entries[p]);
                            }
                            if q < old_entries.len() {
                                assert(s[q] == old_entries[q]);
                            }
                        }
                    }
                }
            },
        }
    }

    /// Removes an addon from the registry and returns it.
    pub fn remove(&mut self, slug: &str) -> (r: Option<InstalledAddon>)
        requires
            old(self).wf(),
        ensures
            final(self).wf(),
            final(self)@ == old(self)@.remove(slug@),
            match r {
                Some(a) => old(self)@.contains_key(slug@) && a == old(self)@[slug@],
                None => !old(self)@.contains_key(slug@),
            },
    {
        proof {
            lemma_entry_map(self.entries());
        }
        let ghost old_entries = self.entries();
        let key = String::from_str(slug);
        match self.position(&key) {
            Some(i) => {
                let a = self.addons.remove(i);
                proof {
                    let s = self.entries();
                    assert(s == old_entries.remove(i as int));
                    assert forall|j: int| 0 <= j < s.len() implies #[trigger] s[j] == old_entries[if j < i {
                        j
                    } else {
                        j + 1
                    }] by {}
                    assert(slugs_unique(s)) by {
                        assert forall|p: int, q: int|
                            0 <= p < s.len() && 0 <= q < s.len() && p != q implies #[trigger] s[p].slug@
                            != #[trigger] s[q].slug@ by {
                            assert(s[p] == old_entries[if p < i {
                                p
                            } else {
                                p + 1
                            }]);
                            assert(s[q] == old_entries[if q < i {
                                q
                            } else {
                                q + 1
                            }]);
                        }
                    }
                    let target = entry_map(old_entries).remove(slug@);
                    assert forall|k: Seq<char>| #[trigger] target.contains_key(k) <==> exists|j: int|
                        0 <= j < s.len() && s[j].slug@ == k by {
                        if exists|j: int| 0 <= j < s.len() && s[j].slug@ == k {
                            let j = choose|j: int| 0 <= j < s.len() && s[j].slug@ == k;
                            let oj = if j < i {
                                j
                            } else {
                                j + 1
                            };
                            assert(s[j] == old_entries[oj]);
                            assert(oj != i);
                        }
                        if target.contains_key(k) {
                            let j = choose|j: int| 0 <= j < old_entries.len() && old_entries[j].slug@ == k;
                            assert(j != i);
                            let nj = if j < i {
                                j
                            } else {
                                j - 1
                            };
                            assert(s[nj] == old_entries[j]);
                        }
                    }
                    assert forall|j: int| 0 <= j < s.len() implies target[#[trigger] s[j].slug@] == s[j] by {
                        let oj = if j < i {
                            j
                        } else {
                            j + 1
                        };
                        assert(s[j] == old_entries[oj]);
                        assert(oj != i);
                        assert(entry_map(old_entries)[old_entries[oj].slug@] == old_entries[oj]);
                    }
                    lemma_entry_map_ext(s, target);
                }
                Some(a)
            },
            None => {
                proof {
                    assert(entry_map(old_entries).remove(slug@) =~= entry_map(old_entries));
                }
                None
            },
        }
    }

    /// Returns a list of all installed addons, each once.
    pub fn list_all(&self) -> (r: Vec<&InstalledAddon>)
        requires
            self.wf(),
        ensures
            lists_exactly(r@.map_values(|a: &InstalledAddon| *a), self@),
    {
        proof {
            lemma_entry_map(self.entries());
        }
        let mut r: Vec<&InstalledAddon> = Vec::new();
        let mut i: usize = 0;
        while i < self.addons.len()
            invariant
                0 <= i <= self.addons.len(),
                r.len() == i,
                forall|j: int| 0 <= j < i ==> *r@[j] == self.addons@[j],
            decreases self.addons.len() - i,
        {
            r.push(&self.addons[i]);
            i += 1;
        }
        proof {
            let rs = r@.map_values(|a: &InstalledAddon| *a);
            assert(rs =~= self.entries());
        }
        r
    }

    /// Finds an addon that owns the specified directory. Where several do,
    /// which one is returned is left open.
    pub fn find_by_directory(&self, directory: &str) -> (r: Option<&InstalledAddon>)
        requires
            self.wf(),
        ensures
            match r {
                Some(a) => self@.contains_key(a.slug@) && *a == self@[a.slug@] && views(a.directories@).contains(
                    directory@,
                ),
                None => forall|k: Seq<char>| #[trigger]
                    self@.contains_key(k) ==> !views(self@[k].directories@).contains(directory@),
            },
    {
        proof {
            lemma_entry_map(self.entries());
        }
        let key = String::from_str(directory);
        let mut i: usize = 0;
        while i < self.addons.len()
            invariant
                0 <= i <= self.addons.len(),
                self.wf(),
                key@ == directory@,
                forall|j: int| 0 <= j < i ==> !views(#[trigger] self.addons@[j].directories@).contains(directory@),
            decreases self.addons.len() - i,
        {
            let dirs = &self.addons[i].directories;
            let mut k: usize = 0;
            while k < dirs.len()
                invariant
                    0 <= k <= dirs.len(),
                    i < self.addons.len(),
                    self.wf(),
                    dirs@ == self.addons@[i as int].directories@,
                    key@ == directory@,
                    forall|m: int| 0 <= m < k ==> dirs@[m]@ != directory@,
                decreases dirs.len() - k,
            {
                if dirs[k] == key {
                    proof {
                        assert(views(dirs@)[k as int] == directory@);
                        lemma_entry_map(self.entries());
                        assert(self@[self.entries()[i as int].slug@] == self.entries()[i as int]);
                    }
                    return Some(&self.addons[i]);
                }
                k += 1;
            }
            proof {
                assert forall|m: int| 0 <= m < views(dirs@).len() implies views(dirs@)[m] != directory@ by {
                    assert(views(dirs@)[m] == dirs@[m]@);
                }
            }
            i += 1;
        }
        proof {
            assert forall|k: Seq<char>| #[trigger]
                self@.contains_key(k) implies !views(self@[k].directories@).contains(directory@) by {
                let j = choose|j: int| 0 <= j < self.entries().len() && self.entries()[j].slug@ == k;
                assert(self@[self.entries()[j].slug@] == self.entries()[j]);
            }
        }
        None
    }

    /// Finds all dependencies that are no longer required by any addon:
    /// each such slug once, in no promised order.
    pub fn find_orphaned_dependencies(&self) -> (r: Vec<String>)
        requires
            self.wf(),
        ensures
            forall|k: Seq<char>| #[trigger]
                views(r@).contains(k) <==> (self@.contains_key(k) && is_orphan(self@[k])),
            forall|p: int, q: int| 0 <= p < r.len() && 0 <= q < r.len() && p != q ==> r@[p]@ != r@[q]@,
    {
        proof {
            lemma_entry_map(self.entries());
        }
        let ghost s = self.entries();
        let mut r: Vec<String> = Vec::new();
        let ghost mut idx: Seq<int> = Seq::empty();
        let mut i: usize = 0;
        while i < self.addons.len()
            invariant
                0 <= i <= self.addons.len(),
                s == self.addons@,
                slugs_unique(s),
                r.len() == idx.len(),
                forall|p: int| 0 <= p < idx.len() ==> 0 <= #[trigger] idx[p] < i && is_orphan(s[idx[p]]) && r@[p]@
                    == s[idx[p]].slug@,
                forall|p: int, q: int| 0 <= p < q < idx.len() ==> idx[p] < idx[q],
                forall|j: int| 0 <= j < i && is_orphan(#[trigger] s[j]) ==> exists|p: int|
                    0 <= p < idx.len() && idx[p] == j,
            decreases self.addons.len() - i,
        {
            let a = &self.addons[i];
            let ghost idx_before = idx;
            if a.is_dependency && a.required_by.len() == 0 {
                r.push(a.slug.clone());
                proof {
                    idx = idx.push(i as int);
                }
            }
            proof {
                assert forall|j: int| 0 <= j < i + 1 && is_orphan(#[trigger] s[j]) implies exists|p: int|
                    0 <= p < idx.len() && idx[p] == j by {
                    if j < i {
                        let p = choose|p: int| 0 <= p < idx_before.len() && idx_before[p] == j;
                        assert(idx[p] == j);
                    } else {
                        assert(idx[idx.len() - 1] == j);
                    }
                }
            }
            i += 1;
        }
        proof {
            assert forall|k: Seq<char>| #[trigger]
                views(r@).contains(k) <==> (self@.contains_key(k) && is_orphan(self@[k])) by {
                if views(r@).contains(k) {
                    let p = choose|p: int| 0 <= p < views(r@).len() && views(r@)[p] == k;
                    assert(r@[p]@ == s[idx[p]].slug@);
                    assert(self@[s[idx[p]].slug@] == s[idx[p]]);
                }
                if self@.contains_key(k) && is_orphan(self@[k]) {
                    let j = choose|j: int| 0 <= j < s.len() && s[j].slug@ == k;
                    assert(self@[s[j].slug@] == s[j]);
                    assert(is_orphan(s[j]));
                    let p = choose|p: int| 0 <= p < idx.len() && idx[p] == j;
                    assert(views(r@)[p] == k);
                }
            }
            assert forall|p: int, q: int| 0 <= p < r.len() && 0 <= q < r.len() && p != q implies r@[p]@
                != r@[q]@ by {
                if p < q {
                    assert(idx[p] < idx[q]);
                } else {
                    assert(idx[q] < idx[p]);
                }
            }
        }
        r
    }

    /// Updates all addons' required_by lists to remove references to a
    /// removed addon.
    pub fn update_dependency_references(&mut self, removed_slug: &str)
        requires
            old(self).wf(),
        ensures
            final(self).wf(),
            final(self)@.dom() == old(self)@.dom(),
            forall|k: Seq<char>| #[trigger]
                old(self)@.contains_key(k) ==> unreferenced(old(self)@[k], final(self)@[k], removed_slug@),
    {
        proof {
            lemma_entry_map(self.entries());
        }
        let ghost s = self.entries();
        let key = String::from_str(removed_slug);
        let mut rest: Vec<InstalledAddon> = Vec::new();
        std::mem::swap(&mut rest, &mut self.addons);
        let mut done: Vec<InstalledAddon> = Vec::new();
        while rest.len() > 0
            invariant
                key@ == removed_slug@,
                done.len() + rest.len() == s.len(),
                forall|j: int| 0 <= j < rest.len() ==> #[trigger] rest@[j] == s[done.len() + j],
                forall|j: int| 0 <= j < done.len() ==> unreferenced(s[j], #[trigger] done@[j], removed_slug@),
            decreases rest.len(),
        {
            let ghost rest_before = rest@;
            let mut a = rest.remove(0);
            let kept = without_string(&a.required_by, &key);
            let ghost before = a;
            a.required_by = kept;
            proof {
                assert(a == (InstalledAddon { required_by: a.required_by, ..before }));
            }
            done.push(a);
            proof {
                assert forall|j: int| 0 <= j < rest.len() implies #[trigger] rest@[j] == s[done.len() + j] by {
                    assert(rest@[j] == rest_before[j + 1]);
                }
            }
        }
        self.addons = done;
        proof {
            let t = self.entries();
            assert(slugs_unique(t)) by {
                assert forall|p: int, q: int|
                    0 <= p < t.len() && 0 <= q < t.len() && p != q implies #[trigger] t[p].slug@
                    != #[trigger] t[q].slug@ by {
                    assert(unreferenced(s[p], t[p], removed_slug@));
                    assert(unreferenced(s[q], t[q], removed_slug@));
                }
            }
            lemma_entry_map(t);
            assert forall|k: Seq<char>| #[trigger] entry_map(t).contains_key(k) <==> entry_map(s).contains_key(k) by {
                if entry_map(t).contains_key(k) {
                    let j = choose|j: int| 0 <= j < t.len() && t[j].slug@ == k;
                    assert(unreferenced(s[j], t[j], removed_slug@));
                    assert(s[j].slug@ == k);
                }
                if entry_map(s).contains_key(k) {
                    let j = choose|j: int| 0 <= j < s.len() && s[j].slug@ == k;
                    assert(unreferenced(s[j], t[j], removed_slug@));
                    assert(t[j].slug@ == k);
                }
            }
            assert(entry_map(t).dom() =~= entry_map(s).dom());
            assert forall|k: Seq<char>| #[trigger]
                entry_map(s).contains_key(k) implies unreferenced(entry_map(s)[k], entry_map(t)[k], removed_slug@) by {
                let j = choose|j: int| 0 <= j < s.len() && s[j].slug@ == k;
                assert(unreferenced(s[j], t[j], removed_slug@));
                assert(entry_map(s)[s[j].slug@] == s[j]);
                assert(entry_map(t)[t[j].slug@] == t[j]);
            }
        }
    }
}

/// A copy of `v` without the strings equal to `x`, in order.
fn without_string(v: &Vec<String>, x: &String) -> (r: Vec<String>)
    ensures
        views(r@) == without(views(v@), x@),
{
    let mut r: Vec<String> = Vec::new();
    let mut i: usize = 0;
    while i < v.len()
        invariant
            0 <= i <= v.len(),
            views(r@) == without(views(v@).take(i as int), x@),
        decreases v.len() - i,
    {
        let ghost prefix = views(v@).take(i as int);
        assert(views(v@).take(i + 1).drop_last() =~= prefix);
        assert(views(v@).take(i + 1).last() == v@[i as int]@);
        if !(v[i] == *x) {
            let ghost r_before = r@;
            let c = v[i].clone();
            r.push(c);
            assert(views(r@) =~= views(r_before).push(c@));
        }
        i += 1;
    }
    assert(views(v@).take(v.len() as int) =~= views(v@));
    r
}

impl Registry {
    /// Whether some registered addon has the source ID `addon_id`.
    pub fn has_addon_id(&self, addon_id: &String) -> (r: bool)
        requires
            self.wf(),
        ensures
            r == exists|k: Seq<char>| #[trigger] self@.contains_key(k) && self@[k].addon_id@ == addon_id@,
    {
        proof {
            lemma_entry_map(self.entries());
        }
        let mut i: usize = 0;
        while i < self.addons.len()
            invariant
                0 <= i <= self.addons.len(),
                self.wf(),
                forall|j: int| 0 <= j < i ==> self.addons@[j].addon_id@ != addon_id@,
            decreases self.addons.len() - i,
        {
            if self.addons[i].addon_id == *addon_id {
                proof {
                    lemma_entry_map(self.entries());
                    assert(self@[self.entries()[i as int].slug@] == self.entries()[i as int]);
                    assert(self@.contains_key(self.entries()[i as int].slug@));
                }
                return true;
            }
            i += 1;
        }
        proof {
            assert forall|k: Seq<char>| #[trigger] self@.contains_key(k) implies self@[k].addon_id@ != addon_id@ by {
                let j = choose|j: int| 0 <= j < self.entries().len() && self.entries()[j].slug@ == k;
                assert(self@[self.entries()[j].slug@] == self.entries()[j]);
            }
        }
        false
    }
}

/// What `without` leaves has no occurrence of the removed string, and
/// keeps every other.
pub proof fn lemma_without(v: Seq<Seq<char>>, x: Seq<char>)
    ensures
        !without(v, x).contains(x),
        forall|y: Seq<char>| y != x ==> (#[trigger] without(v, x).contains(y) <==> v.contains(y)),
    decreases v.len(),
{
    if v.len() > 0 {
        let t = v.drop_last();
        let l = v.last();
        lemma_without(t, x);
        let w = without(t, x);
        assert(v =~= t.push(l));
        assert forall|y: Seq<char>| #[trigger] v.contains(y) <==> (t.contains(y) || l == y) by {
            if v.contains(y) {
                let i = choose|i: int| 0 <= i < v.len() && v[i] == y;
                if i < v.len() - 1 {
                    assert(t[i] == y);
                }
            }
            if t.contains(y) {
                let i = choose|i: int| 0 <= i < t.len() && t[i] == y;
                assert(v[i] == y);
            }
            if l == y {
                assert(v[v.len() - 1] == y);
            }
        }
        if l != x {
            assert forall|y: Seq<char>| #[trigger] w.push(l).contains(y) <==> (w.contains(y) || l == y) by {
                if w.push(l).contains(y) {
                    let i = choose|i: int| 0 <= i < w.push(l).len() && w.push(l)[i] == y;
                    if i < w.len() {
                        assert(w[i] == y);
                    }
                }
                if w.contains(y) {
                    let i = choose|i: int| 0 <= i < w.len() && w[i] == y;
                    assert(w.push(l)[i] == y);
                }
                if l == y {
                    assert(w.push(l)[w.len() as int] == y);
                }
            }
        }
    }
}

/// Reading back a slug just added gives the added entry, and leaves the
/// other slugs as they were.
pub proof fn law_add_then_get(r: Registry, a: InstalledAddon, other: Seq<char>)
    requires
        r.wf(),
    ensures
        r@.insert(a.slug@, a).contains_key(a.slug@),
        r@.insert(a.slug@, a)[a.slug@] == a,
        other != a.slug@ ==> (r@.insert(a.slug@, a).contains_key(other) == r@.contains_key(other)),
        other != a.slug@ && r@.contains_key(other) ==> r@.insert(a.slug@, a)[other] == r@[other],
{
}

/// After a slug is removed, reading it finds nothing; removing what was
/// just added gives back the added entry.
pub proof fn law_remove_then_get(r: Registry, a: InstalledAddon)
    requires
        r.wf(),
    ensures
        !r@.remove(a.slug@).contains_key(a.slug@),
        r@.insert(a.slug@, a).contains_key(a.slug@) && r@.insert(a.slug@, a)[a.slug@] == a,
        !r@.contains_key(a.slug@) ==> r@.insert(a.slug@, a).remove(a.slug@) == r@,
{
    if !r@.contains_key(a.slug@) {
        assert(r@.insert(a.slug@, a).remove(a.slug@) =~= r@);
    }
}

/// Adding the same entry twice is adding it once.
pub proof fn law_add_idempotent(r: Registry, a: InstalledAddon)
    requires
        r.wf(),
    ensures
        r@.insert(a.slug@, a).insert(a.slug@, a) == r@.insert(a.slug@, a),
{
    assert(r@.insert(a.slug@, a).insert(a.slug@, a) =~= r@.insert(a.slug@, a));
}

/// Once references to a removed slug are dropped, no entry is required by
/// it any more, and every other reference stays.
pub proof fn law_references_dropped(before: Registry, after: Registry, removed: Seq<char>)
    requires
        before.wf(),
        after.wf(),
        after@.dom() == before@.dom(),
        forall|k: Seq<char>| #[trigger]
            before@.contains_key(k) ==> unreferenced(before@[k], after@[k], removed),
    ensures
        forall|k: Seq<char>| #[trigger]
            after@.contains_key(k) ==> !views(after@[k].required_by@).contains(removed),
        forall|k: Seq<char>, y: Seq<char>|
            after@.contains_key(k) && y != removed ==> (views(after@[k].required_by@).contains(y) <==> views(
                before@[k].required_by@,
            ).contains(y)),
{
    assert forall|k: Seq<char>| #[trigger] after@.contains_key(k) implies !views(after@[k].required_by@).contains(
        removed,
    ) by {
        assert(before@.contains_key(k));
        lemma_without(views(before@[k].required_by@), removed);
    }
    assert forall|k: Seq<char>, y: Seq<char>|
        after@.contains_key(k) && y != removed implies (views(after@[k].required_by@).contains(y) <==> views(
            before@[k].required_by@,
        ).contains(y)) by {
        assert(before@.contains_key(k));
        lemma_without(views(before@[k].required_by@), removed);
    }
}

impl Default for Registry {
    fn default() -> (r: Registry)
        ensures
            r.wf(),
            r@ == Map::<Seq<char>, InstalledAddon>::empty(),
    {
        Registry::new()
    }
}

} // verus!
