//! Bookkeeping of the scratch directories that operations create: each path
//! with its creation time, so that ones left behind can be swept later.
use vstd::prelude::*;
use crate::format::text_eq;

verus! {

/// Scratch directories known to the process, by path, with their creation
/// time in seconds. The entries are a `Vec` of distinct paths with a map as
/// their view, so that what `register` and `sweep` do to the contents is
/// proved; a `String`-keyed `HashMap` would give no such facts.
pub struct ScratchRegistry {
    entries: Vec<(String, u64)>,
    known: Ghost<Map<Seq<char>, u64>>,
}

impl View for ScratchRegistry {
    type V = Map<Seq<char>, u64>;

    closed spec fn view(&self) -> Map<Seq<char>, u64> {
        self.known@
    }
}

pub open spec fn entries_match(entries: Seq<(String, u64)>, m: Map<Seq<char>, u64>) -> bool {
    &&& forall|i: int, j: int|
        0 <= i < j < entries.len() ==> entries[i].0@ != entries[j].0@
    &&& forall|k: int|
        0 <= k < entries.len() ==> m.contains_key(entries[k].0@) && m[entries[k].0@]
            == entries[k].1
    &&& forall|p: Seq<char>|
        m.contains_key(p) ==> exists|k: int| 0 <= k < entries.len() && entries[k].0@ == p
}

/// The paths of a list of strings, as character sequences.
pub open spec fn names(v: Seq<String>) -> Seq<Seq<char>> {
    v.map_values(|s: String| s@)
}

impl ScratchRegistry {
    /// Each path is held once, and the entries are exactly the view.
    pub closed spec fn wf(&self) -> bool {
        entries_match(self.entries@, self.known@)
    }

    /// An empty registry.
    pub fn new() -> (r: Self)
        ensures
            r.wf(),
            r@ == Map::<Seq<char>, u64>::empty(),
    {
        ScratchRegistry { entries: Vec::new(), known: Ghost(Map::empty()) }
    }

    /// Number of directories tracked.
    pub fn len(&self) -> (r: usize)
        requires
            self.wf(),
        ensures
            r == self@.len(),
    {
        proof {
            lemma_entries_len(self.entries@, self.known@);
        }
        self.entries.len()
    }

    /// Records `path` as created at `created`; a path already known takes
    /// the new time.
    pub fn register(&mut self, path: String, created: u64)
        requires
            old(self).wf(),
        ensures
            final(self).wf(),
            final(self)@ == old(self)@.insert(path@, created),
    {
        let ghost m = self.known@.insert(path@, created);
        let mut i: usize = 0;
        while i < self.entries.len()
            invariant
                i <= self.entries@.len(),
                self.entries@ == old(self).entries@,
                self.known@ == old(self).known@,
                entries_match(self.entries@, self.known@),
                m == self.known@.insert(path@, created),
                forall|k: int| 0 <= k < i ==> self.entries@[k].0@ != path@,
            decreases self.entries@.len() - i,
        {
            if text_eq(self.entries[i].0.as_str(), path.as_str()) {
                let name = self.entries[i].0.clone();
                let ghost before = self.entries@;
                self.entries.set(i, (name, created));
                self.known = Ghost(m);
                assert forall|k: int| 0 <= k < self.entries@.len() implies self.entries@[k].0@
                    == before[k].0@ by {}
                assert forall|p: Seq<char>| m.contains_key(p) implies exists|k: int|
                    0 <= k < self.entries@.len() && self.entries@[k].0@ == p by {
                    if p == path@ {
                        assert(self.entries@[i as int].0@ == p);
                    } else {
                        let k = choose|k: int| 0 <= k < before.len() && before[k].0@ == p;
                        assert(self.entries@[k].0@ == p);
                    }
                }
                return;
            }
            i = i + 1;
        }
        let ghost before = self.entries@;
        self.entries.push((path, created));
        self.known = Ghost(m);
        assert forall|p: Seq<char>| m.contains_key(p) implies exists|k: int|
            0 <= k < self.entries@.len() && self.entries@[k].0@ == p by {
            if p == path@ {
                assert(self.entries@[before.len() as int].0@ == p);
            } else {
                let k = choose|k: int| 0 <= k < before.len() && before[k].0@ == p;
                assert(self.entries@[k].0@ == p);
            }
        }
    }

    /// Forgets every directory created before `cutoff` and returns their
    /// paths, so that the caller can remove them; later ones stay.
    pub fn sweep(&mut self, cutoff: u64) -> (r: Vec<String>)
        requires
            old(self).wf(),
        ensures
            final(self).wf(),
            final(self)@ == old(self)@.restrict(old(self)@.dom().filter(|p| old(self)@[p] >= cutoff)),
            names(r@).no_duplicates(),
            names(r@).to_set() == old(self)@.dom().filter(
                |p| old(self)@[p] < cutoff,
            ),
    {
        let ghost e = self.entries@;
        let ghost m = self.known@;
        let mut kept: Vec<(String, u64)> = Vec::new();
        let mut removed: Vec<String> = Vec::new();
        let ghost mut km: Map<Seq<char>, u64> = Map::empty();
        let mut i: usize = 0;
        while i < self.entries.len()
            invariant
                self.entries@ == e,
                self.known@ == m,
                entries_match(e, m),
                i <= e.len(),
                entries_match(kept@, km),
                forall|p: Seq<char>|
                    km.contains_key(p) <==> exists|k: int|
                        0 <= k < i && e[k].0@ == p && e[k].1 >= cutoff,
                forall|p: Seq<char>| km.contains_key(p) ==> km[p] == m[p],
                names(removed@).no_duplicates(),
                forall|p: Seq<char>|
                    #[trigger] names(removed@).contains(p) <==> exists|k: int|
                        0 <= k < i && e[k].0@ == p && e[k].1 < cutoff,
            decreases e.len() - i,
        {
            let name = self.entries[i].0.clone();
            let created = self.entries[i].1;
            let ghost key = e[i as int].0@;
            assert(forall|k: int| 0 <= k < i ==> e[k].0@ != key);
            if created >= cutoff {
                let ghost before = kept@;
                kept.push((name, created));
                proof {
                    km = km.insert(key, created);
                }
                assert forall|p: Seq<char>| km.contains_key(p) implies exists|k: int|
                    0 <= k < kept@.len() && kept@[k].0@ == p by {
                    if p == key {
                        assert(kept@[before.len() as int].0@ == p);
                    } else {
                        let k = choose|k: int| 0 <= k < before.len() && before[k].0@ == p;
                        assert(kept@[k].0@ == p);
                    }
                }
                assert forall|p: Seq<char>| #[trigger] names(removed@).contains(p) <==> exists|k: int|
                    0 <= k < i + 1 && e[k].0@ == p && e[k].1 < cutoff by {
                    if exists|k: int| 0 <= k < i + 1 && e[k].0@ == p && e[k].1 < cutoff {
                        let k = choose|k: int| 0 <= k < i + 1 && e[k].0@ == p && e[k].1 < cutoff;
                        assert(k < i);
                    }
                }
            } else {
                let ghost before = names(removed@);
                assert(!before.contains(key));
                removed.push(name);
                assert(names(removed@) =~= before.push(key));
                assert forall|p: Seq<char>| #[trigger] names(removed@).contains(p) <==> exists|k: int|
                    0 <= k < i + 1 && e[k].0@ == p && e[k].1 < cutoff by {
                    if names(removed@).contains(p) {
                        if p == key {
                            assert(e[i as int].0@ == p && e[i as int].1 < cutoff);
                        } else {
                            let j = choose|j: int| 0 <= j < names(removed@).len() && names(removed@)[j] == p;
                            assert(before[j] == p);
                            assert(before.contains(p));
                        }
                    }
                    if exists|k: int| 0 <= k < i + 1 && e[k].0@ == p && e[k].1 < cutoff {
                        if p == key {
                            assert(names(removed@)[before.len() as int] == p);
                        } else {
                            let k = choose|k: int| 0 <= k < i + 1 && e[k].0@ == p && e[k].1 < cutoff;
                            assert(k < i);
                            assert(before.contains(p));
                            let j = choose|j: int| 0 <= j < before.len() && before[j] == p;
                            assert(names(removed@)[j] == p);
                        }
                    }
                }
                assert forall|p: Seq<char>| km.contains_key(p) <==> exists|k: int|
                    0 <= k < i + 1 && e[k].0@ == p && e[k].1 >= cutoff by {
                    if exists|k: int| 0 <= k < i + 1 && e[k].0@ == p && e[k].1 >= cutoff {
                        let k = choose|k: int| 0 <= k < i + 1 && e[k].0@ == p && e[k].1 >= cutoff;
                        assert(k < i);
                    }
                }
            }
            i = i + 1;
        }
        self.entries = kept;
        self.known = Ghost(km);
        let ghost keep = m.dom().filter(|p| m[p] >= cutoff);
        assert forall|p: Seq<char>| km.contains_key(p) <==> keep.contains(p) by {
            if m.contains_key(p) {
                let k = choose|k: int| 0 <= k < e.len() && e[k].0@ == p;
                assert(e[k].1 == m[p]);
            }
        }
        assert(km =~= m.restrict(keep));
        let ghost rs = names(removed@);
        assert forall|p: Seq<char>| rs.to_set().contains(p) <==> m.dom().filter(
            |p| m[p] < cutoff,
        ).contains(p) by {
            if m.contains_key(p) {
                let k = choose|k: int| 0 <= k < e.len() && e[k].0@ == p;
                assert(e[k].1 == m[p]);
            }
        }
        assert(rs.to_set() =~= m.dom().filter(|p| m[p] < cutoff));
        removed
    }
}

proof fn lemma_entries_len(entries: Seq<(String, u64)>, m: Map<Seq<char>, u64>)
    requires
        entries_match(entries, m),
    ensures
        m.len() == entries.len(),
    decreases entries.len(),
{
    let keys = entries.map_values(|e: (String, u64)| e.0@);
    assert(keys.no_duplicates());
    keys.unique_seq_to_set();
    assert(keys.to_set() =~= m.dom()) by {
        assert forall|p: Seq<char>| m.dom().contains(p) implies keys.to_set().contains(p) by {
            let k = choose|k: int| 0 <= k < entries.len() && entries[k].0@ == p;
            assert(keys[k] == p);
        }
    }
}

} // verus!
