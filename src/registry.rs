//! Registry of installed breakpoint and watchpoint hooks.
//!
//! Every hook the adapter installs on the engine is recorded under the key of
//! the request that installed it, so that a removal request finds exactly the
//! handle to release.
use vstd::prelude::*;

verus! {

/// Which accesses a watchpoint reports.
#[derive(Clone, Copy, Debug, PartialEq, Eq, Structural)]
pub enum WatchKind {
    Read,
    Write,
    ReadWrite,
}

/// What a hook was installed for. A watchpoint is identified by its start
/// address, its length and its kind together.
#[derive(Clone, Copy, Debug, PartialEq, Eq, Structural)]
pub enum HookKey {
    Software(u64),
    Hardware(u64),
    Watch { addr: u64, len: u64, kind: WatchKind },
}

/// The map that a list of entries with distinct keys stands for.
pub open spec fn table_map<H>(s: Seq<(HookKey, H)>) -> Map<HookKey, H>
    decreases s.len(),
{
    if s.len() == 0 {
        Map::empty()
    } else {
        table_map(s.drop_last()).insert(s.last().0, s.last().1)
    }
}

pub open spec fn keys_distinct<H>(s: Seq<(HookKey, H)>) -> bool {
    forall|i: int, j: int| 0 <= i < j < s.len() ==> #[trigger] s[i].0 != #[trigger] s[j].0
}

proof fn lemma_table_has<H>(s: Seq<(HookKey, H)>, i: int)
    requires
        keys_distinct(s),
        0 <= i < s.len(),
    ensures
        table_map(s).contains_key(s[i].0),
        table_map(s)[s[i].0] == s[i].1,
    decreases s.len(),
{
    if i < s.len() - 1 {
        lemma_table_has(s.drop_last(), i);
    }
}

proof fn lemma_table_lacks<H>(s: Seq<(HookKey, H)>, k: HookKey)
    requires
        forall|i: int| 0 <= i < s.len() ==> #[trigger] s[i].0 != k,
    ensures
        !table_map(s).contains_key(k),
    decreases s.len(),
{
    if s.len() > 0 {
        assert forall|i: int| 0 <= i < s.drop_last().len() implies #[trigger] s.drop_last()[i].0 != k by {
            assert(s[i].0 != k);
        }
        lemma_table_lacks(s.drop_last(), k);
        assert(s[s.len() - 1].0 != k);
    }
}

proof fn lemma_table_remove<H>(s: Seq<(HookKey, H)>, i: int)
    requires
        keys_distinct(s),
        0 <= i < s.len(),
    ensures
        table_map(s.remove(i)) =~= table_map(s).remove(s[i].0),
        keys_distinct(s.remove(i)),
    decreases s.len(),
{
    let last = s.len() - 1;
    let r = s.remove(i);
    assert forall|a: int, b: int| 0 <= a < b < r.len() implies #[trigger] r[a].0 != #[trigger] r[b].0 by {
        let a2 = if a < i { a } else { a + 1 };
        let b2 = if b < i { b } else { b + 1 };
        assert(s[a2].0 != s[b2].0);
    }
    if i == last {
        assert(r =~= s.drop_last());
        assert forall|j: int| 0 <= j < s.drop_last().len() implies #[trigger] s.drop_last()[j].0 != s[i].0 by {
            assert(s[j].0 != s[last].0);
        }
        lemma_table_lacks(s.drop_last(), s[i].0);
    } else {
        let d = s.drop_last();
        assert(r =~= d.remove(i).push(s.last()));
        assert(r.drop_last() =~= d.remove(i));
        assert(d[i] == s[i]);
        lemma_table_remove(d, i);
        assert(s[i].0 != s[last].0);
    }
}

/// Hook handles of type `H`, each under the key of the request that installed it.
pub struct HookRegistry<H> {
    entries: Vec<(HookKey, H)>,
}

impl<H> HookRegistry<H> {
    /// The installed hooks, by key.
    pub closed spec fn view(&self) -> Map<HookKey, H> {
        table_map(self.entries@)
    }

    /// No key is recorded twice.
    pub closed spec fn wf(&self) -> bool {
        keys_distinct(self.entries@)
    }

    /// An empty registry.
    pub fn new() -> (r: Self)
        ensures
            r.wf(),
            r.view() == Map::<HookKey, H>::empty(),
    {
        HookRegistry { entries: Vec::new() }
    }

    /// Position of the entry under `key`, if there is one.
    fn find(&self, key: HookKey) -> (r: Option<usize>)
        requires
            self.wf(),
        ensures
            match r {
                Some(i) => i < self.entries@.len() && self.entries@[i as int].0 == key,
                None => !self.view().contains_key(key),
            },
    {
        let n = self.entries.len();
        let mut i: usize = 0;
        while i < n
            invariant
                n == self.entries@.len(),
                i <= n,
                forall|j: int| 0 <= j < i ==> #[trigger] self.entries@[j].0 != key,
            decreases n - i,
        {
            if self.entries[i].0 == key {
                return Some(i);
            }
            i = i + 1;
        }
        proof {
            lemma_table_lacks(self.entries@, key);
        }
        None
    }

    /// Whether a hook is recorded under `key`.
    pub fn contains(&self, key: HookKey) -> (r: bool)
        requires
            self.wf(),
        ensures
            r == self.view().contains_key(key),
    {
        match self.find(key) {
            Some(i) => {
                proof {
                    lemma_table_has(self.entries@, i as int);
                }
                true
            },
            None => false,
        }
    }

    /// Number of recorded hooks.
    pub fn len(&self) -> (r: usize)
        requires
            self.wf(),
        ensures
            r == self.view().len(),
    {
        proof {
            self.lemma_len();
        }
        self.entries.len()
    }

    /// Whether no hook is recorded.
    pub fn is_empty(&self) -> (r: bool)
        requires
            self.wf(),
        ensures
            r == (self.view() == Map::<HookKey, H>::empty()),
            r == (forall|k: HookKey| !#[trigger] self.view().contains_key(k)),
    {
        proof {
            self.lemma_len();
            if self.entries@.len() > 0 {
                lemma_table_has(self.entries@, 0);
                assert(self.view().contains_key(self.entries@[0].0));
            } else {
                assert(self.view() =~= Map::<HookKey, H>::empty());
            }
        }
        self.entries.len() == 0
    }

    proof fn lemma_len(&self)
        requires
            self.wf(),
        ensures
            self.view().dom().finite(),
            self.view().len() == self.entries@.len(),
    {
        lemma_table_len(self.entries@);
    }

    /// Records `h` under `key` and hands back the handle that was recorded
    /// there before, which the caller then owns.
    pub fn insert(&mut self, key: HookKey, h: H) -> (displaced: Option<H>)
        requires
            old(self).wf(),
        ensures
            final(self).wf(),
            final(self).view() == old(self).view().insert(key, h),
            displaced == (if old(self).view().contains_key(key) {
                Some(old(self).view()[key])
            } else {
                None::<H>
            }),
    {
        match self.find(key) {
            Some(i) => {
                proof {
                    lemma_table_has(self.entries@, i as int);
                    lemma_table_remove(self.entries@, i as int);
                }
                let ghost removed = self.entries@.remove(i as int);
                let (_, prev) = self.entries.remove(i);
                proof {
                    lemma_table_lacks_removed(removed, key);
                }
                self.entries.push((key, h));
                proof {
                    assert(self.entries@.drop_last() =~= removed);
                    assert(self.view() =~= old(self).view().insert(key, h));
                    assert forall|a: int, b: int|
                        0 <= a < b < self.entries@.len() implies #[trigger] self.entries@[a].0
                        != #[trigger] self.entries@[b].0 by {
                        if b == self.entries@.len() - 1 {
                            assert(removed[a].0 != key);
                        } else {
                            assert(removed[a].0 != removed[b].0);
                        }
                    }
                }
                Some(prev)
            },
            None => {
                let ghost before = self.entries@;
                self.entries.push((key, h));
                proof {
                    assert(self.entries@.drop_last() =~= before);
                    assert forall|a: int, b: int|
                        0 <= a < b < self.entries@.len() implies #[trigger] self.entries@[a].0
                        != #[trigger] self.entries@[b].0 by {
                        if b == self.entries@.len() - 1 {
                            lemma_table_has(before, a);
                        } else {
                            assert(before[a].0 != before[b].0);
                        }
                    }
                }
                None
            },
        }
    }

    /// Takes the handle recorded under `key` out of the registry.
    pub fn remove(&mut self, key: HookKey) -> (r: Option<H>)
        requires
            old(self).wf(),
        ensures
            final(self).wf(),
            final(self).view() == old(self).view().remove(key),
            r == (if old(self).view().contains_key(key) {
                Some(old(self).view()[key])
            } else {
                None::<H>
            }),
    {
        match self.find(key) {
            Some(i) => {
                proof {
                    lemma_table_has(self.entries@, i as int);
                    lemma_table_remove(self.entries@, i as int);
                }
                let (_, h) = self.entries.remove(i);
                Some(h)
            },
            None => {
                assert(old(self).view().remove(key) =~= old(self).view());
                None
            },
        }
    }

    /// Records the outcome of installing a hook for `key`: `installed` is the
    /// engine's handle, or `None` when the engine refused the hook. Returns
    /// whether the request took effect, and the handle it displaced (the
    /// caller releases it). A refused hook leaves the registry unchanged.
    pub fn record_install(&mut self, key: HookKey, installed: Option<H>) -> (r: (bool, Option<H>))
        requires
            old(self).wf(),
        ensures
            final(self).wf(),
            installed.is_none() ==> !r.0 && r.1.is_none() && final(self).view() == old(self).view(),
            installed.is_some() ==> r.0 && final(self).view() == old(self).view().insert(
                key,
                installed.unwrap(),
            ) && r.1 == (if old(self).view().contains_key(key) {
                Some(old(self).view()[key])
            } else {
                None::<H>
            }),
    {
        match installed {
            Some(h) => (true, self.insert(key, h)),
            None => (false, None),
        }
    }
}

impl<H> HookRegistry<H> {
    /// Settles a removal request once the engine has been asked to release
    /// `h`, the handle `remove` took out under `key`: where the engine
    /// refused, the handle goes back under `key`, so a failed removal changes
    /// nothing. Returns whether the removal took effect.
    pub fn finish_removal(&mut self, key: HookKey, h: H, released: bool) -> (r: bool)
        requires
            old(self).wf(),
        ensures
            final(self).wf(),
            r == released,
            released ==> final(self).view() == old(self).view(),
            !released ==> final(self).view() == old(self).view().insert(key, h),
    {
        if !released {
            let _ = self.insert(key, h);
        }
        released
    }
}

/// A refused removal restores the registry: taking out the handle under `key`
/// and putting it back gives the registry as it was.
pub proof fn lemma_refused_removal_restores<H>(reg: Map<HookKey, H>, key: HookKey)
    requires
        reg.contains_key(key),
    ensures
        reg.remove(key).insert(key, reg[key]) == reg,
{
    assert(reg.remove(key).insert(key, reg[key]) =~= reg);
}

/// The inclusive address range an engine hook covers for a watch of `len`
/// bytes at `addr`, if that range is not empty and ends inside the address space.
pub fn watch_range(addr: u64, len: u64) -> (r: Option<(u64, u64)>)
    ensures
        r == (if 1 <= len && addr + len - 1 <= u64::MAX {
            Some((addr, (addr + len - 1) as u64))
        } else {
            None::<(u64, u64)>
        }),
{
    if len == 0 || len - 1 > u64::MAX - addr {
        None
    } else {
        Some((addr, addr + (len - 1)))
    }
}

/// A software breakpoint added at an address that had none and then removed:
/// the addition records the handle, the removal finds it and hands that very
/// handle back, and the registry is as before (empty, if it was empty).
pub proof fn lemma_breakpoint_add_remove<H>(reg: Map<HookKey, H>, addr: u64, h: H)
    requires
        !reg.contains_key(HookKey::Software(addr)),
    ensures
        reg.insert(HookKey::Software(addr), h).contains_key(HookKey::Software(addr)),
        reg.insert(HookKey::Software(addr), h)[HookKey::Software(addr)] == h,
        reg.insert(HookKey::Software(addr), h).remove(HookKey::Software(addr)) == reg,
        reg == Map::<HookKey, H>::empty() ==> reg.insert(HookKey::Software(addr), h).remove(
            HookKey::Software(addr),
        ) == Map::<HookKey, H>::empty(),
{
    assert(reg.insert(HookKey::Software(addr), h).remove(HookKey::Software(addr)) =~= reg);
}

/// A read and a write watch on the same range are separate entries: each keeps
/// its own handle, and removing either leaves the other in place.
pub proof fn lemma_watch_kinds_independent<H>(reg: Map<HookKey, H>, addr: u64, len: u64, on_write: H, on_read: H)
    ensures
        ({
            let w = HookKey::Watch { addr, len, kind: WatchKind::Write };
            let r = HookKey::Watch { addr, len, kind: WatchKind::Read };
            let both = reg.insert(w, on_write).insert(r, on_read);
            &&& both[w] == on_write
            &&& both[r] == on_read
            &&& both.remove(r).contains_key(w) && both.remove(r)[w] == on_write
            &&& both.remove(w).contains_key(r) && both.remove(w)[r] == on_read
        }),
{
}

proof fn lemma_table_lacks_removed<H>(r: Seq<(HookKey, H)>, k: HookKey)
    requires
        !table_map(r).contains_key(k),
    ensures
        forall|i: int| 0 <= i < r.len() ==> #[trigger] r[i].0 != k,
    decreases r.len(),
{
    if r.len() > 0 {
        lemma_table_lacks_removed(r.drop_last(), k);
        assert forall|i: int| 0 <= i < r.len() implies #[trigger] r[i].0 != k by {
            if i < r.len() - 1 {
                assert(r.drop_last()[i] == r[i]);
            }
        }
    }
}

proof fn lemma_table_len<H>(s: Seq<(HookKey, H)>)
    requires
        keys_distinct(s),
    ensures
        table_map(s).dom().finite(),
        table_map(s).len() == s.len(),
    decreases s.len(),
{
    if s.len() > 0 {
        let d = s.drop_last();
        assert(keys_distinct(d)) by {
            assert forall|a: int, b: int| 0 <= a < b < d.len() implies #[trigger] d[a].0 != #[trigger] d[b].0 by {
                assert(s[a].0 != s[b].0);
            }
        }
        lemma_table_len(d);
        assert forall|j: int| 0 <= j < d.len() implies #[trigger] d[j].0 != s.last().0 by {
            assert(s[j].0 != s[s.len() - 1].0);
        }
        lemma_table_lacks(d, s.last().0);
    }
}

} // verus!
