//! The registry: the table of known VMs and the channel identifier pool,
//! mutated together.
use vstd::prelude::*;
use crate::id_pool::{IdPool, PoolError};
use crate::model::{VmConfig, VmConfigModel};

verus! {

/// The views of a sequence of configurations.
pub open spec fn views_of(v: Seq<VmConfig>) -> Seq<VmConfigModel> {
    v.map_values(|c: VmConfig| c@)
}

/// Whether the entries' ids are pairwise distinct.
pub open spec fn ids_unique(s: Seq<VmConfigModel>) -> bool {
    forall|i: int, j: int|
        0 <= i < s.len() && 0 <= j < s.len() && i != j ==> #[trigger] s[i].manifest.id
            != #[trigger] s[j].manifest.id
}

/// Whether some entry has id `k`.
pub open spec fn has_id(s: Seq<VmConfigModel>, k: Seq<char>) -> bool {
    exists|i: int| 0 <= i < s.len() && #[trigger] s[i].manifest.id == k
}

/// The table keyed by id that the entries make.
pub open spec fn table_of(s: Seq<VmConfigModel>) -> Map<Seq<char>, VmConfigModel> {
    Map::new(
        |k: Seq<char>| has_id(s, k),
        |k: Seq<char>| s[choose|i: int| 0 <= i < s.len() && #[trigger] s[i].manifest.id == k],
    )
}

/// In a table of distinct ids the entry at `i` is the one its id maps to.
pub proof fn lemma_table_at(s: Seq<VmConfigModel>, i: int)
    requires
        ids_unique(s),
        0 <= i < s.len(),
    ensures
        table_of(s).contains_key(s[i].manifest.id),
        table_of(s)[s[i].manifest.id] == s[i],
{
    let k = s[i].manifest.id;
    assert(has_id(s, k));
    let j = choose|j: int| 0 <= j < s.len() && #[trigger] s[j].manifest.id == k;
    assert(s[j].manifest.id == k);
}

/// Some VM of `table` carries channel identifier `c`.
pub open spec fn carried(table: Map<Seq<char>, VmConfigModel>, c: u32) -> bool {
    exists|k: Seq<char>| table.contains_key(k) && (#[trigger] table[k]).cid == Some(c)
}

/// The in-memory state: registered VMs and the identifier pool.
pub struct AppState {
    pub(crate) cid_pool: IdPool,
    vms: Vec<VmConfig>,
}

impl AppState {
    /// The registered configurations, in storage order.
    pub closed spec fn entries(&self) -> Seq<VmConfigModel> {
        views_of(self.vms@)
    }

    /// The registered VMs, keyed by id.
    pub open spec fn table(&self) -> Map<Seq<char>, VmConfigModel> {
        table_of(self.entries())
    }

    /// The identifier pool.
    pub closed spec fn pool(&self) -> IdPool {
        self.cid_pool
    }

    /// Ids are distinct, the pool is well formed, and every channel identifier a
    /// registered VM carries is held in the pool.
    pub open spec fn wf(&self) -> bool {
        &&& self.pool().wf()
        &&& ids_unique(self.entries())
        &&& forall|i: int|
            #![trigger self.entries()[i]]
            0 <= i < self.entries().len() ==> (self.entries()[i].cid matches Some(c)
                ==> self.pool().held().contains(c))
    }

    /// An empty table over `pool`.
    pub fn new(pool: IdPool) -> (r: AppState)
        requires
            pool.wf(),
        ensures
            r.wf(),
            r.pool() == pool,
            r.table() == Map::<Seq<char>, VmConfigModel>::empty(),
            r.entries().len() == 0,
    {
        let r = AppState { cid_pool: pool, vms: Vec::new() };
        assert(r.entries() =~= Seq::<VmConfigModel>::empty());
        assert(r.table() =~= Map::<Seq<char>, VmConfigModel>::empty());
        r
    }

    /// The index of the VM with id `id`.
    fn find(&self, id: &String) -> (r: Option<usize>)
        requires
            ids_unique(self.entries()),
        ensures
            r matches Some(i) ==> i < self.entries().len() && self.entries()[i as int].manifest.id == id@,
            r is None ==> !has_id(self.entries(), id@),
    {
        let mut i: usize = 0;
        while i < self.vms.len()
            invariant
                i <= self.vms@.len(),
                forall|j: int| 0 <= j < i ==> self.entries()[j].manifest.id != id@,
            decreases self.vms@.len() - i,
        {
            if self.vms[i].manifest.id == *id {
                return Some(i);
            }
            i = i + 1;
        }
        None
    }

    /// Inserts `vm` under its id, replacing a VM of the same id.
    pub fn add(&mut self, vm: VmConfig)
        requires
            old(self).wf(),
            vm@.cid matches Some(c) ==> old(self).pool().held().contains(c),
        ensures
            final(self).wf(),
            final(self).pool() == old(self).pool(),
            final(self).table() == old(self).table().insert(vm@.manifest.id, vm@),
    {
        let ghost v = vm@;
        let found = self.find(&vm.manifest.id);
        match found {
            Some(i) => {
                self.vms.set(i, vm);
                assert(self.entries() =~= old(self).entries().update(i as int, v));
            },
            None => {
                self.vms.push(vm);
                assert(self.entries() =~= old(self).entries().push(v));
            },
        }
        let ghost s = self.entries();
        let ghost o = old(self).entries();
        assert(ids_unique(s));
        assert forall|k: Seq<char>| #[trigger] self.table().contains_key(k) == old(self).table().insert(v.manifest.id, v).contains_key(k) by {
            if has_id(o, k) && k != v.manifest.id {
                let j = choose|j: int| 0 <= j < o.len() && #[trigger] o[j].manifest.id == k;
                assert(s[j] == o[j]);
            }
            if k == v.manifest.id {
                let j = if found is Some { found->0 as int } else { o.len() as int };
                assert(s[j].manifest.id == k);
            }
        };
        assert forall|k: Seq<char>| #[trigger] self.table().contains_key(k) implies self.table()[k] == old(self).table().insert(v.manifest.id, v)[k] by {
            let j = choose|j: int| 0 <= j < s.len() && #[trigger] s[j].manifest.id == k;
            lemma_table_at(s, j);
            if k != v.manifest.id {
                assert(s[j] == o[j]);
                lemma_table_at(o, j);
            }
        };
        assert(self.table() =~= old(self).table().insert(v.manifest.id, v));
    }

    /// A copy of the VM with id `id`.
    pub fn get(&self, id: &String) -> (r: Option<VmConfig>)
        requires
            self.wf(),
        ensures
            r is Some <==> self.table().contains_key(id@),
            r matches Some(c) ==> c@ == self.table()[id@],
    {
        match self.find(id) {
            Some(i) => {
                proof { lemma_table_at(self.entries(), i as int); }
                Some(self.vms[i].duplicate())
            },
            None => None,
        }
    }

    /// Takes the VM with id `id` out of the table; the pool is left as it is.
    pub fn remove(&mut self, id: &String) -> (r: Option<VmConfig>)
        requires
            old(self).wf(),
        ensures
            final(self).wf(),
            final(self).pool() == old(self).pool(),
            final(self).table() == old(self).table().remove(id@),
            r is Some <==> old(self).table().contains_key(id@),
            r matches Some(c) ==> c@ == old(self).table()[id@],
    {
        match self.find(id) {
            Some(i) => {
                let ghost o = old(self).entries();
                proof { lemma_table_at(o, i as int); }
                let c = self.vms.remove(i);
                let ghost s = self.entries();
                assert(s =~= o.remove(i as int));
                assert forall|k: Seq<char>| #[trigger] self.table().contains_key(k) == old(self).table().remove(id@).contains_key(k) by {
                    if has_id(o, k) && k != id@ {
                        let j = choose|j: int| 0 <= j < o.len() && #[trigger] o[j].manifest.id == k;
                        if j < i {
                            assert(s[j] == o[j]);
                        } else {
                            assert(s[j - 1] == o[j]);
                        }
                    }
                };
                assert forall|k: Seq<char>| #[trigger] self.table().contains_key(k) implies self.table()[k] == old(self).table().remove(id@)[k] by {
                    let j = choose|j: int| 0 <= j < s.len() && #[trigger] s[j].manifest.id == k;
                    lemma_table_at(s, j);
                    if j < i {
                        assert(s[j] == o[j]);
                        lemma_table_at(o, j);
                    } else {
                        assert(s[j] == o[j + 1]);
                        lemma_table_at(o, j + 1);
                    }
                };
                assert(self.table() =~= old(self).table().remove(id@));
                Some(c)
            },
            None => {
                assert(old(self).table().remove(id@) =~= old(self).table());
                None
            },
        }
    }

    /// Takes the lowest free channel identifier from the pool.
    pub fn allocate_cid(&mut self) -> (r: Option<u32>)
        requires
            old(self).wf(),
        ensures
            final(self).wf(),
            final(self).table() == old(self).table(),
            IdPool::allocate_post(old(self).pool(), final(self).pool(), r),
    {
        let r = self.cid_pool.allocate();
        assert(self.entries() == old(self).entries());
        r
    }

    /// Marks channel identifier `c` as held.
    pub fn occupy_cid(&mut self, c: u32) -> (r: Result<(), PoolError>)
        requires
            old(self).wf(),
        ensures
            final(self).wf(),
            final(self).table() == old(self).table(),
            IdPool::occupy_post(old(self).pool(), c, final(self).pool(), r),
    {
        let r = self.cid_pool.occupy(c);
        assert(self.entries() == old(self).entries());
        r
    }

    /// Whether a registered VM carries channel identifier `c`.
    fn carries_cid(&self, c: u32) -> (r: bool)
        ensures
            r == exists|i: int| 0 <= i < self.entries().len() && #[trigger] self.entries()[i].cid == Some(c),
    {
        let mut i: usize = 0;
        while i < self.vms.len()
            invariant
                i <= self.vms@.len(),
                forall|j: int| 0 <= j < i ==> self.entries()[j].cid != Some(c),
            decreases self.vms@.len() - i,
        {
            if let Some(t) = self.vms[i].tdx_config {
                if t.cid == c {
                    assert(self.entries()[i as int].cid == Some(c));
                    return true;
                }
            }
            assert(self.entries()[i as int].cid != Some(c));
            i = i + 1;
        }
        false
    }

    /// Releases channel identifier `c`, unless a registered VM still carries it.
    pub fn free_cid(&mut self, c: u32)
        requires
            old(self).wf(),
        ensures
            final(self).wf(),
            final(self).table() == old(self).table(),
            final(self).pool().start_spec() == old(self).pool().start_spec(),
            final(self).pool().end_spec() == old(self).pool().end_spec(),
            carried(old(self).table(), c) ==> final(self).pool() == old(self).pool(),
            !carried(old(self).table(), c) ==> IdPool::free_post(old(self).pool(), c, final(self).pool()),
    {
        let carries = self.carries_cid(c);
        proof {
            lemma_entries_are_table(*self);
            if carries {
                let i = choose|i: int| 0 <= i < self.entries().len() && #[trigger] self.entries()[i].cid == Some(c);
                assert(self.table()[self.entries()[i].manifest.id].cid == Some(c));
            } else if carried(self.table(), c) {
                let k = choose|k: Seq<char>| self.table().contains_key(k) && (#[trigger] self.table()[k]).cid == Some(c);
                let i = choose|i: int| 0 <= i < self.entries().len() && #[trigger] self.entries()[i].manifest.id == k;
                assert(self.entries()[i].cid == Some(c));
            }
        }
        if carries {
            return;
        }
        self.cid_pool.free(c);
        assert(self.entries() == old(self).entries());
    }

    /// Copies of every registered VM, one per id.
    pub fn iter_vms(&self) -> (r: Vec<VmConfig>)
        requires
            self.wf(),
        ensures
            views_of(r@) == self.entries(),
    {
        let mut r: Vec<VmConfig> = Vec::new();
        let mut i: usize = 0;
        while i < self.vms.len()
            invariant
                i <= self.vms@.len(),
                r@.len() == i,
                views_of(r@) == self.entries().subrange(0, i as int),
            decreases self.vms@.len() - i,
        {
            let ghost before = r@;
            let c = self.vms[i].duplicate();
            r.push(c);
            proof {
                assert forall|k: int| 0 <= k <= i implies #[trigger] views_of(r@)[k] == self.entries()[k] by {
                    if k < i {
                        assert(r@[k] == before[k]);
                        assert(views_of(before)[k] == self.entries().subrange(0, i as int)[k]);
                    }
                };
            }
            i = i + 1;
            assert(views_of(r@) =~= self.entries().subrange(0, i as int));
        }
        assert(self.entries().subrange(0, i as int) =~= self.entries());
        r
    }
}

/// The registered entries are exactly the table: each has a distinct id and
/// the table maps that id to it.
pub proof fn lemma_entries_are_table(st: AppState)
    requires
        st.wf(),
    ensures
        forall|i: int|
            0 <= i < st.entries().len() ==> #[trigger] st.table()[st.entries()[i].manifest.id]
                == st.entries()[i],
        forall|k: Seq<char>|
            #[trigger] st.table().contains_key(k) ==> has_id(st.entries(), k),
{
    assert forall|i: int| 0 <= i < st.entries().len() implies #[trigger] st.table()[st.entries()[i].manifest.id] == st.entries()[i] by {
        lemma_table_at(st.entries(), i);
    };
}

} // verus!
