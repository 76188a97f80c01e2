//! The orchestrator: the decisions of VM registration, start, removal,
//! reconciliation and listing. The file and supervisor work around them is
//! done by the caller, which hands in what it read and performs what comes back.
use vstd::prelude::*;
use vstd::seq_lib::{to_multiset_build, to_multiset_insert};
use crate::id_pool::{IdPool, id_range};
use crate::model::{
    AppError, Image, ImageModel, Manifest, ManifestModel, ProcessModel, ProcessRecord,
    TdxConfig, VmConfig, VmConfigModel, VmInfo, VmInfoModel, merged,
};
use crate::registry::{AppState, carried};

verus! {

/// Settings of the orchestrator.
#[derive(Debug)]
pub struct AppConfig {
    /// First channel identifier of the pool.
    pub cid_start: u32,
    /// Number of channel identifiers in the pool.
    pub cid_pool_size: u32,
    /// Largest disk size a VM may ask for.
    pub max_disk_size: u32,
    /// Directory holding one work directory per VM.
    pub run_path: String,
    /// Directory holding one directory per image.
    pub image_path: String,
    /// The virtual machine monitor binary.
    pub qemu_path: String,
}

/// What was read from one VM's work directory.
#[derive(Debug)]
pub struct LoadedVm {
    pub manifest: Manifest,
    pub image: Image,
    pub started: bool,
}

pub struct LoadedVmModel {
    pub manifest: ManifestModel,
    pub image: ImageModel,
    pub started: bool,
}

impl View for LoadedVm {
    type V = LoadedVmModel;

    open spec fn view(&self) -> LoadedVmModel {
        LoadedVmModel { manifest: self.manifest@, image: self.image@, started: self.started }
    }
}

/// The view of a list of (VM id, channel identifier) pairs.
pub open spec fn pairs_view(v: Seq<(String, u32)>) -> Seq<(Seq<char>, u32)> {
    v.map_values(|p: (String, u32)| (p.0@, p.1))
}

/// The identifier paired with `id`; the last pair wins.
pub open spec fn assigned_in(s: Seq<(Seq<char>, u32)>, id: Seq<char>) -> Option<u32>
    decreases s.len(),
{
    if s.len() == 0 {
        None
    } else if s.last().0 == id {
        Some(s.last().1)
    } else {
        assigned_in(s.drop_last(), id)
    }
}

/// An identifier that `assigned_in` gives is one of the pairs'.
pub proof fn lemma_assigned_in_pairs(s: Seq<(Seq<char>, u32)>, id: Seq<char>)
    ensures
        assigned_in(s, id) matches Some(c) ==> exists|k: int| 0 <= k < s.len() && #[trigger] s[k].1 == c,
    decreases s.len(),
{
    if s.len() > 0 && s.last().0 != id {
        lemma_assigned_in_pairs(s.drop_last(), id);
        if let Some(c) = assigned_in(s, id) {
            let k = choose|k: int| 0 <= k < s.drop_last().len() && #[trigger] s.drop_last()[k].1 == c;
            assert(s[k].1 == c);
        }
    } else if s.len() > 0 {
        assert(s[s.len() - 1].1 == s.last().1);
    }
}

/// The (id, identifier) pairs of the live processes that carry an identifier, in order.
pub open spec fn live_pairs(live: Seq<ProcessModel>) -> Seq<(Seq<char>, u32)>
    decreases live.len(),
{
    if live.len() == 0 {
        Seq::empty()
    } else {
        let rest = live_pairs(live.drop_last());
        match live.last().cid {
            Some(c) => rest.push((live.last().id, c)),
            None => rest,
        }
    }
}

/// The view of a list of process records.
pub open spec fn procs_view(v: Seq<ProcessRecord>) -> Seq<ProcessModel> {
    v.map_values(|p: ProcessRecord| p@)
}

/// The (id, channel identifier) pairs of the live processes that carry one.
pub fn occupied_cids(live: &Vec<ProcessRecord>) -> (r: Vec<(String, u32)>)
    ensures
        pairs_view(r@) == live_pairs(procs_view(live@)),
{
    let mut r: Vec<(String, u32)> = Vec::new();
    let mut i: usize = 0;
    while i < live.len()
        invariant
            i <= live@.len(),
            pairs_view(r@) == live_pairs(procs_view(live@.subrange(0, i as int))),
        decreases live@.len() - i,
    {
        let ghost before = r@;
        if let Some(c) = live[i].cid {
            r.push((live[i].id.clone(), c));
            assert(pairs_view(r@) =~= pairs_view(before).push((live@[i as int].id@, c)));
        }
        assert(procs_view(live@.subrange(0, i + 1)).drop_last() =~= procs_view(live@.subrange(0, i as int)));
        i = i + 1;
    }
    assert(live@.subrange(0, i as int) =~= live@);
    r
}

/// The identifier paired with `id` in `occupied`; the last pair wins.
pub fn assigned_cid(occupied: &Vec<(String, u32)>, id: &String) -> (r: Option<u32>)
    ensures
        r == assigned_in(pairs_view(occupied@), id@),
{
    let mut r: Option<u32> = None;
    let mut i: usize = 0;
    while i < occupied.len()
        invariant
            i <= occupied@.len(),
            r == assigned_in(pairs_view(occupied@.subrange(0, i as int)), id@),
        decreases occupied@.len() - i,
    {
        assert(pairs_view(occupied@.subrange(0, i + 1)).drop_last() =~= pairs_view(occupied@.subrange(0, i as int)));
        if occupied[i].0 == *id {
            r = Some(occupied[i].1);
        }
        i = i + 1;
    }
    assert(occupied@.subrange(0, i as int) =~= occupied@);
    r
}

/// The views of what was read from the work directories.
pub open spec fn loads_view(v: Seq<Result<LoadedVm, AppError>>) -> Seq<Result<LoadedVmModel, AppError>> {
    v.map_values(
        |e: Result<LoadedVm, AppError>|
            match e {
                Ok(vm) => Ok(vm@),
                Err(err) => Err(err),
            },
    )
}

/// How the outcome `o` of loading one read work directory `e` relates to it:
/// a failed read is passed on, a disk over `max` is refused, and a VM within the
/// limit is registered unless the pool ran out.
pub open spec fn entry_outcome(max: u32, e: Result<LoadedVmModel, AppError>, o: Result<bool, AppError>) -> bool {
    match e {
        Err(err) => o == Err::<bool, AppError>(err),
        Ok(vm) => {
            &&& (o matches Ok(b) ==> b == vm.started)
            &&& (vm.manifest.disk_size > max ==> o == Err::<bool, AppError>(AppError::InvalidConfig))
            &&& (vm.manifest.disk_size <= max ==> o is Ok || o == Err::<bool, AppError>(AppError::Exhausted))
        },
    }
}

/// Entry `j` was registered, under id `k`.
pub open spec fn loaded_as(
    ev: Seq<Result<LoadedVmModel, AppError>>,
    out: Seq<Result<bool, AppError>>,
    j: int,
    k: Seq<char>,
) -> bool {
    &&& out[j] is Ok
    &&& ev[j] matches Ok(vm)
    &&& vm.manifest.id == k
}

/// The ids under which the first `n` entries were registered.
pub open spec fn loaded_ids(
    ev: Seq<Result<LoadedVmModel, AppError>>,
    out: Seq<Result<bool, AppError>>,
    n: int,
) -> Set<Seq<char>> {
    Set::new(|k: Seq<char>| exists|j: int| 0 <= j < n && #[trigger] loaded_as(ev, out, j, k))
}

/// The channel identifier `cid` that VM `k` got in a reload whose live pairs
/// are `pairs`: the live one paired with `k`, or else one no live process holds.
pub open spec fn reload_cid(pairs: Seq<(Seq<char>, u32)>, k: Seq<char>, cid: Option<u32>) -> bool {
    &&& cid is Some
    &&& match assigned_in(pairs, k) {
        Some(a) => cid == Some(a),
        None => forall|j: int| 0 <= j < pairs.len() ==> Some(#[trigger] pairs[j].1) != cid,
    }
}

/// There are no more pairs than processes.
pub proof fn lemma_live_pairs_len(live: Seq<ProcessModel>)
    ensures
        live_pairs(live).len() <= live.len(),
    decreases live.len(),
{
    if live.len() > 0 {
        lemma_live_pairs_len(live.drop_last());
    }
}

/// The record of the last live process with id `id`, as a map keyed by id keeps it.
pub open spec fn process_of(live: Seq<ProcessModel>, id: Seq<char>) -> Option<ProcessModel>
    decreases live.len(),
{
    if live.len() == 0 {
        None
    } else if live.last().id == id {
        Some(live.last())
    } else {
        process_of(live.drop_last(), id)
    }
}

/// The record of the last live process with id `id`.
pub fn find_process<'a>(live: &'a Vec<ProcessRecord>, id: &String) -> (r: Option<&'a ProcessRecord>)
    ensures
        match r {
            Some(p) => Some(p@),
            None => None,
        } == process_of(procs_view(live@), id@),
{
    let mut r: Option<&'a ProcessRecord> = None;
    let mut i: usize = 0;
    while i < live.len()
        invariant
            i <= live@.len(),
            match r {
                Some(p) => Some(p@),
                None => None,
            } == process_of(procs_view(live@.subrange(0, i as int)), id@),
        decreases live@.len() - i,
    {
        assert(procs_view(live@.subrange(0, i + 1)).drop_last() =~= procs_view(live@.subrange(0, i as int)));
        if live[i].id == *id {
            r = Some(&live[i]);
        }
        i = i + 1;
    }
    assert(live@.subrange(0, i as int) =~= live@);
    r
}

/// The views of a list of strings.
pub open spec fn strs_view(v: Seq<String>) -> Seq<Seq<char>> {
    v.map_values(|s: String| s@)
}

/// Whether `ids` holds `id`.
pub fn contains_id(ids: &Vec<String>, id: &String) -> (r: bool)
    ensures
        r == strs_view(ids@).contains(id@),
{
    let mut i: usize = 0;
    while i < ids.len()
        invariant
            i <= ids@.len(),
            forall|j: int| 0 <= j < i ==> ids@[j]@ != id@,
        decreases ids@.len() - i,
    {
        if ids[i] == *id {
            assert(strs_view(ids@)[i as int] == id@);
            return true;
        }
        i = i + 1;
    }
    assert(!strs_view(ids@).contains(id@)) by {
        if strs_view(ids@).contains(id@) {
            let j = choose|j: int| 0 <= j < strs_view(ids@).len() && strs_view(ids@)[j] == id@;
            assert(ids@[j]@ == id@);
        }
    };
    false
}

/// The views of a list of listing records.
pub open spec fn infos_view(v: Seq<VmInfo>) -> Seq<VmInfoModel> {
    v.map_values(|i: VmInfo| i@)
}

/// The records are in ascending order of creation time.
pub open spec fn sorted_by_creation(s: Seq<VmInfoModel>) -> bool {
    forall|a: int, b: int|
        0 <= a < b < s.len() ==> (#[trigger] s[a]).manifest.created_at_ms <= (#[trigger] s[b]).manifest.created_at_ms
}

/// The listing record of VM `c` among live processes `live`, with the ids in
/// `started` flagged started.
pub open spec fn listed(c: VmConfigModel, live: Seq<ProcessModel>, started: Seq<Seq<char>>) -> VmInfoModel {
    merged(c, process_of(live, c.manifest.id), started.contains(c.manifest.id))
}

/// The listing records of `entries`, in their order.
pub open spec fn listed_all(
    entries: Seq<VmConfigModel>,
    live: Seq<ProcessModel>,
    started: Seq<Seq<char>>,
) -> Seq<VmInfoModel> {
    entries.map_values(|c: VmConfigModel| listed(c, live, started))
}

/// Inserts `x` after every record created no later than it.
fn insert_by_creation(out: &mut Vec<VmInfo>, x: VmInfo)
    requires
        sorted_by_creation(infos_view(old(out)@)),
    ensures
        sorted_by_creation(infos_view(final(out)@)),
        infos_view(final(out)@).to_multiset() == infos_view(old(out)@).to_multiset().insert(x@),
{
    let key = x.manifest.created_at_ms;
    let mut p: usize = 0;
    while p < out.len() && out[p].manifest.created_at_ms <= key
        invariant
            p <= out@.len(),
            forall|j: int| 0 <= j < p ==> (#[trigger] out@[j]).manifest.created_at_ms <= key,
        decreases out@.len() - p,
    {
        p = p + 1;
    }
    let ghost before = infos_view(out@);
    let ghost xv = x@;
    out.insert(p, x);
    proof {
        assert(infos_view(out@) =~= before.insert(p as int, xv));
        to_multiset_insert(before, p as int, xv);
        let s = infos_view(out@);
        assert forall|a: int, b: int| 0 <= a < b < s.len() implies (#[trigger] s[a]).manifest.created_at_ms <= (#[trigger] s[b]).manifest.created_at_ms by {
            if b < p {
                assert(s[a] == before[a] && s[b] == before[b]);
            } else if b == p {
                assert(s[a] == before[a]);
            } else if a == p {
                assert(s[b] == before[b - 1]);
                if p < before.len() {
                    assert(before[p as int] == s[p + 1]);
                }
                assert(b - 1 >= p);
                if b - 1 > p {
                    assert(before[p as int].manifest.created_at_ms <= before[b - 1].manifest.created_at_ms);
                }
            } else if a < p {
                assert(s[a] == before[a] && s[b] == before[b - 1]);
            } else {
                assert(s[a] == before[a - 1] && s[b] == before[b - 1]);
            }
        };
    }
}

/// The ids of the entries that were read and are within the disk limit `max`.
pub open spec fn valid_ids(max: u32, entries: Seq<Result<LoadedVmModel, AppError>>) -> Set<Seq<char>> {
    Set::new(
        |k: Seq<char>|
            exists|j: int|
                0 <= j < entries.len() && (#[trigger] entries[j] matches Ok(vm) && vm.manifest.disk_size <= max
                    && vm.manifest.id == k),
    )
}

/// When every live identifier lies in the pool and the pool has room for all of
/// them and every entry, reconciliation succeeds, loads exactly the entries that
/// were read and are within the disk limit, skips the others without failing,
/// and reports each loaded VM's started flag so that a flagged VM is launched again.
pub proof fn lemma_reload_recovers_valid(
    old: App,
    live: Seq<ProcessModel>,
    entries: Seq<Result<LoadedVmModel, AppError>>,
    new: App,
    r: Result<Vec<Result<bool, AppError>>, AppError>,
)
    requires
        old.wf(),
        new.wf(),
        App::reload_post(old, live, entries, new, r),
        forall|k: int| 0 <= k < live_pairs(live).len() ==> old.pool().range().contains(#[trigger] live_pairs(live)[k].1),
        old.pool().held().len() + live.len() + entries.len() < old.pool().end_spec() - old.pool().start_spec(),
    ensures
        r matches Ok(out) && {
            &&& forall|j: int| 0 <= j < entries.len() ==> (#[trigger] out@[j] is Ok <==> (entries[j] matches Ok(vm) && vm.manifest.disk_size <= old.settings().max_disk_size))
            &&& forall|j: int| 0 <= j < entries.len() ==> (#[trigger] out@[j] is Ok ==> out@[j] == Ok::<bool, AppError>(entries[j]->Ok_0.started))
            &&& new.table().dom() == old.table().dom().union(valid_ids(old.settings().max_disk_size, entries))
        },
{
    let max = old.settings().max_disk_size;
    new.pool().lemma_full_iff_count();
    if let Ok(out) = r {
        assert forall|j: int| 0 <= j < entries.len() implies (#[trigger] out@[j] is Ok <==> (entries[j] matches Ok(vm) && vm.manifest.disk_size <= max)) by {
            assert(entry_outcome(max, entries[j], out@[j]));
            if out@[j] == Err::<bool, AppError>(AppError::Exhausted) && entries[j] is Ok {
                assert(new.pool().is_full());
            }
        };
        assert forall|k: Seq<char>| #[trigger] loaded_ids(entries, out@, entries.len() as int).contains(k) == valid_ids(max, entries).contains(k) by {
            if loaded_ids(entries, out@, entries.len() as int).contains(k) {
                let j = choose|j: int| 0 <= j < entries.len() && #[trigger] loaded_as(entries, out@, j, k);
                assert(out@[j] is Ok);
                assert(entries[j] matches Ok(vm) && vm.manifest.disk_size <= max && vm.manifest.id == k);
            }
            if valid_ids(max, entries).contains(k) {
                let j = choose|j: int| 0 <= j < entries.len() && (#[trigger] entries[j] matches Ok(vm) && vm.manifest.disk_size <= max && vm.manifest.id == k);
                assert(out@[j] is Ok);
                assert(loaded_as(entries, out@, j, k));
            }
        };
        assert(loaded_ids(entries, out@, entries.len() as int) =~= valid_ids(max, entries));
    }
}

/// The orchestrator's state: its settings and the registry.
pub struct App {
    config: AppConfig,
    state: AppState,
}

impl App {
    /// The orchestrator's settings.
    pub closed spec fn settings(&self) -> AppConfig {
        self.config
    }

    /// The orchestrator's settings.
    pub fn config(&self) -> (r: &AppConfig)
        ensures
            *r == self.settings(),
    {
        &self.config
    }

    pub closed spec fn registry(&self) -> AppState {
        self.state
    }

    /// The registered VMs, keyed by id.
    pub open spec fn table(&self) -> Map<Seq<char>, VmConfigModel> {
        self.registry().table()
    }

    /// The channel identifier pool.
    pub open spec fn pool(&self) -> IdPool {
        self.registry().pool()
    }

    pub open spec fn wf(&self) -> bool {
        self.registry().wf()
    }

    /// An orchestrator with no VM, whose pool covers `cid_pool_size` identifiers
    /// from `cid_start`, cut at the largest `u32`.
    pub fn new(config: AppConfig) -> (r: App)
        ensures
            r.wf(),
            r.settings() == config,
            r.table() == Map::<Seq<char>, VmConfigModel>::empty(),
            r.pool().held() == Set::<u32>::empty(),
            r.pool().range() == id_range(
                config.cid_start,
                if config.cid_start + config.cid_pool_size > u32::MAX {
                    u32::MAX
                } else {
                    (config.cid_start + config.cid_pool_size) as u32
                },
            ),
    {
        let cid_start = config.cid_start;
        let cid_end = cid_start.saturating_add(config.cid_pool_size);
        let cid_pool = IdPool::new(cid_start, cid_end);
        App { config, state: AppState::new(cid_pool) }
    }

    /// Registers a VM read from its work directory. Its channel identifier is
    /// the one `occupied` pairs with its id, marked held, or else a fresh one.
    /// A disk size over the limit is refused before any identifier is taken.
    /// Returns whether the VM is flagged to be started.
    pub fn load_vm(&mut self, vm: &LoadedVm, occupied: &Vec<(String, u32)>) -> (r: Result<bool, AppError>)
        requires
            old(self).wf(),
        ensures
            final(self).wf(),
            final(self).settings() == old(self).settings(),
            App::load_post(*old(self), vm@, pairs_view(occupied@), *final(self), r),
    {
        if vm.manifest.disk_size > self.config.max_disk_size {
            return Err(AppError::InvalidConfig);
        }
        let cid: u32 = match assigned_cid(occupied, &vm.manifest.id) {
            Some(c) => {
                match self.state.occupy_cid(c) {
                    Ok(()) => c,
                    Err(_) => {
                        return Err(AppError::InvalidConfig);
                    },
                }
            },
            None => {
                match self.state.allocate_cid() {
                    Some(c) => c,
                    None => {
                        return Err(AppError::Exhausted);
                    },
                }
            },
        };
        let started = vm.started;
        let config = VmConfig {
            manifest: vm.manifest.duplicate(),
            image: vm.image.duplicate(),
            tdx_config: Some(TdxConfig { cid }),
        };
        self.state.add(config);
        Ok(started)
    }

    /// Rebuilds the registry after a restart. First every channel identifier a
    /// live process carries is marked held; then each work directory that was
    /// read is loaded with those identifiers. A directory that could not be read
    /// or loaded is passed over. Fails, with `InvalidConfig`, when a live
    /// identifier lies outside the pool. Returns the outcome of each load.
    pub fn reload_vms(
        &mut self,
        live: &Vec<ProcessRecord>,
        entries: &Vec<Result<LoadedVm, AppError>>,
    ) -> (r: Result<Vec<Result<bool, AppError>>, AppError>)
        requires
            old(self).wf(),
        ensures
            final(self).wf(),
            final(self).settings() == old(self).settings(),
            App::reload_post(*old(self), procs_view(live@), loads_view(entries@), *final(self), r),
    {
        let occupied = occupied_cids(live);
        let ghost pairs = pairs_view(occupied@);
        proof {
            lemma_live_pairs_len(procs_view(live@));
            old(self).pool().lemma_held_in_range();
        }
        let mut k: usize = 0;
        while k < occupied.len()
            invariant
                self.wf(),
                self.settings() == old(self).settings(),
                self.table() == old(self).table(),
                self.pool().start_spec() == old(self).pool().start_spec(),
                self.pool().end_spec() == old(self).pool().end_spec(),
                pairs == pairs_view(occupied@),
                pairs == live_pairs(procs_view(live@)),
                pairs.len() == occupied@.len(),
                k <= occupied@.len(),
                forall|x: u32| old(self).pool().held().contains(x) ==> self.pool().held().contains(x),
                forall|j: int| 0 <= j < k ==> old(self).pool().range().contains(#[trigger] pairs[j].1),
                forall|j: int| 0 <= j < k ==> self.pool().held().contains(#[trigger] pairs[j].1),
                self.pool().held().finite(),
                self.pool().held().len() <= old(self).pool().held().len() + k,
            decreases occupied@.len() - k,
        {
            let c = occupied[k].1;
            assert(pairs[k as int].1 == c);
            match self.state.occupy_cid(c) {
                Ok(()) => {},
                Err(_) => {
                    assert(!old(self).pool().range().contains(pairs[k as int].1));
                    assert(live_pairs(procs_view(live@))[k as int].1 == c);
                    return Err(AppError::InvalidConfig);
                },
            }
            proof {
                self.pool().lemma_held_in_range();
            }
            k = k + 1;
        }
        let ghost mid = *self;
        let ghost ev = loads_view(entries@);
        let mut out: Vec<Result<bool, AppError>> = Vec::new();
        let mut i: usize = 0;
        proof {
            assert(mid.table() == old(self).table());
            assert(loaded_ids(ev, out@, 0) =~= Set::<Seq<char>>::empty());
            assert(self.table().dom() =~= old(self).table().dom().union(loaded_ids(ev, out@, 0)));
        }
        while i < entries.len()
            invariant
                self.wf(),
                self.settings() == old(self).settings(),
                self.pool().start_spec() == old(self).pool().start_spec(),
                self.pool().end_spec() == old(self).pool().end_spec(),
                pairs == pairs_view(occupied@),
                pairs == live_pairs(procs_view(live@)),
                pairs.len() == occupied@.len(),
                ev == loads_view(entries@),
                i <= entries@.len(),
                out@.len() == i,
                forall|j: int| 0 <= j < pairs.len() ==> old(self).pool().range().contains(#[trigger] pairs[j].1),
                forall|j: int| 0 <= j < pairs.len() ==> mid.pool().held().contains(#[trigger] pairs[j].1),
                forall|x: u32| mid.pool().held().contains(x) ==> self.pool().held().contains(x),
                forall|x: u32| old(self).pool().held().contains(x) ==> mid.pool().held().contains(x),
                forall|j: int| 0 <= j < i ==> entry_outcome(old(self).settings().max_disk_size, ev[j], #[trigger] out@[j]),
                forall|j: int| 0 <= j < i ==> #[trigger] out@[j] == Err::<bool, AppError>(AppError::Exhausted) && ev[j] is Ok ==> self.pool().is_full(),
                self.table().dom() == old(self).table().dom().union(loaded_ids(ev, out@, i as int)),
                forall|kk: Seq<char>| #[trigger] loaded_ids(ev, out@, i as int).contains(kk) ==> reload_cid(pairs, kk, self.table()[kk].cid),
                forall|kk: Seq<char>| old(self).table().contains_key(kk) && !loaded_ids(ev, out@, i as int).contains(kk) ==> #[trigger] self.table()[kk] == old(self).table()[kk],
                self.pool().held().finite(),
                mid.pool().held().len() <= old(self).pool().held().len() + pairs.len(),
                self.pool().held().len() <= mid.pool().held().len() + i,
            decreases entries@.len() - i,
        {
            let ghost before = *self;
            let o: Result<bool, AppError> = match &entries[i] {
                Ok(vm) => {
                    let o = self.load_vm(vm, &occupied);
                    proof {
                        assert(ev[i as int] == Ok::<LoadedVmModel, AppError>(vm@));
                        if o == Err::<bool, AppError>(AppError::Exhausted) {
                            assert forall|x: u32| #[trigger] self.pool().range().contains(x) implies self.pool().held().contains(x) by {
                                assert(before.pool().range().contains(x));
                            };
                        }
                    }
                    o
                },
                Err(e) => {
                    assert(ev[i as int] == Err::<LoadedVmModel, AppError>(*e));
                    Err(*e)
                },
            };
            proof {
                self.pool().lemma_held_in_range();
                if let Ok(vm) = ev[i as int] {
                    if let Some(a) = assigned_in(pairs, vm.manifest.id) {
                        lemma_assigned_in_pairs(pairs, vm.manifest.id);
                    }
                }
            }
            let ghost out_before = out@;
            out.push(o);
            proof {
                assert forall|j: int| 0 <= j < i implies out@[j] == out_before[j] by {};
                assert forall|j: int| 0 <= j <= i && #[trigger] out@[j] == Err::<bool, AppError>(AppError::Exhausted) && ev[j] is Ok implies self.pool().is_full() by {
                    if j < i {
                        assert(out_before[j] == out@[j]);
                        assert forall|x: u32| #[trigger] self.pool().range().contains(x) implies self.pool().held().contains(x) by {
                            assert(before.pool().range().contains(x));
                        };
                    }
                };
                let ni = (i + 1) as int;
                assert forall|kk: Seq<char>| #[trigger] loaded_ids(ev, out@, ni).contains(kk) == (loaded_ids(ev, out_before, i as int).contains(kk) || loaded_as(ev, out@, i as int, kk)) by {
                    if loaded_ids(ev, out_before, i as int).contains(kk) {
                        let j = choose|j: int| 0 <= j < i && #[trigger] loaded_as(ev, out_before, j, kk);
                        assert(loaded_as(ev, out@, j, kk));
                    }
                    if loaded_ids(ev, out@, ni).contains(kk) {
                        let j = choose|j: int| 0 <= j < ni && #[trigger] loaded_as(ev, out@, j, kk);
                        if j < i {
                            assert(loaded_as(ev, out_before, j, kk));
                        }
                    }
                };
                assert(self.table().dom() =~= old(self).table().dom().union(loaded_ids(ev, out@, ni)));
                assert forall|kk: Seq<char>| #[trigger] loaded_ids(ev, out@, ni).contains(kk) implies reload_cid(pairs, kk, self.table()[kk].cid) by {
                    if let Ok(vm) = ev[i as int] {
                        if o is Ok && vm.manifest.id == kk {
                            if assigned_in(pairs, kk) is None {
                                assert forall|j: int| 0 <= j < pairs.len() implies Some(#[trigger] pairs[j].1) != self.table()[kk].cid by {
                                    assert(mid.pool().held().contains(pairs[j].1));
                                };
                            }
                        } else {
                            assert(loaded_ids(ev, out_before, i as int).contains(kk));
                        }
                    } else {
                        assert(loaded_ids(ev, out_before, i as int).contains(kk));
                    }
                };
                assert forall|kk: Seq<char>| old(self).table().contains_key(kk) && !loaded_ids(ev, out@, ni).contains(kk) implies #[trigger] self.table()[kk] == old(self).table()[kk] by {
                    assert(!loaded_ids(ev, out_before, i as int).contains(kk));
                    if let Ok(vm) = ev[i as int] {
                        if o is Ok {
                            assert(loaded_as(ev, out@, i as int, vm.manifest.id));
                        }
                    }
                };
            }
            i = i + 1;
        }
        Ok(out)
    }

    /// The configuration of VM `id`, to be launched once its started flag is set.
    /// Fails with `NotFound` when no such VM is registered.
    pub fn start_vm(&self, id: &String) -> (r: Result<VmConfig, AppError>)
        requires
            self.wf(),
        ensures
            r is Ok <==> self.table().contains_key(id@),
            r matches Ok(c) ==> c@ == self.table()[id@],
            r is Err ==> r == Err::<VmConfig, AppError>(AppError::NotFound),
    {
        match self.state.get(id) {
            Some(c) => Ok(c),
            None => Err(AppError::NotFound),
        }
    }

    /// Whether a VM whose supervisor record is `info` may be removed: not while it
    /// runs (`Conflict`). On success, whether the supervisor holds a record to remove.
    pub fn check_remove(info: &Option<ProcessRecord>) -> (r: Result<bool, AppError>)
        ensures
            r is Err <==> (info matches Some(p) && p.running),
            r is Err ==> r == Err::<bool, AppError>(AppError::Conflict),
            r matches Ok(b) ==> b == info is Some,
    {
        match info {
            Some(p) => {
                if p.running {
                    Err(AppError::Conflict)
                } else {
                    Ok(true)
                }
            },
            None => Ok(false),
        }
    }

    /// Takes VM `id` out of the registry and frees its channel identifier,
    /// unless another registered VM carries the same one.
    pub fn remove_vm(&mut self, id: &String) -> (r: Option<VmConfig>)
        requires
            old(self).wf(),
        ensures
            final(self).wf(),
            final(self).settings() == old(self).settings(),
            final(self).table() == old(self).table().remove(id@),
            r is Some <==> old(self).table().contains_key(id@),
            r matches Some(c) ==> c@ == old(self).table()[id@],
            final(self).pool().start_spec() == old(self).pool().start_spec(),
            final(self).pool().end_spec() == old(self).pool().end_spec(),
            match r {
                Some(c) => match c@.cid {
                    Some(x) => if carried(final(self).table(), x) {
                        final(self).pool().held() == old(self).pool().held()
                    } else {
                        final(self).pool().held() == old(self).pool().held().remove(x)
                    },
                    None => final(self).pool().held() == old(self).pool().held(),
                },
                None => final(self).pool().held() == old(self).pool().held(),
            },
    {
        let removed = self.state.remove(id);
        if let Some(c) = &removed {
            if let Some(t) = c.tdx_config {
                self.state.free_cid(t.cid);
            }
        }
        removed
    }

    /// The listing record of VM `id`, given its supervisor record and started
    /// flag; `None` when no such VM is registered.
    pub fn get_vm(&self, id: &String, process: &Option<ProcessRecord>, started: bool) -> (r: Option<VmInfo>)
        requires
            self.wf(),
        ensures
            r is Some <==> self.table().contains_key(id@),
            r matches Some(info) ==> info@ == merged(
                self.table()[id@],
                match process {
                    Some(p) => Some(p@),
                    None => None,
                },
                started,
            ),
    {
        match self.state.get(id) {
            Some(c) => {
                let p = match process {
                    Some(p) => Some(p),
                    None => None,
                };
                Some(c.merge_info(p, started))
            },
            None => None,
        }
    }

    /// The ids of the registered VMs, in storage order.
    pub fn vm_ids(&self) -> (r: Vec<String>)
        requires
            self.wf(),
        ensures
            strs_view(r@) == self.registry().entries().map_values(|c: VmConfigModel| c.manifest.id),
    {
        let vms = self.state.iter_vms();
        let ghost es = self.registry().entries();
        let mut r: Vec<String> = Vec::new();
        let mut i: usize = 0;
        while i < vms.len()
            invariant
                i <= vms@.len(),
                crate::registry::views_of(vms@) == es,
                r@.len() == i,
                strs_view(r@) == es.subrange(0, i as int).map_values(|c: VmConfigModel| c.manifest.id),
            decreases vms@.len() - i,
        {
            assert(vms@[i as int]@ == es[i as int]);
            let ghost before = r@;
            let id = vms[i].id().clone();
            assert(id@ == es[i as int].manifest.id);
            r.push(id);
            assert forall|k: int| 0 <= k <= i implies #[trigger] strs_view(r@)[k] == es[k].manifest.id by {
                if k < i {
                    assert(r@[k] == before[k]);
                    assert(strs_view(before)[k] == es.subrange(0, i as int).map_values(|c: VmConfigModel| c.manifest.id)[k]);
                }
            };
            i = i + 1;
            assert(strs_view(r@) =~= es.subrange(0, i as int).map_values(|c: VmConfigModel| c.manifest.id));
        }
        assert(es.subrange(0, i as int) =~= es);
        r
    }

    /// One listing record per registered VM, merged with the last live process
    /// of its id and flagged started when `started` holds its id, in ascending
    /// order of creation time.
    pub fn list_vms(&self, live: &Vec<ProcessRecord>, started: &Vec<String>) -> (r: Vec<VmInfo>)
        requires
            self.wf(),
        ensures
            sorted_by_creation(infos_view(r@)),
            infos_view(r@).to_multiset() == listed_all(
                self.registry().entries(),
                procs_view(live@),
                strs_view(started@),
            ).to_multiset(),
    {
        let vms = self.state.iter_vms();
        let ghost es = self.registry().entries();
        let ghost lv = procs_view(live@);
        let ghost sv = strs_view(started@);
        let mut out: Vec<VmInfo> = Vec::new();
        let mut i: usize = 0;
        assert(infos_view(out@) =~= Seq::<VmInfoModel>::empty());
        assert(listed_all(es.subrange(0, 0), lv, sv) =~= Seq::<VmInfoModel>::empty());
        while i < vms.len()
            invariant
                i <= vms@.len(),
                crate::registry::views_of(vms@) == es,
                lv == procs_view(live@),
                sv == strs_view(started@),
                sorted_by_creation(infos_view(out@)),
                infos_view(out@).to_multiset() == listed_all(es.subrange(0, i as int), lv, sv).to_multiset(),
            decreases vms@.len() - i,
        {
            let vm = &vms[i];
            assert(vm@ == es[i as int]);
            let vid = vm.id();
            let p = find_process(live, vid);
            let st = contains_id(started, vid);
            let info = vm.merge_info(p, st);
            assert(vid@ == es[i as int].manifest.id);
            assert(st == sv.contains(es[i as int].manifest.id));
            assert(info@ == listed(es[i as int], lv, sv));
            let ghost prev = listed_all(es.subrange(0, i as int), lv, sv);
            insert_by_creation(&mut out, info);
            proof {
                to_multiset_build(prev, listed(es[i as int], lv, sv));
            }
            assert(listed_all(es.subrange(0, i + 1), lv, sv) =~= listed_all(es.subrange(0, i as int), lv, sv).push(listed(es[i as int], lv, sv)));
            i = i + 1;
        }
        assert(es.subrange(0, i as int) =~= es);
        out
    }

    /// What `reload_vms(live, entries)` does: `old` and `new` are the
    /// orchestrator before and after, `r` what it returned.
    pub open spec fn reload_post(
        old: App,
        live: Seq<ProcessModel>,
        entries: Seq<Result<LoadedVmModel, AppError>>,
        new: App,
        r: Result<Vec<Result<bool, AppError>>, AppError>,
    ) -> bool {
        let pairs = live_pairs(live);
        &&& new.pool().start_spec() == old.pool().start_spec()
        &&& new.pool().end_spec() == old.pool().end_spec()
        &&& (r is Err <==> exists|k: int| 0 <= k < pairs.len() && !old.pool().range().contains(#[trigger] pairs[k].1))
        &&& (r is Err ==> r == Err::<Vec<Result<bool, AppError>>, AppError>(AppError::InvalidConfig) && new.table() == old.table())
        &&& (r matches Ok(out) ==> {
            &&& out@.len() == entries.len()
            &&& forall|j: int| 0 <= j < entries.len() ==> entry_outcome(old.settings().max_disk_size, entries[j], #[trigger] out@[j])
            &&& forall|j: int| 0 <= j < entries.len() ==> #[trigger] out@[j] == Err::<bool, AppError>(AppError::Exhausted) && entries[j] is Ok ==> new.pool().is_full()
            &&& forall|k: int| 0 <= k < pairs.len() ==> new.pool().held().contains(#[trigger] pairs[k].1)
            &&& forall|x: u32| old.pool().held().contains(x) ==> new.pool().held().contains(x)
            &&& new.table().dom() == old.table().dom().union(loaded_ids(entries, out@, entries.len() as int))
            &&& forall|k: Seq<char>| #[trigger] loaded_ids(entries, out@, entries.len() as int).contains(k) ==> reload_cid(pairs, k, new.table()[k].cid)
            &&& forall|k: Seq<char>| old.table().contains_key(k) && !loaded_ids(entries, out@, entries.len() as int).contains(k) ==> #[trigger] new.table()[k] == old.table()[k]
            &&& new.pool().held().len() <= old.pool().held().len() + live.len() + entries.len()
        })
    }

    /// What `load_vm(vm, occupied)` does: `old` and `new` are the orchestrator
    /// before and after, `r` what it returned.
    pub open spec fn load_post(
        old: App,
        vm: LoadedVmModel,
        occupied: Seq<(Seq<char>, u32)>,
        new: App,
        r: Result<bool, AppError>,
    ) -> bool {
        let id = vm.manifest.id;
        let assigned = assigned_in(occupied, id);
        &&& new.pool().start_spec() == old.pool().start_spec()
        &&& new.pool().end_spec() == old.pool().end_spec()
        &&& (r is Ok <==> vm.manifest.disk_size <= old.settings().max_disk_size && match assigned {
            Some(c) => old.pool().range().contains(c),
            None => !old.pool().is_full(),
        })
        &&& (r matches Ok(b) ==> b == vm.started)
        &&& (r matches Err(e) ==> e == if vm.manifest.disk_size > old.settings().max_disk_size {
            AppError::InvalidConfig
        } else if assigned is Some {
            AppError::InvalidConfig
        } else {
            AppError::Exhausted
        })
        &&& (r is Err ==> new.table() == old.table() && new.pool().held() == old.pool().held())
        &&& (r is Ok ==> {
            &&& new.table().contains_key(id)
            &&& new.table()[id].cid matches Some(c)
            &&& new.table() == old.table().insert(
                id,
                VmConfigModel { manifest: vm.manifest, image: vm.image, cid: Some(c) },
            )
            &&& new.pool().held() == old.pool().held().insert(c)
            &&& match assigned {
                Some(a) => c == a,
                None => !old.pool().held().contains(c) && old.pool().range().contains(c),
            }
        })
    }
}

} // verus!
