//! The auto-attach supervisor: which devices have a background attach
//! process, with the handle of each, and the set of device ids to persist.
//!
//! The supervisor does not start or kill processes itself. Its owner asks it
//! what to start, reports the handle of a process that did start, and kills
//! the handles that it hands back; after each change it saves `config()`.
use vstd::prelude::*;

use crate::command::{args_view, attach_args};
use crate::text::same_text;

verus! {

/// The persisted record: the devices that should have an auto-attach process.
#[derive(Debug)]
pub struct AutoAttachConfig {
    pub auto_attach_devices: Vec<String>,
}

impl AutoAttachConfig {
    /// A record with no device.
    pub fn empty() -> (r: AutoAttachConfig)
        ensures
            r.auto_attach_devices@.len() == 0,
    {
        AutoAttachConfig { auto_attach_devices: Vec::new() }
    }

    /// The ids of the record, as plain sequences.
    pub open spec fn ids(&self) -> Seq<Seq<char>> {
        args_view(self.auto_attach_devices@)
    }
}

/// The ids after a start of `id`: added at the end unless already there.
pub open spec fn started(ids: Seq<Seq<char>>, id: Seq<char>) -> Seq<Seq<char>> {
    if ids.contains(id) {
        ids
    } else {
        ids.push(id)
    }
}

/// The ids after a stop of `id`: the ids without `id`, in order.
pub open spec fn stopped(ids: Seq<Seq<char>>, id: Seq<char>) -> Seq<Seq<char>>
    decreases ids.len(),
{
    if ids.len() == 0 {
        ids
    } else if ids.last() == id {
        stopped(ids.drop_last(), id)
    } else {
        stopped(ids.drop_last(), id).push(ids.last())
    }
}

/// How many times `id` occurs in `ids`.
pub open spec fn count_of(ids: Seq<Seq<char>>, id: Seq<char>) -> nat
    decreases ids.len(),
{
    if ids.len() == 0 {
        0
    } else if ids.last() == id {
        1 + count_of(ids.drop_last(), id)
    } else {
        count_of(ids.drop_last(), id)
    }
}

/// `after` is `before` without one entry, the one for `id`, whose handle is `h`.
pub open spec fn entry_removed<H>(
    before: Seq<(Seq<char>, H)>,
    after: Seq<(Seq<char>, H)>,
    id: Seq<char>,
    h: H,
) -> bool {
    exists|i: int| 0 <= i < before.len() && before[i] == (id, h) && after == before.remove(i)
}

/// What to do on a request to start auto-attach for a device.
#[derive(Debug)]
pub enum StartPlan {
    /// A process already runs for the device: nothing to do.
    AlreadyRunning,
    /// Start a background process with these arguments, then report it.
    Spawn(Vec<String>),
}

/// Tracks one background auto-attach process per device id.
pub struct Supervisor<H> {
    entries: Vec<(String, H)>,
    config: AutoAttachConfig,
}

impl<H> Supervisor<H> {
    /// The held devices, in the order they were started, with their handles.
    pub closed spec fn entries(&self) -> Seq<(Seq<char>, H)> {
        self.entries@.map_values(|e: (String, H)| (e.0@, e.1))
    }

    /// The ids of the held devices.
    pub open spec fn running(&self) -> Seq<Seq<char>> {
        self.entries().map_values(|e: (Seq<char>, H)| e.0)
    }

    /// The ids in the persisted record.
    pub closed spec fn desired(&self) -> Seq<Seq<char>> {
        self.config.ids()
    }

    /// At most one process per id, and the persisted record holds exactly
    /// the held ids.
    pub open spec fn wf(&self) -> bool {
        &&& self.running().no_duplicates()
        &&& self.desired() == self.running()
    }

    /// A supervisor for a new run. The ids of the record loaded at startup
    /// are stale, since their processes did not outlive the run that started
    /// them: none is held, and the record to save is empty.
    pub fn new(_loaded: &AutoAttachConfig) -> (r: Supervisor<H>)
        ensures
            r.wf(),
            r.running().len() == 0,
            r.desired().len() == 0,
    {
        let r = Supervisor { entries: Vec::new(), config: AutoAttachConfig::empty() };
        assert(r.running() =~= Seq::<Seq<char>>::empty());
        assert(r.desired() =~= Seq::<Seq<char>>::empty());
        r
    }

    /// The record to persist.
    pub fn config(&self) -> (r: &AutoAttachConfig)
        ensures
            r.ids() == self.desired(),
    {
        &self.config
    }

    fn find(&self, bus_id: &str) -> (r: Option<usize>)
        ensures
            r matches Some(i) ==> i < self.entries().len() && self.running()[i as int] == bus_id@,
            r is None ==> !self.running().contains(bus_id@),
    {
        let mut i: usize = 0;
        while i < self.entries.len()
            invariant
                i <= self.entries@.len(),
                forall|k: int| 0 <= k < i ==> self.running()[k] != bus_id@,
            decreases self.entries@.len() - i,
        {
            if same_text(self.entries[i].0.as_str(), bus_id) {
                return Some(i);
            }
            i = i + 1;
        }
        None
    }

    /// Whether a process is held for the device.
    pub fn is_running(&self, bus_id: &str) -> (r: bool)
        ensures
            r == self.running().contains(bus_id@),
    {
        self.find(bus_id).is_some()
    }

    /// Whether the device is in the persisted record.
    pub fn is_desired(&self, bus_id: &str) -> (r: bool)
        ensures
            r == self.desired().contains(bus_id@),
    {
        let ids = &self.config.auto_attach_devices;
        let mut i: usize = 0;
        while i < ids.len()
            invariant
                i <= ids@.len(),
                ids == &self.config.auto_attach_devices,
                forall|k: int| 0 <= k < i ==> self.desired()[k] != bus_id@,
            decreases ids@.len() - i,
        {
            if same_text(ids[i].as_str(), bus_id) {
                assert(self.desired()[i as int] == bus_id@);
                return true;
            }
            i = i + 1;
        }
        false
    }

    /// Decides a request to start auto-attach for a device: nothing if a
    /// process is held for it, else the arguments of the process to start
    /// (an auto-attach to the guest `target`).
    pub fn plan_start(&self, bus_id: &str, target: &str) -> (r: StartPlan)
        ensures
            self.running().contains(bus_id@) ==> r is AlreadyRunning,
            !self.running().contains(bus_id@) ==> (r matches StartPlan::Spawn(args) && args_view(
                args@,
            ) == seq!["attach"@, "--wsl"@, target@, "--busid"@, bus_id@, "--auto-attach"@]),
    {
        if self.is_running(bus_id) {
            StartPlan::AlreadyRunning
        } else {
            StartPlan::Spawn(attach_args(target, bus_id, true))
        }
    }

    /// Records the process that was started for a device. If one is held
    /// for it already, nothing changes and the new handle is handed back, for
    /// the caller to stop; else the handle is held, the id joins the
    /// record, and the caller saves `config()`.
    pub fn record_start(&mut self, bus_id: &str, handle: H) -> (r: Option<H>)
        requires
            old(self).wf(),
        ensures
            final(self).wf(),
            final(self).running() == started(old(self).running(), bus_id@),
            final(self).desired() == started(old(self).desired(), bus_id@),
            old(self).running().contains(bus_id@) ==> r == Some(handle) && final(self).entries()
                == old(self).entries(),
            !old(self).running().contains(bus_id@) ==> r is None && final(self).entries() == old(
                self,
            ).entries().push((bus_id@, handle)),
    {
        if self.is_running(bus_id) {
            return Some(handle);
        }
        let ghost before = self.entries();
        let ghost ids = self.running();
        self.entries.push((String::from_str(bus_id), handle));
        self.config.auto_attach_devices.push(String::from_str(bus_id));
        proof {
            assert(self.entries() =~= before.push((bus_id@, handle)));
            assert(self.running() =~= ids.push(bus_id@));
            assert(self.desired() =~= ids.push(bus_id@));
            assert forall|a: int, b: int|
                0 <= a < self.running().len() && 0 <= b < self.running().len() && a != b implies
                self.running()[a] != self.running()[b] by {
                if a < ids.len() && b < ids.len() {
                } else if a == ids.len() {
                    assert(ids[b] == self.running()[b]);
                } else {
                    assert(ids[a] == self.running()[a]);
                }
            }
        }
        None
    }

    /// Stops tracking the device: hands back its process handle, for the
    /// caller to kill and reap, and drops the id from the record; the caller
    /// then saves `config()`. Nothing changes if no process is held for it.
    pub fn stop_auto_attach(&mut self, bus_id: &str) -> (r: Option<H>)
        requires
            old(self).wf(),
        ensures
            final(self).wf(),
            final(self).running() == stopped(old(self).running(), bus_id@),
            final(self).desired() == stopped(old(self).desired(), bus_id@),
            r is Some <==> old(self).running().contains(bus_id@),
            r matches Some(h) ==> entry_removed(old(self).entries(), final(self).entries(), bus_id@, h),
            r is None ==> final(self).entries() == old(self).entries(),
    {
        match self.find(bus_id) {
            None => {
                proof {
                    lemma_stopped_absent(self.running(), bus_id@);
                }
                None
            },
            Some(i) => {
                let ghost before = self.entries();
                let ghost ids = self.running();
                assert(self.config.auto_attach_devices@.len() == self.desired().len());
                let (_id, h) = self.entries.remove(i);
                let _ = self.config.auto_attach_devices.remove(i);
                proof {
                    assert(before[i as int] == (bus_id@, h));
                    assert(self.entries() =~= before.remove(i as int));
                    assert(self.running() =~= ids.remove(i as int));
                    assert(self.desired() =~= ids.remove(i as int));
                    lemma_stopped_unique(ids, i as int);
                }
                Some(h)
            },
        }
    }

    /// Stops tracking every device, as the run ends: hands back all the
    /// handles, in the order they were started, and leaves the record empty.
    /// A second call hands back nothing.
    pub fn shutdown_all(&mut self) -> (r: Vec<H>)
        requires
            old(self).wf(),
        ensures
            final(self).wf(),
            final(self).running().len() == 0,
            final(self).desired().len() == 0,
            r@ == old(self).entries().map_values(|e: (Seq<char>, H)| e.1),
    {
        let ghost before = self.entries();
        let mut out: Vec<H> = Vec::new();
        let mut taken = Vec::new();
        std::mem::swap(&mut taken, &mut self.entries);
        let mut k: usize = 0;
        let n = taken.len();
        let mut rest = taken;
        proof {
            assert(rest@.map_values(|e: (String, H)| (e.0@, e.1)) =~= before);
        }
        while rest.len() > 0
            invariant
                k + rest@.len() == n,
                before.len() == n,
                forall|m: int| 0 <= m < rest@.len() ==> (rest@[m].0@, rest@[m].1) == before[k + m],
                out@ == before.take(k as int).map_values(|e: (Seq<char>, H)| e.1),
            decreases rest@.len(),
        {
            let ghost old_rest = rest@;
            let (_id, h) = rest.remove(0);
            proof {
                assert(forall|m: int| 0 <= m < rest@.len() ==> rest@[m] == old_rest[m + 1]);
                assert((old_rest[0].0@, old_rest[0].1) == before[k as int]);
            }
            out.push(h);
            k = k + 1;
            proof {
                assert(out@ =~= before.take(k as int).map_values(|e: (Seq<char>, H)| e.1));
            }
        }
        self.config.auto_attach_devices = Vec::new();
        proof {
            assert(before.take(n as int) =~= before);
            assert(self.running() =~= Seq::<Seq<char>>::empty());
            assert(self.desired() =~= Seq::<Seq<char>>::empty());
        }
        out
    }
}

proof fn lemma_init_absent(ids: Seq<Seq<char>>, id: Seq<char>)
    requires
        !ids.contains(id),
        ids.len() > 0,
    ensures
        !ids.drop_last().contains(id),
        ids.last() != id,
{
    let init = ids.drop_last();
    if init.contains(id) {
        let j = choose|j: int| 0 <= j < init.len() && init[j] == id;
        assert(ids[j] == id);
    }
    assert(ids[ids.len() - 1] == ids.last());
}

proof fn lemma_stopped_absent(ids: Seq<Seq<char>>, id: Seq<char>)
    requires
        !ids.contains(id),
    ensures
        stopped(ids, id) == ids,
        count_of(ids, id) == 0,
    decreases ids.len(),
{
    if ids.len() > 0 {
        lemma_init_absent(ids, id);
        lemma_stopped_absent(ids.drop_last(), id);
        assert(ids.drop_last().push(ids.last()) =~= ids);
    }
}

proof fn lemma_stopped_unique(ids: Seq<Seq<char>>, i: int)
    requires
        ids.no_duplicates(),
        0 <= i < ids.len(),
    ensures
        stopped(ids, ids[i]) == ids.remove(i),
        ids.remove(i).no_duplicates(),
        count_of(ids, ids[i]) == 1,
    decreases ids.len(),
{
    let id = ids[i];
    let init = ids.drop_last();
    if i == ids.len() - 1 {
        assert(!init.contains(id)) by {
            if init.contains(id) {
                let j = choose|j: int| 0 <= j < init.len() && init[j] == id;
                assert(ids[j] == ids[i]);
            }
        }
        lemma_stopped_absent(init, id);
        assert(ids.remove(i) =~= init);
    } else {
        assert(init[i] == id);
        assert(init.no_duplicates());
        lemma_stopped_unique(init, i);
        assert(ids.last() != id) by {
            assert(ids[ids.len() - 1] == ids.last());
        }
        assert(ids.remove(i) =~= init.remove(i).push(ids.last()));
    }
    assert(ids.remove(i).no_duplicates()) by {
        let r = ids.remove(i);
        assert forall|a: int, b: int| 0 <= a < r.len() && 0 <= b < r.len() && a != b implies r[a]
            != r[b] by {
            let a2 = if a < i { a } else { a + 1 };
            let b2 = if b < i { b } else { b + 1 };
            assert(r[a] == ids[a2]);
            assert(r[b] == ids[b2]);
        }
    }
}

/// Starting auto-attach for a device twice, with no stop between, leaves
/// exactly one process held for it, and its id in the record exactly once:
/// the second start changes nothing.
pub proof fn lemma_start_idempotent(ids: Seq<Seq<char>>, id: Seq<char>)
    requires
        ids.no_duplicates(),
    ensures
        started(started(ids, id), id) == started(ids, id),
        started(ids, id).no_duplicates(),
        count_of(started(ids, id), id) == 1,
{
    let s = started(ids, id);
    assert(s.contains(id)) by {
        if !ids.contains(id) {
            assert(s[ids.len() as int] == id);
        }
    }
    assert(s.no_duplicates()) by {
        if !ids.contains(id) {
            assert forall|a: int, b: int| 0 <= a < s.len() && 0 <= b < s.len() && a != b implies s[a]
                != s[b] by {
                if a == ids.len() {
                    assert(!ids.contains(s[b]) || ids[b] != id);
                } else if b == ids.len() {
                    assert(ids[a] == s[a]);
                }
            }
        }
    }
    let i = choose|i: int| 0 <= i < s.len() && s[i] == id;
    lemma_stopped_unique(s, i);
}

/// Starting auto-attach for a device that is not held and then stopping
/// it leaves the held ids and the record as they were: without the device.
pub proof fn lemma_start_stop(ids: Seq<Seq<char>>, id: Seq<char>)
    requires
        ids.no_duplicates(),
        !ids.contains(id),
    ensures
        stopped(started(ids, id), id) == ids,
        !stopped(started(ids, id), id).contains(id),
{
    let s = ids.push(id);
    assert(s[ids.len() as int] == id);
    lemma_start_idempotent(ids, id);
    lemma_stopped_unique(s, ids.len() as int);
    assert(s.remove(ids.len() as int) =~= ids);
}

} // verus!
