//! The refresh cycle and the policy checks in front of every mutating command.
use vstd::prelude::*;

use crate::command::{args_view, attach_args, bind_args, detach_args, unbind_args};
use crate::device::{records_view, DeviceRecord, DeviceRecordView, DeviceState};
use crate::parser::PollError;
use crate::supervisor::{entry_removed, started, stopped, AutoAttachConfig, StartPlan, Supervisor};
use crate::text::same_text;

verus! {

/// A mutating request of the user on the selected device.
#[derive(Clone, Copy, Debug, PartialEq, Eq, Structural)]
pub enum Request {
    Bind,
    Unbind,
    Attach,
    Detach,
    StartAutoAttach,
    StopAutoAttach,
}

/// Why a request was turned down before any command ran.
#[derive(Clone, Copy, Debug, PartialEq, Eq, Structural)]
pub enum Rejection {
    /// No device is selected.
    NoDeviceSelected,
    /// The device's last known state does not allow the request.
    NotPermitted(Request, DeviceState),
}

/// One row to show: a device of the last listing, and whether auto-attach is
/// wanted for it.
#[derive(Clone, Debug)]
pub struct RenderRow {
    pub bus_id: String,
    pub description: String,
    pub state: DeviceState,
    pub auto_attach_active: bool,
}

/// What a `RenderRow` holds, as plain values.
pub struct RenderRowView {
    pub bus_id: Seq<char>,
    pub description: Seq<char>,
    pub state: DeviceState,
    pub auto_attach_active: bool,
}

impl View for RenderRow {
    type V = RenderRowView;

    open spec fn view(&self) -> RenderRowView {
        RenderRowView {
            bus_id: self.bus_id@,
            description: self.description@,
            state: self.state,
            auto_attach_active: self.auto_attach_active,
        }
    }
}

/// Which states allow which request.
pub open spec fn permitted_spec(req: Request, state: DeviceState) -> bool {
    match req {
        Request::Bind => state == DeviceState::NotShared || state == DeviceState::Unknown,
        Request::Unbind => state == DeviceState::Shared || state == DeviceState::Attached,
        Request::Attach => state == DeviceState::Shared,
        Request::StartAutoAttach => state == DeviceState::Shared,
        Request::Detach => true,
        Request::StopAutoAttach => true,
    }
}

/// Whether a device in `state` allows the request.
pub fn permitted(req: Request, state: DeviceState) -> (r: bool)
    ensures
        r == permitted_spec(req, state),
{
    match req {
        Request::Bind => state == DeviceState::NotShared || state == DeviceState::Unknown,
        Request::Unbind => state == DeviceState::Shared || state == DeviceState::Attached,
        Request::Attach => state == DeviceState::Shared,
        Request::StartAutoAttach => state == DeviceState::Shared,
        Request::Detach => true,
        Request::StopAutoAttach => true,
    }
}

/// The state of the first device of a listing with this id; `Unknown` if none.
pub open spec fn state_in(devices: Seq<DeviceRecordView>, id: Seq<char>) -> DeviceState
    decreases devices.len(),
{
    if devices.len() == 0 {
        DeviceState::Unknown
    } else if devices[0].bus_id == id {
        devices[0].state
    } else {
        state_in(devices.drop_first(), id)
    }
}

/// The rows to show for a listing, given the ids that want auto-attach.
pub open spec fn rows_of(devices: Seq<DeviceRecordView>, desired: Seq<Seq<char>>) -> Seq<
    RenderRowView,
> {
    devices.map_values(
        |d: DeviceRecordView|
            RenderRowView {
                bus_id: d.bus_id,
                description: d.description,
                state: d.state,
                auto_attach_active: desired.contains(d.bus_id),
            },
    )
}

/// The answer of the policy to a request on the selection, given the last listing.
pub open spec fn policy(devices: Seq<DeviceRecordView>, req: Request, selected: Option<Seq<char>>) -> Result<
    Seq<char>,
    Rejection,
> {
    match selected {
        None => Err(Rejection::NoDeviceSelected),
        Some(id) => if permitted_spec(req, state_in(devices, id)) {
            Ok(id)
        } else {
            Err(Rejection::NotPermitted(req, state_in(devices, id)))
        },
    }
}

/// The view of an optional selection.
pub open spec fn selection(selected: Option<&str>) -> Option<Seq<char>> {
    match selected {
        None => None,
        Some(s) => Some(s@),
    }
}

/// The devices of the last good listing, and the auto-attach supervisor.
pub struct Manager<H> {
    devices: Vec<DeviceRecord>,
    supervisor: Supervisor<H>,
    target: String,
}

impl<H> Manager<H> {
    /// The devices of the last good listing.
    pub closed spec fn devices(&self) -> Seq<DeviceRecordView> {
        records_view(self.devices@)
    }

    /// The ids that want auto-attach: those in the persisted record.
    pub closed spec fn desired(&self) -> Seq<Seq<char>> {
        self.supervisor.desired()
    }

    /// The ids with a running auto-attach process.
    pub closed spec fn running(&self) -> Seq<Seq<char>> {
        self.supervisor.running()
    }

    /// The running auto-attach processes, in the order they were started,
    /// with their ids.
    pub closed spec fn entries(&self) -> Seq<(Seq<char>, H)> {
        self.supervisor.entries()
    }

    /// The guest that devices are attached to.
    pub closed spec fn target(&self) -> Seq<char> {
        self.target@
    }

    /// The supervisor keeps its invariant.
    pub closed spec fn wf(&self) -> bool {
        self.supervisor.wf()
    }

    /// Starts a run with no listing yet, attaching devices to the guest
    /// `target`. The record loaded at startup is stale: nothing wants
    /// auto-attach and no process runs; the caller saves `config()`.
    pub fn new(loaded: &AutoAttachConfig, target: &str) -> (r: Manager<H>)
        ensures
            r.wf(),
            r.devices().len() == 0,
            r.desired().len() == 0,
            r.running().len() == 0,
            r.target() == target@,
    {
        let r = Manager {
            devices: Vec::new(),
            supervisor: Supervisor::new(loaded),
            target: String::from_str(target),
        };
        assert(r.devices() =~= Seq::<DeviceRecordView>::empty());
        r
    }

    /// The record to persist.
    pub fn config(&self) -> (r: &AutoAttachConfig)
        ensures
            r.ids() == self.desired(),
    {
        self.supervisor.config()
    }

    /// The last known state of a device: that of the last good listing, or
    /// `Unknown` if the device was not in it.
    pub fn state_of(&self, bus_id: &str) -> (r: DeviceState)
        ensures
            r == state_in(self.devices(), bus_id@),
    {
        let mut i: usize = 0;
        assert(self.devices().skip(0) =~= self.devices());
        while i < self.devices.len()
            invariant
                i <= self.devices@.len(),
                state_in(self.devices().skip(i as int), bus_id@) == state_in(
                    self.devices(),
                    bus_id@,
                ),
            decreases self.devices@.len() - i,
        {
            proof {
                assert(self.devices().skip(i as int).drop_first() =~= self.devices().skip(i + 1));
                assert(self.devices().skip(i as int)[0] == self.devices@[i as int]@);
            }
            if same_text(self.devices[i].bus_id.as_str(), bus_id) {
                return self.devices[i].state;
            }
            i = i + 1;
        }
        assert(self.devices().skip(i as int).len() == 0);
        DeviceState::Unknown
    }

    /// The policy check in front of a request on the selected device.
    pub fn check(&self, req: Request, selected: Option<&str>) -> (r: Result<(), Rejection>)
        ensures
            r is Ok <==> policy(self.devices(), req, selection(selected)) is Ok,
            r matches Err(e) ==> policy(self.devices(), req, selection(selected)) == Err::<
                Seq<char>,
                Rejection,
            >(e),
    {
        match selected {
            None => Err(Rejection::NoDeviceSelected),
            Some(id) => {
                let state = self.state_of(id);
                if permitted(req, state) {
                    Ok(())
                } else {
                    Err(Rejection::NotPermitted(req, state))
                }
            },
        }
    }

    /// The rows to show for the last good listing.
    pub fn render(&self) -> (r: Vec<RenderRow>)
        requires
            self.wf(),
        ensures
            r@.map_values(|x: RenderRow| x@) == rows_of(self.devices(), self.desired()),
    {
        let mut out: Vec<RenderRow> = Vec::new();
        let mut i: usize = 0;
        while i < self.devices.len()
            invariant
                i <= self.devices@.len(),
                out@.map_values(|x: RenderRow| x@) == rows_of(self.devices(), self.desired()).take(
                    i as int,
                ),
            decreases self.devices@.len() - i,
        {
            let d = &self.devices[i];
            let ghost prev = out@.map_values(|x: RenderRow| x@);
            let ghost rows = rows_of(self.devices(), self.desired());
            proof {
                assert(self.devices()[i as int] == d@);
            }
            let row = RenderRow {
                bus_id: String::from_str(d.bus_id.as_str()),
                description: String::from_str(d.description.as_str()),
                state: d.state,
                auto_attach_active: self.supervisor.is_desired(d.bus_id.as_str()),
            };
            proof {
                assert(row@ == rows[i as int]);
            }
            out.push(row);
            proof {
                assert(out@.map_values(|x: RenderRow| x@) =~= prev.push(rows[i as int]));
                assert(rows.take(i + 1) =~= rows.take(i as int).push(rows[i as int]));
            }
            i = i + 1;
        }
        proof {
            assert(rows_of(self.devices(), self.desired()).take(self.devices@.len() as int)
                =~= rows_of(self.devices(), self.desired()));
        }
        out
    }

    /// Takes the result of a listing. A good listing replaces the devices and
    /// gives the rows to show; a failed one leaves the devices as they were
    /// and gives its error.
    pub fn refresh(&mut self, poll: Result<Vec<DeviceRecord>, PollError>) -> (r: Result<
        Vec<RenderRow>,
        PollError,
    >)
        requires
            old(self).wf(),
        ensures
            final(self).wf(),
            final(self).desired() == old(self).desired(),
            final(self).running() == old(self).running(),
            final(self).target() == old(self).target(),
            poll matches Err(e) ==> final(self).devices() == old(self).devices() && r == Err::<
                Vec<RenderRow>,
                PollError,
            >(e),
            poll matches Ok(v) ==> final(self).devices() == records_view(v@) && (r matches Ok(
                rows,
            ) && rows@.map_values(|x: RenderRow| x@) == rows_of(
                records_view(v@),
                old(self).desired(),
            )),
    {
        match poll {
            Err(e) => Err(e),
            Ok(v) => {
                self.devices = v;
                Ok(self.render())
            },
        }
    }

    /// Opens a bind of the selected device: the arguments to run elevated,
    /// unless the policy turns it down.
    pub fn plan_bind(&self, selected: Option<&str>) -> (r: Result<Vec<String>, Rejection>)
        ensures
            r is Ok <==> policy(self.devices(), Request::Bind, selection(selected)) is Ok,
            r matches Err(e) ==> policy(self.devices(), Request::Bind, selection(selected)) == Err::<
                Seq<char>,
                Rejection,
            >(e),
            r matches Ok(args) ==> selected matches Some(id) && args_view(args@) == seq![
                "bind"@,
                "--busid"@,
                id@,
                "--force"@,
            ],
    {
        match self.check(Request::Bind, selected) {
            Err(e) => Err(e),
            Ok(()) => match selected {
                Some(id) => Ok(bind_args(id, true)),
                None => Err(Rejection::NoDeviceSelected),
            },
        }
    }

    /// Opens an unbind of the selected device. A device that is unbound
    /// cannot keep an attach loop, so its auto-attach stops first: the handle
    /// of that process comes back, for the caller to kill before it runs the
    /// arguments elevated and saves `config()`.
    pub fn plan_unbind(&mut self, selected: Option<&str>) -> (r: Result<
        (Option<H>, Vec<String>),
        Rejection,
    >)
        requires
            old(self).wf(),
        ensures
            final(self).wf(),
            final(self).devices() == old(self).devices(),
            r is Ok <==> policy(old(self).devices(), Request::Unbind, selection(selected)) is Ok,
            r matches Err(e) ==> policy(old(self).devices(), Request::Unbind, selection(selected))
                == Err::<Seq<char>, Rejection>(e) && final(self).entries() == old(self).entries()
                && final(self).desired() == old(self).desired(),
            r matches Ok((h, args)) ==> selected matches Some(id) && {
                &&& args_view(args@) == seq!["unbind"@, "--busid"@, id@]
                &&& final(self).running() == stopped(old(self).running(), id@)
                &&& final(self).desired() == stopped(old(self).desired(), id@)
                &&& (h is Some <==> old(self).running().contains(id@))
                &&& (h matches Some(x) ==> entry_removed(old(self).entries(), final(self).entries(), id@, x))
                &&& (h is None ==> final(self).entries() == old(self).entries())
            },
    {
        match self.check(Request::Unbind, selected) {
            Err(e) => Err(e),
            Ok(()) => match selected {
                Some(id) => {
                    let h = self.supervisor.stop_auto_attach(id);
                    Ok((h, unbind_args(id)))
                },
                None => Err(Rejection::NoDeviceSelected),
            },
        }
    }

    /// Opens an attach of the selected device to the guest: the arguments to
    /// run under the deadline, unless the policy turns it down.
    pub fn plan_attach(&self, selected: Option<&str>) -> (r: Result<Vec<String>, Rejection>)
        ensures
            r is Ok <==> policy(self.devices(), Request::Attach, selection(selected)) is Ok,
            r matches Err(e) ==> policy(self.devices(), Request::Attach, selection(selected)) == Err::<
                Seq<char>,
                Rejection,
            >(e),
            r matches Ok(args) ==> selected matches Some(id) && args_view(args@) == seq![
                "attach"@,
                "--wsl"@,
                self.target(),
                "--busid"@,
                id@,
            ],
    {
        match self.check(Request::Attach, selected) {
            Err(e) => Err(e),
            Ok(()) => match selected {
                Some(id) => Ok(attach_args(self.target.as_str(), id, false)),
                None => Err(Rejection::NoDeviceSelected),
            },
        }
    }

    /// Opens a detach of the selected device: the arguments to run under the
    /// deadline. Any device may be detached.
    pub fn plan_detach(&self, selected: Option<&str>) -> (r: Result<Vec<String>, Rejection>)
        ensures
            selected is None ==> r == Err::<Vec<String>, Rejection>(Rejection::NoDeviceSelected),
            selected matches Some(id) ==> (r matches Ok(args) && args_view(args@) == seq![
                "detach"@,
                "--busid"@,
                id@,
            ]),
    {
        match selected {
            Some(id) => Ok(detach_args(id)),
            None => Err(Rejection::NoDeviceSelected),
        }
    }

    /// Opens a start of auto-attach for the selected device: what to do,
    /// unless the policy turns it down (the device must be shared).
    pub fn plan_auto_attach(&self, selected: Option<&str>) -> (r: Result<StartPlan, Rejection>)
        requires
            self.wf(),
        ensures
            r is Ok <==> policy(self.devices(), Request::StartAutoAttach, selection(selected)) is Ok,
            r matches Err(e) ==> policy(self.devices(), Request::StartAutoAttach, selection(selected))
                == Err::<Seq<char>, Rejection>(e),
            r matches Ok(plan) ==> selected matches Some(id) && (self.running().contains(id@)
                ==> plan is AlreadyRunning) && (!self.running().contains(id@) ==> (
            plan matches StartPlan::Spawn(args) && args_view(args@) == seq![
                "attach"@,
                "--wsl"@,
                self.target(),
                "--busid"@,
                id@,
                "--auto-attach"@,
            ])),
    {
        match self.check(Request::StartAutoAttach, selected) {
            Err(e) => Err(e),
            Ok(()) => match selected {
                Some(id) => Ok(self.supervisor.plan_start(id, self.target.as_str())),
                None => Err(Rejection::NoDeviceSelected),
            },
        }
    }

    /// Records the auto-attach process that was started for a device; see
    /// `Supervisor::record_start`.
    pub fn record_auto_attach(&mut self, bus_id: &str, handle: H) -> (r: Option<H>)
        requires
            old(self).wf(),
        ensures
            final(self).wf(),
            final(self).devices() == old(self).devices(),
            final(self).target() == old(self).target(),
            final(self).running() == started(old(self).running(), bus_id@),
            final(self).desired() == started(old(self).desired(), bus_id@),
            old(self).running().contains(bus_id@) ==> r == Some(handle) && final(self).entries()
                == old(self).entries(),
            !old(self).running().contains(bus_id@) ==> r is None && final(self).entries() == old(self).entries().push((bus_id@, handle)),
    {
        self.supervisor.record_start(bus_id, handle)
    }

    /// Stops auto-attach for the selected device: the handle of its process,
    /// if one runs, for the caller to kill; the caller then saves `config()`.
    pub fn stop_auto_attach(&mut self, selected: Option<&str>) -> (r: Result<Option<H>, Rejection>)
        requires
            old(self).wf(),
        ensures
            final(self).wf(),
            final(self).devices() == old(self).devices(),
            final(self).target() == old(self).target(),
            selected is None ==> r == Err::<Option<H>, Rejection>(Rejection::NoDeviceSelected)
                && final(self).entries() == old(self).entries() && final(self).desired() == old(self).desired(),
            selected matches Some(id) ==> r matches Ok(h) && {
                &&& final(self).running() == stopped(old(self).running(), id@)
                &&& final(self).desired() == stopped(old(self).desired(), id@)
                &&& (h is Some <==> old(self).running().contains(id@))
                &&& (h matches Some(x) ==> entry_removed(old(self).entries(), final(self).entries(), id@, x))
                &&& (h is None ==> final(self).entries() == old(self).entries())
            },
    {
        match selected {
            Some(id) => Ok(self.supervisor.stop_auto_attach(id)),
            None => Err(Rejection::NoDeviceSelected),
        }
    }

    /// Stops every auto-attach process as the run ends: their handles, for
    /// the caller to kill; the record is left empty.
    pub fn shutdown_all(&mut self) -> (r: Vec<H>)
        requires
            old(self).wf(),
        ensures
            final(self).wf(),
            final(self).running().len() == 0,
            final(self).desired().len() == 0,
            r@ == old(self).entries().map_values(|e: (Seq<char>, H)| e.1),
    {
        self.supervisor.shutdown_all()
    }
}

/// A bind of a device that the last listing showed as shared is turned down
/// by the policy, so no command is run for it.
pub proof fn lemma_bind_refused_when_shared(devices: Seq<DeviceRecordView>, id: Seq<char>)
    requires
        state_in(devices, id) == DeviceState::Shared,
    ensures
        policy(devices, Request::Bind, Some(id)) == Err::<Seq<char>, Rejection>(
            Rejection::NotPermitted(Request::Bind, DeviceState::Shared),
        ),
{
}

} // verus!
