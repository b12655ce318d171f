//! The per-machine supervisor: the lifecycle state machine around one
//! hypervisor child, the control-event transitions, and the host-preparation
//! decisions. The process, socket and sysfs work itself is done by the
//! program around the library, which feeds every observation back in here.
use vstd::prelude::*;
use vstd::string::StringSliceAdditionalSpecFns;
use crate::error::VoreError;
use crate::global_config::GlobalConfig;
use crate::instance_config::InstanceConfig;
use crate::text::{
    bytes_end_with, bytes_start_with, parse_u64_dec, spec_ends_with, spec_parse_u64_dec,
    spec_starts_with, str_eq,
};

verus! {

#[derive(Clone, Copy, Debug, PartialEq, Eq, Structural)]
pub enum VirtualMachineState {
    Loaded,
    Prepared,
    Stopped,
    Paused,
    Running,
}

impl VirtualMachineState {
    /// The lowercase name the protocol shows for a state.
    pub fn state_name(&self) -> (r: String)
        ensures
            *self is Loaded ==> r@ == "loaded"@,
            *self is Prepared ==> r@ == "prepared"@,
            *self is Stopped ==> r@ == "stopped"@,
            *self is Paused ==> r@ == "paused"@,
            *self is Running ==> r@ == "running"@,
    {
        match self {
            VirtualMachineState::Loaded => String::from_str("loaded"),
            VirtualMachineState::Prepared => String::from_str("prepared"),
            VirtualMachineState::Stopped => String::from_str("stopped"),
            VirtualMachineState::Paused => String::from_str("paused"),
            VirtualMachineState::Running => String::from_str("running"),
        }
    }
}

/// A control-socket event, reduced to what drives the lifecycle.
#[derive(Clone, Copy, Debug, PartialEq, Eq, Structural)]
pub enum QmpEvent {
    Stop,
    Resume,
    Shutdown,
    Other,
}

/// A command the supervisor asks the program to send on the control socket.
#[derive(Clone, Copy, Debug, PartialEq, Eq, Structural)]
pub enum QmpCommandKind {
    Nop,
    Cont,
    Stop,
    SystemPowerdown,
    Quit,
}

/// What sending a control command came to.
#[derive(Clone, Debug, PartialEq)]
pub enum QmpSendOutcome {
    Accepted,
    UnexpectedEof,
    Failed(String),
}

/// What the supervisor decides to do on a start request.
#[derive(Clone, Copy, Debug, PartialEq, Eq, Structural)]
pub enum StartAction {
    AlreadyRunning,
    PrepareFirst,
    Spawn,
}

/// What to do with one VFIO device, given its current driver.
#[derive(Clone, Debug, PartialEq)]
pub enum VfioPlan {
    AlreadyBound,
    Refuse(VoreError),
    Rebind { unbind_first: bool },
}

#[derive(Clone, Debug, PartialEq)]
pub struct VirtualMachineInfo {
    pub name: String,
    pub working_dir: String,
    pub config: InstanceConfig,
    pub state: VirtualMachineState,
}

/// The state transition one control event causes: STOP pauses unless already
/// stopped, RESUME runs, SHUTDOWN stops, anything else is ignored.
pub open spec fn spec_qmp_step(s: VirtualMachineState, ev: QmpEvent) -> VirtualMachineState {
    match ev {
        QmpEvent::Stop => if s is Stopped {
            s
        } else {
            VirtualMachineState::Paused
        },
        QmpEvent::Resume => VirtualMachineState::Running,
        QmpEvent::Shutdown => VirtualMachineState::Stopped,
        QmpEvent::Other => s,
    }
}

/// The state after a run of control events.
pub open spec fn spec_qmp_fold(s: VirtualMachineState, evs: Seq<QmpEvent>) -> VirtualMachineState
    decreases evs.len(),
{
    if evs.len() == 0 {
        s
    } else {
        spec_qmp_fold(spec_qmp_step(s, evs[0]), evs.drop_first())
    }
}

/// What a successful preparation does to the lifecycle.
pub open spec fn spec_prepare_state(s: VirtualMachineState) -> VirtualMachineState {
    if s is Loaded {
        VirtualMachineState::Prepared
    } else {
        s
    }
}

#[derive(Clone, Debug)]
pub struct VirtualMachine {
    pub working_dir: String,
    pub state: VirtualMachineState,
    pub config: InstanceConfig,
    pub global_config: GlobalConfig,
    pub has_process: bool,
    pub has_control_socket: bool,
}

impl VirtualMachine {
    /// A running machine has a live child and an attached control socket; a
    /// merely loaded one has neither.
    pub open spec fn wf(&self) -> bool {
        &&& self.state is Running ==> self.has_process && self.has_control_socket
        &&& self.state is Loaded ==> !self.has_process && !self.has_control_socket
        &&& self.has_control_socket ==> self.has_process
    }

    pub fn new(config: InstanceConfig, global_config: &GlobalConfig, working_dir: String) -> (r:
        VirtualMachine)
        ensures
            r.wf(),
            r.state is Loaded,
            !r.has_process,
            !r.has_control_socket,
            r.config == config,
            r.global_config@ == global_config@,
            r.working_dir@ == working_dir@,
    {
        VirtualMachine {
            working_dir,
            state: VirtualMachineState::Loaded,
            config,
            global_config: global_config.duplicate(),
            has_process: false,
            has_control_socket: false,
        }
    }

    pub fn name(&self) -> (r: &String)
        ensures
            r@ == self.config.name@,
    {
        &self.config.name
    }

    pub fn info(&self) -> (r: VirtualMachineInfo)
        ensures
            r.name@ == self.config.name@,
            r.working_dir@ == self.working_dir@,
            r.config@ == self.config@,
            r.state == self.state,
    {
        VirtualMachineInfo {
            name: self.config.name.clone(),
            working_dir: self.working_dir.clone(),
            config: self.config.duplicate(),
            state: self.state,
        }
    }

    /// Applies one control event to the lifecycle.
    pub fn on_qmp_event(&mut self, ev: QmpEvent)
        requires
            old(self).wf(),
            old(self).has_control_socket,
        ensures
            final(self).wf(),
            *final(self) == (VirtualMachine { state: final(self).state, ..*old(self) }),
            final(self).state == spec_qmp_step(old(self).state, ev),
    {
        match ev {
            QmpEvent::Stop => {
                if !matches!(self.state, VirtualMachineState::Stopped) {
                    self.state = VirtualMachineState::Paused;
                }
            },
            QmpEvent::Resume => {
                self.state = VirtualMachineState::Running;
            },
            QmpEvent::Shutdown => {
                self.state = VirtualMachineState::Stopped;
            },
            QmpEvent::Other => {},
        }
    }

    /// Applies a run of control events in order.
    pub fn process_qmp_events(&mut self, events: &Vec<QmpEvent>)
        requires
            old(self).wf(),
            old(self).has_control_socket,
        ensures
            final(self).wf(),
            *final(self) == (VirtualMachine { state: final(self).state, ..*old(self) }),
            final(self).state == spec_qmp_fold(old(self).state, events@),
    {
        let mut i: usize = 0;
        proof {
            assert(events@.skip(0) =~= events@);
        }
        while i < events.len()
            invariant
                i <= events@.len(),
                self.wf(),
                self.has_control_socket,
                *self == (VirtualMachine { state: self.state, ..*old(self) }),
                spec_qmp_fold(old(self).state, events@) == spec_qmp_fold(
                    self.state,
                    events@.skip(i as int),
                ),
            decreases events.len() - i,
        {
            proof {
                assert(events@.skip(i as int)[0] == events@[i as int]);
                assert(events@.skip(i as int).drop_first() =~= events@.skip(i as int + 1));
            }
            self.on_qmp_event(events[i]);
            i = i + 1;
        }
        proof {
            assert(events@.skip(events@.len() as int) =~= Seq::<QmpEvent>::empty());
        }
    }

    /// Marks the outcome of host preparation: success moves a loaded machine
    /// to prepared and changes nothing else.
    pub fn apply_prepare(&mut self, all_ok: bool)
        requires
            old(self).wf(),
        ensures
            final(self).wf(),
            *final(self) == (VirtualMachine { state: final(self).state, ..*old(self) }),
            all_ok ==> final(self).state == spec_prepare_state(old(self).state),
            !all_ok ==> final(self).state == old(self).state,
    {
        if all_ok {
            if matches!(self.state, VirtualMachineState::Loaded) {
                self.state = VirtualMachineState::Prepared;
            }
        }
    }

    /// What a start request does first: nothing for a live child, host
    /// preparation for a merely loaded machine, else a spawn.
    pub fn start_action(&self, child_alive: bool) -> (r: StartAction)
        ensures
            self.has_process && child_alive ==> r is AlreadyRunning,
            !(self.has_process && child_alive) && self.state is Loaded ==> r is PrepareFirst,
            !(self.has_process && child_alive) && !(self.state is Loaded) ==> r is Spawn,
    {
        if self.has_process && child_alive {
            StartAction::AlreadyRunning
        } else if matches!(self.state, VirtualMachineState::Loaded) {
            StartAction::PrepareFirst
        } else {
            StartAction::Spawn
        }
    }

    /// Notes the spawned child.
    pub fn mark_spawned(&mut self)
        requires
            old(self).wf(),
            !(old(self).state is Loaded),
        ensures
            final(self).wf(),
            *final(self) == (VirtualMachine { has_process: true, ..*old(self) }),
    {
        self.has_process = true;
    }

    /// Notes the attached control socket after the handshake.
    pub fn attach_control_socket(&mut self)
        requires
            old(self).wf(),
            old(self).has_process,
            !(old(self).state is Loaded),
        ensures
            final(self).wf(),
            *final(self) == (VirtualMachine { has_control_socket: true, ..*old(self) }),
    {
        self.has_control_socket = true;
    }

    /// Notes that a failed start killed and reaped the child.
    pub fn start_failed(&mut self)
        requires
            old(self).wf(),
            !(old(self).state is Running),
        ensures
            final(self).wf(),
            *final(self) == (VirtualMachine {
                has_process: false,
                has_control_socket: false,
                ..*old(self)
            }),
    {
        self.has_process = false;
        self.has_control_socket = false;
    }

    /// The command a pause request sends: nothing unless running.
    pub fn pause_command(&self) -> (r: Option<QmpCommandKind>)
        ensures
            r == (if self.state is Running {
                Some(QmpCommandKind::Stop)
            } else {
                None::<QmpCommandKind>
            }),
    {
        if matches!(self.state, VirtualMachineState::Running) {
            Some(QmpCommandKind::Stop)
        } else {
            None
        }
    }

    /// The command a stop request sends: a powerdown, unless the machine has
    /// no child, no socket, or already stopped.
    pub fn stop_command(&self) -> (r: Option<QmpCommandKind>)
        ensures
            r == (if !self.has_process || !self.has_control_socket || self.state is Stopped {
                None::<QmpCommandKind>
            } else {
                Some(QmpCommandKind::SystemPowerdown)
            }),
    {
        if !self.has_process || !self.has_control_socket || matches!(
            self.state,
            VirtualMachineState::Stopped,
        ) {
            None
        } else {
            Some(QmpCommandKind::SystemPowerdown)
        }
    }

    /// The command a kill request sends: a quit whenever a socket is there.
    pub fn quit_command(&self) -> (r: Option<QmpCommandKind>)
        ensures
            r == (if self.has_control_socket {
                Some(QmpCommandKind::Quit)
            } else {
                None::<QmpCommandKind>
            }),
    {
        if self.has_control_socket {
            Some(QmpCommandKind::Quit)
        } else {
            None
        }
    }

    /// How a quit's outcome reads: the hypervisor dying mid-answer counts as
    /// success, any other failure is surfaced.
    pub fn quit_result(&self, outcome: QmpSendOutcome) -> (r: Result<(), VoreError>)
        ensures
            outcome is Accepted ==> r is Ok,
            outcome is UnexpectedEof ==> r is Ok,
            outcome is Failed ==> (r matches Err(VoreError::HostError { message })
                && message@ == outcome->Failed_0@),
    {
        match outcome {
            QmpSendOutcome::Accepted => Ok(()),
            QmpSendOutcome::UnexpectedEof => Ok(()),
            QmpSendOutcome::Failed(m) => Err(VoreError::HostError { message: m }),
        }
    }

    /// One round of waiting: the pending events are applied and the machine
    /// reports whether the target state has been reached.
    pub fn wait_round(&mut self, events: &Vec<QmpEvent>, target: VirtualMachineState) -> (r: bool)
        requires
            old(self).wf(),
            old(self).has_control_socket,
        ensures
            final(self).wf(),
            *final(self) == (VirtualMachine { state: final(self).state, ..*old(self) }),
            final(self).state == spec_qmp_fold(old(self).state, events@),
            r == (final(self).state == target),
    {
        self.process_qmp_events(events);
        let reached = match (self.state, target) {
            (VirtualMachineState::Loaded, VirtualMachineState::Loaded) => true,
            (VirtualMachineState::Prepared, VirtualMachineState::Prepared) => true,
            (VirtualMachineState::Stopped, VirtualMachineState::Stopped) => true,
            (VirtualMachineState::Paused, VirtualMachineState::Paused) => true,
            (VirtualMachineState::Running, VirtualMachineState::Running) => true,
            _ => false,
        };
        reached
    }

    /// A vCPU thread announces itself as `CPU <n>`; the trailing digits are
    /// its index. Other threads read as nothing.
    pub fn parse_vcpu_comm(comm: &str) -> (r: Option<u64>)
        ensures
            r == spec_parse_vcpu_comm(comm.spec_bytes()),
    {
        let bytes = comm.as_bytes();
        proof {
            broadcast use vstd::string::group_string_axioms;

            reveal_strlit("CPU ");
            assert("CPU "@.len() == 4);
            assert(vstd::utf8::is_ascii_chars("CPU "@));
            vstd::utf8::is_ascii_chars_encode_utf8("CPU "@);
            assert(vstd::utf8::encode_utf8("CPU "@).len() == 4);
        }
        if !bytes_start_with(bytes, "CPU ".as_bytes()) {
            return None;
        }
        let n = bytes.len();
        let mut end: usize = 4;
        while end < n && 48 <= bytes[end] && bytes[end] <= 57
            invariant
                4 <= end <= n,
                n == bytes@.len(),
                forall|k: int| 4 <= k < end ==> crate::text::spec_is_digit(#[trigger] bytes@[k]),
            decreases n - end,
        {
            end = end + 1;
        }
        proof {
            assert(spec_digit_run_end(bytes@, 4) == end as int) by {
                lemma_digit_run_end(bytes@, 4, end as int);
            }
        }
        let digits = vstd::slice::slice_subrange(bytes, 4, end);
        proof {
            assert(digits@ =~= bytes@.subrange(4, end as int));
        }
        parse_u64_dec(digits)
    }
}

/// The first position at or after `i` that does not hold a digit.
pub open spec fn spec_digit_run_end(s: Seq<u8>, i: int) -> int
    decreases s.len() - i,
{
    if i < 0 || i >= s.len() {
        i
    } else if crate::text::spec_is_digit(s[i]) {
        spec_digit_run_end(s, i + 1)
    } else {
        i
    }
}

proof fn lemma_digit_run_end(s: Seq<u8>, i: int, end: int)
    requires
        0 <= i <= end <= s.len(),
        forall|k: int| i <= k < end ==> crate::text::spec_is_digit(#[trigger] s[k]),
        end < s.len() ==> !crate::text::spec_is_digit(s[end]),
    ensures
        spec_digit_run_end(s, i) == end,
    decreases end - i,
{
    if i < end {
        lemma_digit_run_end(s, i + 1, end);
    }
}

/// What a thread name means: the digits after `CPU `, if the name has that
/// shape and the number fits.
pub open spec fn spec_parse_vcpu_comm(s: Seq<u8>) -> Option<u64> {
    if !spec_starts_with(s, vstd::utf8::encode_utf8("CPU "@)) {
        None
    } else {
        spec_parse_u64_dec(s.subrange(4, spec_digit_run_end(s, 4)))
    }
}

impl VirtualMachine {
    /// Fills the shared-memory and socket paths an enabled feature left
    /// empty: `/dev/shm/vore/<name>/<feature>` for the framebuffer and the
    /// audio sink, `<working dir>/spice.sock` for the display bridge.
    pub fn apply_path_defaults(&mut self)
        ensures
            *final(self) == (VirtualMachine {
                config: final(self).config,
                ..*old(self)
            }),
            final(self).config@ == (crate::instance_config::InstanceConfigView {
                looking_glass: final(self).config@.looking_glass,
                scream: final(self).config@.scream,
                spice: final(self).config@.spice,
                ..old(self).config@
            }),
            final(self).config@.looking_glass == (crate::instance_config::LookingGlassConfigView {
                mem_path: final(self).config@.looking_glass.mem_path,
                ..old(self).config@.looking_glass
            }),
            final(self).config@.scream == (crate::instance_config::ScreamConfigView {
                mem_path: final(self).config@.scream.mem_path,
                ..old(self).config@.scream
            }),
            final(self).config@.spice == (crate::instance_config::SpiceConfigView {
                socket_path: final(self).config@.spice.socket_path,
                ..old(self).config@.spice
            }),
            final(self).config@.looking_glass.mem_path == (if old(self).config@.looking_glass.enabled
                && old(self).config@.looking_glass.mem_path.len() == 0 {
                "/dev/shm/vore/"@ + old(self).config@.name + "/looking-glass"@
            } else {
                old(self).config@.looking_glass.mem_path
            }),
            final(self).config@.scream.mem_path == (if old(self).config@.scream.enabled && old(
                self,
            ).config@.scream.mem_path.len() == 0 {
                "/dev/shm/vore/"@ + old(self).config@.name + "/scream"@
            } else {
                old(self).config@.scream.mem_path
            }),
            final(self).config@.spice.socket_path == (if old(self).config@.spice.enabled && old(
                self,
            ).config@.spice.socket_path.len() == 0 {
                old(self).working_dir@ + "/spice.sock"@
            } else {
                old(self).config@.spice.socket_path
            }),
    {
        if self.config.looking_glass.enabled && self.config.looking_glass.mem_path.as_str().as_bytes().len() == 0 {
            proof {
                vstd::utf8::encode_utf8_decode_utf8(self.config.looking_glass.mem_path@);
            }
            let mut p = String::from_str("/dev/shm/vore/");
            p.append(self.config.name.as_str());
            p.append("/looking-glass");
            self.config.looking_glass.mem_path = p;
        }
        if self.config.scream.enabled && self.config.scream.mem_path.as_str().as_bytes().len() == 0 {
            proof {
                vstd::utf8::encode_utf8_decode_utf8(self.config.scream.mem_path@);
            }
            let mut p = String::from_str("/dev/shm/vore/");
            p.append(self.config.name.as_str());
            p.append("/scream");
            self.config.scream.mem_path = p;
        }
        if self.config.spice.enabled && self.config.spice.socket_path.as_str().as_bytes().len() == 0 {
            proof {
                vstd::utf8::encode_utf8_decode_utf8(self.config.spice.socket_path@);
            }
            let mut p = self.working_dir.clone();
            p.append("/spice.sock");
            self.config.spice.socket_path = p;
        }
    }
}

// ---------------------------------------------------------------------------
// VFIO preparation decisions
// ---------------------------------------------------------------------------

/// The drivers never rebound automatically, because unbinding them wedges
/// the console.
pub open spec fn spec_driver_blacklisted(driver: Seq<char>) -> bool {
    driver == "nvidia"@ || driver == "amdgpu"@
}

/// The rebind plan for one device, from its current driver name (empty when
/// none): already on `vfio-pci` there is nothing to do; without
/// `execute_fixes`, or on a blacklisted driver without `force`, the request
/// is refused with the fault naming the driver; else the device is rebound,
/// unbinding first when a driver holds it.
pub fn vfio_plan(address: &str, driver: &str, execute_fixes: bool, force: bool) -> (r: VfioPlan)
    ensures
        driver@ == "vfio-pci"@ ==> r is AlreadyBound,
        driver@ != "vfio-pci"@ && spec_driver_blacklisted(driver@) && !force ==> (r matches
            VfioPlan::Refuse(VoreError::VfioBlacklistedDriver { address: a, driver: d }) && a@
            == address@ && d@ == driver@),
        driver@ != "vfio-pci"@ && !(spec_driver_blacklisted(driver@) && !force) && !execute_fixes
            && driver@.len() > 0 ==> (r matches VfioPlan::Refuse(
            VoreError::VfioWrongDriver { address: a, driver: d },
        ) && a@ == address@ && d@ == driver@),
        driver@ != "vfio-pci"@ && !(spec_driver_blacklisted(driver@) && !force) && !execute_fixes
            && driver@.len() == 0 ==> (r matches VfioPlan::Refuse(
            VoreError::VfioNoDriver { address: a },
        ) && a@ == address@),
        driver@ != "vfio-pci"@ && !(spec_driver_blacklisted(driver@) && !force) && execute_fixes
            ==> r == (VfioPlan::Rebind { unbind_first: driver@.len() > 0 }),
{
    if str_eq(driver, "vfio-pci") {
        return VfioPlan::AlreadyBound;
    }
    let blacklisted = (str_eq(driver, "nvidia") || str_eq(driver, "amdgpu")) && !force;
    if blacklisted {
        return VfioPlan::Refuse(
            VoreError::VfioBlacklistedDriver {
                address: address.to_owned(),
                driver: driver.to_owned(),
            },
        );
    }
    if !execute_fixes {
        if driver.as_bytes().len() > 0 {
            return VfioPlan::Refuse(
                VoreError::VfioWrongDriver {
                    address: address.to_owned(),
                    driver: driver.to_owned(),
                },
            );
        } else {
            proof {
                vstd::utf8::encode_utf8_decode_utf8(driver@);
            }
            return VfioPlan::Refuse(VoreError::VfioNoDriver { address: address.to_owned() });
        }
    }
    proof {
        vstd::utf8::encode_utf8_decode_utf8(driver@);
    }
    VfioPlan::Rebind { unbind_first: driver.as_bytes().len() > 0 }
}

/// The verdict after a rebind: the device counts as prepared exactly when
/// the driver link now ends in `vfio-pci`.
pub fn confirm_vfio_bound(address: &str, new_driver_link: &str) -> (r: Result<(), VoreError>)
    ensures
        r is Ok <==> spec_ends_with(
            new_driver_link.spec_bytes(),
            vstd::utf8::encode_utf8("vfio-pci"@),
        ),
        r is Err ==> (r matches Err(VoreError::VfioRebindFailed { address: a }) && a@
            == address@),
{
    if bytes_end_with(new_driver_link.as_bytes(), "vfio-pci".as_bytes()) {
        Ok(())
    } else {
        Err(VoreError::VfioRebindFailed { address: address.to_owned() })
    }
}

/// A device already on `vfio-pci` needs no rebind: its driver link ends in
/// the driver's own name, so the same condition already holds.
pub proof fn lemma_already_bound_driver_link(link: Seq<char>)
    requires
        link == "vfio-pci"@,
    ensures
        spec_ends_with(vstd::utf8::encode_utf8(link), vstd::utf8::encode_utf8("vfio-pci"@)),
{
    let b = vstd::utf8::encode_utf8(link);
    assert(b.skip(b.len() - b.len()) =~= b);
}

// ---------------------------------------------------------------------------
// Laws of the lifecycle
// ---------------------------------------------------------------------------

/// Preparing twice is preparing once: on a host already in the target state
/// the transition does nothing further.
pub proof fn lemma_prepare_idempotent(s: VirtualMachineState)
    ensures
        spec_prepare_state(spec_prepare_state(s)) == spec_prepare_state(s),
{
}

/// Starting a running machine is a no-op: a running machine has a live
/// child, and `start_action` answers a live child with nothing to do.
pub proof fn lemma_start_running_noop(m: VirtualMachine)
    requires
        m.wf(),
        m.state is Running,
    ensures
        m.has_process,
{
}

/// Whether a run of events leaves the machine stopped: a shutdown decides
/// it unless a later resume overrides it; a stop or an unknown event keeps
/// whatever held before; with no decisive event it is whether the machine
/// was stopped already.
pub open spec fn spec_ends_stopped(s: VirtualMachineState, evs: Seq<QmpEvent>) -> bool
    decreases evs.len(),
{
    if evs.len() == 0 {
        s is Stopped
    } else {
        match evs.last() {
            QmpEvent::Shutdown => true,
            QmpEvent::Resume => false,
            QmpEvent::Stop => spec_ends_stopped(s, evs.drop_last()),
            QmpEvent::Other => spec_ends_stopped(s, evs.drop_last()),
        }
    }
}

proof fn lemma_fold_snoc(s: VirtualMachineState, evs: Seq<QmpEvent>)
    requires
        evs.len() > 0,
    ensures
        spec_qmp_fold(s, evs) == spec_qmp_step(spec_qmp_fold(s, evs.drop_last()), evs.last()),
    decreases evs.len(),
{
    if evs.len() == 1 {
        assert(evs.drop_last() =~= Seq::<QmpEvent>::empty());
        assert(evs.drop_first() =~= Seq::<QmpEvent>::empty());
    } else {
        let s1 = spec_qmp_step(s, evs[0]);
        lemma_fold_snoc(s1, evs.drop_first());
        assert(evs.drop_first().drop_last() =~= evs.drop_last().drop_first());
        assert(evs.drop_first().last() == evs.last());
    }
}

/// Waiting for a stop reports true exactly when the machine was already
/// stopped, or a shutdown arrived that no later resume overrode: the child
/// accepting the powerdown is what stops the wait.
pub proof fn lemma_wait_stop_iff_shutdown(s: VirtualMachineState, evs: Seq<QmpEvent>)
    ensures
        (spec_qmp_fold(s, evs) is Stopped) <==> spec_ends_stopped(s, evs),
    decreases evs.len(),
{
    if evs.len() > 0 {
        lemma_fold_snoc(s, evs);
        lemma_wait_stop_iff_shutdown(s, evs.drop_last());
    }
}

} // verus!
