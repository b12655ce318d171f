//! The daemon's bookkeeping: the slot tables behind the readiness poller,
//! the machine registry with its unique names, and the dispatch decisions
//! for each request. The sockets, signals and the poller itself live in the
//! program around the library, which executes the actions planned here.
use vstd::prelude::*;
use crate::error::VoreError;
use crate::rpc::{
    AllRequests, AllResponses, Answer, Command, CommandCenter, InfoResponse, Response,
};
use crate::text::str_eq;
use crate::virtual_machine::{VirtualMachine, VirtualMachineInfo};

verus! {

/// The daemon's version, as the Info request reports it.
pub const VORE_VERSION: &'static str = "0.1.0";

/// The default paths the daemon uses.
pub const VORE_DIRECTORY: &'static str = "/var/lib/vore";

pub const VORE_SOCKET: &'static str = "/run/vore.sock";

pub const VORE_CONFIG: &'static str = "/etc/vore/vored.toml";

/// What a readiness key points at: the listener, a machine's control socket,
/// a client connection, or a retired slot waiting for reuse.
#[derive(Clone, Debug, PartialEq)]
pub enum EventTarget {
    RpcListener,
    Machine(String),
    RpcConnection(usize),
    Empty,
}

/// The first retired slot, if any.
pub open spec fn spec_first_empty(s: Seq<EventTarget>) -> Option<int>
    decreases s.len(),
{
    if s.len() == 0 {
        None
    } else if s[0] is Empty {
        Some(0)
    } else {
        match spec_first_empty(s.drop_first()) {
            Some(i) => Some(i + 1),
            None => None,
        }
    }
}

proof fn lemma_first_empty(s: Seq<EventTarget>)
    ensures
        match spec_first_empty(s) {
            Some(i) => 0 <= i < s.len() && s[i] is Empty && forall|j: int|
                0 <= j < i ==> !(#[trigger] s[j] is Empty),
            None => forall|j: int| 0 <= j < s.len() ==> !(#[trigger] s[j] is Empty),
        },
    decreases s.len(),
{
    if s.len() > 0 && !(s[0] is Empty) {
        let t = s.drop_first();
        lemma_first_empty(t);
        match spec_first_empty(t) {
            Some(i) => {
                assert(s[i + 1] == t[i]);
                assert forall|j: int| 0 <= j < i + 1 implies !(#[trigger] s[j] is Empty) by {
                    if j > 0 {
                        assert(s[j] == t[j - 1]);
                    }
                }
            },
            None => {
                assert forall|j: int| 0 <= j < s.len() implies !(#[trigger] s[j] is Empty) by {
                    if j > 0 {
                        assert(s[j] == t[j - 1]);
                    }
                }
            },
        }
    }
}

/// Files a target under a key: the first retired slot is reused, otherwise a
/// new slot is appended. In-flight keys keep their meaning either way.
pub fn add_target(storage: &mut Vec<EventTarget>, target: EventTarget) -> (r: usize)
    ensures
        r < final(storage)@.len(),
        final(storage)@[r as int] == target,
        match spec_first_empty(old(storage)@) {
            Some(i) => r as int == i && final(storage)@ == old(storage)@.update(i, target),
            None => r == old(storage)@.len() && final(storage)@ == old(storage)@.push(target),
        },
{
    let mut i: usize = 0;
    while i < storage.len()
        invariant
            i <= storage@.len(),
            storage@ == old(storage)@,
            forall|j: int| 0 <= j < i ==> !(#[trigger] storage@[j] is Empty),
        decreases storage.len() - i,
    {
        if matches!(storage[i], EventTarget::Empty) {
            proof {
                lemma_first_empty(storage@);
                match spec_first_empty(storage@) {
                    Some(k) => {
                        assert(k == i as int);
                    },
                    None => {
                        assert(storage@[i as int] is Empty);
                    },
                }
            }
            storage.set(i, target);
            return i;
        }
        i = i + 1;
    }
    proof {
        lemma_first_empty(storage@);
        match spec_first_empty(storage@) {
            Some(k) => {
                assert(!(storage@[k] is Empty));
            },
            None => {},
        }
    }
    let r = storage.len();
    storage.push(target);
    r
}

/// Retires a key.
pub fn clear_target(storage: &mut Vec<EventTarget>, key: usize)
    requires
        key < old(storage)@.len(),
    ensures
        final(storage)@ == old(storage)@.update(key as int, EventTarget::Empty),
{
    storage.set(key, EventTarget::Empty);
}

// ---------------------------------------------------------------------------
// The machine registry
// ---------------------------------------------------------------------------

/// The machines the daemon owns, each under the name its configuration
/// declares.
#[derive(Debug)]
pub struct MachineRegistry {
    pub machines: Vec<VirtualMachine>,
}

impl MachineRegistry {
    /// At any instant the set of machine names is unique: no two machines
    /// share one.
    pub open spec fn wf(&self) -> bool {
        &&& forall|i: int, j: int|
            0 <= i < j < self.machines@.len() ==> (#[trigger] self.machines@[i]).config.name@ != (
            #[trigger] self.machines@[j]).config.name@
        &&& forall|i: int| 0 <= i < self.machines@.len() ==> (#[trigger] self.machines@[i]).wf()
    }

    pub fn new() -> (r: MachineRegistry)
        ensures
            r.wf(),
            r.machines@.len() == 0,
    {
        let r = MachineRegistry { machines: Vec::new() };
        r
    }

    /// The slot of the machine with a name, if one is registered.
    pub fn find(&self, name: &str) -> (r: Option<usize>)
        ensures
            match r {
                Some(i) => i < self.machines@.len() && self.machines@[i as int].config.name@
                    == name@,
                None => forall|i: int|
                    0 <= i < self.machines@.len() ==> (#[trigger] self.machines@[i]).config.name@
                        != name@,
            },
    {
        let mut i: usize = 0;
        while i < self.machines.len()
            invariant
                i <= self.machines@.len(),
                forall|j: int|
                    0 <= j < i ==> (#[trigger] self.machines@[j]).config.name@ != name@,
            decreases self.machines.len() - i,
        {
            if str_eq(self.machines[i].config.name.as_str(), name) {
                return Some(i);
            }
            i = i + 1;
        }
        None
    }

    /// Registers a machine: a machine already holding the name is replaced,
    /// so the names stay unique.
    pub fn mount_machine(&mut self, vm: VirtualMachine)
        requires
            old(self).wf(),
            vm.wf(),
        ensures
            final(self).wf(),
            match spec_registry_find(old(self).machines@, vm.config.name@) {
                Some(i) => final(self).machines@ == old(self).machines@.update(i, vm),
                None => final(self).machines@ == old(self).machines@.push(vm),
            },
    {
        proof {
            lemma_registry_find(self.machines@, vm.config.name@);
        }
        match self.find(vm.config.name.as_str()) {
            Some(i) => {
                proof {
                    match spec_registry_find(self.machines@, vm.config.name@) {
                        Some(k) => {
                            if k != i as int {
                                assert(self.machines@[k].config.name@ == vm.config.name@);
                            }
                        },
                        None => {
                            assert(self.machines@[i as int].config.name@ == vm.config.name@);
                        },
                    }
                }
                self.machines.set(i, vm);
            },
            None => {
                proof {
                    match spec_registry_find(self.machines@, vm.config.name@) {
                        Some(k) => {
                            assert(self.machines@[k].config.name@ == vm.config.name@);
                        },
                        None => {},
                    }
                }
                self.machines.push(vm);
            },
        }
    }

    pub fn len(&self) -> (r: usize)
        ensures
            r == self.machines@.len(),
    {
        self.machines.len()
    }

    /// A snapshot of every machine, in registration order.
    pub fn infos(&self) -> (r: Vec<VirtualMachineInfo>)
        ensures
            r@.len() == self.machines@.len(),
            forall|i: int|
                0 <= i < r@.len() ==> (#[trigger] r@[i]).name@ == self.machines@[i].config.name@
                    && r@[i].state == self.machines@[i].state && r@[i].config@
                    == self.machines@[i].config@ && r@[i].working_dir@
                    == self.machines@[i].working_dir@,
    {
        let mut out: Vec<VirtualMachineInfo> = Vec::new();
        let mut i: usize = 0;
        while i < self.machines.len()
            invariant
                i <= self.machines@.len(),
                out@.len() == i,
                forall|j: int|
                    0 <= j < i ==> (#[trigger] out@[j]).name@ == self.machines@[j].config.name@
                        && out@[j].state == self.machines@[j].state && out@[j].config@
                        == self.machines@[j].config@ && out@[j].working_dir@
                        == self.machines@[j].working_dir@,
            decreases self.machines.len() - i,
        {
            out.push(self.machines[i].info());
            i = i + 1;
        }
        out
    }
}

/// The slot of the first machine with a name.
pub open spec fn spec_registry_find(ms: Seq<VirtualMachine>, name: Seq<char>) -> Option<int>
    decreases ms.len(),
{
    if ms.len() == 0 {
        None
    } else if ms[0].config.name@ == name {
        Some(0)
    } else {
        match spec_registry_find(ms.drop_first(), name) {
            Some(i) => Some(i + 1),
            None => None,
        }
    }
}

proof fn lemma_registry_find(ms: Seq<VirtualMachine>, name: Seq<char>)
    ensures
        match spec_registry_find(ms, name) {
            Some(i) => 0 <= i < ms.len() && ms[i].config.name@ == name && forall|j: int|
                0 <= j < i ==> (#[trigger] ms[j]).config.name@ != name,
            None => forall|j: int| 0 <= j < ms.len() ==> (#[trigger] ms[j]).config.name@ != name,
        },
    decreases ms.len(),
{
    if ms.len() > 0 && ms[0].config.name@ != name {
        let t = ms.drop_first();
        lemma_registry_find(t, name);
        match spec_registry_find(t, name) {
            Some(i) => {
                assert(ms[i + 1] == t[i]);
                assert forall|j: int| 0 <= j < i + 1 implies (#[trigger] ms[j]).config.name@
                    != name by {
                    if j > 0 {
                        assert(ms[j] == t[j - 1]);
                    }
                }
            },
            None => {
                assert forall|j: int| 0 <= j < ms.len() implies (#[trigger] ms[j]).config.name@
                    != name by {
                    if j > 0 {
                        assert(ms[j] == t[j - 1]);
                    }
                }
            },
        }
    }
}

/// Registering keeps the names unique, whatever was registered before: the
/// registry's invariant survives every mount.
pub proof fn lemma_mount_preserves_unique_names(
    before: MachineRegistry,
    after: MachineRegistry,
    vm: VirtualMachine,
)
    requires
        before.wf(),
        vm.wf(),
        match spec_registry_find(before.machines@, vm.config.name@) {
            Some(i) => after.machines@ == before.machines@.update(i, vm),
            None => after.machines@ == before.machines@.push(vm),
        },
    ensures
        forall|i: int, j: int|
            0 <= i < j < after.machines@.len() ==> (#[trigger] after.machines@[i]).config.name@
                != (#[trigger] after.machines@[j]).config.name@,
{
    lemma_registry_find(before.machines@, vm.config.name@);
}

// ---------------------------------------------------------------------------
// Dispatch planning
// ---------------------------------------------------------------------------

/// What a request means once decoded: an immediate response, work on one
/// registered machine, work with no machine, or a refusal.
#[derive(Debug)]
pub enum DispatchAction {
    Respond(AllResponses),
    LoadMachine { toml: String, working_directory: Option<String>, save: bool },
    PrepareMachine(usize),
    StartMachine(usize),
    StopMachine(usize),
    KillMachine(usize),
    ListPresets,
    Refuse(VoreError),
}

/// Plans one request against the registry: version and listing requests are
/// answered at once, machine requests resolve their name to a slot or are
/// refused as unknown, the unload request is not implemented.
pub fn plan_command(registry: &MachineRegistry, command: &Command) -> (r: DispatchAction)
    requires
        registry.wf(),
    ensures
        command.data is Info ==> (r matches DispatchAction::Respond(AllResponses::Info(i))
            && i.name@ == "vore"@ && i.version@ == VORE_VERSION@),
        command.data is List ==> (r matches DispatchAction::Respond(AllResponses::List(l))
            && l.items@.len() == registry.machines@.len()),
        command.data is Load ==> (r matches DispatchAction::LoadMachine {
            toml,
            working_directory,
            save,
        } && toml@ == command.data->Load_0.toml@ && save == command.data->Load_0.save),
        command.data is Unload ==> r matches DispatchAction::Refuse(VoreError::Unimplemented),
        command.data is DiskPresets ==> r is ListPresets,
        command.data is Prepare ==> (match spec_registry_find(
            registry.machines@,
            command.data->Prepare_0.name@,
        ) {
            Some(i) => r == DispatchAction::PrepareMachine(i as usize),
            None => (r matches DispatchAction::Refuse(VoreError::NoSuchMachine { name })
                && name@ == command.data->Prepare_0.name@),
        }),
        command.data is Start ==> (match spec_registry_find(
            registry.machines@,
            command.data->Start_0.name@,
        ) {
            Some(i) => r == DispatchAction::StartMachine(i as usize),
            None => (r matches DispatchAction::Refuse(VoreError::NoSuchMachine { name })
                && name@ == command.data->Start_0.name@),
        }),
        command.data is Stop ==> (match spec_registry_find(
            registry.machines@,
            command.data->Stop_0.name@,
        ) {
            Some(i) => r == DispatchAction::StopMachine(i as usize),
            None => (r matches DispatchAction::Refuse(VoreError::NoSuchMachine { name })
                && name@ == command.data->Stop_0.name@),
        }),
        command.data is Kill ==> (match spec_registry_find(
            registry.machines@,
            command.data->Kill_0.name@,
        ) {
            Some(i) => r == DispatchAction::KillMachine(i as usize),
            None => (r matches DispatchAction::Refuse(VoreError::NoSuchMachine { name })
                && name@ == command.data->Kill_0.name@),
        }),
{
    match &command.data {
        AllRequests::Info(_) => DispatchAction::Respond(
            InfoResponse {
                name: String::from_str("vore"),
                version: String::from_str(VORE_VERSION),
            }.into_enum(),
        ),
        AllRequests::List(_) => DispatchAction::Respond(
            AllResponses::List(Box::new(crate::rpc::ListResponse { items: registry.infos() })),
        ),
        AllRequests::Load(req) => DispatchAction::LoadMachine {
            toml: req.toml.clone(),
            working_directory: match &req.working_directory {
                Some(w) => Some(w.clone()),
                None => None,
            },
            save: req.save,
        },
        AllRequests::Prepare(req) => {
            proof {
                lemma_registry_find(registry.machines@, req.name@);
            }
            match registry.find(req.name.as_str()) {
                Some(i) => {
                    proof {
                        lemma_find_agrees(registry.machines@, req.name@, i as int);
                    }
                    DispatchAction::PrepareMachine(i)
                },
                None => DispatchAction::Refuse(VoreError::NoSuchMachine { name: req.name.clone() }),
            }
        },
        AllRequests::Start(req) => {
            proof {
                lemma_registry_find(registry.machines@, req.name@);
            }
            match registry.find(req.name.as_str()) {
                Some(i) => {
                    proof {
                        lemma_find_agrees(registry.machines@, req.name@, i as int);
                    }
                    DispatchAction::StartMachine(i)
                },
                None => DispatchAction::Refuse(VoreError::NoSuchMachine { name: req.name.clone() }),
            }
        },
        AllRequests::Stop(req) => {
            proof {
                lemma_registry_find(registry.machines@, req.name@);
            }
            match registry.find(req.name.as_str()) {
                Some(i) => {
                    proof {
                        lemma_find_agrees(registry.machines@, req.name@, i as int);
                    }
                    DispatchAction::StopMachine(i)
                },
                None => DispatchAction::Refuse(VoreError::NoSuchMachine { name: req.name.clone() }),
            }
        },
        AllRequests::Unload(_) => DispatchAction::Refuse(VoreError::Unimplemented),
        AllRequests::Kill(req) => {
            proof {
                lemma_registry_find(registry.machines@, req.name@);
            }
            match registry.find(req.name.as_str()) {
                Some(i) => {
                    proof {
                        lemma_find_agrees(registry.machines@, req.name@, i as int);
                    }
                    DispatchAction::KillMachine(i)
                },
                None => DispatchAction::Refuse(VoreError::NoSuchMachine { name: req.name.clone() }),
            }
        },
        AllRequests::DiskPresets(_) => DispatchAction::ListPresets,
    }
}

/// Any slot holding the name is the slot the spec finds, names being unique.
proof fn lemma_find_agrees(ms: Seq<VirtualMachine>, name: Seq<char>, i: int)
    requires
        0 <= i < ms.len(),
        ms[i].config.name@ == name,
        forall|a: int, b: int|
            0 <= a < b < ms.len() ==> (#[trigger] ms[a]).config.name@ != (
            #[trigger] ms[b]).config.name@,
    ensures
        spec_registry_find(ms, name) == Some(i),
{
    lemma_registry_find(ms, name);
    match spec_registry_find(ms, name) {
        Some(k) => {
            if k != i {
                assert(ms[k].config.name@ == name);
            }
        },
        None => {
            assert(ms[i].config.name@ == name);
        },
    }
}

// ---------------------------------------------------------------------------
// Queue draining
// ---------------------------------------------------------------------------

/// One queued command's finished outcome, ready to be written back.
pub struct QueuedOutcome {
    pub connection: usize,
    pub answer: Answer,
}

/// Packs each finished outcome with the answer for its command: every queued
/// command gets exactly one answer, in queue order, and each answer carries
/// the id of the command it answers on the connection it came from.
pub fn pair_queue_answers(
    queue: &Vec<(usize, Command)>,
    outcomes: Vec<Result<AllResponses, VoreError>>,
) -> (r: Vec<QueuedOutcome>)
    requires
        outcomes@.len() == queue@.len(),
    ensures
        r@.len() == queue@.len(),
        forall|i: int|
            0 <= i < r@.len() ==> (#[trigger] r@[i]).connection == queue@[i].0 && r@[i].answer.id
                == queue@[i].1.id,
{
    let mut out: Vec<QueuedOutcome> = Vec::new();
    let mut i: usize = 0;
    let mut rest = outcomes;
    while i < queue.len()
        invariant
            i <= queue@.len(),
            rest@.len() == queue@.len() - i,
            forall|j: int| 0 <= j < rest@.len() ==> rest@[j] == outcomes@[j + i],
            out@.len() == i,
            forall|j: int|
                0 <= j < i ==> (#[trigger] out@[j]).connection == queue@[j].0 && out@[j].answer.id
                    == queue@[j].1.id,
        decreases queue.len() - i,
    {
        let outcome = rest.remove(0);
        let answer = CommandCenter::write_answer::<AllResponses>(&queue[i].1, outcome);
        out.push(QueuedOutcome { connection: queue[i].0, answer });
        i = i + 1;
    }
    out
}

} // verus!
