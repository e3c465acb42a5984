use vstd::prelude::*;
use crate::chain::{
    build_config, chain_has_uuid, chain_sorted, chain_uuids_distinct, insert_sorted, remove_uuid,
    ChainEntry, DispatcherConfig, DEFAULT_RUN_PRIO, MAX_EXTENSIONS,
};
use crate::dispatcher::{
    dispatcher_contents_full, dispatcher_tree_name, lemma_dispatcher_keys_distinct,
    lemma_tree_name_injective, Dispatcher,
};
use crate::errors::BpfdError;
use crate::bytes::clone_bytes;
use crate::proceed_on::ProceedOn;
use crate::proceed_on::{TC_ACT_PIPE, TC_DISPATCHER_RETURN, XDP_DISPATCHER_RETURN, XDP_PASS};
use crate::store::{store_has_tree, store_tree_at, Store};
use vstd::slice::SliceAdditionalExecFns;
use crate::types::{
    Direction, Hook, NetInfo, Program, ProgramData, ProgramKind, ProgramSummary, TracepointInfo,
    XdpMode,
};

verus! {

/// One live dispatcher: its identity and its current chain. Its
/// persistent record lives in the store under `entry_record_name`.
pub struct DispEntry {
    pub hook: Hook,
    pub if_index: u32,
    pub if_name: Vec<u8>,
    pub mode: XdpMode,
    pub revision: u32,
    pub program_name: Vec<u8>,
    pub chain: Vec<ChainEntry>,
}

impl DispEntry {
    /// The entry's chain is ordered and bounded.
    pub open spec fn inv(self) -> bool {
        &&& chain_sorted(self.chain@)
        &&& chain_uuids_distinct(self.chain@)
        &&& 1 <= self.chain@.len() <= MAX_EXTENSIONS
        &&& self.revision >= 1
    }
}

/// The name of the sub-tree holding this dispatcher's persistent record.
pub open spec fn entry_record_name(e: DispEntry) -> Seq<u8> {
    dispatcher_tree_name(e.hook, e.if_index, e.revision)
}

/// The store holds this dispatcher's record: its sub-tree exists and
/// carries exactly the entry's fields.
pub open spec fn entry_persisted(s: Store, e: DispEntry) -> bool {
    &&& store_has_tree(s, entry_record_name(e))
    &&& store_tree_at(s, entry_record_name(e)) == dispatcher_contents_full(
        e.if_index,
        e.if_name@,
        e.mode,
        e.revision,
        e.chain@.len() as u32,
        e.program_name@,
    )
}

/// A filesystem pin the daemon owns under its runtime directory.
#[derive(Clone, Copy, Debug, PartialEq, Eq, Structural)]
pub enum Pin {
    /// The per-revision directory of a dispatcher.
    RevisionDir { hook: Hook, if_index: u32, revision: u32 },
    /// The link pin of one grafted extension, inside a revision directory.
    LinkPin { hook: Hook, if_index: u32, revision: u32, uuid: u128 },
    /// The stable pin of the kernel link holding the hook.
    StableLink { hook: Hook, if_index: u32 },
    /// The pinned file descriptor of a client program.
    ProgPin { uuid: u128 },
    /// The map-pin directory of a client program.
    MapDir { uuid: u128 },
}

/// An entry of the chain stands for a loaded program with the same
/// identity, ordering key and mask, attached at this (interface, hook).
pub open spec fn chain_entry_matches(
    programs: Seq<Program>,
    e: ChainEntry,
    hook: Hook,
    if_index: u32,
) -> bool {
    exists|j: int|
        0 <= j < programs.len() && programs[j].uuid() == e.uuid && programs[j].on_hook(
            hook,
            if_index,
        ) && (programs[j].net() matches Some(n) && n.priority == e.priority
            && ProceedOn::mask_of(n.proceed_on.codes@) == e.proceed_mask)
}

/// A network-attached program occupies a slot of the dispatcher at its
/// (interface, hook).
pub open spec fn prog_chained(disps: Seq<DispEntry>, hook: Hook, if_index: u32, uuid: u128) -> bool {
    exists|k: int|
        0 <= k < disps.len() && disps[k].hook == hook && disps[k].if_index == if_index
            && chain_has_uuid(disps[k].chain@, uuid)
}

/// The serialized owner of the registry and the dispatcher engine. All
/// load, unload and list commands go through one value of this type.
pub struct BpfManager {
    pub store: Store,
    pub programs: Vec<Program>,
    pub dispatchers: Vec<DispEntry>,
    pub next_uuid: u128,
}

impl BpfManager {
    /// The standing invariant of the core.
    pub open spec fn wf(self) -> bool {
        &&& forall|i: int, j: int|
            0 <= i < j < self.programs@.len() ==> self.programs@[i].uuid()
                < self.programs@[j].uuid()
        &&& forall|i: int|
            0 <= i < self.programs@.len() ==> (#[trigger] self.programs@[i]).uuid()
                < self.next_uuid
        &&& forall|i: int| 0 <= i < self.programs@.len() ==> (#[trigger] self.programs@[i]).wf()
        &&& self.next_uuid >= 1
        &&& forall|k: int, l: int|
            0 <= k < l < self.dispatchers@.len() ==> !(self.dispatchers@[k].hook
                == self.dispatchers@[l].hook && self.dispatchers@[k].if_index
                == self.dispatchers@[l].if_index)
        &&& forall|k: int|
            0 <= k < self.dispatchers@.len() ==> (#[trigger] self.dispatchers@[k]).inv()
        &&& forall|k: int, w: int|
            0 <= k < self.dispatchers@.len() && 0 <= w < self.dispatchers@[k].chain@.len()
                ==> chain_entry_matches(
                self.programs@,
                #[trigger] self.dispatchers@[k].chain@[w],
                self.dispatchers@[k].hook,
                self.dispatchers@[k].if_index,
            )
        &&& forall|j: int|
            0 <= j < self.programs@.len() ==> ((#[trigger] self.programs@[j]).hook() matches Some(
                h,
            ) ==> prog_chained(
                self.dispatchers@,
                h,
                self.programs@[j].net().unwrap().if_index,
                self.programs@[j].uuid(),
            ))
    }

    /// Every dispatcher's record stands in the store exactly as the entry
    /// says. Holds from a fresh start and is preserved by every successful
    /// command; a store failure may leave the one failed record behind.
    pub open spec fn records_ok(self) -> bool {
        forall|k: int|
            0 <= k < self.dispatchers@.len() ==> entry_persisted(
                self.store,
                #[trigger] self.dispatchers@[k],
            )
    }

    /// Whether a dispatcher exists for this (interface, hook).
    pub open spec fn has_dispatcher(self, hook: Hook, if_index: u32) -> bool {
        exists|k: int|
            0 <= k < self.dispatchers@.len() && self.dispatchers@[k].hook == hook
                && self.dispatchers@[k].if_index == if_index
    }

    /// The index of the dispatcher of this (interface, hook).
    pub open spec fn disp_index_of(self, hook: Hook, if_index: u32) -> int {
        choose|k: int|
            0 <= k < self.dispatchers@.len() && self.dispatchers@[k].hook == hook
                && self.dispatchers@[k].if_index == if_index
    }

    /// The current chain of this (interface, hook); empty when no
    /// dispatcher exists.
    pub open spec fn chain_of(self, hook: Hook, if_index: u32) -> Seq<ChainEntry> {
        if self.has_dispatcher(hook, if_index) {
            self.dispatchers@[self.disp_index_of(hook, if_index)].chain@
        } else {
            Seq::empty()
        }
    }

    /// The revision of the current dispatcher of this (interface, hook);
    /// zero when none exists, so that the first dispatcher takes revision
    /// one.
    pub open spec fn revision_of(self, hook: Hook, if_index: u32) -> u32 {
        if self.has_dispatcher(hook, if_index) {
            self.dispatchers@[self.disp_index_of(hook, if_index)].revision
        } else {
            0u32
        }
    }

    /// Which pins exist under the runtime directory: exactly those the
    /// current registry and dispatchers call for.
    pub open spec fn expected_pin(self, p: Pin) -> bool {
        match p {
            Pin::RevisionDir { hook, if_index, revision } => self.has_dispatcher(hook, if_index)
                && self.revision_of(hook, if_index) == revision,
            Pin::LinkPin { hook, if_index, revision, uuid } => self.has_dispatcher(hook, if_index)
                && self.revision_of(hook, if_index) == revision && chain_has_uuid(
                self.chain_of(hook, if_index),
                uuid,
            ),
            Pin::StableLink { hook, if_index } => self.has_dispatcher(hook, if_index),
            Pin::ProgPin { uuid } => exists|j: int|
                0 <= j < self.programs@.len() && (#[trigger] self.programs@[j]).uuid() == uuid,
            Pin::MapDir { uuid } => exists|j: int|
                0 <= j < self.programs@.len() && (#[trigger] self.programs@[j]).data().map_dir
                    == Some(uuid),
        }
    }

    /// Start a manager over an empty registry.
    pub fn new(store: Store) -> (r: BpfManager)
        ensures
            r.wf(),
            r.programs@.len() == 0,
            r.dispatchers@.len() == 0,
            r.next_uuid == 1,
    {
        BpfManager { store, programs: Vec::new(), dispatchers: Vec::new(), next_uuid: 1 }
    }

    /// Find the dispatcher of this (interface, hook).
    pub fn find_dispatcher(&self, hook: Hook, if_index: u32) -> (r: Option<usize>)
        requires
            self.wf(),
        ensures
            r matches Some(k) ==> k < self.dispatchers@.len() && self.dispatchers@[k as int].hook
                == hook && self.dispatchers@[k as int].if_index == if_index && self.has_dispatcher(
                hook,
                if_index,
            ) && self.disp_index_of(hook, if_index) == k,
            r is None ==> !self.has_dispatcher(hook, if_index),
    {
        let mut k: usize = 0;
        while k < self.dispatchers.len()
            invariant
                self.wf(),
                k <= self.dispatchers@.len(),
                forall|l: int|
                    0 <= l < k ==> !(self.dispatchers@[l].hook == hook
                        && self.dispatchers@[l].if_index == if_index),
            decreases self.dispatchers@.len() - k,
        {
            if self.dispatchers[k].hook == hook && self.dispatchers[k].if_index == if_index {
                proof {
                    let k2 = self.disp_index_of(hook, if_index);
                    assert(0 <= k2 < self.dispatchers@.len() && self.dispatchers@[k2].hook == hook
                        && self.dispatchers@[k2].if_index == if_index);
                    if k2 != k {
                        assert(false);
                    }
                }
                return Some(k);
            }
            k = k + 1;
        }
        None
    }

    /// Find the program of this identity.
    pub fn find_program(&self, uuid: u128) -> (r: Option<usize>)
        ensures
            r matches Some(j) ==> j < self.programs@.len() && self.programs@[j as int].uuid()
                == uuid,
            r is None ==> forall|j: int|
                0 <= j < self.programs@.len() ==> (#[trigger] self.programs@[j]).uuid() != uuid,
    {
        let mut j: usize = 0;
        while j < self.programs.len()
            invariant
                j <= self.programs@.len(),
                forall|l: int|
                    0 <= l < j ==> (#[trigger] self.programs@[l]).uuid() != uuid,
            decreases self.programs@.len() - j,
        {
            if self.programs[j].get_uuid() == uuid {
                return Some(j);
            }
            j = j + 1;
        }
        None
    }

    /// Whether the per-revision pin directory of this revision exists.
    pub fn has_revision_dir(&self, hook: Hook, if_index: u32, revision: u32) -> (r: bool)
        requires
            self.wf(),
        ensures
            r == self.expected_pin(Pin::RevisionDir { hook, if_index, revision }),
    {
        match self.find_dispatcher(hook, if_index) {
            Some(k) => self.dispatchers[k].revision == revision,
            None => false,
        }
    }

    /// Whether the stable hook-link pin of this (interface, hook) exists.
    pub fn has_stable_link(&self, hook: Hook, if_index: u32) -> (r: bool)
        requires
            self.wf(),
        ensures
            r == self.expected_pin(Pin::StableLink { hook, if_index }),
    {
        match self.find_dispatcher(hook, if_index) {
            Some(_) => true,
            None => false,
        }
    }

    /// The revision of the current dispatcher of this (interface, hook).
    pub fn dispatcher_revision(&self, hook: Hook, if_index: u32) -> (r: Option<u32>)
        requires
            self.wf(),
        ensures
            self.has_dispatcher(hook, if_index) ==> r == Some(self.revision_of(hook, if_index)),
            !self.has_dispatcher(hook, if_index) ==> r is None,
    {
        match self.find_dispatcher(hook, if_index) {
            Some(k) => Some(self.dispatchers[k].revision),
            None => None,
        }
    }

    /// The chain position of a program: its rank in the current dispatcher
    /// of its (interface, hook), when it occupies a slot.
    pub fn current_position(&self, uuid: u128) -> (r: Option<usize>)
        requires
            self.wf(),
        ensures
            r matches Some(pos) ==> exists|k: int|
                0 <= k < self.dispatchers@.len() && pos < (
                #[trigger] self.dispatchers@[k]).chain@.len() && self.dispatchers@[k].chain@[
                    pos as int
                ].uuid == uuid,
            r is None ==> forall|k: int|
                0 <= k < self.dispatchers@.len() ==> !chain_has_uuid(
                    (#[trigger] self.dispatchers@[k]).chain@,
                    uuid,
                ),
    {
        let mut k: usize = 0;
        while k < self.dispatchers.len()
            invariant
                self.wf(),
                k <= self.dispatchers@.len(),
                forall|l: int|
                    0 <= l < k ==> !chain_has_uuid(
                        (#[trigger] self.dispatchers@[l]).chain@,
                        uuid,
                    ),
            decreases self.dispatchers@.len() - k,
        {
            let chain = &self.dispatchers[k].chain;
            let mut w: usize = 0;
            while w < chain.len()
                invariant
                    w <= chain@.len(),
                    k < self.dispatchers@.len(),
                    chain@ == self.dispatchers@[k as int].chain@,
                    forall|x: int| 0 <= x < w ==> chain@[x].uuid != uuid,
                decreases chain@.len() - w,
            {
                if chain[w].uuid == uuid {
                    proof {
                        assert(self.dispatchers@[k as int].chain@[w as int].uuid == uuid);
                    }
                    return Some(w);
                }
                w = w + 1;
            }
            proof {
                assert(!chain_has_uuid(self.dispatchers@[k as int].chain@, uuid));
            }
            k = k + 1;
        }
        None
    }
}

} // verus!

verus! {

/// The kind of attachment a Load command asks for.
pub enum AttachSpec {
    /// Attach into the shared chain of a network interface hook.
    NetworkMultiAttach {
        /// Resolved interface index; absent when the name did not resolve.
        if_index: Option<u32>,
        if_name: Vec<u8>,
        priority: u32,
        proceed_on: ProceedOn,
        direction: Option<Direction>,
        /// Ignored: ordering is decided by priority; kept for wire
        /// compatibility.
        position: Option<usize>,
    },
    /// Attach alone at a kind-specific point.
    SingleAttach { category: Vec<u8>, name: Vec<u8> },
}

/// A Load command, as handed to the command loop.
pub struct LoadRequest {
    pub kind: ProgramKind,
    pub location: Vec<u8>,
    pub section_name: Vec<u8>,
    pub global_data: Vec<(Vec<u8>, Vec<u8>)>,
    pub username: Vec<u8>,
    /// Attach mode for a dispatcher this load may create.
    pub mode: XdpMode,
    pub attach: AttachSpec,
}

/// A request is well formed when its proceed-on codes fit the mask.
pub open spec fn req_wf(req: LoadRequest) -> bool {
    match req.attach {
        AttachSpec::NetworkMultiAttach { proceed_on, .. } => proceed_on.wf(),
        AttachSpec::SingleAttach { .. } => true,
    }
}

/// The hook a (kind, direction) pair attaches at.
pub open spec fn hook_for(kind: ProgramKind, direction: Option<Direction>) -> Option<Hook> {
    match kind {
        ProgramKind::Xdp => Some(Hook::Xdp),
        ProgramKind::Tc => match direction {
            Some(Direction::Ingress) => Some(Hook::TcIngress),
            Some(Direction::Egress) => Some(Hook::TcEgress),
            None => None,
        },
        ProgramKind::Tracepoint => None,
    }
}

/// An empty proceed-on list is replaced by the kind's default; a TC list
/// that is not empty is kept, with a warning, since the in-kernel TC
/// dispatcher does not honour it in this version.
pub open spec fn normalized_codes(kind: ProgramKind, codes: Seq<u32>) -> Seq<u32> {
    if codes.len() == 0 {
        match kind {
            ProgramKind::Xdp => seq![XDP_PASS, XDP_DISPATCHER_RETURN],
            ProgramKind::Tc => seq![TC_ACT_PIPE, TC_DISPATCHER_RETURN],
            ProgramKind::Tracepoint => codes,
        }
    } else {
        codes
    }
}

/// Apply the proceed-on normalization; the flag reports the TC warning.
pub fn normalize_proceed_on(kind: ProgramKind, p: &ProceedOn) -> (r: (ProceedOn, bool))
    requires
        p.wf(),
    ensures
        r.0.codes@ == normalized_codes(kind, p.codes@),
        r.0.wf(),
        r.1 == (kind == ProgramKind::Tc && p.codes@.len() > 0),
{
    if p.codes.len() == 0 {
        match kind {
            ProgramKind::Xdp => (ProceedOn::default_xdp(), false),
            ProgramKind::Tc => (ProceedOn::default_tc(), false),
            ProgramKind::Tracepoint => (p.duplicate(), false),
        }
    } else {
        (p.duplicate(), matches!(kind, ProgramKind::Tc))
    }
}

/// Everything the command loop decides before any kernel or image work is
/// done for a Load: the identity and rank the program will take, the
/// revision of the dispatcher that will replace the current one, the new
/// chain, and the configuration to stamp into the dispatcher bytecode.
pub struct LoadPlan {
    pub request: LoadRequest,
    pub uuid: u128,
    /// The hook of the chain mutation; absent for single-attach kinds.
    pub hook: Option<Hook>,
    pub if_index: u32,
    pub if_name: Vec<u8>,
    pub direction: Option<Direction>,
    pub priority: u32,
    /// Normalized proceed-on list.
    pub proceed_on: ProceedOn,
    /// The TC warning of the normalization.
    pub proceed_on_warning: bool,
    pub had_dispatcher: bool,
    pub old_revision: u32,
    pub revision: u32,
    /// Rank the new program takes in the new chain.
    pub position: usize,
    pub new_chain: Vec<ChainEntry>,
    pub config: DispatcherConfig,
}

/// The slot the new program will occupy.
pub open spec fn plan_entry(plan: LoadPlan) -> ChainEntry {
    ChainEntry {
        uuid: plan.uuid,
        priority: plan.priority,
        proceed_mask: ProceedOn::mask_of(plan.proceed_on.codes@),
    }
}

/// The configuration carries the chain's masks slot by slot.
pub open spec fn config_matches(c: DispatcherConfig, chain: Seq<ChainEntry>) -> bool {
    &&& c.num_extensions == chain.len()
    &&& c.chain_call_actions@.len() == MAX_EXTENSIONS
    &&& c.run_prios@.len() == MAX_EXTENSIONS
    &&& forall|k: int| 0 <= k < chain.len() ==> c.chain_call_actions@[k] == chain[k].proceed_mask
    &&& forall|k: int| chain.len() <= k < MAX_EXTENSIONS ==> c.chain_call_actions@[k] == 0
    &&& forall|k: int| 0 <= k < MAX_EXTENSIONS ==> c.run_prios@[k] == DEFAULT_RUN_PRIO
}

impl BpfManager {
    /// The error a Load returns before any outside work, if any: an
    /// unresolved interface, a kind that does not fit the attach
    /// specification, a full chain, or an exhausted identity or revision
    /// space.
    pub open spec fn begin_load_err(self, req: LoadRequest) -> Option<BpfdError> {
        match req.attach {
            AttachSpec::NetworkMultiAttach { if_index, direction, .. } => {
                if if_index is None {
                    Some(BpfdError::InvalidInterface)
                } else if hook_for(req.kind, direction) is None {
                    Some(BpfdError::InvalidProgramType)
                } else if self.chain_of(hook_for(req.kind, direction).unwrap(), if_index.unwrap()).len()
                    >= MAX_EXTENSIONS {
                    Some(BpfdError::TooManyPrograms)
                } else if self.next_uuid == u128::MAX || self.revision_of(
                    hook_for(req.kind, direction).unwrap(),
                    if_index.unwrap(),
                ) == u32::MAX {
                    Some(BpfdError::DatabaseError)
                } else {
                    None
                }
            },
            AttachSpec::SingleAttach { .. } => {
                if req.kind != ProgramKind::Tracepoint {
                    Some(BpfdError::InvalidProgramType)
                } else if self.next_uuid == u128::MAX {
                    Some(BpfdError::DatabaseError)
                } else {
                    None
                }
            },
        }
    }

    /// A plan is valid against the state it was computed from.
    pub open spec fn valid_load_plan(self, plan: LoadPlan) -> bool {
        &&& plan.uuid == self.next_uuid
        &&& self.next_uuid < u128::MAX
        &&& plan.proceed_on.wf()
        &&& match plan.hook {
            Some(h) => {
                &&& hook_for(plan.request.kind, plan.direction) == Some(h)
                &&& plan.had_dispatcher == self.has_dispatcher(h, plan.if_index)
                &&& plan.old_revision == self.revision_of(h, plan.if_index)
                &&& plan.old_revision < u32::MAX
                &&& plan.revision == plan.old_revision + 1
                &&& {
                    let cur = self.chain_of(h, plan.if_index);
                    &&& cur.len() < MAX_EXTENSIONS
                    &&& chain_sorted(plan.new_chain@)
                    &&& chain_uuids_distinct(plan.new_chain@)
                    &&& plan.new_chain@.len() == cur.len() + 1
                    &&& plan.position < plan.new_chain@.len()
                    &&& plan.new_chain@[plan.position as int] == plan_entry(plan)
                    &&& forall|w: int|
                        0 <= w < plan.new_chain@.len() ==> (plan.new_chain@[w] == plan_entry(plan)
                            || cur.contains(plan.new_chain@[w]))
                    &&& forall|u: u128|
                        chain_has_uuid(plan.new_chain@, u) <==> (chain_has_uuid(cur, u) || u
                            == plan.uuid)
                    &&& config_matches(plan.config, plan.new_chain@)
                }
            },
            None => plan.request.kind == ProgramKind::Tracepoint && (plan.request.attach matches
            AttachSpec::SingleAttach { .. }),
        }
    }

    /// Validate a Load and decide everything that does not need outside
    /// work: the identity, the revision, the new chain and its
    /// configuration. The state is not touched; a rejected Load leaves
    /// nothing behind.
    pub fn begin_load(&self, req: LoadRequest) -> (r: Result<LoadPlan, BpfdError>)
        requires
            self.wf(),
            req_wf(req),
        ensures
            self.begin_load_err(req) matches Some(e) ==> r == Err::<LoadPlan, BpfdError>(e),
            self.begin_load_err(req) is None ==> (r matches Ok(plan) && self.valid_load_plan(plan)
                && plan.request == req && (req.attach matches AttachSpec::NetworkMultiAttach {
                if_index,
                if_name,
                priority,
                proceed_on,
                direction,
                ..
            } ==> (plan.hook == hook_for(req.kind, direction) && plan.hook is Some
                && plan.if_index == if_index.unwrap() && plan.if_name@ == if_name@
                && plan.direction == direction && plan.priority == priority
                && plan.proceed_on.codes@ == normalized_codes(req.kind, proceed_on.codes@)
                && plan.proceed_on_warning == (req.kind == ProgramKind::Tc
                && proceed_on.codes@.len() > 0))) && (req.attach matches AttachSpec::SingleAttach {
                ..
            } ==> plan.hook is None)),
    {
        match &req.attach {
            AttachSpec::NetworkMultiAttach {
                if_index,
                if_name,
                priority,
                proceed_on,
                direction,
                position: _,
            } => {
                let ifx: u32 = match if_index {
                    Some(x) => *x,
                    None => {
                        return Err(BpfdError::InvalidInterface);
                    },
                };
                let hook: Hook = match (req.kind, direction) {
                    (ProgramKind::Xdp, _) => Hook::Xdp,
                    (ProgramKind::Tc, Some(Direction::Ingress)) => Hook::TcIngress,
                    (ProgramKind::Tc, Some(Direction::Egress)) => Hook::TcEgress,
                    _ => {
                        return Err(BpfdError::InvalidProgramType);
                    },
                };
                let (norm, warn) = normalize_proceed_on(req.kind, proceed_on);
                let kopt = self.find_dispatcher(hook, ifx);
                let (had, oldrev): (bool, u32) = match kopt {
                    Some(k) => {
                        if self.dispatchers[k].chain.len() >= MAX_EXTENSIONS {
                            return Err(BpfdError::TooManyPrograms);
                        }
                        (true, self.dispatchers[k].revision)
                    },
                    None => (false, 0),
                };
                if self.next_uuid == u128::MAX || oldrev == u32::MAX {
                    return Err(BpfdError::DatabaseError);
                }
                let revision: u32 = oldrev + 1;
                let e = ChainEntry { uuid: self.next_uuid, priority: *priority, proceed_mask: norm.mask() };
                proof {
                    if let Some(k) = kopt {
                        assert forall|w: int|
                            0 <= w < self.dispatchers@[k as int].chain@.len()
                                implies (#[trigger] self.dispatchers@[k as int].chain@[w]).uuid
                                != e.uuid by {
                            assert(chain_entry_matches(
                                self.programs@,
                                self.dispatchers@[k as int].chain@[w],
                                self.dispatchers@[k as int].hook,
                                self.dispatchers@[k as int].if_index,
                            ));
                        }
                        assert(!chain_has_uuid(self.dispatchers@[k as int].chain@, e.uuid));
                    }
                }
                let (new_chain, pos) = match kopt {
                    Some(k) => insert_sorted(&self.dispatchers[k].chain, e),
                    None => {
                        let none_yet: Vec<ChainEntry> = Vec::new();
                        insert_sorted(&none_yet, e)
                    },
                };
                let config = build_config(&new_chain);
                let plan = LoadPlan {
                    uuid: self.next_uuid,
                    hook: Some(hook),
                    if_index: ifx,
                    if_name: clone_bytes(if_name),
                    direction: *direction,
                    priority: *priority,
                    proceed_on: norm,
                    proceed_on_warning: warn,
                    had_dispatcher: had,
                    old_revision: oldrev,
                    revision,
                    position: pos,
                    new_chain,
                    config,
                    request: req,
                };
                Ok(plan)
            },
            AttachSpec::SingleAttach { .. } => {
                if !matches!(req.kind, ProgramKind::Tracepoint) {
                    return Err(BpfdError::InvalidProgramType);
                }
                if self.next_uuid == u128::MAX {
                    return Err(BpfdError::DatabaseError);
                }
                let empty_chain: Vec<ChainEntry> = Vec::new();
                let config = build_config(&empty_chain);
                let plan = LoadPlan {
                    uuid: self.next_uuid,
                    hook: None,
                    if_index: 0,
                    if_name: Vec::new(),
                    direction: None,
                    priority: 0,
                    proceed_on: ProceedOn::empty(),
                    proceed_on_warning: false,
                    had_dispatcher: false,
                    old_revision: 0,
                    revision: 0,
                    position: 0,
                    new_chain: empty_chain,
                    config,
                    request: req,
                };
                Ok(plan)
            },
        }
    }
}

} // verus!

verus! {

/// What the outside work of a Load reported back: either the kernel
/// handle of the loaded program together with the entry symbol of the
/// dispatcher bytecode, or which step failed.
pub enum LoadOutcome {
    Loaded { kernel_id: u32, dispatcher_program_name: Vec<u8> },
    /// The image pull or the bytecode read failed.
    BytecodeUnavailable,
    /// The kernel verifier or loader rejected the bytecode.
    LoadFailed,
    /// The kernel refused to attach the dispatcher at the hook.
    AttachFailed,
    /// A filesystem pin could not be created.
    PinFailed,
}

/// The program record a committed Load adds to the registry.
pub open spec fn loaded_program(plan: LoadPlan, kernel_id: u32) -> Program {
    let data = ProgramData {
        uuid: plan.uuid,
        location: plan.request.location,
        section_name: plan.request.section_name,
        global_data: plan.request.global_data,
        owner: plan.request.username,
        kernel_id: Some(kernel_id),
        map_dir: Some(plan.uuid),
    };
    match plan.hook {
        None => match plan.request.attach {
            AttachSpec::SingleAttach { category, name } => Program::Tracepoint {
                data,
                tracepoint: TracepointInfo { category, name },
            },
            _ => vstd::pervasive::arbitrary(),
        },
        Some(h) => {
            let net = NetInfo {
                if_index: plan.if_index,
                if_name: plan.if_name,
                priority: plan.priority,
                proceed_on: plan.proceed_on,
            };
            match h {
                Hook::Xdp => Program::Xdp { data, net },
                Hook::TcIngress | Hook::TcEgress => Program::Tc {
                    data,
                    net,
                    direction: match plan.direction {
                        Some(dd) => dd,
                        None => vstd::pervasive::arbitrary(),
                    },
                },
            }
        },
    }
}

/// How a committed Load leaves the dispatcher it replaced or created.
pub open spec fn entry_desc(e: DispEntry, plan: LoadPlan, h: Hook, pname: Seq<u8>) -> bool {
    &&& e.hook == h
    &&& e.if_index == plan.if_index
    &&& e.if_name@ == plan.if_name@
    &&& e.mode == plan.request.mode
    &&& e.revision == plan.revision
    &&& e.program_name@ == pname
    &&& e.chain@ == plan.new_chain@
    &&& e.inv()
}

/// A committed chain mutation replaces the one dispatcher of its
/// (interface, hook) and touches no other, or adds the first one.
pub open spec fn dispatchers_after_load(
    old_disps: Seq<DispEntry>,
    new_disps: Seq<DispEntry>,
    plan: LoadPlan,
    h: Hook,
    pname: Seq<u8>,
) -> bool {
    if plan.had_dispatcher {
        &&& new_disps.len() == old_disps.len()
        &&& exists|k: int|
            0 <= k < old_disps.len() && (#[trigger] old_disps[k]).hook == h
                && old_disps[k].if_index == plan.if_index && entry_desc(
                new_disps[k],
                plan,
                h,
                pname,
            ) && (forall|l: int|
                0 <= l < old_disps.len() && l != k ==> new_disps[l] == old_disps[l])
    } else {
        &&& new_disps.len() == old_disps.len() + 1
        &&& new_disps.subrange(0, old_disps.len() as int) == old_disps
        &&& entry_desc(new_disps[old_disps.len() as int], plan, h, pname)
    }
}

impl BpfManager {
    /// Commit or abandon a planned Load once the outside work has
    /// reported. A failed pull, load or attach leaves the state exactly as
    /// it was; a success installs the new program, the new chain under its
    /// new revision, and retires the replaced dispatcher record.
    pub fn finish_load(&mut self, plan: LoadPlan, outcome: LoadOutcome) -> (r: Result<
        u128,
        BpfdError,
    >)
        requires
            old(self).wf(),
            old(self).valid_load_plan(plan),
        ensures
            (final(self)).wf(),
            outcome matches LoadOutcome::BytecodeUnavailable ==> (r == Err::<u128, BpfdError>(
                BpfdError::BytecodeUnavailable,
            ) && *final(self) == *old(self)),
            outcome matches LoadOutcome::LoadFailed ==> (r == Err::<u128, BpfdError>(
                BpfdError::LoadFailed,
            ) && *final(self) == *old(self)),
            outcome matches LoadOutcome::AttachFailed ==> (r == Err::<u128, BpfdError>(
                BpfdError::AttachFailed,
            ) && *final(self) == *old(self)),
            outcome matches LoadOutcome::PinFailed ==> (r == Err::<u128, BpfdError>(
                BpfdError::PinError,
            ) && *final(self) == *old(self)),
            outcome matches LoadOutcome::Loaded { .. } ==> (r == Ok::<u128, BpfdError>(plan.uuid) || r
                == Err::<u128, BpfdError>(BpfdError::DatabaseError)),
            (outcome matches LoadOutcome::Loaded { .. } && r is Ok) ==> store_has_tree(
                (final(self)).store,
                crate::registry::program_tree_name(plan.uuid),
            ),
            r == Err::<u128, BpfdError>(BpfdError::DatabaseError) ==> ((final(self)).programs@
                == old(self).programs@ && (final(self)).dispatchers@ == old(self).dispatchers@
                && (final(self)).next_uuid == old(self).next_uuid),
            (outcome matches LoadOutcome::Loaded { .. } && old(self).records_ok()) ==> (r is Ok
                ==> (final(self)).records_ok()),
            outcome matches LoadOutcome::Loaded { kernel_id, dispatcher_program_name } ==> (r
                is Ok ==> ((final(self)).next_uuid == old(self).next_uuid + 1 && (
            final(self)).programs@ == old(self).programs@.push(loaded_program(plan, kernel_id))
                && (match plan.hook {
                Some(h) => (dispatchers_after_load(
                    old(self).dispatchers@,
                    (final(self)).dispatchers@,
                    plan,
                    h,
                    dispatcher_program_name@,
                ) && store_has_tree(
                    (final(self)).store,
                    dispatcher_tree_name(h, plan.if_index, plan.revision),
                ) && store_tree_at(
                    (final(self)).store,
                    dispatcher_tree_name(h, plan.if_index, plan.revision),
                ) == dispatcher_contents_full(
                    plan.if_index,
                    plan.if_name@,
                    plan.request.mode,
                    plan.revision,
                    plan.new_chain@.len() as u32,
                    dispatcher_program_name@,
                ) && (plan.had_dispatcher ==> !store_has_tree(
                    (final(self)).store,
                    dispatcher_tree_name(h, plan.if_index, plan.old_revision),
                ))),
                None => (final(self)).dispatchers@ == old(self).dispatchers@,
            }))),
    {
        let (kernel_id, dispatcher_program_name) = match outcome {
            LoadOutcome::BytecodeUnavailable => {
                return Err(BpfdError::BytecodeUnavailable);
            },
            LoadOutcome::LoadFailed => {
                return Err(BpfdError::LoadFailed);
            },
            LoadOutcome::AttachFailed => {
                return Err(BpfdError::AttachFailed);
            },
            LoadOutcome::PinFailed => {
                return Err(BpfdError::PinError);
            },
            LoadOutcome::Loaded { kernel_id, dispatcher_program_name } => (
                kernel_id,
                dispatcher_program_name,
            ),
        };
        let ghost old_self = *self;
        match crate::registry::persist_program_record(
            &mut self.store,
            &plan,
            kernel_id,
            &dispatcher_program_name,
        ) {
            Ok(()) => (),
            Err(_) => {
                return Err(BpfdError::DatabaseError);
            },
        }
        let ghost pm = crate::registry::program_tree_name(plan.uuid);
        let LoadPlan {
            request,
            uuid,
            hook,
            if_index,
            if_name,
            direction,
            priority,
            proceed_on,
            proceed_on_warning: _,
            had_dispatcher,
            old_revision,
            revision,
            position: _,
            new_chain,
            config: _,
        } = plan;
        let LoadRequest { kind: _, location, section_name, global_data, username, mode, attach } =
            request;
        let data = ProgramData {
            uuid,
            location,
            section_name,
            global_data,
            owner: username,
            kernel_id: Some(kernel_id),
            map_dir: Some(uuid),
        };
        match hook {
            None => {
                let (category, name) = match attach {
                    AttachSpec::SingleAttach { category, name } => (category, name),
                    _ => vstd::pervasive::unreached(),
                };
                let prog = Program::Tracepoint { data, tracepoint: TracepointInfo { category, name } };
                proof {
                    assert(prog == loaded_program(plan, kernel_id));
                }
                self.programs.push(prog);
                self.next_uuid = self.next_uuid + 1;
                proof {
                    lemma_wf_after_push(old_self, *self, prog);
                    if old_self.records_ok() {
                        assert forall|k2: int|
                            0 <= k2 < self.dispatchers@.len() implies entry_persisted(
                            self.store,
                            #[trigger] self.dispatchers@[k2],
                        ) by {
                            assert(entry_persisted(old_self.store, self.dispatchers@[k2]));
                            assert(entry_record_name(self.dispatchers@[k2]).len() == 9);
                            assert(pm.len() == 17);
                        }
                        assert(self.records_ok());
                    }
                }
                Ok(uuid)
            },
            Some(h) => {
                let ghost nm = dispatcher_tree_name(h, if_index, revision);
                let ghost om = dispatcher_tree_name(h, if_index, old_revision);
                let ghost s_begin = self.store;
                proof {
                    lemma_tree_name_injective(h, if_index, revision, h, if_index, old_revision);
                    assert(revision != old_revision);
                    assert(nm != om);
                }
                let d = match Dispatcher::new(&mut self.store, h, mode, if_index, &if_name, revision) {
                    Ok(d) => d,
                    Err(_) => {
                        return Err(BpfdError::DatabaseError);
                    },
                };
                match d.set_num_extensions(&mut self.store, new_chain.len()) {
                    Ok(()) => (),
                    Err(_) => {
                        return Err(BpfdError::DatabaseError);
                    },
                }
                match d.set_program_name(&mut self.store, &dispatcher_program_name) {
                    Ok(()) => (),
                    Err(_) => {
                        return Err(BpfdError::DatabaseError);
                    },
                }
                if had_dispatcher {
                    match Dispatcher::delete(&mut self.store, h, if_index, old_revision) {
                        Ok(_) => (),
                        Err(_) => {
                            return Err(BpfdError::DatabaseError);
                        },
                    }
                }
                let ghost ifn_g = if_name@;
                proof {
                    assert(pm.len() == 17 && nm.len() == 9 && om.len() == 9);
                    assert(store_has_tree(self.store, pm));
                    // The new record stands complete under its name; the
                    // retired name was dropped; every other sub-tree kept
                    // its pairs through the whole sequence.
                    assert(store_tree_at(self.store, nm) == dispatcher_contents_full(
                        if_index,
                        ifn_g,
                        mode,
                        revision,
                        new_chain@.len() as u32,
                        dispatcher_program_name@,
                    ));
                    assert(store_has_tree(self.store, nm));
                    assert forall|n: Seq<u8>| n != nm && n != om implies #[trigger] store_tree_at(
                        self.store,
                        n,
                    ) == store_tree_at(s_begin, n) by {}
                    assert forall|n: Seq<u8>| n != nm && n != om implies #[trigger] store_has_tree(
                        self.store,
                        n,
                    ) == store_has_tree(s_begin, n) by {}
                }
                let ghost s_done = self.store;
                let kopt = self.find_dispatcher(h, if_index);
                let entry_if_name = clone_bytes(&if_name);
                let net = NetInfo { if_index, if_name, priority, proceed_on };
                let prog = match h {
                    Hook::Xdp => Program::Xdp { data, net },
                    Hook::TcIngress | Hook::TcEgress => Program::Tc {
                        data,
                        net,
                        direction: match direction {
                            Some(dd) => dd,
                            None => vstd::pervasive::unreached(),
                        },
                    },
                };
                proof {
                    assert(prog == loaded_program(plan, kernel_id));
                }
                let ghost pname_g = dispatcher_program_name@;
                let entry = DispEntry {
                    hook: h,
                    if_index,
                    if_name: entry_if_name,
                    mode,
                    revision,
                    program_name: dispatcher_program_name,
                    chain: new_chain,
                };
                proof {
                    assert(entry.inv());
                    assert(entry_desc(entry, plan, h, pname_g));
                }
                if had_dispatcher {
                    let k = match kopt {
                        Some(k) => k,
                        None => vstd::pervasive::unreached(),
                    };
                    self.dispatchers.set(k, entry);
                    proof {
                        assert(self.dispatchers@ == old_self.dispatchers@.update(k as int, entry));
                        assert(self.dispatchers@[k as int] == entry);
                        assert(old_self.dispatchers@[k as int].hook == h
                            && old_self.dispatchers@[k as int].if_index == if_index);
                        assert forall|l: int|
                            0 <= l < old_self.dispatchers@.len() && l != k implies
                            self.dispatchers@[l] == old_self.dispatchers@[l] by {}
                        assert(dispatchers_after_load(
                            old_self.dispatchers@,
                            self.dispatchers@,
                            plan,
                            h,
                            pname_g,
                        ));
                    }
                } else {
                    proof {
                        assert(kopt is None);
                    }
                    self.dispatchers.push(entry);
                    proof {
                        let n0 = old_self.dispatchers@.len() as int;
                        assert(self.dispatchers@.subrange(0, n0) =~= old_self.dispatchers@);
                        assert(self.dispatchers@[n0] == entry);
                        assert(dispatchers_after_load(
                            old_self.dispatchers@,
                            self.dispatchers@,
                            plan,
                            h,
                            pname_g,
                        ));
                    }
                }
                self.programs.push(prog);
                self.next_uuid = self.next_uuid + 1;
                proof {
                    lemma_wf_after_chain_load(old_self, *self, plan, h, pname_g, kernel_id);
                    assert(entry_persisted(s_done, entry)) by {
                        assert(entry_record_name(entry) == nm);
                        assert(entry.if_name@ == ifn_g);
                    }
                    if old_self.records_ok() {
                        assert forall|k2: int|
                            0 <= k2 < old_self.dispatchers@.len() implies entry_persisted(
                            s_begin,
                            #[trigger] old_self.dispatchers@[k2],
                        ) by {
                            assert(entry_persisted(old_self.store, old_self.dispatchers@[k2]));
                            assert(entry_record_name(old_self.dispatchers@[k2]).len() == 9);
                            assert(pm.len() == 17);
                        }
                        let ghost kk: int = if had_dispatcher {
                            old_self.disp_index_of(h, if_index)
                        } else {
                            old_self.dispatchers@.len() as int
                        };
                        assert forall|k2: int|
                            0 <= k2 < old_self.dispatchers@.len() && k2 != kk implies !((
                        #[trigger] old_self.dispatchers@[k2]).hook == h
                            && old_self.dispatchers@[k2].if_index == if_index) by {
                            if old_self.dispatchers@[k2].hook == h
                                && old_self.dispatchers@[k2].if_index == if_index {
                                assert(old_self.has_dispatcher(h, if_index));
                            }
                        }
                        lemma_records_preserved(
                            s_begin,
                            s_done,
                            old_self.dispatchers@,
                            self.dispatchers@,
                            entry,
                            kk,
                            h,
                            if_index,
                            revision,
                            old_revision,
                        );
                        assert(self.records_ok());
                    }
                }
                Ok(uuid)
            },
        }
    }
}

/// After a committed single-attach Load the invariant stands: the new
/// program carries a fresh identity and no chain is touched.
proof fn lemma_wf_after_push(m0: BpfManager, m1: BpfManager, prog: Program)
    requires
        m0.wf(),
        prog.uuid() == m0.next_uuid,
        m0.next_uuid < u128::MAX,
        prog.wf(),
        prog.hook() is None,
        m1.programs@ == m0.programs@.push(prog),
        m1.dispatchers@ == m0.dispatchers@,
        m1.next_uuid == m0.next_uuid + 1,
    ensures
        m1.wf(),
{
    let ops = m0.programs@;
    let nps = m1.programs@;
    assert forall|i: int, j: int| 0 <= i < j < nps.len() implies nps[i].uuid() < nps[j].uuid() by {
        if j < ops.len() {
            assert(nps[i] == ops[i] && nps[j] == ops[j]);
        } else {
            assert(nps[j] == prog);
            if i < ops.len() {
                assert(nps[i] == ops[i]);
            }
        }
    }
    assert forall|k: int, w: int|
        0 <= k < m1.dispatchers@.len() && 0 <= w < m1.dispatchers@[k].chain@.len()
            implies chain_entry_matches(
            nps,
            #[trigger] m1.dispatchers@[k].chain@[w],
            m1.dispatchers@[k].hook,
            m1.dispatchers@[k].if_index,
        ) by {
        assert(chain_entry_matches(
            ops,
            m0.dispatchers@[k].chain@[w],
            m0.dispatchers@[k].hook,
            m0.dispatchers@[k].if_index,
        ));
        let j = choose|j: int|
            0 <= j < ops.len() && ops[j].uuid() == m0.dispatchers@[k].chain@[w].uuid
                && ops[j].on_hook(m0.dispatchers@[k].hook, m0.dispatchers@[k].if_index) && (
            ops[j].net() matches Some(n) && n.priority == m0.dispatchers@[k].chain@[w].priority
                && ProceedOn::mask_of(n.proceed_on.codes@)
                == m0.dispatchers@[k].chain@[w].proceed_mask);
        assert(nps[j] == ops[j]);
    }
    assert forall|j: int|
        0 <= j < nps.len() implies ((#[trigger] nps[j]).hook() matches Some(h) ==> prog_chained(
            m1.dispatchers@,
            h,
            nps[j].net().unwrap().if_index,
            nps[j].uuid(),
        )) by {
        if j < ops.len() {
            assert(nps[j] == ops[j]);
        } else {
            assert(nps[j] == prog);
        }
    }
}

/// After a committed chain mutation the invariant stands: the new chain's
/// slots line up with the registry, and every network-attached program
/// still occupies its slot.
proof fn lemma_wf_after_chain_load(
    m0: BpfManager,
    m1: BpfManager,
    plan: LoadPlan,
    h: Hook,
    pname: Seq<u8>,
    kernel_id: u32,
)
    requires
        m0.wf(),
        m0.valid_load_plan(plan),
        plan.hook == Some(h),
        m1.programs@ == m0.programs@.push(loaded_program(plan, kernel_id)),
        m1.next_uuid == m0.next_uuid + 1,
        dispatchers_after_load(m0.dispatchers@, m1.dispatchers@, plan, h, pname),
    ensures
        m1.wf(),
{
    let ops = m0.programs@;
    let nps = m1.programs@;
    let prog = loaded_program(plan, kernel_id);
    let ods = m0.dispatchers@;
    let nds = m1.dispatchers@;
    let cur = m0.chain_of(h, plan.if_index);
    let e = plan_entry(plan);
    assert(prog.uuid() == plan.uuid);
    assert(prog.on_hook(h, plan.if_index));
    assert(prog.net() matches Some(n) && n.priority == plan.priority && ProceedOn::mask_of(
        n.proceed_on.codes@,
    ) == e.proceed_mask);
    // The index that changed, and the frame around it.
    let kk: int = if plan.had_dispatcher {
        choose|k: int|
            0 <= k < ods.len() && (#[trigger] ods[k]).hook == h && ods[k].if_index
                == plan.if_index && entry_desc(nds[k], plan, h, pname) && (forall|l: int|
                0 <= l < ods.len() && l != k ==> nds[l] == ods[l])
    } else {
        ods.len() as int
    };
    assert(entry_desc(nds[kk], plan, h, pname));
    assert forall|l: int| 0 <= l < nds.len() && l != kk implies nds[l] == ods[l] by {
        if !plan.had_dispatcher {
            assert(nds.subrange(0, ods.len() as int)[l] == nds[l]);
        }
    }
    if plan.had_dispatcher {
        assert(m0.has_dispatcher(h, plan.if_index));
        let k2 = m0.disp_index_of(h, plan.if_index);
        assert(0 <= k2 < ods.len() && ods[k2].hook == h && ods[k2].if_index == plan.if_index);
        if k2 != kk {
            assert(false);
        }
        assert(cur == ods[kk].chain@);
    } else {
        assert(!m0.has_dispatcher(h, plan.if_index));
        assert(cur =~= Seq::<ChainEntry>::empty());
    }
    // Registry order and freshness.
    assert forall|i: int, j: int| 0 <= i < j < nps.len() implies nps[i].uuid() < nps[j].uuid() by {
        if j < ops.len() {
            assert(nps[i] == ops[i] && nps[j] == ops[j]);
        } else {
            assert(nps[j] == prog);
            if i < ops.len() {
                assert(nps[i] == ops[i]);
            }
        }
    }
    // Dispatcher keys stay distinct.
    assert forall|k: int, l: int|
        0 <= k < l < nds.len() implies !(nds[k].hook == nds[l].hook && nds[k].if_index
            == nds[l].if_index) by {
        if k != kk && l != kk {
            assert(nds[k] == ods[k] && nds[l] == ods[l]);
        } else if k == kk && l != kk {
            assert(nds[l] == ods[l]);
            if plan.had_dispatcher {
                assert(!(ods[kk].hook == ods[l].hook && ods[kk].if_index == ods[l].if_index));
            } else {
                if nds[l].hook == h && nds[l].if_index == plan.if_index {
                    assert(m0.has_dispatcher(h, plan.if_index));
                }
            }
        } else if l == kk && k != kk {
            assert(nds[k] == ods[k]);
            if plan.had_dispatcher {
                assert(!(ods[k].hook == ods[kk].hook && ods[k].if_index == ods[kk].if_index));
            } else {
                if nds[k].hook == h && nds[k].if_index == plan.if_index {
                    assert(m0.has_dispatcher(h, plan.if_index));
                }
            }
        }
    }
    // Entry invariants.
    assert forall|k: int| 0 <= k < nds.len() implies (#[trigger] nds[k]).inv() by {
        if k != kk {
            assert(nds[k] == ods[k]);
        }
    }
    // Every slot of every chain lines up with a program.
    assert forall|k: int, w: int|
        0 <= k < nds.len() && 0 <= w < nds[k].chain@.len() implies chain_entry_matches(
            nps,
            #[trigger] nds[k].chain@[w],
            nds[k].hook,
            nds[k].if_index,
        ) by {
        if k != kk {
            assert(nds[k] == ods[k]);
            assert(chain_entry_matches(ops, nds[k].chain@[w], nds[k].hook, nds[k].if_index));
            let j = choose|j: int|
                0 <= j < ops.len() && ops[j].uuid() == nds[k].chain@[w].uuid && ops[j].on_hook(
                    nds[k].hook,
                    nds[k].if_index,
                ) && (ops[j].net() matches Some(n) && n.priority == nds[k].chain@[w].priority
                    && ProceedOn::mask_of(n.proceed_on.codes@) == nds[k].chain@[w].proceed_mask);
            assert(nps[j] == ops[j]);
        } else {
            let e2 = nds[kk].chain@[w];
            assert(e2 == plan.new_chain@[w]);
            if e2 == e {
                assert(nps[ops.len() as int] == prog);
            } else {
                assert(cur.contains(e2));
                let w2 = choose|w2: int| 0 <= w2 < cur.len() && cur[w2] == e2;
                if plan.had_dispatcher {
                    assert(chain_entry_matches(ops, cur[w2], h, plan.if_index));
                    let j = choose|j: int|
                        0 <= j < ops.len() && ops[j].uuid() == cur[w2].uuid && ops[j].on_hook(
                            h,
                            plan.if_index,
                        ) && (ops[j].net() matches Some(n) && n.priority == cur[w2].priority
                            && ProceedOn::mask_of(n.proceed_on.codes@) == cur[w2].proceed_mask);
                    assert(nps[j] == ops[j]);
                }
            }
        }
    }
    // Every network program still occupies a slot.
    assert forall|j: int|
        0 <= j < nps.len() implies ((#[trigger] nps[j]).hook() matches Some(h2) ==> prog_chained(
            nds,
            h2,
            nps[j].net().unwrap().if_index,
            nps[j].uuid(),
        )) by {
        if j == ops.len() {
            assert(nps[j] == prog);
            match prog.hook() {
                Some(h2) => {
                    assert(h2 == h);
                    assert(chain_has_uuid(plan.new_chain@, plan.uuid));
                    assert(nds[kk].hook == h && nds[kk].if_index == plan.if_index);
                    assert(chain_has_uuid(nds[kk].chain@, plan.uuid));
                    assert(prog_chained(nds, h, plan.if_index, plan.uuid));
                },
                None => {},
            }
        } else {
            assert(nps[j] == ops[j]);
            match ops[j].hook() {
                Some(h2) => {
                    let i2 = ops[j].net().unwrap().if_index;
                    let u = ops[j].uuid();
                    assert(prog_chained(ods, h2, i2, u));
                    let k2 = choose|k2: int|
                        0 <= k2 < ods.len() && ods[k2].hook == h2 && ods[k2].if_index == i2
                            && chain_has_uuid(ods[k2].chain@, u);
                    if k2 == kk && plan.had_dispatcher {
                        assert(chain_has_uuid(cur, u));
                        assert(chain_has_uuid(plan.new_chain@, u));
                        assert(prog_chained(nds, h2, i2, u));
                    } else if k2 != kk {
                        assert(nds[k2] == ods[k2]);
                        assert(prog_chained(nds, h2, i2, u));
                    }
                },
                None => {},
            }
        }
    }
}

} // verus!

verus! {

/// A successful chain mutation keeps every dispatcher record in the
/// store: the touched entry's record was just written, and every other
/// record's sub-tree was never named by any of the writes.
proof fn lemma_records_preserved(
    s0: Store,
    s1: Store,
    ods: Seq<DispEntry>,
    nds: Seq<DispEntry>,
    entry: DispEntry,
    kk: int,
    h: Hook,
    if_index: u32,
    revision: u32,
    old_revision: u32,
)
    requires
        forall|k2: int| 0 <= k2 < ods.len() ==> entry_persisted(s0, #[trigger] ods[k2]),
        forall|k2: int|
            0 <= k2 < ods.len() && k2 != kk ==> !((#[trigger] ods[k2]).hook == h
                && ods[k2].if_index == if_index),
        0 <= kk <= ods.len(),
        kk < ods.len() ==> nds == ods.update(kk, entry),
        kk == ods.len() ==> nds == ods.push(entry),
        entry.hook == h && entry.if_index == if_index && entry.revision == revision,
        entry_persisted(s1, entry),
        forall|n: Seq<u8>|
            n != dispatcher_tree_name(h, if_index, revision) && n != dispatcher_tree_name(
                h,
                if_index,
                old_revision,
            ) ==> #[trigger] store_tree_at(s1, n) == store_tree_at(s0, n),
        forall|n: Seq<u8>|
            n != dispatcher_tree_name(h, if_index, revision) && n != dispatcher_tree_name(
                h,
                if_index,
                old_revision,
            ) ==> #[trigger] store_has_tree(s1, n) == store_has_tree(s0, n),
    ensures
        forall|k2: int| 0 <= k2 < nds.len() ==> entry_persisted(s1, #[trigger] nds[k2]),
{
    assert forall|k2: int| 0 <= k2 < nds.len() implies entry_persisted(
        s1,
        #[trigger] nds[k2],
    ) by {
        if k2 == kk {
            assert(nds[k2] == entry);
        } else {
            assert(nds[k2] == ods[k2]);
            let e2 = ods[k2];
            assert(entry_persisted(s0, e2));
            assert(!(e2.hook == h && e2.if_index == if_index));
            lemma_tree_name_injective(e2.hook, e2.if_index, e2.revision, h, if_index, revision);
            lemma_tree_name_injective(
                e2.hook,
                e2.if_index,
                e2.revision,
                h,
                if_index,
                old_revision,
            );
            assert(entry_record_name(e2) != dispatcher_tree_name(h, if_index, revision));
            assert(entry_record_name(e2) != dispatcher_tree_name(h, if_index, old_revision));
        }
    }
}

/// A successful teardown keeps every remaining dispatcher record: the
/// dropped record's sub-tree was the only one named.
proof fn lemma_records_preserved_remove(
    s0: Store,
    s1: Store,
    ods: Seq<DispEntry>,
    nds: Seq<DispEntry>,
    kk: int,
    h: Hook,
    if_index: u32,
    old_revision: u32,
)
    requires
        forall|k2: int| 0 <= k2 < ods.len() ==> entry_persisted(s0, #[trigger] ods[k2]),
        forall|k2: int|
            0 <= k2 < ods.len() && k2 != kk ==> !((#[trigger] ods[k2]).hook == h
                && ods[k2].if_index == if_index),
        0 <= kk < ods.len(),
        nds == ods.remove(kk),
        forall|n: Seq<u8>|
            n != dispatcher_tree_name(h, if_index, old_revision)
                ==> #[trigger] store_tree_at(s1, n) == store_tree_at(s0, n),
        forall|n: Seq<u8>|
            n != dispatcher_tree_name(h, if_index, old_revision)
                ==> #[trigger] store_has_tree(s1, n) == store_has_tree(s0, n),
    ensures
        forall|k2: int| 0 <= k2 < nds.len() ==> entry_persisted(s1, #[trigger] nds[k2]),
{
    assert forall|k2: int| 0 <= k2 < nds.len() implies entry_persisted(
        s1,
        #[trigger] nds[k2],
    ) by {
        let a: int = if k2 < kk {
            k2
        } else {
            k2 + 1
        };
        assert(nds[k2] == ods[a]);
        let e2 = ods[a];
        assert(entry_persisted(s0, e2));
        assert(a != kk);
        assert(!(e2.hook == h && e2.if_index == if_index));
        lemma_tree_name_injective(e2.hook, e2.if_index, e2.revision, h, if_index, old_revision);
        assert(entry_record_name(e2) != dispatcher_tree_name(h, if_index, old_revision));
    }
}

/// Everything the command loop decides for an Unload before any outside
/// work: whether the dispatcher is rebuilt under a new revision or torn
/// down with its last extension, and the chain that remains.
pub struct UnloadPlan {
    pub uuid: u128,
    /// The hook of the chain mutation; absent for single-attach kinds.
    pub hook: Option<Hook>,
    pub if_index: u32,
    pub if_name: Vec<u8>,
    pub mode: XdpMode,
    pub program_name: Vec<u8>,
    /// True when the removed program was the last extension: the
    /// dispatcher is destroyed and the stable hook link dropped.
    pub teardown: bool,
    pub old_revision: u32,
    pub revision: u32,
    pub new_chain: Vec<ChainEntry>,
    pub config: DispatcherConfig,
}

/// What the outside work of an Unload reported back.
pub enum UnloadOutcome {
    /// Detach, re-graft and pin work completed.
    Completed,
    /// The kernel loader rejected the rebuilt dispatcher.
    LoadFailed,
    /// The kernel refused to attach the rebuilt dispatcher.
    AttachFailed,
    /// A filesystem pin could not be created.
    PinFailed,
}

/// How a committed Unload leaves the rebuilt dispatcher.
pub open spec fn unload_entry_desc(e: DispEntry, plan: UnloadPlan, h: Hook) -> bool {
    &&& e.hook == h
    &&& e.if_index == plan.if_index
    &&& e.if_name@ == plan.if_name@
    &&& e.mode == plan.mode
    &&& e.revision == plan.revision
    &&& e.program_name@ == plan.program_name@
    &&& e.chain@ == plan.new_chain@
    &&& e.inv()
}

/// A committed Unload either rebuilds the one dispatcher of its
/// (interface, hook) without the program, or removes it with its last
/// extension; no other dispatcher is touched.
pub open spec fn dispatchers_after_unload(
    old_disps: Seq<DispEntry>,
    new_disps: Seq<DispEntry>,
    plan: UnloadPlan,
    h: Hook,
) -> bool {
    if plan.teardown {
        exists|k: int|
            0 <= k < old_disps.len() && (#[trigger] old_disps[k]).hook == h
                && old_disps[k].if_index == plan.if_index && new_disps == old_disps.remove(k)
    } else {
        &&& new_disps.len() == old_disps.len()
        &&& exists|k: int|
            0 <= k < old_disps.len() && (#[trigger] old_disps[k]).hook == h
                && old_disps[k].if_index == plan.if_index && unload_entry_desc(
                new_disps[k],
                plan,
                h,
            ) && (forall|l: int|
                0 <= l < old_disps.len() && l != k ==> new_disps[l] == old_disps[l])
    }
}

impl BpfManager {
    /// Whether some program carries this identity.
    pub open spec fn has_program(self, uuid: u128) -> bool {
        exists|j: int| 0 <= j < self.programs@.len() && (#[trigger] self.programs@[j]).uuid() == uuid
    }

    /// The index of the program of this identity.
    pub open spec fn prog_index_of(self, uuid: u128) -> int {
        choose|j: int| 0 <= j < self.programs@.len() && (#[trigger] self.programs@[j]).uuid() == uuid
    }

    /// The error an Unload returns before any outside work, if any: an
    /// unknown identity, a caller who neither owns the program nor holds
    /// administrator rights, or an exhausted revision space.
    pub open spec fn begin_unload_err(
        self,
        uuid: u128,
        caller: Seq<u8>,
        is_admin: bool,
    ) -> Option<BpfdError> {
        if !self.has_program(uuid) {
            Some(BpfdError::NotLoaded)
        } else {
            let p = self.programs@[self.prog_index_of(uuid)];
            if p.data().owner@ != caller && !is_admin {
                Some(BpfdError::Unauthorized)
            } else {
                match p.hook() {
                    Some(h) => {
                        if self.chain_of(h, p.net().unwrap().if_index).len() > 1
                            && self.revision_of(h, p.net().unwrap().if_index) == u32::MAX {
                            Some(BpfdError::DatabaseError)
                        } else {
                            None
                        }
                    },
                    None => None,
                }
            }
        }
    }

    /// A plan is valid against the state it was computed from.
    pub open spec fn valid_unload_plan(self, plan: UnloadPlan) -> bool {
        &&& self.has_program(plan.uuid)
        &&& {
            let p = self.programs@[self.prog_index_of(plan.uuid)];
            &&& p.hook() == plan.hook
            &&& match plan.hook {
                Some(h) => {
                    &&& p.net().unwrap().if_index == plan.if_index
                    &&& self.has_dispatcher(h, plan.if_index)
                    &&& {
                        let d = self.dispatchers@[self.disp_index_of(h, plan.if_index)];
                        &&& plan.old_revision == d.revision
                        &&& plan.if_name@ == d.if_name@
                        &&& plan.mode == d.mode
                        &&& plan.program_name@ == d.program_name@
                        &&& chain_has_uuid(d.chain@, plan.uuid)
                        &&& chain_sorted(plan.new_chain@)
                        &&& chain_uuids_distinct(plan.new_chain@)
                        &&& plan.new_chain@.len() + 1 == d.chain@.len()
                        &&& !chain_has_uuid(plan.new_chain@, plan.uuid)
                        &&& forall|u: u128|
                            u != plan.uuid ==> (chain_has_uuid(plan.new_chain@, u)
                                <==> chain_has_uuid(d.chain@, u))
                        &&& forall|w: int|
                            0 <= w < plan.new_chain@.len() ==> d.chain@.contains(
                                plan.new_chain@[w],
                            )
                        &&& plan.teardown == (plan.new_chain@.len() == 0)
                        &&& (!plan.teardown ==> (plan.old_revision < u32::MAX && plan.revision
                            == plan.old_revision + 1))
                        &&& config_matches(plan.config, plan.new_chain@)
                    }
                },
                None => true,
            }
        }
    }

    /// Validate an Unload and decide the chain that remains. The state is
    /// not touched; a rejected Unload leaves nothing behind.
    pub fn begin_unload(&self, uuid: u128, caller: &Vec<u8>, is_admin: bool) -> (r: Result<
        UnloadPlan,
        BpfdError,
    >)
        requires
            self.wf(),
        ensures
            self.begin_unload_err(uuid, caller@, is_admin) matches Some(e) ==> r == Err::<
                UnloadPlan,
                BpfdError,
            >(e),
            self.begin_unload_err(uuid, caller@, is_admin) is None ==> (r matches Ok(plan)
                && self.valid_unload_plan(plan) && plan.uuid == uuid),
    {
        let j = match self.find_program(uuid) {
            Some(j) => j,
            None => {
                proof {
                    assert(!self.has_program(uuid));
                }
                return Err(BpfdError::NotLoaded);
            },
        };
        proof {
            assert(self.has_program(uuid));
            let j2 = self.prog_index_of(uuid);
            if j2 != j {
                assert(self.programs@[j2].uuid() == self.programs@[j as int].uuid());
                assert(false);
            }
        }
        let p = &self.programs[j];
        if !crate::bytes::bytes_eq(&p.data_ref().owner, caller) && !is_admin {
            return Err(BpfdError::Unauthorized);
        }
        let hook = match p.get_hook() {
            Some(h) => h,
            None => {
                return Ok(UnloadPlan {
                    uuid,
                    hook: None,
                    if_index: 0,
                    if_name: Vec::new(),
                    mode: XdpMode::Skb,
                    program_name: Vec::new(),
                    teardown: false,
                    old_revision: 0,
                    revision: 0,
                    new_chain: Vec::new(),
                    config: build_config(&Vec::new()),
                });
            },
        };
        let ifx = match p.net_ref() {
            Some(n) => n.if_index,
            None => vstd::pervasive::unreached(),
        };
        let k = match self.find_dispatcher(hook, ifx) {
            Some(k) => k,
            None => vstd::pervasive::unreached(),
        };
        let entry = &self.dispatchers[k];
        let (new_chain, removed) = remove_uuid(&entry.chain, uuid);
        proof {
            assert(prog_chained(self.dispatchers@, hook, ifx, uuid));
            let k3 = choose|k3: int|
                0 <= k3 < self.dispatchers@.len() && self.dispatchers@[k3].hook == hook
                    && self.dispatchers@[k3].if_index == ifx && chain_has_uuid(
                    self.dispatchers@[k3].chain@,
                    uuid,
                );
            if k3 != k {
                assert(false);
            }
            assert(removed is Some);
        }
        let teardown = new_chain.len() == 0;
        if !teardown && entry.revision == u32::MAX {
            return Err(BpfdError::DatabaseError);
        }
        let revision: u32 = if teardown {
            0
        } else {
            entry.revision + 1
        };
        let config = build_config(&new_chain);
        Ok(UnloadPlan {
            uuid,
            hook: Some(hook),
            if_index: ifx,
            if_name: clone_bytes(&entry.if_name),
            mode: entry.mode,
            program_name: clone_bytes(&entry.program_name),
            teardown,
            old_revision: entry.revision,
            revision,
            new_chain,
            config,
        })
    }

    /// Commit or abandon a planned Unload once the outside work has
    /// reported. A failed rebuild leaves the state exactly as it was; a
    /// success removes the program, and either installs the shrunken chain
    /// under a new revision or retires the dispatcher with its last
    /// extension.
    pub fn finish_unload(&mut self, plan: UnloadPlan, outcome: UnloadOutcome) -> (r: Result<
        (),
        BpfdError,
    >)
        requires
            old(self).wf(),
            old(self).valid_unload_plan(plan),
        ensures
            (final(self)).wf(),
            outcome matches UnloadOutcome::LoadFailed ==> (r == Err::<(), BpfdError>(
                BpfdError::LoadFailed,
            ) && *final(self) == *old(self)),
            outcome matches UnloadOutcome::AttachFailed ==> (r == Err::<(), BpfdError>(
                BpfdError::AttachFailed,
            ) && *final(self) == *old(self)),
            outcome matches UnloadOutcome::PinFailed ==> (r == Err::<(), BpfdError>(
                BpfdError::PinError,
            ) && *final(self) == *old(self)),
            outcome matches UnloadOutcome::Completed ==> (r == Ok::<(), BpfdError>(()) || r
                == Err::<(), BpfdError>(BpfdError::DatabaseError)),
            (outcome matches UnloadOutcome::Completed && r is Ok) ==> !store_has_tree(
                (final(self)).store,
                crate::registry::program_tree_name(plan.uuid),
            ),
            r == Err::<(), BpfdError>(BpfdError::DatabaseError) ==> ((final(self)).programs@
                == old(self).programs@ && (final(self)).dispatchers@ == old(self).dispatchers@
                && (final(self)).next_uuid == old(self).next_uuid),
            (outcome matches UnloadOutcome::Completed && old(self).records_ok()) ==> (r is Ok
                ==> (final(self)).records_ok()),
            (outcome matches UnloadOutcome::Completed && r is Ok) ==> ((final(self)).next_uuid
                == old(self).next_uuid && (final(self)).programs@ == old(self).programs@.remove(
                old(self).prog_index_of(plan.uuid),
            ) && (match plan.hook {
                Some(h) => (dispatchers_after_unload(
                    old(self).dispatchers@,
                    (final(self)).dispatchers@,
                    plan,
                    h,
                ) && !store_has_tree(
                    (final(self)).store,
                    dispatcher_tree_name(h, plan.if_index, plan.old_revision),
                ) && (!plan.teardown ==> (store_has_tree(
                    (final(self)).store,
                    dispatcher_tree_name(h, plan.if_index, plan.revision),
                ) && store_tree_at(
                    (final(self)).store,
                    dispatcher_tree_name(h, plan.if_index, plan.revision),
                ) == dispatcher_contents_full(
                    plan.if_index,
                    plan.if_name@,
                    plan.mode,
                    plan.revision,
                    plan.new_chain@.len() as u32,
                    plan.program_name@,
                )))),
                None => (final(self)).dispatchers@ == old(self).dispatchers@,
            })),
    {
        match outcome {
            UnloadOutcome::LoadFailed => {
                return Err(BpfdError::LoadFailed);
            },
            UnloadOutcome::AttachFailed => {
                return Err(BpfdError::AttachFailed);
            },
            UnloadOutcome::PinFailed => {
                return Err(BpfdError::PinError);
            },
            UnloadOutcome::Completed => (),
        }
        let ghost old_self = *self;
        let j = match self.find_program(plan.uuid) {
            Some(j) => j,
            None => vstd::pervasive::unreached(),
        };
        proof {
            let j2 = old_self.prog_index_of(plan.uuid);
            if j2 != j {
                assert(old_self.programs@[j2].uuid() == old_self.programs@[j as int].uuid());
                assert(false);
            }
        }
        let pm_name = crate::registry::make_program_tree_name(plan.uuid);
        match self.store.drop_tree(pm_name.as_slice()) {
            Ok(_) => (),
            Err(_) => {
                return Err(BpfdError::DatabaseError);
            },
        }
        let ghost pm = crate::registry::program_tree_name(plan.uuid);
        let ghost s_mid = self.store;
        let hook = match self.programs[j].get_hook() {
            Some(h) => h,
            None => {
                self.programs.remove(j);
                proof {
                    lemma_wf_after_remove_single(old_self, *self, j as int);
                    if old_self.records_ok() {
                        assert forall|k2: int|
                            0 <= k2 < self.dispatchers@.len() implies entry_persisted(
                            self.store,
                            #[trigger] self.dispatchers@[k2],
                        ) by {
                            assert(entry_persisted(old_self.store, self.dispatchers@[k2]));
                            assert(entry_record_name(self.dispatchers@[k2]).len() == 9);
                            assert(pm.len() == 17);
                        }
                        assert(self.records_ok());
                    }
                }
                return Ok(());
            },
        };
        let k = match self.find_dispatcher(hook, plan.if_index) {
            Some(k) => k,
            None => vstd::pervasive::unreached(),
        };
        proof {
            assert forall|k2: int|
                0 <= k2 < old_self.dispatchers@.len() && k2 != k as int implies !((
            #[trigger] old_self.dispatchers@[k2]).hook == hook
                && old_self.dispatchers@[k2].if_index == plan.if_index) by {}
        }
        if plan.teardown {
            match Dispatcher::delete(&mut self.store, hook, plan.if_index, plan.old_revision) {
                Ok(_) => (),
                Err(_) => {
                    return Err(BpfdError::DatabaseError);
                },
            }
            self.dispatchers.remove(k);
            self.programs.remove(j);
            proof {
                lemma_wf_after_unload(old_self, *self, plan, hook, j as int, k as int, true);
                assert(pm.len() == 17);
                assert(dispatcher_tree_name(hook, plan.if_index, plan.old_revision).len() == 9);
                assert(!store_has_tree(self.store, pm));
                if old_self.records_ok() {
                    assert forall|k2: int|
                        0 <= k2 < old_self.dispatchers@.len() implies entry_persisted(
                        s_mid,
                        #[trigger] old_self.dispatchers@[k2],
                    ) by {
                        assert(entry_persisted(old_self.store, old_self.dispatchers@[k2]));
                        assert(entry_record_name(old_self.dispatchers@[k2]).len() == 9);
                    }
                    lemma_records_preserved_remove(
                        s_mid,
                        self.store,
                        old_self.dispatchers@,
                        self.dispatchers@,
                        k as int,
                        hook,
                        plan.if_index,
                        plan.old_revision,
                    );
                    assert(self.records_ok());
                }
            }
            Ok(())
        } else {
            let ghost nm = dispatcher_tree_name(hook, plan.if_index, plan.revision);
            let ghost om = dispatcher_tree_name(hook, plan.if_index, plan.old_revision);
            let ghost s_begin = self.store;
            proof {
                lemma_tree_name_injective(
                    hook,
                    plan.if_index,
                    plan.revision,
                    hook,
                    plan.if_index,
                    plan.old_revision,
                );
                assert(plan.revision != plan.old_revision);
                assert(nm != om);
            }
            let d = match Dispatcher::new(
                &mut self.store,
                hook,
                plan.mode,
                plan.if_index,
                &plan.if_name,
                plan.revision,
            ) {
                Ok(d) => d,
                Err(_) => {
                    return Err(BpfdError::DatabaseError);
                },
            };
            match d.set_num_extensions(&mut self.store, plan.new_chain.len()) {
                Ok(()) => (),
                Err(_) => {
                    return Err(BpfdError::DatabaseError);
                },
            }
            match d.set_program_name(&mut self.store, &plan.program_name) {
                Ok(()) => (),
                Err(_) => {
                    return Err(BpfdError::DatabaseError);
                },
            }
            match Dispatcher::delete(&mut self.store, hook, plan.if_index, plan.old_revision) {
                Ok(_) => (),
                Err(_) => {
                    return Err(BpfdError::DatabaseError);
                },
            }
            proof {
                assert(pm.len() == 17 && nm.len() == 9 && om.len() == 9);
                assert(!store_has_tree(self.store, pm));
                assert(store_tree_at(self.store, nm) == dispatcher_contents_full(
                    plan.if_index,
                    plan.if_name@,
                    plan.mode,
                    plan.revision,
                    plan.new_chain@.len() as u32,
                    plan.program_name@,
                ));
                assert(store_has_tree(self.store, nm));
                assert forall|n: Seq<u8>| n != nm && n != om implies #[trigger] store_tree_at(
                    self.store,
                    n,
                ) == store_tree_at(s_begin, n) by {}
                assert forall|n: Seq<u8>| n != nm && n != om implies #[trigger] store_has_tree(
                    self.store,
                    n,
                ) == store_has_tree(s_begin, n) by {}
            }
            let ghost s_done = self.store;
            let UnloadPlan { if_index, if_name, mode, program_name, revision, new_chain, .. } =
                plan;
            let entry = DispEntry {
                hook,
                if_index,
                if_name,
                mode,
                revision,
                program_name,
                chain: new_chain,
            };
            proof {
                assert(entry.inv());
                assert(unload_entry_desc(entry, plan, hook));
            }
            self.dispatchers.set(k, entry);
            self.programs.remove(j);
            proof {
                assert(self.dispatchers@ == old_self.dispatchers@.update(k as int, entry));
                lemma_wf_after_unload(old_self, *self, plan, hook, j as int, k as int, false);
                if old_self.records_ok() {
                    assert forall|k2: int|
                        0 <= k2 < old_self.dispatchers@.len() implies entry_persisted(
                        s_begin,
                        #[trigger] old_self.dispatchers@[k2],
                    ) by {
                        assert(entry_persisted(old_self.store, old_self.dispatchers@[k2]));
                        assert(entry_record_name(old_self.dispatchers@[k2]).len() == 9);
                    }
                    assert(entry_persisted(s_done, entry));
                    lemma_records_preserved(
                        s_begin,
                        s_done,
                        old_self.dispatchers@,
                        self.dispatchers@,
                        entry,
                        k as int,
                        hook,
                        plan.if_index,
                        plan.revision,
                        plan.old_revision,
                    );
                    assert(self.records_ok());
                }
            }
            Ok(())
        }
    }
}

/// Removing a program that occupies no chain slot keeps the invariant.
proof fn lemma_wf_after_remove_single(m0: BpfManager, m1: BpfManager, j: int)
    requires
        m0.wf(),
        0 <= j < m0.programs@.len(),
        m0.programs@[j].hook() is None,
        m1.programs@ == m0.programs@.remove(j),
        m1.dispatchers@ == m0.dispatchers@,
        m1.next_uuid == m0.next_uuid,
    ensures
        m1.wf(),
{
    let ops = m0.programs@;
    let nps = m1.programs@;
    let u = ops[j].uuid();
    assert forall|i1: int, j1: int| 0 <= i1 < j1 < nps.len() implies nps[i1].uuid()
        < nps[j1].uuid() by {
        let a: int = if i1 < j { i1 } else { i1 + 1 };
        let b: int = if j1 < j { j1 } else { j1 + 1 };
        assert(nps[i1] == ops[a] && nps[j1] == ops[b]);
    }
    assert forall|k: int, w: int|
        0 <= k < m1.dispatchers@.len() && 0 <= w < m1.dispatchers@[k].chain@.len()
            implies chain_entry_matches(
            nps,
            #[trigger] m1.dispatchers@[k].chain@[w],
            m1.dispatchers@[k].hook,
            m1.dispatchers@[k].if_index,
        ) by {
        assert(chain_entry_matches(
            ops,
            m0.dispatchers@[k].chain@[w],
            m0.dispatchers@[k].hook,
            m0.dispatchers@[k].if_index,
        ));
        let j2 = choose|j2: int|
            0 <= j2 < ops.len() && ops[j2].uuid() == m0.dispatchers@[k].chain@[w].uuid
                && ops[j2].on_hook(m0.dispatchers@[k].hook, m0.dispatchers@[k].if_index) && (
        ops[j2].net() matches Some(n) && n.priority == m0.dispatchers@[k].chain@[w].priority
            && ProceedOn::mask_of(n.proceed_on.codes@)
            == m0.dispatchers@[k].chain@[w].proceed_mask);
        assert(j2 != j);
        if j2 < j {
            assert(nps[j2] == ops[j2]);
        } else {
            assert(nps[j2 - 1] == ops[j2]);
        }
    }
    assert forall|j1: int|
        0 <= j1 < nps.len() implies ((#[trigger] nps[j1]).hook() matches Some(h2)
            ==> prog_chained(
            m1.dispatchers@,
            h2,
            nps[j1].net().unwrap().if_index,
            nps[j1].uuid(),
        )) by {
        let a: int = if j1 < j { j1 } else { j1 + 1 };
        assert(nps[j1] == ops[a]);
    }
}

/// Removing a chained program and rebuilding or retiring its dispatcher
/// keeps the invariant.
#[verifier::rlimit(100)]
proof fn lemma_wf_after_unload(
    m0: BpfManager,
    m1: BpfManager,
    plan: UnloadPlan,
    h: Hook,
    j: int,
    k: int,
    teardown: bool,
)
    requires
        m0.wf(),
        m0.valid_unload_plan(plan),
        plan.hook == Some(h),
        teardown == plan.teardown,
        0 <= j < m0.programs@.len(),
        j == m0.prog_index_of(plan.uuid),
        m0.programs@[j].uuid() == plan.uuid,
        0 <= k < m0.dispatchers@.len(),
        m0.dispatchers@[k].hook == h,
        m0.dispatchers@[k].if_index == plan.if_index,
        m1.programs@ == m0.programs@.remove(j),
        m1.next_uuid == m0.next_uuid,
        teardown ==> m1.dispatchers@ == m0.dispatchers@.remove(k),
        !teardown ==> (m1.dispatchers@.len() == m0.dispatchers@.len() && unload_entry_desc(
            m1.dispatchers@[k],
            plan,
            h,
        ) && (forall|l: int|
            0 <= l < m0.dispatchers@.len() && l != k ==> m1.dispatchers@[l]
                == m0.dispatchers@[l])),
    ensures
        m1.wf(),
{
    let ops = m0.programs@;
    let nps = m1.programs@;
    let ods = m0.dispatchers@;
    let nds = m1.dispatchers@;
    let u = plan.uuid;
    let k2 = m0.disp_index_of(h, plan.if_index);
    assert(0 <= k2 < ods.len() && ods[k2].hook == h && ods[k2].if_index == plan.if_index);
    if k2 != k {
        assert(false);
    }
    let oldchain = ods[k].chain@;
    // Ordering of the registry survives removal.
    assert forall|i1: int, j1: int| 0 <= i1 < j1 < nps.len() implies nps[i1].uuid()
        < nps[j1].uuid() by {
        let a: int = if i1 < j { i1 } else { i1 + 1 };
        let b: int = if j1 < j { j1 } else { j1 + 1 };
        assert(nps[i1] == ops[a] && nps[j1] == ops[b]);
    }
    // No other program carries the removed identity.
    assert forall|j2: int| 0 <= j2 < ops.len() && j2 != j implies ops[j2].uuid() != u by {
        if j2 < j {
            assert(ops[j2].uuid() < ops[j].uuid());
        } else {
            assert(ops[j].uuid() < ops[j2].uuid());
        }
    }
    // Dispatcher keys stay distinct.
    assert forall|k1: int, l1: int|
        0 <= k1 < l1 < nds.len() implies !(nds[k1].hook == nds[l1].hook && nds[k1].if_index
            == nds[l1].if_index) by {
        if teardown {
            let a: int = if k1 < k { k1 } else { k1 + 1 };
            let b: int = if l1 < k { l1 } else { l1 + 1 };
            assert(nds[k1] == ods[a] && nds[l1] == ods[b]);
        } else {
            if k1 != k && l1 != k {
                assert(nds[k1] == ods[k1] && nds[l1] == ods[l1]);
            } else if k1 == k {
                assert(nds[l1] == ods[l1]);
                assert(!(ods[k].hook == ods[l1].hook && ods[k].if_index == ods[l1].if_index));
            } else {
                assert(nds[k1] == ods[k1]);
                assert(!(ods[k1].hook == ods[k].hook && ods[k1].if_index == ods[k].if_index));
            }
        }
    }
    // Entry invariants.
    assert forall|k1: int| 0 <= k1 < nds.len() implies (#[trigger] nds[k1]).inv() by {
        if teardown {
            let a: int = if k1 < k { k1 } else { k1 + 1 };
            assert(nds[k1] == ods[a]);
        } else if k1 != k {
            assert(nds[k1] == ods[k1]);
        }
    }
    // Every slot of every chain still lines up with a program.
    assert forall|k1: int, w: int|
        0 <= k1 < nds.len() && 0 <= w < nds[k1].chain@.len() implies chain_entry_matches(
            nps,
            #[trigger] nds[k1].chain@[w],
            nds[k1].hook,
            nds[k1].if_index,
        ) by {
        let a: int = if teardown {
            if k1 < k { k1 } else { k1 + 1 }
        } else {
            k1
        };
        let e2 = nds[k1].chain@[w];
        let hh = nds[k1].hook;
        let ii = nds[k1].if_index;
        if !teardown && k1 == k {
            assert(e2 == plan.new_chain@[w]);
            assert(oldchain.contains(e2));
            let w2 = choose|w2: int| 0 <= w2 < oldchain.len() && oldchain[w2] == e2;
            assert(chain_entry_matches(ops, oldchain[w2], h, plan.if_index));
            let j2 = choose|j2: int|
                0 <= j2 < ops.len() && ops[j2].uuid() == oldchain[w2].uuid && ops[j2].on_hook(
                    h,
                    plan.if_index,
                ) && (ops[j2].net() matches Some(n) && n.priority == oldchain[w2].priority
                    && ProceedOn::mask_of(n.proceed_on.codes@) == oldchain[w2].proceed_mask);
            assert(e2.uuid != u);
            assert(j2 != j);
            if j2 < j {
                assert(nps[j2] == ops[j2]);
            } else {
                assert(nps[j2 - 1] == ops[j2]);
            }
        } else {
            assert(nds[k1] == ods[a]);
            assert(chain_entry_matches(ops, e2, hh, ii));
            let j2 = choose|j2: int|
                0 <= j2 < ops.len() && ops[j2].uuid() == e2.uuid && ops[j2].on_hook(hh, ii) && (
                ops[j2].net() matches Some(n) && n.priority == e2.priority && ProceedOn::mask_of(
                    n.proceed_on.codes@,
                ) == e2.proceed_mask);
            if j2 == j {
                // The removed program sat only in the dispatcher of its own
                // (interface, hook), which this entry is not.
                assert(ops[j].on_hook(hh, ii));
                assert(ops[j].on_hook(h, plan.if_index));
                assert(hh == h && ii == plan.if_index);
                if teardown {
                    assert(a != k);
                    assert(false);
                } else {
                    assert(k1 == k);
                    assert(false);
                }
            }
            if j2 < j {
                assert(nps[j2] == ops[j2]);
            } else {
                assert(nps[j2 - 1] == ops[j2]);
            }
        }
    }
    // Every remaining network program still occupies a slot.
    assert forall|j1: int|
        0 <= j1 < nps.len() implies ((#[trigger] nps[j1]).hook() matches Some(h2)
            ==> prog_chained(
            nds,
            h2,
            nps[j1].net().unwrap().if_index,
            nps[j1].uuid(),
        )) by {
        let a: int = if j1 < j { j1 } else { j1 + 1 };
        assert(nps[j1] == ops[a]);
        assert(a != j);
        match ops[a].hook() {
            Some(h2) => {
                let i2 = ops[a].net().unwrap().if_index;
                let u2 = ops[a].uuid();
                assert(u2 != u);
                assert(prog_chained(ods, h2, i2, u2));
                let k3 = choose|k3: int|
                    0 <= k3 < ods.len() && ods[k3].hook == h2 && ods[k3].if_index == i2
                        && chain_has_uuid(ods[k3].chain@, u2);
                if k3 == k {
                    assert(chain_has_uuid(oldchain, u2));
                    if teardown {
                        // The chain held only the removed program.
                        assert(plan.new_chain@.len() == 0);
                        assert(!chain_has_uuid(plan.new_chain@, u2));
                        assert(chain_has_uuid(plan.new_chain@, u2));
                        assert(false);
                    } else {
                        assert(chain_has_uuid(plan.new_chain@, u2));
                        assert(nds[k].hook == h2 && nds[k].if_index == i2);
                        assert(prog_chained(nds, h2, i2, u2));
                    }
                } else {
                    if teardown {
                        let b: int = if k3 < k { k3 } else { k3 - 1 };
                        assert(nds[b] == ods[k3]);
                        assert(prog_chained(nds, h2, i2, u2));
                    } else {
                        assert(nds[k3] == ods[k3]);
                        assert(prog_chained(nds, h2, i2, u2));
                    }
                }
            },
            None => {},
        }
    }
}

} // verus!

verus! {

/// What List reports of one program: its identity and, for a
/// network-attached program, its interface, ordering key and current
/// chain position.
pub open spec fn summary_matches(m: BpfManager, p: Program, s: ProgramSummary) -> bool {
    &&& s.uuid == p.uuid()
    &&& s.kind == p.kind()
    &&& s.section_name@ == p.data().section_name@
    &&& s.owner@ == p.data().owner@
    &&& match p.hook() {
        Some(h) => {
            &&& s.if_index == Some(p.net().unwrap().if_index)
            &&& s.priority == Some(p.net().unwrap().priority)
            &&& s.attached == true
            &&& (s.position matches Some(pos) && pos < m.chain_of(
                h,
                p.net().unwrap().if_index,
            ).len() && m.chain_of(h, p.net().unwrap().if_index)[pos as int].uuid == p.uuid())
        },
        None => s.if_index is None && s.priority is None && s.position is None && s.attached
            == false,
    }
}

impl BpfManager {
    /// The rank of a chained program in the dispatcher of its
    /// (interface, hook).
    fn rank_of(&self, hook: Hook, if_index: u32, uuid: u128) -> (pos: usize)
        requires
            self.wf(),
            prog_chained(self.dispatchers@, hook, if_index, uuid),
        ensures
            pos < self.chain_of(hook, if_index).len(),
            self.chain_of(hook, if_index)[pos as int].uuid == uuid,
    {
        proof {
            let k3 = choose|k3: int|
                0 <= k3 < self.dispatchers@.len() && self.dispatchers@[k3].hook == hook
                    && self.dispatchers@[k3].if_index == if_index && chain_has_uuid(
                    self.dispatchers@[k3].chain@,
                    uuid,
                );
            assert(self.has_dispatcher(hook, if_index));
        }
        let k = match self.find_dispatcher(hook, if_index) {
            Some(k) => k,
            None => vstd::pervasive::unreached(),
        };
        proof {
            let k3 = choose|k3: int|
                0 <= k3 < self.dispatchers@.len() && self.dispatchers@[k3].hook == hook
                    && self.dispatchers@[k3].if_index == if_index && chain_has_uuid(
                    self.dispatchers@[k3].chain@,
                    uuid,
                );
            if k3 != k {
                assert(false);
            }
            assert(chain_has_uuid(self.dispatchers@[k as int].chain@, uuid));
        }
        let chain = &self.dispatchers[k].chain;
        let mut w: usize = 0;
        while w < chain.len()
            invariant
                w <= chain@.len(),
                k < self.dispatchers@.len(),
                chain@ == self.dispatchers@[k as int].chain@,
                self.has_dispatcher(hook, if_index),
                self.disp_index_of(hook, if_index) == k as int,
                chain_has_uuid(chain@, uuid),
                forall|x: int| 0 <= x < w ==> chain@[x].uuid != uuid,
            decreases chain@.len() - w,
        {
            if chain[w].uuid == uuid {
                proof {
                    assert(self.chain_of(hook, if_index) == self.dispatchers@[k as int].chain@);
                }
                return w;
            }
            w = w + 1;
        }
        proof {
            assert(false);
        }
        vstd::pervasive::unreached()
    }

    /// Report every program in the registry, in identity order, each with
    /// its current chain position.
    pub fn list_programs(&self) -> (r: Vec<ProgramSummary>)
        requires
            self.wf(),
        ensures
            r@.len() == self.programs@.len(),
            forall|x: int|
                0 <= x < r@.len() ==> summary_matches(*self, self.programs@[x], #[trigger] r@[x]),
    {
        let mut out: Vec<ProgramSummary> = Vec::new();
        let mut j: usize = 0;
        while j < self.programs.len()
            invariant
                self.wf(),
                j <= self.programs@.len(),
                out@.len() == j,
                forall|x: int|
                    0 <= x < j ==> summary_matches(*self, self.programs@[x], #[trigger] out@[x]),
            decreases self.programs@.len() - j,
        {
            let p = &self.programs[j];
            let summary = match p.net_ref() {
                Some(n) => {
                    let h = match p.get_hook() {
                        Some(h) => h,
                        None => vstd::pervasive::unreached(),
                    };
                    let uuid = p.get_uuid();
                    proof {
                        assert(self.programs@[j as int].on_hook(h, n.if_index));
                        assert(prog_chained(self.dispatchers@, h, n.if_index, uuid));
                    }
                    let pos = self.rank_of(h, n.if_index, uuid);
                    ProgramSummary {
                        uuid,
                        kind: p.get_kind(),
                        section_name: clone_bytes(&p.data_ref().section_name),
                        owner: clone_bytes(&p.data_ref().owner),
                        if_index: Some(n.if_index),
                        priority: Some(n.priority),
                        position: Some(pos),
                        attached: true,
                    }
                },
                None => ProgramSummary {
                    uuid: p.get_uuid(),
                    kind: p.get_kind(),
                    section_name: clone_bytes(&p.data_ref().section_name),
                    owner: clone_bytes(&p.data_ref().owner),
                    if_index: None,
                    priority: None,
                    position: None,
                    attached: false,
                },
            };
            out.push(summary);
            j = j + 1;
        }
        out
    }
}

} // verus!

verus! {

impl BpfManager {
    /// Read a dispatcher's revision back from its persistent record; it
    /// agrees with the in-memory entry. Reading changes no pair.
    pub fn stored_revision(&mut self, hook: Hook, if_index: u32) -> (r: Result<u32, BpfdError>)
        requires
            old(self).wf(),
            old(self).records_ok(),
            old(self).has_dispatcher(hook, if_index),
        ensures
            r matches Ok(x) ==> x == old(self).revision_of(hook, if_index),
            (final(self)).programs@ == old(self).programs@,
            (final(self)).dispatchers@ == old(self).dispatchers@,
            (final(self)).next_uuid == old(self).next_uuid,
            (final(self)).wf(),
            (final(self)).records_ok(),
    {
        let k = match self.find_dispatcher(hook, if_index) {
            Some(k) => k,
            None => vstd::pervasive::unreached(),
        };
        let ghost e = self.dispatchers@[k as int];
        let dd = Dispatcher {
            hook: self.dispatchers[k].hook,
            if_index: self.dispatchers[k].if_index,
            revision: self.dispatchers[k].revision,
        };
        let r = dd.get_revision(&mut self.store);
        proof {
            lemma_dispatcher_keys_distinct();
            assert(entry_persisted(old(self).store, e));
            if r is Ok {
                crate::bytes::lemma_u32_le_roundtrip(e.revision);
            }
            assert forall|k2: int| 0 <= k2 < self.dispatchers@.len() implies entry_persisted(
                self.store,
                #[trigger] self.dispatchers@[k2],
            ) by {
                assert(entry_persisted(old(self).store, self.dispatchers@[k2]));
            }
        }
        r
    }

    /// Read a dispatcher's slot count back from its persistent record; it
    /// agrees with the chain's length. Reading changes no pair.
    pub fn stored_num_extensions(&mut self, hook: Hook, if_index: u32) -> (r: Result<
        usize,
        BpfdError,
    >)
        requires
            old(self).wf(),
            old(self).records_ok(),
            old(self).has_dispatcher(hook, if_index),
        ensures
            r matches Ok(n) ==> n == old(self).chain_of(hook, if_index).len(),
            (final(self)).programs@ == old(self).programs@,
            (final(self)).dispatchers@ == old(self).dispatchers@,
            (final(self)).next_uuid == old(self).next_uuid,
            (final(self)).wf(),
            (final(self)).records_ok(),
    {
        let k = match self.find_dispatcher(hook, if_index) {
            Some(k) => k,
            None => vstd::pervasive::unreached(),
        };
        let ghost e = self.dispatchers@[k as int];
        let dd = Dispatcher {
            hook: self.dispatchers[k].hook,
            if_index: self.dispatchers[k].if_index,
            revision: self.dispatchers[k].revision,
        };
        let r = dd.get_num_extensions(&mut self.store);
        proof {
            lemma_dispatcher_keys_distinct();
            assert(entry_persisted(old(self).store, e));
            if r is Ok {
                crate::bytes::lemma_u32_le_roundtrip(e.chain@.len() as u32);
            }
            assert forall|k2: int| 0 <= k2 < self.dispatchers@.len() implies entry_persisted(
                self.store,
                #[trigger] self.dispatchers@[k2],
            ) by {
                assert(entry_persisted(old(self).store, self.dispatchers@[k2]));
            }
        }
        r
    }

    /// Read a dispatcher's interface name back from its persistent record.
    pub fn stored_if_name(&mut self, hook: Hook, if_index: u32) -> (r: Result<Vec<u8>, BpfdError>)
        requires
            old(self).wf(),
            old(self).records_ok(),
            old(self).has_dispatcher(hook, if_index),
        ensures
            r matches Ok(v) ==> v@ == old(self).dispatchers@[old(self).disp_index_of(
                hook,
                if_index,
            )].if_name@,
            (final(self)).programs@ == old(self).programs@,
            (final(self)).dispatchers@ == old(self).dispatchers@,
            (final(self)).next_uuid == old(self).next_uuid,
            (final(self)).wf(),
            (final(self)).records_ok(),
    {
        let k = match self.find_dispatcher(hook, if_index) {
            Some(k) => k,
            None => vstd::pervasive::unreached(),
        };
        let ghost e = self.dispatchers@[k as int];
        let dd = Dispatcher {
            hook: self.dispatchers[k].hook,
            if_index: self.dispatchers[k].if_index,
            revision: self.dispatchers[k].revision,
        };
        let r = dd.get_ifname(&mut self.store);
        proof {
            lemma_dispatcher_keys_distinct();
            assert(entry_persisted(old(self).store, e));
            assert forall|k2: int| 0 <= k2 < self.dispatchers@.len() implies entry_persisted(
                self.store,
                #[trigger] self.dispatchers@[k2],
            ) by {
                assert(entry_persisted(old(self).store, self.dispatchers@[k2]));
            }
        }
        r
    }

    /// Read a dispatcher's entry symbol back from its persistent record.
    pub fn stored_program_name(&mut self, hook: Hook, if_index: u32) -> (r: Result<
        Vec<u8>,
        BpfdError,
    >)
        requires
            old(self).wf(),
            old(self).records_ok(),
            old(self).has_dispatcher(hook, if_index),
        ensures
            r matches Ok(v) ==> v@ == old(self).dispatchers@[old(self).disp_index_of(
                hook,
                if_index,
            )].program_name@,
            (final(self)).programs@ == old(self).programs@,
            (final(self)).dispatchers@ == old(self).dispatchers@,
            (final(self)).next_uuid == old(self).next_uuid,
            (final(self)).wf(),
            (final(self)).records_ok(),
    {
        let k = match self.find_dispatcher(hook, if_index) {
            Some(k) => k,
            None => vstd::pervasive::unreached(),
        };
        let ghost e = self.dispatchers@[k as int];
        let dd = Dispatcher {
            hook: self.dispatchers[k].hook,
            if_index: self.dispatchers[k].if_index,
            revision: self.dispatchers[k].revision,
        };
        let r = dd.get_program_name(&mut self.store);
        proof {
            lemma_dispatcher_keys_distinct();
            assert(entry_persisted(old(self).store, e));
            assert forall|k2: int| 0 <= k2 < self.dispatchers@.len() implies entry_persisted(
                self.store,
                #[trigger] self.dispatchers@[k2],
            ) by {
                assert(entry_persisted(old(self).store, self.dispatchers@[k2]));
            }
        }
        r
    }
}

} // verus!
