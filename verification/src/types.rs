use vstd::prelude::*;
use crate::proceed_on::ProceedOn;

verus! {

/// The kind of a client program.
#[derive(Clone, Copy, Debug, PartialEq, Eq, Structural)]
pub enum ProgramKind {
    Xdp,
    Tc,
    Tracepoint,
}

/// Traffic direction of a TC filter.
#[derive(Clone, Copy, Debug, PartialEq, Eq, Structural)]
pub enum Direction {
    Ingress,
    Egress,
}

/// A kernel attachment point on a network interface. One dispatcher exists
/// per (interface, hook) pair.
#[derive(Clone, Copy, Debug, PartialEq, Eq, Structural)]
pub enum Hook {
    Xdp,
    TcIngress,
    TcEgress,
}

/// How the dispatcher is attached at the XDP hook.
#[derive(Clone, Copy, Debug, PartialEq, Eq, Structural)]
pub enum XdpMode {
    Skb,
    Drv,
    Hw,
}

impl XdpMode {
    /// The stored numeric form of the mode.
    pub open spec fn as_u32_spec(self) -> u32 {
        match self {
            XdpMode::Skb => 0,
            XdpMode::Drv => 1,
            XdpMode::Hw => 2,
        }
    }

    /// Encode the mode for the persistent store.
    pub fn as_u32(&self) -> (r: u32)
        ensures
            r == self.as_u32_spec(),
    {
        match self {
            XdpMode::Skb => 0,
            XdpMode::Drv => 1,
            XdpMode::Hw => 2,
        }
    }

    /// Decode a stored mode; values outside the range are rejected.
    pub fn from_u32(x: u32) -> (r: Option<XdpMode>)
        ensures
            r matches Some(m) ==> m.as_u32_spec() == x,
            x <= 2 ==> r is Some,
            x > 2 ==> r is None,
    {
        if x == 0 {
            Some(XdpMode::Skb)
        } else if x == 1 {
            Some(XdpMode::Drv)
        } else if x == 2 {
            Some(XdpMode::Hw)
        } else {
            None
        }
    }
}

/// The attributes every client program carries, independent of its kind.
pub struct ProgramData {
    /// Primary identity; allocated once and never reused.
    pub uuid: u128,
    /// Origin of the bytecode: a file path or an image reference.
    pub location: Vec<u8>,
    /// Entry symbol of the program in its bytecode object.
    pub section_name: Vec<u8>,
    /// Literal bytes stamped into the bytecode's read-only data at load.
    pub global_data: Vec<(Vec<u8>, Vec<u8>)>,
    /// Name of the user who loaded the program.
    pub owner: Vec<u8>,
    /// Kernel-assigned id, present once the program is loaded.
    pub kernel_id: Option<u32>,
    /// Identity of the map-pin directory the program's maps live under.
    pub map_dir: Option<u128>,
}

/// The attach record of a network-attached (XDP or TC) program.
pub struct NetInfo {
    /// Resolved index of the interface.
    pub if_index: u32,
    /// Name of the interface.
    pub if_name: Vec<u8>,
    /// Chain ordering key; lower runs earlier.
    pub priority: u32,
    /// Return codes that let the next program in the chain run.
    pub proceed_on: ProceedOn,
}

/// The attach record of a tracepoint program.
pub struct TracepointInfo {
    pub category: Vec<u8>,
    pub name: Vec<u8>,
}

/// A loaded client program: common data composed with a per-kind attach
/// record.
pub enum Program {
    Xdp { data: ProgramData, net: NetInfo },
    Tc { data: ProgramData, net: NetInfo, direction: Direction },
    Tracepoint { data: ProgramData, tracepoint: TracepointInfo },
}

impl Program {
    /// The common data record.
    pub open spec fn data(self) -> ProgramData {
        match self {
            Program::Xdp { data, .. } => data,
            Program::Tc { data, .. } => data,
            Program::Tracepoint { data, .. } => data,
        }
    }

    /// The program's stable identity.
    pub open spec fn uuid(self) -> u128 {
        self.data().uuid
    }

    /// The program's kind.
    pub open spec fn kind(self) -> ProgramKind {
        match self {
            Program::Xdp { .. } => ProgramKind::Xdp,
            Program::Tc { .. } => ProgramKind::Tc,
            Program::Tracepoint { .. } => ProgramKind::Tracepoint,
        }
    }

    /// The attach record of a network-attached program.
    pub open spec fn net(self) -> Option<NetInfo> {
        match self {
            Program::Xdp { net, .. } => Some(net),
            Program::Tc { net, .. } => Some(net),
            Program::Tracepoint { .. } => None,
        }
    }

    /// The hook a network-attached program is chained at.
    pub open spec fn hook(self) -> Option<Hook> {
        match self {
            Program::Xdp { .. } => Some(Hook::Xdp),
            Program::Tc { direction: Direction::Ingress, .. } => Some(Hook::TcIngress),
            Program::Tc { direction: Direction::Egress, .. } => Some(Hook::TcEgress),
            Program::Tracepoint { .. } => None,
        }
    }

    /// A program is well formed when its proceed-on codes fit the mask.
    pub open spec fn wf(self) -> bool {
        match self.net() {
            Some(net) => net.proceed_on.wf(),
            None => true,
        }
    }

    /// Whether the program is chained at the given hook of the given
    /// interface.
    pub open spec fn on_hook(self, hook: Hook, if_index: u32) -> bool {
        self.hook() == Some(hook) && (self.net() matches Some(net) && net.if_index == if_index)
    }

    /// Exec view of the identity.
    pub fn get_uuid(&self) -> (r: u128)
        ensures
            r == self.uuid(),
    {
        match self {
            Program::Xdp { data, .. } => data.uuid,
            Program::Tc { data, .. } => data.uuid,
            Program::Tracepoint { data, .. } => data.uuid,
        }
    }

    /// Exec view of the kind.
    pub fn get_kind(&self) -> (r: ProgramKind)
        ensures
            r == self.kind(),
    {
        match self {
            Program::Xdp { .. } => ProgramKind::Xdp,
            Program::Tc { .. } => ProgramKind::Tc,
            Program::Tracepoint { .. } => ProgramKind::Tracepoint,
        }
    }

    /// Exec view of the hook.
    pub fn get_hook(&self) -> (r: Option<Hook>)
        ensures
            r == self.hook(),
    {
        match self {
            Program::Xdp { .. } => Some(Hook::Xdp),
            Program::Tc { direction: Direction::Ingress, .. } => Some(Hook::TcIngress),
            Program::Tc { direction: Direction::Egress, .. } => Some(Hook::TcEgress),
            Program::Tracepoint { .. } => None,
        }
    }
}

impl Program {
    /// Exec view of the common data.
    pub fn data_ref(&self) -> (r: &ProgramData)
        ensures
            *r == self.data(),
    {
        match self {
            Program::Xdp { data, .. } => data,
            Program::Tc { data, .. } => data,
            Program::Tracepoint { data, .. } => data,
        }
    }

    /// Exec view of the attach record of a network-attached program.
    pub fn net_ref(&self) -> (r: Option<&NetInfo>)
        ensures
            r matches Some(n) ==> self.net() == Some(*n),
            r is None ==> self.net() is None,
    {
        match self {
            Program::Xdp { net, .. } => Some(net),
            Program::Tc { net, .. } => Some(net),
            Program::Tracepoint { .. } => None,
        }
    }
}

/// What List reports of one program.
pub struct ProgramSummary {
    pub uuid: u128,
    pub kind: ProgramKind,
    pub section_name: Vec<u8>,
    pub owner: Vec<u8>,
    /// Interface index, for network-attached programs.
    pub if_index: Option<u32>,
    /// Chain ordering key, for network-attached programs.
    pub priority: Option<u32>,
    /// Rank in the current dispatcher's chain, when attached.
    pub position: Option<usize>,
    /// Whether the program is grafted into a live dispatcher.
    pub attached: bool,
}

} // verus!
