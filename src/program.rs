//! Program records, by kind.
use vstd::prelude::*;

verus! {

/// The kinds of programs the manager handles.
#[derive(Debug, Clone, Copy, PartialEq, Eq, Structural)]
pub enum ProgramType {
    Xdp,
    Tc,
    Tracepoint,
    Kprobe,
    Uprobe,
}

/// The direction of a TC hook.
#[derive(Debug, Clone, Copy, PartialEq, Eq, Structural)]
pub enum Direction {
    Ingress,
    Egress,
}

/// The key of a multi-attach dispatcher: one per XDP interface and one per
/// TC interface and direction.
#[derive(Debug, Clone, Copy, PartialEq, Eq, Structural)]
pub enum DispatcherId {
    Xdp { if_index: u32 },
    Tc { if_index: u32, direction: Direction },
}

/// Policy for pulling an OCI image.
#[derive(Debug, Clone, Copy, PartialEq, Eq, Structural)]
pub enum PullPolicy {
    Always,
    IfNotPresent,
    Never,
}

/// Where a program's bytecode comes from.
#[derive(Debug, Clone)]
pub enum Location {
    File(String),
    Image { url: String, pull_policy: PullPolicy, username: Option<String>, password: Option<String> },
}

/// What the kernel reported once it accepted a program.
#[derive(Debug, Clone)]
pub struct KernelInfo {
    pub id: u32,
    pub name: String,
    pub loaded_at: String,
    pub tag: String,
    pub gpl_compatible: bool,
    pub map_ids: Vec<u32>,
    pub btf_id: u32,
    pub bytes_xlated: u32,
    pub jited: bool,
    pub bytes_jited: u32,
    pub bytes_memlock: u32,
    pub verified_insns: u32,
}

/// The part of a program record that every kind shares.
#[derive(Debug, Clone)]
pub struct ProgramData {
    pub location: Location,
    pub section_name: String,
    pub global_data: Vec<(String, Vec<u8>)>,
    pub metadata: Vec<(String, String)>,
    pub map_owner_id: Option<u128>,
    pub owner: String,
    pub kernel_info: Option<KernelInfo>,
}

#[derive(Debug, Clone)]
pub struct XdpProgramInfo {
    pub if_index: u32,
    pub if_name: String,
    pub priority: i32,
    pub proceed_on: Vec<u32>,
    pub current_position: Option<usize>,
    pub attached: bool,
}

#[derive(Debug, Clone)]
pub struct TcProgramInfo {
    pub if_index: u32,
    pub if_name: String,
    pub priority: i32,
    pub proceed_on: Vec<u32>,
    pub current_position: Option<usize>,
    pub attached: bool,
    pub direction: Direction,
}

#[derive(Debug, Clone)]
pub struct TracepointProgramInfo {
    pub tracepoint: String,
}

#[derive(Debug, Clone)]
pub struct KprobeProgramInfo {
    pub fn_name: String,
    pub offset: u64,
    pub retprobe: bool,
    pub namespace: Option<String>,
}

#[derive(Debug, Clone)]
pub struct UprobeProgramInfo {
    pub fn_name: Option<String>,
    pub offset: u64,
    pub target: String,
    pub retprobe: bool,
    pub pid: Option<i32>,
    pub namespace: Option<String>,
}

#[derive(Debug, Clone)]
pub struct XdpProgram {
    pub data: ProgramData,
    pub info: XdpProgramInfo,
}

#[derive(Debug, Clone)]
pub struct TcProgram {
    pub data: ProgramData,
    pub info: TcProgramInfo,
}

#[derive(Debug, Clone)]
pub struct TracepointProgram {
    pub data: ProgramData,
    pub info: TracepointProgramInfo,
}

#[derive(Debug, Clone)]
pub struct KprobeProgram {
    pub data: ProgramData,
    pub info: KprobeProgramInfo,
}

#[derive(Debug, Clone)]
pub struct UprobeProgram {
    pub data: ProgramData,
    pub info: UprobeProgramInfo,
}

/// A program record: the kind-specific attach parameters beside the shared data.
#[derive(Debug, Clone)]
pub enum Program {
    Xdp(XdpProgram),
    Tc(TcProgram),
    Tracepoint(TracepointProgram),
    Kprobe(KprobeProgram),
    Uprobe(UprobeProgram),
}

impl Program {
    pub open spec fn spec_kind(&self) -> ProgramType {
        match self {
            Program::Xdp(_) => ProgramType::Xdp,
            Program::Tc(_) => ProgramType::Tc,
            Program::Tracepoint(_) => ProgramType::Tracepoint,
            Program::Kprobe(_) => ProgramType::Kprobe,
            Program::Uprobe(_) => ProgramType::Uprobe,
        }
    }

    /// The dispatcher the program is attached through, for XDP and TC.
    pub open spec fn dispatcher(&self) -> Option<DispatcherId> {
        match self {
            Program::Xdp(p) => Some(DispatcherId::Xdp { if_index: p.info.if_index }),
            Program::Tc(p) => Some(
                DispatcherId::Tc { if_index: p.info.if_index, direction: p.info.direction },
            ),
            _ => None,
        }
    }

    pub open spec fn prio(&self) -> i32 {
        match self {
            Program::Xdp(p) => p.info.priority,
            Program::Tc(p) => p.info.priority,
            _ => 0,
        }
    }

    pub open spec fn position(&self) -> Option<usize> {
        match self {
            Program::Xdp(p) => p.info.current_position,
            Program::Tc(p) => p.info.current_position,
            _ => None,
        }
    }

    pub open spec fn is_attached(&self) -> bool {
        match self {
            Program::Xdp(p) => p.info.attached,
            Program::Tc(p) => p.info.attached,
            _ => true,
        }
    }

    pub open spec fn spec_data(&self) -> ProgramData {
        match self {
            Program::Xdp(p) => p.data,
            Program::Tc(p) => p.data,
            Program::Tracepoint(p) => p.data,
            Program::Kprobe(p) => p.data,
            Program::Uprobe(p) => p.data,
        }
    }

    pub open spec fn map_owner(&self) -> Option<u128> {
        self.spec_data().map_owner_id
    }

    /// The same record with another position in its dispatcher.
    pub open spec fn with_position(self, pos: Option<usize>) -> Program {
        match self {
            Program::Xdp(p) => Program::Xdp(
                XdpProgram { info: XdpProgramInfo { current_position: pos, ..p.info }, ..p },
            ),
            Program::Tc(p) => Program::Tc(
                TcProgram { info: TcProgramInfo { current_position: pos, ..p.info }, ..p },
            ),
            _ => self,
        }
    }

    /// The same record marked as attached.
    pub open spec fn with_attached(self, attached: bool) -> Program {
        match self {
            Program::Xdp(p) => Program::Xdp(
                XdpProgram { info: XdpProgramInfo { attached: attached, ..p.info }, ..p },
            ),
            Program::Tc(p) => Program::Tc(
                TcProgram { info: TcProgramInfo { attached: attached, ..p.info }, ..p },
            ),
            _ => self,
        }
    }

    pub fn kind(&self) -> (r: ProgramType)
        ensures
            r == self.spec_kind(),
    {
        match self {
            Program::Xdp(_) => ProgramType::Xdp,
            Program::Tc(_) => ProgramType::Tc,
            Program::Tracepoint(_) => ProgramType::Tracepoint,
            Program::Kprobe(_) => ProgramType::Kprobe,
            Program::Uprobe(_) => ProgramType::Uprobe,
        }
    }

    pub fn dispatcher_id(&self) -> (r: Option<DispatcherId>)
        ensures
            r == self.dispatcher(),
    {
        match self {
            Program::Xdp(p) => Some(DispatcherId::Xdp { if_index: p.info.if_index }),
            Program::Tc(p) => Some(
                DispatcherId::Tc { if_index: p.info.if_index, direction: p.info.direction },
            ),
            _ => None,
        }
    }

    pub fn priority(&self) -> (r: i32)
        ensures
            r == self.prio(),
    {
        match self {
            Program::Xdp(p) => p.info.priority,
            Program::Tc(p) => p.info.priority,
            _ => 0,
        }
    }

    pub fn current_position(&self) -> (r: Option<usize>)
        ensures
            r == self.position(),
    {
        match self {
            Program::Xdp(p) => p.info.current_position,
            Program::Tc(p) => p.info.current_position,
            _ => None,
        }
    }

    pub fn attached(&self) -> (r: bool)
        ensures
            r == self.is_attached(),
    {
        match self {
            Program::Xdp(p) => p.info.attached,
            Program::Tc(p) => p.info.attached,
            _ => true,
        }
    }

    pub fn data(&self) -> (r: &ProgramData)
        ensures
            *r == self.spec_data(),
    {
        match self {
            Program::Xdp(p) => &p.data,
            Program::Tc(p) => &p.data,
            Program::Tracepoint(p) => &p.data,
            Program::Kprobe(p) => &p.data,
            Program::Uprobe(p) => &p.data,
        }
    }

    pub fn map_owner_id(&self) -> (r: Option<u128>)
        ensures
            r == self.map_owner(),
    {
        self.data().map_owner_id
    }

    pub fn set_position(&mut self, pos: Option<usize>)
        ensures
            *final(self) == old(self).with_position(pos),
    {
        match self {
            Program::Xdp(p) => {
                p.info.current_position = pos;
            },
            Program::Tc(p) => {
                p.info.current_position = pos;
            },
            _ => {},
        }
    }

    pub fn set_attached(&mut self, attached: bool)
        ensures
            *final(self) == old(self).with_attached(attached),
    {
        match self {
            Program::Xdp(p) => {
                p.info.attached = attached;
            },
            Program::Tc(p) => {
                p.info.attached = attached;
            },
            _ => {},
        }
    }

    /// Records what the kernel reported for the program.
    pub fn set_kernel_info(&mut self, info: KernelInfo)
        ensures
            final(self).spec_kind() == old(self).spec_kind(),
            final(self).spec_data() == (ProgramData { kernel_info: Some(info), ..old(self).spec_data() }),
            final(self).dispatcher() == old(self).dispatcher(),
            final(self).prio() == old(self).prio(),
            final(self).position() == old(self).position(),
            final(self).is_attached() == old(self).is_attached(),
    {
        match self {
            Program::Xdp(p) => {
                p.data.kernel_info = Some(info);
            },
            Program::Tc(p) => {
                p.data.kernel_info = Some(info);
            },
            Program::Tracepoint(p) => {
                p.data.kernel_info = Some(info);
            },
            Program::Kprobe(p) => {
                p.data.kernel_info = Some(info);
            },
            Program::Uprobe(p) => {
                p.data.kernel_info = Some(info);
            },
        }
    }
}

} // verus!
