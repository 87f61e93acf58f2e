//! Load requests as clients send them, checked and turned into program records.
use vstd::prelude::*;
use vstd::string::*;
use crate::errors::BpfdError;
use crate::ids::{parse_uuid, parsed_uuid};
use crate::program::{
    Direction, KprobeProgram, KprobeProgramInfo, Location, Program, ProgramData, TcProgram,
    TcProgramInfo, TracepointProgram, TracepointProgramInfo, UprobeProgram, UprobeProgramInfo,
    XdpProgram, XdpProgramInfo,
};

verus! {

/// The part of a load request that every kind shares.
pub struct LoadRequestCommon {
    pub id: Option<String>,
    pub location: Option<Location>,
    pub section_name: String,
    pub global_data: Vec<(String, Vec<u8>)>,
    pub metadata: Vec<(String, String)>,
    pub map_owner_id: Option<String>,
}

/// Attach parameters as a client sends them: actions as wire codes and
/// the TC direction as text.
pub enum RequestAttachInfo {
    Xdp { iface: String, priority: i32, position: i32, proceed_on: Vec<i32> },
    Tc { iface: String, priority: i32, direction: String, proceed_on: Vec<i32> },
    Tracepoint { tracepoint: String },
    Kprobe { fn_name: String, offset: u64, retprobe: bool, namespace: Option<String> },
    Uprobe {
        fn_name: Option<String>,
        offset: u64,
        target: String,
        retprobe: bool,
        pid: Option<i32>,
        namespace: Option<String>,
    },
}

pub struct LoadRequest {
    pub common: Option<LoadRequestCommon>,
    pub attach_info: Option<RequestAttachInfo>,
}

/// Attach parameters checked: actions as mask bits, the direction typed.
pub enum AttachArgs {
    Xdp { iface: String, priority: i32, proceed_on: Vec<u32> },
    Tc { iface: String, priority: i32, direction: Direction, proceed_on: Vec<u32> },
    Tracepoint { tracepoint: String },
    Kprobe { fn_name: String, offset: u64, retprobe: bool, namespace: Option<String> },
    Uprobe {
        fn_name: Option<String>,
        offset: u64,
        target: String,
        retprobe: bool,
        pid: Option<i32>,
        namespace: Option<String>,
    },
}

/// A checked load request, ready for the manager.
pub struct LoadCommand {
    pub id: Option<u128>,
    pub data: ProgramData,
    pub attach: AttachArgs,
}

/// The mask bit of an XDP action code: aborted, drop, pass, tx, redirect
/// and dispatcher-return.
pub open spec fn xdp_action_bit(a: i32) -> Option<u32> {
    if 0 <= a <= 4 || a == 31 {
        Some(a as u32)
    } else {
        None
    }
}

/// The mask bit of a TC action code, from unspec (-1) to trap (8), and
/// dispatcher-return (30): one above the code.
pub open spec fn tc_action_bit(a: i32) -> Option<u32> {
    if -1 <= a <= 8 || a == 30 {
        Some((a + 1) as u32)
    } else {
        None
    }
}

/// All action codes are known to `bit`.
pub open spec fn actions_valid(codes: Seq<i32>, tc: bool) -> bool {
    forall|i: int|
        0 <= i < codes.len() ==> (if tc {
            tc_action_bit(codes[i])
        } else {
            xdp_action_bit(codes[i])
        }) is Some
}

/// The mask bits of valid action codes.
pub open spec fn action_bits(codes: Seq<i32>, tc: bool) -> Seq<u32> {
    codes.map_values(|a: i32| if tc { tc_action_bit(a).unwrap() } else { xdp_action_bit(a).unwrap() })
}

/// Turns action codes into mask bits.
pub fn parse_actions(codes: &Vec<i32>, tc: bool) -> (r: Result<Vec<u32>, BpfdError>)
    ensures
        r is Ok <==> actions_valid(codes@, tc),
        r matches Ok(bits) ==> bits@ == action_bits(codes@, tc),
        r matches Err(e) ==> e == BpfdError::InvalidRequest,
{
    let mut bits: Vec<u32> = Vec::new();
    let mut i: usize = 0;
    while i < codes.len()
        invariant
            i <= codes@.len(),
            actions_valid(codes@.take(i as int), tc),
            bits@ == action_bits(codes@.take(i as int), tc),
        decreases codes@.len() - i,
    {
        let a = codes[i];
        let bit = if tc {
            if -1 <= a && a <= 8 || a == 30 {
                (a + 1) as u32
            } else {
                proof {
                    assert(!actions_valid(codes@, tc)) by {
                        assert(codes@[i as int] == a);
                    }
                }
                return Err(BpfdError::InvalidRequest);
            }
        } else {
            if 0 <= a && a <= 4 || a == 31 {
                a as u32
            } else {
                proof {
                    assert(!actions_valid(codes@, tc)) by {
                        assert(codes@[i as int] == a);
                    }
                }
                return Err(BpfdError::InvalidRequest);
            }
        };
        bits.push(bit);
        proof {
            assert(codes@.take(i + 1) =~= codes@.take(i as int).push(a));
            assert(bits@ =~= action_bits(codes@.take(i + 1), tc));
        }
        i = i + 1;
    }
    proof {
        assert(codes@.take(codes@.len() as int) =~= codes@);
    }
    Ok(bits)
}

/// The direction a TC request names.
pub fn parse_direction(s: &String) -> (r: Result<Direction, BpfdError>)
    ensures
        r == (if s@ == "ingress"@ {
            Ok::<Direction, BpfdError>(Direction::Ingress)
        } else if s@ == "egress"@ {
            Ok(Direction::Egress)
        } else {
            Err(BpfdError::InvalidRequest)
        }),
{
    let ingress = String::from_str("ingress");
    let egress = String::from_str("egress");
    if *s == ingress {
        Ok(Direction::Ingress)
    } else if *s == egress {
        Ok(Direction::Egress)
    } else {
        Err(BpfdError::InvalidRequest)
    }
}

/// A text that must be an id when present.
fn parse_optional_id(s: Option<String>) -> (r: Result<Option<u128>, BpfdError>)
    ensures
        match s {
            None => r == Ok::<Option<u128>, BpfdError>(None),
            Some(t) => match parsed_uuid(t@) {
                Some(id) => r == Ok::<Option<u128>, BpfdError>(Some(id)),
                None => r == Err::<Option<u128>, BpfdError>(BpfdError::InvalidId),
            },
        },
{
    match s {
        None => Ok(None),
        Some(t) => match parse_uuid(t.as_str()) {
            Some(id) => Ok(Some(id)),
            None => Err(BpfdError::InvalidId),
        },
    }
}

/// Why a request cannot be turned into a load command, if it cannot.
pub open spec fn request_error(req: LoadRequest) -> Option<BpfdError> {
    match (req.common, req.attach_info) {
        (Some(c), Some(a)) => if c.location is None {
            Some(BpfdError::InvalidRequest)
        } else if c.id matches Some(t) && parsed_uuid(t@) is None {
            Some(BpfdError::InvalidId)
        } else if c.map_owner_id matches Some(t) && parsed_uuid(t@) is None {
            Some(BpfdError::InvalidId)
        } else {
            match a {
                RequestAttachInfo::Xdp { proceed_on, .. } => if actions_valid(proceed_on@, false) {
                    None
                } else {
                    Some(BpfdError::InvalidRequest)
                },
                RequestAttachInfo::Tc { proceed_on, direction, .. } => if !actions_valid(
                    proceed_on@,
                    true,
                ) {
                    Some(BpfdError::InvalidRequest)
                } else if direction@ == "ingress"@ || direction@ == "egress"@ {
                    None
                } else {
                    Some(BpfdError::InvalidRequest)
                },
                _ => None,
            }
        },
        _ => Some(BpfdError::InvalidRequest),
    }
}

/// Checks a client's load request and turns it into a command for the
/// manager, on behalf of `username`.
pub fn parse_load_request(req: LoadRequest, username: String) -> (r: Result<LoadCommand, BpfdError>)
    ensures
        r is Ok <==> request_error(req) is None,
        r matches Err(e) ==> request_error(req) == Some(e),
        r matches Ok(cmd) ==> {
            let c = req.common.unwrap();
            &&& cmd.id == match c.id {
                Some(t) => parsed_uuid(t@),
                None => None,
            }
            &&& cmd.data.map_owner_id == match c.map_owner_id {
                Some(t) => parsed_uuid(t@),
                None => None,
            }
            &&& Some(cmd.data.location) == c.location
            &&& cmd.data.section_name == c.section_name
            &&& cmd.data.global_data == c.global_data
            &&& cmd.data.metadata == c.metadata
            &&& cmd.data.owner == username
            &&& cmd.data.kernel_info is None
            &&& match (req.attach_info.unwrap(), cmd.attach) {
                (
                    RequestAttachInfo::Xdp { iface, priority, proceed_on, .. },
                    AttachArgs::Xdp { iface: i2, priority: pr, proceed_on: b2 },
                ) => i2 == iface && pr == priority && b2@ == action_bits(proceed_on@, false),
                (
                    RequestAttachInfo::Tc { iface, priority, proceed_on, direction },
                    AttachArgs::Tc { iface: i2, priority: pr, proceed_on: b2, direction: d2 },
                ) => i2 == iface && pr == priority && b2@ == action_bits(proceed_on@, true) && (d2
                    == Direction::Ingress <==> direction@ == "ingress"@),
                (
                    RequestAttachInfo::Tracepoint { tracepoint },
                    AttachArgs::Tracepoint { tracepoint: t2 },
                ) => t2 == tracepoint,
                (
                    RequestAttachInfo::Kprobe { fn_name, offset, retprobe, namespace },
                    AttachArgs::Kprobe { fn_name: f2, offset: o2, retprobe: r2, namespace: n2 },
                ) => f2 == fn_name && o2 == offset && r2 == retprobe && n2 == namespace,
                (
                    RequestAttachInfo::Uprobe { fn_name, offset, target, retprobe, pid, namespace },
                    AttachArgs::Uprobe {
                        fn_name: f2,
                        offset: o2,
                        target: t2,
                        retprobe: r2,
                        pid: pd,
                        namespace: n2,
                    },
                ) => f2 == fn_name && o2 == offset && t2 == target && r2 == retprobe && pd == pid && n2
                    == namespace,
                _ => false,
            }
        },
{
    let (common, attach_info) = match (req.common, req.attach_info) {
        (Some(c), Some(a)) => (c, a),
        _ => {
            return Err(BpfdError::InvalidRequest);
        },
    };
    let location = match common.location {
        Some(l) => l,
        None => {
            return Err(BpfdError::InvalidRequest);
        },
    };
    let id = match parse_optional_id(common.id) {
        Ok(id) => id,
        Err(e) => {
            return Err(e);
        },
    };
    let map_owner_id = match parse_optional_id(common.map_owner_id) {
        Ok(id) => id,
        Err(e) => {
            return Err(e);
        },
    };
    let attach = match attach_info {
        RequestAttachInfo::Xdp { iface, priority, position: _, proceed_on } => {
            match parse_actions(&proceed_on, false) {
                Ok(bits) => AttachArgs::Xdp { iface, priority, proceed_on: bits },
                Err(e) => {
                    return Err(e);
                },
            }
        },
        RequestAttachInfo::Tc { iface, priority, direction, proceed_on } => {
            let bits = match parse_actions(&proceed_on, true) {
                Ok(bits) => bits,
                Err(e) => {
                    return Err(e);
                },
            };
            let dir = match parse_direction(&direction) {
                Ok(d) => d,
                Err(e) => {
                    return Err(e);
                },
            };
            AttachArgs::Tc { iface, priority, direction: dir, proceed_on: bits }
        },
        RequestAttachInfo::Tracepoint { tracepoint } => AttachArgs::Tracepoint { tracepoint },
        RequestAttachInfo::Kprobe { fn_name, offset, retprobe, namespace } => AttachArgs::Kprobe {
            fn_name,
            offset,
            retprobe,
            namespace,
        },
        RequestAttachInfo::Uprobe { fn_name, offset, target, retprobe, pid, namespace } => AttachArgs::Uprobe {
            fn_name,
            offset,
            target,
            retprobe,
            pid,
            namespace,
        },
    };
    Ok(
        LoadCommand {
            id,
            data: ProgramData {
                location,
                section_name: common.section_name,
                global_data: common.global_data,
                metadata: common.metadata,
                map_owner_id,
                owner: username,
                kernel_info: None,
            },
            attach,
        },
    )
}

/// Builds the program record of a load command. XDP and TC programs need
/// the index of their interface; `None` says that the interface is unknown.
pub fn build_program(cmd: LoadCommand, if_index: Option<u32>) -> (r: Result<(Option<u128>, Program), BpfdError>)
    ensures
        r is Err <==> (cmd.attach is Xdp || cmd.attach is Tc) && if_index is None,
        r matches Err(e) ==> e == BpfdError::InvalidInterface,
        r matches Ok(out) ==> out.0 == cmd.id && match cmd.attach {
            AttachArgs::Xdp { iface, priority, proceed_on } => out.1 == Program::Xdp(
                XdpProgram {
                    data: cmd.data,
                    info: XdpProgramInfo {
                        if_index: if_index.unwrap(),
                        if_name: iface,
                        priority,
                        proceed_on,
                        current_position: None,
                        attached: false,
                    },
                },
            ),
            AttachArgs::Tc { iface, priority, direction, proceed_on } => out.1 == Program::Tc(
                TcProgram {
                    data: cmd.data,
                    info: TcProgramInfo {
                        if_index: if_index.unwrap(),
                        if_name: iface,
                        priority,
                        proceed_on,
                        current_position: None,
                        attached: false,
                        direction,
                    },
                },
            ),
            AttachArgs::Tracepoint { tracepoint } => out.1 == Program::Tracepoint(
                TracepointProgram { data: cmd.data, info: TracepointProgramInfo { tracepoint } },
            ),
            AttachArgs::Kprobe { fn_name, offset, retprobe, namespace } => out.1 == Program::Kprobe(
                KprobeProgram {
                    data: cmd.data,
                    info: KprobeProgramInfo { fn_name, offset, retprobe, namespace },
                },
            ),
            AttachArgs::Uprobe { fn_name, offset, target, retprobe, pid, namespace } => out.1
                == Program::Uprobe(
                UprobeProgram {
                    data: cmd.data,
                    info: UprobeProgramInfo { fn_name, offset, target, retprobe, pid, namespace },
                },
            ),
        },
{
    let data = cmd.data;
    let program = match cmd.attach {
        AttachArgs::Xdp { iface, priority, proceed_on } => match if_index {
            Some(ix) => Program::Xdp(
                XdpProgram {
                    data,
                    info: XdpProgramInfo {
                        if_index: ix,
                        if_name: iface,
                        priority,
                        proceed_on,
                        current_position: None,
                        attached: false,
                    },
                },
            ),
            None => {
                return Err(BpfdError::InvalidInterface);
            },
        },
        AttachArgs::Tc { iface, priority, direction, proceed_on } => match if_index {
            Some(ix) => Program::Tc(
                TcProgram {
                    data,
                    info: TcProgramInfo {
                        if_index: ix,
                        if_name: iface,
                        priority,
                        proceed_on,
                        current_position: None,
                        attached: false,
                        direction,
                    },
                },
            ),
            None => {
                return Err(BpfdError::InvalidInterface);
            },
        },
        AttachArgs::Tracepoint { tracepoint } => Program::Tracepoint(
            TracepointProgram { data, info: TracepointProgramInfo { tracepoint } },
        ),
        AttachArgs::Kprobe { fn_name, offset, retprobe, namespace } => Program::Kprobe(
            KprobeProgram { data, info: KprobeProgramInfo { fn_name, offset, retprobe, namespace } },
        ),
        AttachArgs::Uprobe { fn_name, offset, target, retprobe, pid, namespace } => Program::Uprobe(
            UprobeProgram {
                data,
                info: UprobeProgramInfo { fn_name, offset, target, retprobe, pid, namespace },
            },
        ),
    };
    Ok((cmd.id, program))
}

} // verus!
