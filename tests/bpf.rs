use bpfd::attach::{check_probe_kind, parse_tracepoint, ProbeType};
use bpfd::dispatcher::{must_detach_old, proceed_on_mask};
use bpfd::errors::BpfdError;
use bpfd::ids::{parse_program_id, program_id_text};
use bpfd::list::{KernelProgram, ListFilter, ListedProgram};
use bpfd::manager::{BpfManager, DispatcherChange, DispatcherRecord};
use bpfd::maps::{calc_map_pin_path, get_map_index, RTDIR_FS_MAPS};
use bpfd::program::{
    Direction, DispatcherId, KernelInfo, KprobeProgram, KprobeProgramInfo, Location, Program,
    ProgramData, PullPolicy, TcProgram, TcProgramInfo, TracepointProgram, TracepointProgramInfo,
    UprobeProgram, UprobeProgramInfo, XdpProgram, XdpProgramInfo,
};
use bpfd::request::{
    build_program, parse_load_request, LoadRequest, LoadRequestCommon, RequestAttachInfo,
};
use uuid::Uuid;

const UUID_1: &str = "67e55044-10b1-426f-9247-bb680e5fe0c8";
const UUID_2: &str = "084282a5-a43f-41c3-8f85-c302dc90e091";

fn uuid(s: &str) -> u128 {
    Uuid::parse_str(s).unwrap().as_u128()
}

fn data(owner: &str, map_owner_id: Option<u128>) -> ProgramData {
    ProgramData {
        location: Location::File("/tmp/prog.o".to_string()),
        section_name: "prog".to_string(),
        global_data: vec![],
        metadata: vec![],
        map_owner_id,
        owner: owner.to_string(),
        kernel_info: None,
    }
}

fn xdp(if_index: u32, priority: i32) -> Program {
    Program::Xdp(XdpProgram {
        data: data("alice", None),
        info: XdpProgramInfo {
            if_index,
            if_name: "eth0".to_string(),
            priority,
            proceed_on: vec![2, 31],
            current_position: None,
            attached: false,
        },
    })
}

fn tc(if_index: u32, priority: i32, direction: Direction) -> Program {
    Program::Tc(TcProgram {
        data: data("alice", None),
        info: TcProgramInfo {
            if_index,
            if_name: "eth0".to_string(),
            priority,
            proceed_on: vec![3, 31],
            current_position: None,
            attached: false,
            direction,
        },
    })
}

fn tracepoint(tp: &str, map_owner_id: Option<u128>) -> Program {
    Program::Tracepoint(TracepointProgram {
        data: data("alice", map_owner_id),
        info: TracepointProgramInfo { tracepoint: tp.to_string() },
    })
}

fn kprobe(retprobe: bool, offset: u64) -> Program {
    Program::Kprobe(KprobeProgram {
        data: data("alice", None),
        info: KprobeProgramInfo { fn_name: "do_sys_open".to_string(), offset, retprobe, namespace: None },
    })
}

fn position(m: &BpfManager, id: u128) -> Option<usize> {
    m.get_program(id).unwrap().current_position()
}

fn revision(m: &BpfManager, d: DispatcherId) -> u32 {
    m.dispatchers[m.find_dispatcher(d).unwrap()].revision
}

fn ids(m: &BpfManager) -> Vec<u128> {
    m.programs.iter().map(|(id, _)| *id).collect()
}

fn xdp_request(id: &str) -> LoadRequest {
    LoadRequest {
        common: Some(LoadRequestCommon {
            id: Some(id.to_string()),
            location: Some(Location::Image {
                url: "quay.io/bpfd-bytecode/xdp:latest".to_string(),
                pull_policy: PullPolicy::IfNotPresent,
                username: None,
                password: None,
            }),
            section_name: String::new(),
            global_data: vec![],
            metadata: vec![],
            map_owner_id: None,
        }),
        attach_info: Some(RequestAttachInfo::Xdp {
            iface: "eth0".to_string(),
            priority: 50,
            position: 0,
            proceed_on: vec![2, 31],
        }),
    }
}

#[test]
fn test_map_index() {
    let (owner, index) = get_map_index(uuid(UUID_1), None);
    assert_eq!(owner, true);
    assert_eq!(index, uuid(UUID_1));
    let (owner, index) = get_map_index(uuid(UUID_2), Some(uuid(UUID_1)));
    assert_eq!(owner, false);
    assert_eq!(index, uuid(UUID_1));
}

#[test]
fn test_calc_map_pin_path() {
    let (owner, path) = calc_map_pin_path(uuid(UUID_1), None);
    assert_eq!(owner, true);
    assert_eq!(path, format!("{RTDIR_FS_MAPS}/{}", UUID_1));
    let (owner, path) = calc_map_pin_path(uuid(UUID_2), Some(uuid(UUID_1)));
    assert_eq!(owner, false);
    assert_eq!(path, format!("{RTDIR_FS_MAPS}/{}", UUID_1));
}

#[test]
fn test_load_with_valid_id() {
    let res = parse_load_request(xdp_request("4eee7d98-ffb5-49aa-bab8-b6d5d39c638e"), String::new());
    assert!(res.is_ok());
}

#[test]
fn test_load_with_invalid_id() {
    let res = parse_load_request(xdp_request("notauuid"), String::new());
    assert!(res.is_err());
}

#[test]
fn program_id_round_trips_through_text() {
    let id = uuid(UUID_1);
    assert_eq!(program_id_text(id), UUID_1);
    assert_eq!(parse_program_id(UUID_1), Ok(id));
    assert_eq!(parse_program_id("notauuid"), Err(BpfdError::InvalidId));
    assert_eq!(parse_program_id(&program_id_text(id)), Ok(id));
    assert_eq!(program_id_text(0x0123456789abcdef_0011223344556677), "01234567-89ab-cdef-0011-223344556677");
}

#[test]
fn first_xdp_program_gets_position_zero_and_revision_one() {
    let mut m = BpfManager::new();
    let plan = m.add_program(xdp(2, 50), Some(1)).unwrap();
    assert_eq!(plan.id, 1);
    let rp = plan.reconcile.unwrap();
    assert_eq!(rp.revision, 1);
    assert!(rp.old.is_none());
    assert_eq!(rp.extensions.len(), 1);
    assert_eq!(rp.extensions[0].id, 1);
    assert!(!rp.extensions[0].attached);
    assert_eq!(position(&m, 1), Some(0));
    assert_eq!(revision(&m, DispatcherId::Xdp { if_index: 2 }), 1);
    let listed = m.list_programs(
        &ListFilter { kind: None, metadata: vec![], bpfman_only: true },
        &vec![],
    );
    assert_eq!(listed.len(), 1);
}

#[test]
fn second_xdp_program_of_higher_priority_goes_first() {
    let mut m = BpfManager::new();
    m.add_program(xdp(2, 50), Some(1)).unwrap();
    let plan = m.add_program(xdp(2, 10), Some(2)).unwrap();
    let rp = plan.reconcile.unwrap();
    assert_eq!(rp.revision, 2);
    assert_eq!(rp.old.unwrap().revision, 1);
    assert_eq!(position(&m, 2), Some(0));
    assert_eq!(position(&m, 1), Some(1));
    assert_eq!(rp.extensions[0].id, 2);
    assert!(!rp.extensions[0].attached);
    assert_eq!(rp.extensions[1].id, 1);
    assert!(rp.extensions[1].attached);
    assert_eq!(revision(&m, DispatcherId::Xdp { if_index: 2 }), 2);
}

#[test]
fn priority_order_does_not_depend_on_arrival() {
    let mut a = BpfManager::new();
    a.add_program(xdp(2, 10), Some(1)).unwrap();
    a.add_program(xdp(2, 20), Some(2)).unwrap();
    let mut b = BpfManager::new();
    b.add_program(xdp(2, 20), Some(2)).unwrap();
    b.add_program(xdp(2, 10), Some(1)).unwrap();
    assert_eq!(position(&a, 1), Some(0));
    assert_eq!(position(&a, 2), Some(1));
    assert_eq!(position(&b, 1), Some(0));
    assert_eq!(position(&b, 2), Some(1));
}

#[test]
fn equal_priorities_are_ordered_by_id() {
    let mut m = BpfManager::new();
    m.add_program(xdp(2, 10), Some(9)).unwrap();
    m.add_program(xdp(2, 10), Some(3)).unwrap();
    assert_eq!(position(&m, 3), Some(0));
    assert_eq!(position(&m, 9), Some(1));
}

#[test]
fn tracepoint_touches_no_dispatcher() {
    let mut m = BpfManager::new();
    m.add_program(xdp(2, 50), Some(1)).unwrap();
    let plan = m.add_program(tracepoint("sched/sched_switch", None), Some(2)).unwrap();
    assert!(plan.reconcile.is_none());
    assert_eq!(m.dispatchers.len(), 1);
    assert_eq!(revision(&m, DispatcherId::Xdp { if_index: 2 }), 1);
    assert_eq!(position(&m, 1), Some(0));
}

#[test]
fn tracepoint_must_name_category_and_event() {
    let mut m = BpfManager::new();
    let r = m.add_program(tracepoint("sched_switch", None), Some(1));
    assert_eq!(r.unwrap_err(), BpfdError::InvalidAttach);
    assert!(m.programs.is_empty());
    assert_eq!(
        parse_tracepoint("sched/sched_switch"),
        Ok(("sched".to_string(), "sched_switch".to_string()))
    );
    assert_eq!(parse_tracepoint("a/b/c"), Err(BpfdError::InvalidAttach));
}

#[test]
fn map_owner_cannot_be_unloaded_while_shared() {
    let mut m = BpfManager::new();
    let a = m.add_program(tracepoint("sched/sched_switch", None), Some(1)).unwrap();
    assert!(a.map_owner);
    assert_eq!(a.map_pin_path, format!("{RTDIR_FS_MAPS}/{}", program_id_text(1)));
    let b = m.add_program(tracepoint("sched/sched_wakeup", Some(1)), Some(2)).unwrap();
    assert!(!b.map_owner);
    assert_eq!(b.map_pin_path, a.map_pin_path);
    assert_eq!(m.map_used_by(1), Some(vec![2]));
    assert_eq!(m.map_used_by(2), None);
    assert_eq!(m.remove_program(1, "alice").unwrap_err(), BpfdError::MapInUse);
    let rb = m.remove_program(2, "alice").unwrap();
    assert!(rb.map_pin_path.is_none());
    let ra = m.remove_program(1, "alice").unwrap();
    assert_eq!(ra.map_pin_path, Some(a.map_pin_path));
    assert!(m.programs.is_empty());
}

#[test]
fn consumer_needs_an_existing_map_group() {
    let mut m = BpfManager::new();
    let r = m.add_program(tracepoint("sched/sched_switch", Some(7)), Some(1));
    assert_eq!(r.unwrap_err(), BpfdError::MapGroupMissing);
}

#[test]
fn kretprobe_with_offset_is_refused() {
    let mut m = BpfManager::new();
    let r = m.add_program(kprobe(true, 100), Some(1));
    assert_eq!(r.unwrap_err(), BpfdError::KretprobeOffsetNotAllowed);
    assert!(m.add_program(kprobe(false, 100), Some(2)).is_ok());
    assert!(m.add_program(kprobe(true, 0), Some(3)).is_ok());
}

#[test]
fn eleventh_tc_program_is_refused_and_changes_nothing() {
    let mut m = BpfManager::new();
    for i in 0..10u128 {
        m.add_program(tc(2, (i as i32) * 5, Direction::Ingress), Some(i + 1)).unwrap();
    }
    let d = DispatcherId::Tc { if_index: 2, direction: Direction::Ingress };
    let before_ids = ids(&m);
    let before_positions: Vec<Option<usize>> =
        before_ids.iter().map(|id| position(&m, *id)).collect();
    let before_revision = revision(&m, d);
    let r = m.add_program(tc(2, 1, Direction::Ingress), Some(11));
    assert_eq!(r.unwrap_err(), BpfdError::TooManyPrograms);
    assert_eq!(ids(&m), before_ids);
    let after_positions: Vec<Option<usize>> = before_ids.iter().map(|id| position(&m, *id)).collect();
    assert_eq!(after_positions, before_positions);
    assert_eq!(revision(&m, d), before_revision);
    assert!(m.add_program(tc(2, 1, Direction::Egress), Some(12)).is_ok());
}

#[test]
fn id_in_use_is_refused() {
    let mut m = BpfManager::new();
    m.add_program(kprobe(false, 0), Some(5)).unwrap();
    assert_eq!(m.add_program(kprobe(false, 0), Some(5)).unwrap_err(), BpfdError::IdInUse);
}

#[test]
fn unknown_interface_is_refused() {
    let cmd = parse_load_request(xdp_request(UUID_1), "alice".to_string()).unwrap();
    assert_eq!(build_program(cmd, None).unwrap_err(), BpfdError::InvalidInterface);
    let cmd = parse_load_request(xdp_request(UUID_1), "alice".to_string()).unwrap();
    let (id, p) = build_program(cmd, Some(4)).unwrap();
    assert_eq!(id, Some(uuid(UUID_1)));
    assert_eq!(p.dispatcher_id(), Some(DispatcherId::Xdp { if_index: 4 }));
    match &p {
        Program::Xdp(x) => {
            assert_eq!(x.info.if_name, "eth0");
            assert_eq!(x.info.priority, 50);
            assert_eq!(x.info.proceed_on, vec![2, 31]);
        }
        _ => panic!("an XDP record is expected"),
    }
}

#[test]
fn unload_checks_owner_and_id() {
    let mut m = BpfManager::new();
    m.add_program(kprobe(false, 0), Some(5)).unwrap();
    assert_eq!(m.remove_program(6, "alice").unwrap_err(), BpfdError::InvalidId);
    assert_eq!(m.remove_program(5, "bob").unwrap_err(), BpfdError::NotAuthorized);
    assert!(m.remove_program(5, "bpfctl").is_ok());
}

#[test]
fn unload_after_add_restores_the_registry() {
    let mut m = BpfManager::new();
    m.add_program(xdp(2, 10), Some(1)).unwrap();
    m.add_program(xdp(2, 30), Some(2)).unwrap();
    let before = ids(&m);
    m.add_program(xdp(2, 20), Some(3)).unwrap();
    assert_eq!(position(&m, 2), Some(2));
    let plan = m.remove_program(3, "alice").unwrap();
    assert_eq!(ids(&m), before);
    assert_eq!(position(&m, 1), Some(0));
    assert_eq!(position(&m, 2), Some(1));
    match plan.dispatcher {
        DispatcherChange::Rebuild(rp) => {
            assert_eq!(rp.revision, 4);
            assert_eq!(rp.extensions.len(), 2);
            assert!(rp.extensions.iter().all(|e| e.attached));
        }
        _ => panic!("dispatcher should be rebuilt"),
    }
}

#[test]
fn last_program_deletes_its_dispatcher() {
    let mut m = BpfManager::new();
    m.add_program(tc(3, 10, Direction::Egress), Some(1)).unwrap();
    let plan = m.remove_program(1, "alice").unwrap();
    match plan.dispatcher {
        DispatcherChange::Delete(rec) => assert_eq!(rec.revision, 1),
        _ => panic!("dispatcher should be deleted"),
    }
    assert!(m.dispatchers.is_empty());
}

#[test]
fn failed_add_is_rolled_back() {
    let mut m = BpfManager::new();
    m.add_program(xdp(2, 10), Some(1)).unwrap();
    let plan = m.add_program(xdp(2, 5), Some(2)).unwrap();
    let old = plan.reconcile.as_ref().unwrap().old;
    let p = m.abort_add(plan.id, old);
    assert_eq!(p.priority(), 5);
    assert_eq!(ids(&m), vec![1]);
    assert_eq!(position(&m, 1), Some(0));
    assert_eq!(revision(&m, DispatcherId::Xdp { if_index: 2 }), 1);
    let plan = m.add_program(xdp(7, 5), Some(3)).unwrap();
    m.abort_add(plan.id, plan.reconcile.as_ref().unwrap().old);
    assert!(m.find_dispatcher(DispatcherId::Xdp { if_index: 7 }).is_none());
}

#[test]
fn proceed_on_mask_sets_one_bit_per_action() {
    assert_eq!(proceed_on_mask(&vec![2, 31]), Ok((1u32 << 2) | (1u32 << 31)));
    assert_eq!(proceed_on_mask(&vec![]), Ok(0));
    assert_eq!(proceed_on_mask(&vec![32]), Err(BpfdError::InvalidRequest));
}

#[test]
fn dispatcher_config_follows_slots() {
    let mut m = BpfManager::new();
    m.add_program(xdp(2, 60), Some(1)).unwrap();
    m.add_program(xdp(2, -5), Some(3)).unwrap();
    let plan = m.add_program(xdp(2, 10), Some(2)).unwrap();
    let cfg = m.dispatcher_config(plan.reconcile.as_ref().unwrap()).unwrap();
    assert_eq!(cfg.num_progs_enabled, 3);
    assert_eq!(cfg.chain_call_actions[0], (1u32 << 2) | (1u32 << 31));
    assert_eq!(cfg.chain_call_actions[3], 0);
    assert_eq!(cfg.run_prios, vec![0, 10, 60, 50, 50, 50, 50, 50, 50, 50]);
}

#[test]
fn old_tc_dispatcher_with_reused_handle_is_not_detached() {
    let d = DispatcherId::Tc { if_index: 2, direction: Direction::Ingress };
    let old = DispatcherRecord { id: d, revision: 1, handle: Some(7) };
    assert!(!must_detach_old(&old, Some(7)));
    assert!(must_detach_old(&old, Some(8)));
    let x = DispatcherRecord { id: DispatcherId::Xdp { if_index: 2 }, revision: 1, handle: None };
    assert!(must_detach_old(&x, None));
}

#[test]
fn probe_kind_mismatch_is_reported() {
    assert_eq!(check_probe_kind(&kprobe(true, 0), ProbeType::Kprobe), Err(BpfdError::ProbeKindMismatch));
    assert_eq!(check_probe_kind(&kprobe(true, 0), ProbeType::Kretprobe), Ok(()));
    let u = Program::Uprobe(UprobeProgram {
        data: data("alice", None),
        info: UprobeProgramInfo {
            fn_name: Some("malloc".to_string()),
            offset: 0,
            target: "libc".to_string(),
            retprobe: false,
            pid: None,
            namespace: None,
        },
    });
    assert_eq!(check_probe_kind(&u, ProbeType::Uprobe), Ok(()));
}

#[test]
fn listing_filters_and_adds_kernel_programs() {
    let mut m = BpfManager::new();
    let mut p = tracepoint("sched/sched_switch", None);
    p.set_kernel_info(KernelInfo {
        id: 40,
        name: "prog".to_string(),
        loaded_at: String::new(),
        tag: String::new(),
        gpl_compatible: true,
        map_ids: vec![],
        btf_id: 0,
        bytes_xlated: 0,
        jited: true,
        bytes_jited: 0,
        bytes_memlock: 0,
        verified_insns: 0,
    });
    m.add_program(p, Some(1)).unwrap();
    m.add_program(xdp(2, 1), Some(2)).unwrap();
    let kernel = vec![KernelProgram { id: 40, kind: None }, KernelProgram { id: 41, kind: None }];
    let all = m.list_programs(&ListFilter { kind: None, metadata: vec![], bpfman_only: false }, &kernel);
    assert_eq!(all.len(), 3);
    assert!(matches!(all[2], ListedProgram::KernelOnly { kernel_id: 41 }));
    let only_xdp = m.list_programs(
        &ListFilter { kind: Some(bpfd::program::ProgramType::Xdp), metadata: vec![], bpfman_only: true },
        &kernel,
    );
    assert_eq!(only_xdp.len(), 1);
    assert!(matches!(only_xdp[0], ListedProgram::Registered { id: 2, .. }));
    let by_meta = m.list_programs(
        &ListFilter { kind: None, metadata: vec![("a".to_string(), "b".to_string())], bpfman_only: false },
        &kernel,
    );
    assert_eq!(by_meta.len(), 0);
}

#[test]
fn error_codes_are_stable() {
    assert_eq!(BpfdError::TooManyPrograms.code(), "too-many-programs");
    assert_eq!(BpfdError::KretprobeOffsetNotAllowed.code(), "kretprobe-offset-not-allowed");
    assert_eq!(BpfdError::InvalidInterface.code(), "invalid-interface");
}
