use bpfd::dispatcher::parse_dispatcher_file_name;
use bpfd::errors::BpfdError;
use bpfd::manager::{BpfManager, DispatcherRecord};
use bpfd::program::{
    Direction, DispatcherId, KernelInfo, Location, Program, ProgramData, TcProgram, TcProgramInfo,
    XdpProgram, XdpProgramInfo,
};
use bpfd::request::{parse_actions, parse_direction, parse_load_request, LoadRequest, LoadRequestCommon, RequestAttachInfo};

fn data() -> ProgramData {
    ProgramData {
        location: Location::File("/tmp/prog.o".to_string()),
        section_name: "prog".to_string(),
        global_data: vec![],
        metadata: vec![],
        map_owner_id: None,
        owner: "alice".to_string(),
        kernel_info: None,
    }
}

fn xdp_at(if_index: u32, priority: i32, position: Option<usize>) -> Program {
    Program::Xdp(XdpProgram {
        data: data(),
        info: XdpProgramInfo {
            if_index,
            if_name: "eth0".to_string(),
            priority,
            proceed_on: vec![2],
            current_position: position,
            attached: false,
        },
    })
}

fn info(id: u32) -> KernelInfo {
    KernelInfo {
        id,
        name: "prog".to_string(),
        loaded_at: String::new(),
        tag: String::new(),
        gpl_compatible: true,
        map_ids: vec![],
        btf_id: 0,
        bytes_xlated: 0,
        jited: true,
        bytes_jited: 0,
        bytes_memlock: 0,
        verified_insns: 0,
    }
}

#[test]
fn rebuild_marks_attached_and_places_programs() {
    let records = vec![(7u128, xdp_at(2, 30, None)), (8u128, xdp_at(2, 10, Some(5)))];
    let ds = vec![DispatcherRecord { id: DispatcherId::Xdp { if_index: 2 }, revision: 3, handle: None }];
    let m = BpfManager::rebuild_state(records, ds).unwrap();
    assert_eq!(m.get_program(8).unwrap().current_position(), Some(0));
    assert_eq!(m.get_program(7).unwrap().current_position(), Some(1));
    assert!(m.get_program(7).unwrap().attached());
    assert_eq!(m.dispatchers[0].revision, 3);
}

#[test]
fn rebuild_refuses_inconsistent_records() {
    let dup = vec![(7u128, xdp_at(2, 30, None)), (7u128, xdp_at(2, 10, None))];
    let ds = vec![DispatcherRecord { id: DispatcherId::Xdp { if_index: 2 }, revision: 1, handle: None }];
    assert_eq!(BpfManager::rebuild_state(dup, ds).err(), Some(BpfdError::InternalError));
    let no_dispatcher = vec![(7u128, xdp_at(2, 30, None))];
    assert_eq!(BpfManager::rebuild_state(no_dispatcher, vec![]).err(), Some(BpfdError::InternalError));
    let stray = vec![DispatcherRecord { id: DispatcherId::Xdp { if_index: 9 }, revision: 1, handle: None }];
    assert_eq!(BpfManager::rebuild_state(vec![], stray).err(), Some(BpfdError::InternalError));
}

#[test]
fn rebuild_of_saved_state_gives_it_back() {
    let mut m = BpfManager::new();
    m.add_program(xdp_at(2, 30, None), Some(1)).unwrap();
    m.add_program(xdp_at(2, 10, None), Some(2)).unwrap();
    let records: Vec<(u128, Program)> = m.programs.iter().map(|(id, p)| (*id, p.clone())).collect();
    let back = BpfManager::rebuild_state(records, m.dispatchers.clone()).unwrap();
    assert_eq!(back.get_program(1).unwrap().current_position(), m.get_program(1).unwrap().current_position());
    assert_eq!(back.get_program(2).unwrap().current_position(), Some(0));
    assert_eq!(back.dispatchers[0].revision, 2);
}

#[test]
fn dispatcher_file_names() {
    assert_eq!(parse_dispatcher_file_name("3_12"), Some((3, 12)));
    assert_eq!(parse_dispatcher_file_name("4294967295_0"), Some((4294967295, 0)));
    assert_eq!(parse_dispatcher_file_name("4294967296_0"), None);
    assert_eq!(parse_dispatcher_file_name("3_"), None);
    assert_eq!(parse_dispatcher_file_name("3_1_2"), None);
    assert_eq!(parse_dispatcher_file_name("x_1"), None);
    assert_eq!(parse_dispatcher_file_name("31"), None);
}

#[test]
fn random_ids_are_fresh() {
    let mut m = BpfManager::new();
    let a = m.add_program(xdp_at(2, 1, None), None).unwrap().id;
    let b = m.add_program(xdp_at(2, 2, None), None).unwrap().id;
    assert_ne!(a, b);
    assert!(m.get_program(a).is_some());
}

#[test]
fn kernel_info_and_handle_are_recorded() {
    let mut m = BpfManager::new();
    let p = Program::Tc(TcProgram {
        data: data(),
        info: TcProgramInfo {
            if_index: 2,
            if_name: "eth0".to_string(),
            priority: 1,
            proceed_on: vec![],
            current_position: None,
            attached: false,
            direction: Direction::Egress,
        },
    });
    m.add_program(p, Some(1)).unwrap();
    assert!(m.set_kernel_info(1, info(77)));
    assert!(!m.set_kernel_info(2, info(78)));
    assert_eq!(m.get_program(1).unwrap().data().kernel_info.as_ref().unwrap().id, 77);
    let d = DispatcherId::Tc { if_index: 2, direction: Direction::Egress };
    m.set_dispatcher_handle(d, 0x8001);
    assert_eq!(m.dispatchers[m.find_dispatcher(d).unwrap()].handle, Some(0x8001));
}

#[test]
fn malformed_requests_are_refused() {
    let empty = LoadRequest { common: None, attach_info: None };
    assert_eq!(parse_load_request(empty, String::new()).err().map(|e| e), Some(BpfdError::InvalidRequest));
    let tc = LoadRequest {
        common: Some(LoadRequestCommon {
            id: None,
            location: Some(Location::File("/tmp/prog.o".to_string())),
            section_name: "prog".to_string(),
            global_data: vec![],
            metadata: vec![],
            map_owner_id: Some("nope".to_string()),
        }),
        attach_info: Some(RequestAttachInfo::Tc {
            iface: "eth0".to_string(),
            priority: 1,
            direction: "ingress".to_string(),
            proceed_on: vec![],
        }),
    };
    assert_eq!(parse_load_request(tc, String::new()).err(), Some(BpfdError::InvalidId));
    assert_eq!(parse_direction(&"sideways".to_string()), Err(BpfdError::InvalidRequest));
    assert_eq!(parse_direction(&"egress".to_string()), Ok(Direction::Egress));
    assert_eq!(parse_actions(&vec![2, 31], false), Ok(vec![2, 31]));
    assert_eq!(parse_actions(&vec![-1, 30], true), Ok(vec![0, 31]));
    assert_eq!(parse_actions(&vec![5], false), Err(BpfdError::InvalidRequest));
}
