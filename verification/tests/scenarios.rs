use bpfd::errors::BpfdError;
use bpfd::manager::{AttachSpec, BpfManager, LoadOutcome, LoadRequest, UnloadOutcome};
use bpfd::proceed_on::ProceedOn;
use bpfd::store::Store;
use bpfd::types::{Hook, ProgramKind, XdpMode};

fn manager() -> BpfManager {
    BpfManager::new(Store::ephemeral().expect("temporary store"))
}

fn xdp_request(if_index: u32, priority: u32, codes: Vec<u32>) -> LoadRequest {
    LoadRequest {
        kind: ProgramKind::Xdp,
        location: b"/var/lib/progs/filter.o".to_vec(),
        section_name: b"xdp_filter".to_vec(),
        global_data: Vec::new(),
        username: b"alice".to_vec(),
        mode: XdpMode::Skb,
        attach: AttachSpec::NetworkMultiAttach {
            if_index: Some(if_index),
            if_name: b"eth0".to_vec(),
            priority,
            proceed_on: ProceedOn::from_codes(codes).unwrap(),
            direction: None,
            position: None,
        },
    }
}

fn load(mgr: &mut BpfManager, req: LoadRequest) -> Result<u128, BpfdError> {
    let plan = mgr.begin_load(req)?;
    mgr.finish_load(
        plan,
        LoadOutcome::Loaded { kernel_id: 7, dispatcher_program_name: b"xdp_dispatcher".to_vec() },
    )
}

fn unload(mgr: &mut BpfManager, uuid: u128, caller: &[u8], admin: bool) -> Result<(), BpfdError> {
    let plan = mgr.begin_unload(uuid, &caller.to_vec(), admin)?;
    mgr.finish_unload(plan, UnloadOutcome::Completed)
}

fn position_of(mgr: &BpfManager, uuid: u128) -> Option<usize> {
    mgr.current_position(uuid)
}

#[test]
fn first_load_takes_position_zero_at_revision_one() {
    let mut mgr = manager();
    let a = load(&mut mgr, xdp_request(3, 50, vec![])).expect("load A");
    let list = mgr.list_programs();
    assert_eq!(list.len(), 1);
    assert_eq!(list[0].uuid, a);
    assert_eq!(list[0].position, Some(0));
    assert!(list[0].attached);
    assert_eq!(mgr.dispatcher_revision(Hook::Xdp, 3), Some(1));
}

#[test]
fn lower_priority_preempts_position_zero() {
    let mut mgr = manager();
    let a = load(&mut mgr, xdp_request(3, 50, vec![])).expect("load A");
    assert!(mgr.has_stable_link(Hook::Xdp, 3));
    let b = load(&mut mgr, xdp_request(3, 10, vec![])).expect("load B");
    assert_eq!(position_of(&mgr, b), Some(0));
    assert_eq!(position_of(&mgr, a), Some(1));
    assert_eq!(mgr.dispatcher_revision(Hook::Xdp, 3), Some(2));
    // The stable hook link stays in place across the swap.
    assert!(mgr.has_stable_link(Hook::Xdp, 3));
}

#[test]
fn middle_priority_lands_between() {
    let mut mgr = manager();
    let a = load(&mut mgr, xdp_request(3, 50, vec![])).expect("load A");
    let b = load(&mut mgr, xdp_request(3, 10, vec![])).expect("load B");
    let c = load(&mut mgr, xdp_request(3, 30, vec![])).expect("load C");
    assert_eq!(position_of(&mgr, b), Some(0));
    assert_eq!(position_of(&mgr, c), Some(1));
    assert_eq!(position_of(&mgr, a), Some(2));
    assert_eq!(mgr.dispatcher_revision(Hook::Xdp, 3), Some(3));
}

#[test]
fn unload_compacts_positions_and_drops_old_revision_dir() {
    let mut mgr = manager();
    let a = load(&mut mgr, xdp_request(3, 50, vec![])).expect("load A");
    let b = load(&mut mgr, xdp_request(3, 10, vec![])).expect("load B");
    let c = load(&mut mgr, xdp_request(3, 30, vec![])).expect("load C");
    unload(&mut mgr, b, b"alice", false).expect("unload B");
    assert_eq!(position_of(&mgr, c), Some(0));
    assert_eq!(position_of(&mgr, a), Some(1));
    assert_eq!(position_of(&mgr, b), None);
    assert_eq!(mgr.dispatcher_revision(Hook::Xdp, 3), Some(4));
    assert!(!mgr.has_revision_dir(Hook::Xdp, 3, 3));
    assert!(mgr.has_revision_dir(Hook::Xdp, 3, 4));
}

#[test]
fn eleventh_program_is_rejected_without_state_change() {
    let mut mgr = manager();
    for p in 0..10u32 {
        load(&mut mgr, xdp_request(3, 100 + p, vec![])).expect("fill chain");
    }
    assert_eq!(mgr.dispatcher_revision(Hook::Xdp, 3), Some(10));
    let before = mgr.list_programs();
    let err = load(&mut mgr, xdp_request(3, 5, vec![])).unwrap_err();
    assert_eq!(err, BpfdError::TooManyPrograms);
    let after = mgr.list_programs();
    assert_eq!(mgr.dispatcher_revision(Hook::Xdp, 3), Some(10));
    assert_eq!(before.len(), after.len());
    for (x, y) in before.iter().zip(after.iter()) {
        assert_eq!(x.uuid, y.uuid);
        assert_eq!(x.position, y.position);
    }
}

#[test]
fn failed_kernel_load_leaves_state_unchanged() {
    let mut mgr = manager();
    let a = load(&mut mgr, xdp_request(3, 50, vec![])).expect("load A");
    let plan = mgr.begin_load(xdp_request(3, 10, vec![])).expect("plan B");
    let err = mgr.finish_load(plan, LoadOutcome::LoadFailed).unwrap_err();
    assert_eq!(err, BpfdError::LoadFailed);
    assert_eq!(mgr.list_programs().len(), 1);
    assert_eq!(position_of(&mgr, a), Some(0));
    assert_eq!(mgr.dispatcher_revision(Hook::Xdp, 3), Some(1));
    let plan = mgr.begin_load(xdp_request(3, 10, vec![])).expect("plan B again");
    let err = mgr.finish_load(plan, LoadOutcome::AttachFailed).unwrap_err();
    assert_eq!(err, BpfdError::AttachFailed);
    assert_eq!(mgr.dispatcher_revision(Hook::Xdp, 3), Some(1));
}

#[test]
fn unresolved_interface_is_rejected() {
    let mgr = manager();
    let mut req = xdp_request(3, 50, vec![]);
    req.attach = AttachSpec::NetworkMultiAttach {
        if_index: None,
        if_name: b"missing0".to_vec(),
        priority: 50,
        proceed_on: ProceedOn::from_codes(vec![]).unwrap(),
        direction: None,
        position: None,
    };
    assert_eq!(mgr.begin_load(req).err(), Some(BpfdError::InvalidInterface));
}

#[test]
fn tracepoint_with_network_attach_is_rejected() {
    let mgr = manager();
    let mut req = xdp_request(3, 50, vec![]);
    req.kind = ProgramKind::Tracepoint;
    assert_eq!(mgr.begin_load(req).err(), Some(BpfdError::InvalidProgramType));
}

#[test]
fn tc_load_with_proceed_on_warns_and_is_positioned() {
    let mut mgr = manager();
    let req = LoadRequest {
        kind: ProgramKind::Tc,
        location: b"/var/lib/progs/tc.o".to_vec(),
        section_name: b"tc_filter".to_vec(),
        global_data: Vec::new(),
        username: b"alice".to_vec(),
        mode: XdpMode::Skb,
        attach: AttachSpec::NetworkMultiAttach {
            if_index: Some(4),
            if_name: b"eth1".to_vec(),
            priority: 20,
            proceed_on: ProceedOn::from_codes(vec![3, 30]).unwrap(),
            direction: Some(bpfd::types::Direction::Ingress),
            position: None,
        },
    };
    let plan = mgr.begin_load(req).expect("plan TC");
    // The in-kernel TC dispatcher does not honour an explicit proceed-on
    // list in this version: the caller is warned.
    assert!(plan.proceed_on_warning);
    let uuid = mgr
        .finish_load(
            plan,
            LoadOutcome::Loaded { kernel_id: 9, dispatcher_program_name: b"tc_dispatcher".to_vec() },
        )
        .expect("commit TC");
    assert_eq!(position_of(&mgr, uuid), Some(0));
    assert_eq!(mgr.dispatcher_revision(Hook::TcIngress, 4), Some(1));
}

#[test]
fn empty_tc_proceed_on_takes_default_without_warning() {
    let mgr = manager();
    let req = LoadRequest {
        kind: ProgramKind::Tc,
        location: b"/var/lib/progs/tc.o".to_vec(),
        section_name: b"tc_filter".to_vec(),
        global_data: Vec::new(),
        username: b"alice".to_vec(),
        mode: XdpMode::Skb,
        attach: AttachSpec::NetworkMultiAttach {
            if_index: Some(4),
            if_name: b"eth1".to_vec(),
            priority: 20,
            proceed_on: ProceedOn::from_codes(vec![]).unwrap(),
            direction: Some(bpfd::types::Direction::Egress),
            position: None,
        },
    };
    let plan = mgr.begin_load(req).expect("plan TC");
    assert!(!plan.proceed_on_warning);
    assert_eq!(plan.proceed_on.codes, vec![3, 30]);
}

#[test]
fn unload_requires_ownership_or_admin() {
    let mut mgr = manager();
    let a = load(&mut mgr, xdp_request(3, 50, vec![])).expect("load A");
    assert_eq!(unload(&mut mgr, a, b"mallory", false).unwrap_err(), BpfdError::Unauthorized);
    assert_eq!(mgr.list_programs().len(), 1);
    unload(&mut mgr, a, b"mallory", true).expect("admin unload");
    assert_eq!(mgr.list_programs().len(), 0);
}

#[test]
fn unload_of_unknown_uuid_fails() {
    let mut mgr = manager();
    assert_eq!(unload(&mut mgr, 999, b"alice", true).unwrap_err(), BpfdError::NotLoaded);
}

#[test]
fn unload_of_last_program_tears_dispatcher_down() {
    let mut mgr = manager();
    let a = load(&mut mgr, xdp_request(3, 50, vec![])).expect("load A");
    assert!(mgr.has_stable_link(Hook::Xdp, 3));
    unload(&mut mgr, a, b"alice", false).expect("unload A");
    assert_eq!(mgr.dispatcher_revision(Hook::Xdp, 3), None);
    assert!(!mgr.has_stable_link(Hook::Xdp, 3));
    assert_eq!(mgr.list_programs().len(), 0);
}

#[test]
fn uuids_are_never_reused() {
    let mut mgr = manager();
    let a = load(&mut mgr, xdp_request(3, 50, vec![])).expect("load A");
    unload(&mut mgr, a, b"alice", false).expect("unload A");
    let b = load(&mut mgr, xdp_request(3, 50, vec![])).expect("load B");
    assert!(b > a);
}

#[test]
fn dispatcher_record_survives_in_the_store() {
    let mut mgr = manager();
    load(&mut mgr, xdp_request(3, 50, vec![])).expect("load A");
    load(&mut mgr, xdp_request(3, 10, vec![])).expect("load B");
    // Read the persisted dispatcher record back through sled.
    assert_eq!(mgr.stored_revision(Hook::Xdp, 3).expect("revision"), 2);
    assert_eq!(mgr.stored_num_extensions(Hook::Xdp, 3).expect("slots"), 2);
    assert_eq!(mgr.stored_if_name(Hook::Xdp, 3).expect("if_name"), b"eth0".to_vec());
    assert_eq!(
        mgr.stored_program_name(Hook::Xdp, 3).expect("symbol"),
        b"xdp_dispatcher".to_vec()
    );
}

#[test]
fn retired_revision_record_is_dropped_from_the_store() {
    let mut mgr = manager();
    let a = load(&mut mgr, xdp_request(3, 50, vec![])).expect("load A");
    load(&mut mgr, xdp_request(3, 10, vec![])).expect("load B");
    assert_eq!(mgr.stored_revision(Hook::Xdp, 3).expect("revision"), 2);
    unload(&mut mgr, a, b"alice", false).expect("unload A");
    assert_eq!(mgr.stored_revision(Hook::Xdp, 3).expect("revision"), 3);
    assert_eq!(mgr.stored_num_extensions(Hook::Xdp, 3).expect("slots"), 1);
}

#[test]
fn tracepoint_load_and_unload() {
    let mut mgr = manager();
    let req = LoadRequest {
        kind: ProgramKind::Tracepoint,
        location: b"/var/lib/progs/tp.o".to_vec(),
        section_name: b"tp_enter".to_vec(),
        global_data: Vec::new(),
        username: b"alice".to_vec(),
        mode: XdpMode::Skb,
        attach: AttachSpec::SingleAttach {
            category: b"syscalls".to_vec(),
            name: b"sys_enter_openat".to_vec(),
        },
    };
    let plan = mgr.begin_load(req).expect("plan");
    let uuid = mgr
        .finish_load(
            plan,
            LoadOutcome::Loaded { kernel_id: 11, dispatcher_program_name: Vec::new() },
        )
        .expect("commit");
    let list = mgr.list_programs();
    assert_eq!(list.len(), 1);
    assert_eq!(list[0].uuid, uuid);
    assert_eq!(list[0].position, None);
    assert!(!list[0].attached);
    unload(&mut mgr, uuid, b"alice", false).expect("unload");
    assert_eq!(mgr.list_programs().len(), 0);
}

#[test]
fn chains_on_different_interfaces_are_independent() {
    let mut mgr = manager();
    let a = load(&mut mgr, xdp_request(3, 50, vec![])).expect("load on 3");
    let b = load(&mut mgr, xdp_request(9, 10, vec![])).expect("load on 9");
    assert_eq!(position_of(&mgr, a), Some(0));
    assert_eq!(position_of(&mgr, b), Some(0));
    assert_eq!(mgr.dispatcher_revision(Hook::Xdp, 3), Some(1));
    assert_eq!(mgr.dispatcher_revision(Hook::Xdp, 9), Some(1));
}

#[test]
fn failed_pull_or_pin_leaves_state_unchanged() {
    let mut mgr = manager();
    load(&mut mgr, xdp_request(3, 50, vec![])).expect("load A");
    let plan = mgr.begin_load(xdp_request(3, 10, vec![])).expect("plan B");
    let err = mgr.finish_load(plan, LoadOutcome::BytecodeUnavailable).unwrap_err();
    assert_eq!(err, BpfdError::BytecodeUnavailable);
    let plan = mgr.begin_load(xdp_request(3, 10, vec![])).expect("plan B again");
    let err = mgr.finish_load(plan, LoadOutcome::PinFailed).unwrap_err();
    assert_eq!(err, BpfdError::PinError);
    assert_eq!(mgr.list_programs().len(), 1);
    assert_eq!(mgr.dispatcher_revision(Hook::Xdp, 3), Some(1));
}

#[test]
fn failed_unload_rebuild_leaves_state_unchanged() {
    let mut mgr = manager();
    let a = load(&mut mgr, xdp_request(3, 50, vec![])).expect("load A");
    let b = load(&mut mgr, xdp_request(3, 10, vec![])).expect("load B");
    let plan = mgr.begin_unload(b, &b"alice".to_vec(), false).expect("plan unload");
    let err = mgr.finish_unload(plan, UnloadOutcome::AttachFailed).unwrap_err();
    assert_eq!(err, BpfdError::AttachFailed);
    assert_eq!(position_of(&mgr, b), Some(0));
    assert_eq!(position_of(&mgr, a), Some(1));
    assert_eq!(mgr.dispatcher_revision(Hook::Xdp, 3), Some(2));
}

#[test]
fn restart_rebuilds_the_same_programs_from_the_store() {
    // A fixed directory stands in for the daemon's runtime store; clear
    // out whatever an earlier run left behind first.
    let path = "/tmp/bpfd_restart_scenario_store";
    {
        let store = Store::open(path).expect("open store");
        let mut mgr = bpfd::registry::rebuild_state(store);
        for s in mgr.list_programs() {
            unload(&mut mgr, s.uuid, b"any", true).expect("clear leftover");
        }
        let a = load(&mut mgr, xdp_request(3, 50, vec![])).expect("load A");
        let b = load(&mut mgr, xdp_request(3, 10, vec![])).expect("load B");
        assert_eq!(mgr.current_position(b), Some(0));
        assert_eq!(mgr.current_position(a), Some(1));
        // The manager drops here, releasing the store.
    }
    let store = Store::open(path).expect("reopen store");
    let mut mgr = bpfd::registry::rebuild_state(store);
    let list = mgr.list_programs();
    assert_eq!(list.len(), 2);
    // Same identities, same owners, same chain order as before shutdown.
    assert!(list.iter().all(|s| s.owner == b"alice".to_vec()));
    let pos0 = list.iter().find(|s| s.position == Some(0)).expect("slot 0");
    let pos1 = list.iter().find(|s| s.position == Some(1)).expect("slot 1");
    assert_eq!(pos0.priority, Some(10));
    assert_eq!(pos1.priority, Some(50));
    assert!(pos0.uuid > pos1.uuid);
    // A fresh load after restart takes a fresh identity.
    let c = load(&mut mgr, xdp_request(3, 5, vec![])).expect("load C");
    assert!(c > pos0.uuid && c > pos1.uuid);
    for s in mgr.list_programs() {
        unload(&mut mgr, s.uuid, b"any", true).expect("cleanup");
    }
}
