use std::collections::HashMap;

use ops_crdt_rust::crdt::{CrdtInstance, CrdtType};
use ops_crdt_rust::message_data::{
    NodeUpdateMsg, NodeVectorClockMsg, OpsInstance, PeerNodeMsg, SDPOpsType, UserUpdateMsg,
};
use ops_crdt_rust::message_list::{
    concurrent_msg_list, msg_key, remove_causally_stable, MsgList,
};
use ops_crdt_rust::vector_clock::{VectorClock, VectorClockError};

fn clock(entries: &[(u16, u32)]) -> VectorClock {
    let mut vc = VectorClock::new(entries.iter().map(|e| e.0).collect()).unwrap();
    for (node, lc) in entries {
        vc.vcmap.insert(*node, *lc);
    }
    vc
}

fn update(node: u16, entries: &[(u16, u32)], kind: SDPOpsType, value: i64) -> NodeUpdateMsg<i64> {
    NodeUpdateMsg::new(
        node,
        clock(entries),
        UserUpdateMsg::new(
            CrdtInstance::new_default(CrdtType::AddMultCrdt),
            OpsInstance::new(kind, value),
        ),
    )
}

fn buffer(msgs: Vec<NodeUpdateMsg<i64>>) -> MsgList<i64> {
    let mut b: MsgList<i64> = HashMap::new();
    for m in msgs {
        let lc = m.node_vector_clock.vcmap[&m.node];
        b.insert(msg_key(m.node, lc), m);
    }
    b
}

fn keys(b: &MsgList<i64>) -> Vec<u64> {
    let mut k: Vec<u64> = b.keys().copied().collect();
    k.sort();
    k
}

#[test]
fn key_holds_origin_above_counter() {
    assert_eq!(msg_key(0, 0), 0);
    assert_eq!(msg_key(0, 7), 7);
    assert_eq!(msg_key(1, 0), 1u64 << 32);
    assert_eq!(msg_key(3, 5), (3u64 << 32) + 5);
    assert_eq!(msg_key(u16::MAX, u32::MAX), ((u16::MAX as u64) << 32) + u32::MAX as u64);
    assert_ne!(msg_key(1, 2), msg_key(2, 1));
}

#[test]
fn check_selects_mult_with_matching_operand() {
    let mult = OpsInstance::new(SDPOpsType::SDPMult, 4i64);
    let add = OpsInstance::new(SDPOpsType::SDPAdd, 4i64);
    assert!(mult.check(&None));
    assert!(mult.check(&Some(4)));
    assert!(!mult.check(&Some(5)));
    assert!(!add.check(&None));
    assert!(!add.check(&Some(4)));
}

#[test]
fn constructors_keep_what_they_are_given() {
    let ops = OpsInstance::new(SDPOpsType::SDPAdd, 9i64);
    let instance = CrdtInstance::new(2, 3, CrdtType::PNCounterCrdt);
    let user = UserUpdateMsg::new(instance, ops);
    let msg = NodeUpdateMsg::new(1, clock(&[(0, 0), (1, 1)]), user);
    assert_eq!(msg.node, 1);
    assert_eq!(msg.node_vector_clock.vcmap[&1], 1);
    assert_eq!(msg.user_update_msg.ops_instance.ops_value, 9);
    assert_eq!(msg.user_update_msg.ops_instance.ops_type, SDPOpsType::SDPAdd);
    assert_eq!(msg.user_update_msg.crdt_instance, instance);
    assert_eq!(instance.instance_node_id, 2);
    assert_eq!(instance.instance_num, 3);
    assert_eq!(instance.instance_type, CrdtType::PNCounterCrdt);
    let default = CrdtInstance::new_default(CrdtType::AWSetCrdt);
    assert_eq!((default.instance_node_id, default.instance_num), (0, 0));
    let summary = NodeVectorClockMsg::new(4, clock(&[(4, 2)]));
    assert_eq!(summary.node, 4);
    assert_eq!(summary.node_vector_clock.vcmap[&4], 2);
}

#[test]
fn clone_keeps_a_message() {
    let msg = update(1, &[(0, 2), (1, 1)], SDPOpsType::SDPMult, 7);
    let copy = msg.clone();
    assert!(msg.same_as(&copy));
    let wrapped = PeerNodeMsg::UpdateNodeMsg(msg);
    match wrapped.clone() {
        PeerNodeMsg::UpdateNodeMsg(m) => assert!(m.same_as(&copy)),
        _ => panic!("an update became a clock summary"),
    }
}

#[test]
fn same_as_tells_payloads_apart() {
    let msg = update(1, &[(0, 2), (1, 1)], SDPOpsType::SDPMult, 7);
    assert!(msg.same_as(&update(1, &[(0, 2), (1, 1)], SDPOpsType::SDPMult, 7)));
    assert!(!msg.same_as(&update(0, &[(0, 2), (1, 1)], SDPOpsType::SDPMult, 7)));
    assert!(!msg.same_as(&update(1, &[(0, 3), (1, 1)], SDPOpsType::SDPMult, 7)));
    assert!(!msg.same_as(&update(1, &[(0, 2), (1, 1)], SDPOpsType::SDPAdd, 7)));
    assert!(!msg.same_as(&update(1, &[(0, 2), (1, 1)], SDPOpsType::SDPMult, 8)));
    assert!(!msg.same_as(&update(1, &[(1, 1)], SDPOpsType::SDPMult, 7)));
}

#[test]
fn sweep_keeps_what_the_frontier_does_not_dominate() {
    let b = buffer(vec![
        update(0, &[(0, 1), (1, 0)], SDPOpsType::SDPAdd, 1),
        update(0, &[(0, 2), (1, 0)], SDPOpsType::SDPAdd, 2),
        update(0, &[(0, 3), (1, 1)], SDPOpsType::SDPAdd, 3),
        update(1, &[(0, 0), (1, 1)], SDPOpsType::SDPAdd, 4),
        update(1, &[(0, 0), (1, 3)], SDPOpsType::SDPAdd, 5),
    ]);
    let kept = remove_causally_stable(&clock(&[(0, 2), (1, 1)]), &b).unwrap();
    // dominated: (0,1), (0,2), (1,1); ahead of the frontier: (0,3); concurrent: (1,3)
    assert_eq!(keys(&kept), vec![msg_key(0, 3), msg_key(1, 3)]);
    assert!(kept[&msg_key(0, 3)].same_as(&b[&msg_key(0, 3)]));
    assert!(kept[&msg_key(1, 3)].same_as(&b[&msg_key(1, 3)]));
    assert_eq!(b.len(), 5);
}

#[test]
fn sweep_with_zero_frontier_keeps_everything_but_zero_stamps() {
    let b = buffer(vec![
        update(0, &[(0, 1), (1, 0)], SDPOpsType::SDPAdd, 1),
        update(1, &[(0, 0), (1, 1)], SDPOpsType::SDPMult, 2),
    ]);
    let kept = remove_causally_stable(&clock(&[(0, 0), (1, 0)]), &b).unwrap();
    assert_eq!(keys(&kept), keys(&b));
}

#[test]
fn sweep_twice_is_the_same_as_once() {
    let b = buffer(vec![
        update(0, &[(0, 1), (1, 0)], SDPOpsType::SDPAdd, 1),
        update(0, &[(0, 2), (1, 5)], SDPOpsType::SDPAdd, 2),
        update(1, &[(0, 0), (1, 1)], SDPOpsType::SDPAdd, 4),
        update(1, &[(0, 4), (1, 2)], SDPOpsType::SDPAdd, 5),
    ]);
    let frontier = clock(&[(0, 1), (1, 1)]);
    let once = remove_causally_stable(&frontier, &b).unwrap();
    let twice = remove_causally_stable(&frontier, &once).unwrap();
    assert_eq!(keys(&once), vec![msg_key(0, 2), msg_key(1, 2)]);
    assert_eq!(keys(&twice), keys(&once));
    for k in keys(&once) {
        assert!(twice[&k].same_as(&once[&k]));
    }
}

#[test]
fn sweep_refuses_a_stamp_over_other_members() {
    let b = buffer(vec![
        update(0, &[(0, 1), (1, 0)], SDPOpsType::SDPAdd, 1),
        update(1, &[(0, 0), (1, 1), (2, 0)], SDPOpsType::SDPAdd, 4),
    ]);
    assert!(matches!(
        remove_causally_stable(&clock(&[(0, 0), (1, 0)]), &b),
        Err(VectorClockError::NonCompatibleVC)
    ));
}

#[test]
fn sweep_of_an_empty_buffer_is_empty() {
    let b: MsgList<i64> = HashMap::new();
    assert_eq!(remove_causally_stable(&clock(&[(0, 0)]), &b).unwrap().len(), 0);
}

#[test]
fn concurrent_list_holds_concurrent_updates_tagged_mult() {
    let b = buffer(vec![
        update(0, &[(0, 1), (1, 0), (2, 0)], SDPOpsType::SDPMult, 2),
        update(0, &[(0, 2), (1, 0), (2, 0)], SDPOpsType::SDPAdd, 3),
        update(1, &[(0, 0), (1, 1), (2, 0)], SDPOpsType::SDPMult, 5),
        update(2, &[(0, 0), (1, 0), (2, 1)], SDPOpsType::SDPMult, 7),
    ]);
    // the query is after (2,1), equal to nothing, concurrent with the rest
    let query = clock(&[(0, 0), (1, 0), (2, 2)]);
    let mut any: Vec<i64> = concurrent_msg_list(&query, &b, None)
        .unwrap()
        .iter()
        .map(|m| m.user_update_msg.ops_instance.ops_value)
        .collect();
    any.sort();
    assert_eq!(any, vec![2, 5]);
    let five: Vec<i64> = concurrent_msg_list(&query, &b, Some(5))
        .unwrap()
        .iter()
        .map(|m| m.user_update_msg.ops_instance.ops_value)
        .collect();
    assert_eq!(five, vec![5]);
    assert_eq!(concurrent_msg_list(&query, &b, Some(9)).unwrap().len(), 0);
}

#[test]
fn concurrent_list_leaves_out_equal_and_ordered_stamps() {
    let b = buffer(vec![
        update(0, &[(0, 1), (1, 1)], SDPOpsType::SDPMult, 2),
        update(1, &[(0, 0), (1, 1)], SDPOpsType::SDPMult, 3),
        update(1, &[(0, 3), (1, 2)], SDPOpsType::SDPMult, 4),
    ]);
    let query = clock(&[(0, 1), (1, 1)]);
    assert_eq!(concurrent_msg_list(&query, &b, None).unwrap().len(), 0);
}

#[test]
fn concurrent_list_refuses_a_stamp_over_other_members() {
    let b = buffer(vec![update(0, &[(0, 1)], SDPOpsType::SDPAdd, 2)]);
    assert!(matches!(
        concurrent_msg_list(&clock(&[(0, 0), (1, 1)]), &b, None),
        Err(VectorClockError::NonCompatibleVC)
    ));
}
