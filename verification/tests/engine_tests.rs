use ops_crdt_rust::add_mult_crdt::AddMult;
use ops_crdt_rust::constants::Config;
use ops_crdt_rust::crdt::{CrdtInstance, CrdtType, CRDT};
use ops_crdt_rust::message_data::{
    NodeUpdateMsg, NodeVectorClockMsg, OpsInstance, PeerNodeMsg, SDPOpsType, UserUpdateMsg,
};
use ops_crdt_rust::message_list::msg_key;
use ops_crdt_rust::vector_clock::{VCStatus, VectorClock, VectorClockError};

type Counter = CRDT<i64, i64, AddMult>;

fn counter(node: u16, max_vc: u16, max_cs: u16) -> Counter {
    CRDT::new(node, 0, &Config::new(vec![0, 1, 2], max_vc, max_cs)).unwrap()
}

fn clock(entries: &[(u16, u32)]) -> VectorClock {
    let mut vc = VectorClock::new(entries.iter().map(|e| e.0).collect()).unwrap();
    for (node, lc) in entries {
        vc.vcmap.insert(*node, *lc);
    }
    vc
}

fn entries(vc: &VectorClock) -> Vec<(u16, u32)> {
    let mut v: Vec<(u16, u32)> = vc.vcmap.iter().map(|(k, v)| (*k, *v)).collect();
    v.sort();
    v
}

fn user(kind: SDPOpsType, value: i64) -> UserUpdateMsg<i64> {
    UserUpdateMsg::new(
        CrdtInstance::new_default(CrdtType::AddMultCrdt),
        OpsInstance::new(kind, value),
    )
}

fn update(node: u16, stamp: &[(u16, u32)], kind: SDPOpsType, value: i64) -> NodeUpdateMsg<i64> {
    NodeUpdateMsg::new(node, clock(stamp), user(kind, value))
}

fn buffered_keys(c: &Counter) -> Vec<u64> {
    let mut k: Vec<u64> = c.msg_list.keys().copied().collect();
    k.sort();
    k
}

#[test]
fn config_members_is_a_copy_of_the_list() {
    let config = Config::new(vec![3, 1, 2], 4, 5);
    assert_eq!(config.members(), vec![3, 1, 2]);
    assert_eq!(config.max_msg_count_vc, 4);
    assert_eq!(config.max_msg_count_cs, 5);
}

#[test]
fn fresh_instance_is_empty() {
    let c = counter(1, 3, 4);
    assert_eq!(c.get_node(), 1);
    assert_eq!(*c.query(), 0);
    assert_eq!(c.msg_list_len(), 0);
    assert_eq!((c.max_msg_count_vc, c.max_msg_count_cs), (3, 4));
    assert_eq!((c.msg_count_vc, c.msg_count_cs), (0, 0));
    assert_eq!(entries(&c.trcb.node_vector_clock), vec![(0, 0), (1, 0), (2, 0)]);
    assert_eq!(c.trcb.node_trcb.len(), 2);
}

#[test]
fn instance_refuses_a_node_outside_the_cluster() {
    let r: Result<Counter, VectorClockError> = CRDT::new(7, 0, &Config::new(vec![0, 1], 1, 1));
    assert!(matches!(r, Err(VectorClockError::InconsistentInputTRBC(7, _))));
}

#[test]
fn local_message_carries_the_advanced_clock() {
    let mut c = counter(1, 10, 10);
    let first = c.create_local_msg(user(SDPOpsType::SDPAdd, 5)).unwrap();
    let second = c.create_local_msg(user(SDPOpsType::SDPMult, 2)).unwrap();
    assert_eq!(first.node, 1);
    assert_eq!(entries(&first.node_vector_clock), vec![(0, 0), (1, 1), (2, 0)]);
    assert_eq!(entries(&second.node_vector_clock), vec![(0, 0), (1, 2), (2, 0)]);
    assert_eq!(second.user_update_msg.ops_instance.ops_value, 2);
    assert_eq!(entries(&c.next_vc().unwrap()), vec![(0, 0), (1, 3), (2, 0)]);
}

#[test]
fn add_msg_files_under_origin_and_counter() {
    let mut c = counter(0, 10, 10);
    c.add_msg(update(2, &[(0, 0), (1, 0), (2, 4)], SDPOpsType::SDPAdd, 1)).unwrap();
    assert_eq!(buffered_keys(&c), vec![msg_key(2, 4)]);
    assert_eq!(c.msg_list_len(), 1);
}

#[test]
fn add_msg_refuses_a_stamp_without_the_origin() {
    let mut c = counter(0, 10, 10);
    assert!(matches!(
        c.add_msg(update(2, &[(0, 0), (1, 0)], SDPOpsType::SDPAdd, 1)),
        Err(VectorClockError::NodeNotFound)
    ));
    assert_eq!(c.msg_list_len(), 0);
}

#[test]
fn add_msg_refuses_a_different_update_under_the_same_key() {
    let mut c = counter(0, 10, 10);
    c.add_msg(update(2, &[(0, 0), (1, 0), (2, 4)], SDPOpsType::SDPAdd, 1)).unwrap();
    assert!(matches!(
        c.add_msg(update(2, &[(0, 0), (1, 0), (2, 4)], SDPOpsType::SDPAdd, 9)),
        Err(VectorClockError::UnexpectedError(_))
    ));
    assert_eq!(c.msg_list[&msg_key(2, 4)].user_update_msg.ops_instance.ops_value, 1);
    // the same update again is no collision
    c.add_msg(update(2, &[(0, 0), (1, 0), (2, 4)], SDPOpsType::SDPAdd, 1)).unwrap();
    assert_eq!(c.msg_list_len(), 1);
}

#[test]
fn peer_update_in_order_is_buffered_and_counted() {
    let mut c = counter(0, 10, 10);
    let st = c
        .general_process_peer_msg(update(1, &[(0, 0), (1, 1), (2, 0)], SDPOpsType::SDPAdd, 3))
        .unwrap();
    assert_eq!(st, VCStatus::INORDER);
    assert_eq!(buffered_keys(&c), vec![msg_key(1, 1)]);
    assert_eq!((c.msg_count_vc, c.msg_count_cs), (1, 1));
    assert_eq!(entries(&c.trcb.node_vector_clock), vec![(0, 0), (1, 1), (2, 0)]);
    assert_eq!(entries(&c.trcb.node_trcb[&1]), vec![(0, 0), (1, 1), (2, 0)]);
    assert_eq!(*c.query(), 0);
}

#[test]
fn peer_update_duplicate_or_ahead_only_counts_towards_the_summary() {
    let mut c = counter(0, 10, 10);
    c.general_process_peer_msg(update(1, &[(0, 0), (1, 1), (2, 0)], SDPOpsType::SDPAdd, 3))
        .unwrap();
    let dup = c
        .general_process_peer_msg(update(1, &[(0, 0), (1, 1), (2, 0)], SDPOpsType::SDPAdd, 3))
        .unwrap();
    let ahead = c
        .general_process_peer_msg(update(1, &[(0, 0), (1, 3), (2, 0)], SDPOpsType::SDPAdd, 3))
        .unwrap();
    assert_eq!(dup, VCStatus::DUPLICATE);
    assert_eq!(ahead, VCStatus::OUTOFORDER);
    assert_eq!(buffered_keys(&c), vec![msg_key(1, 1)]);
    assert_eq!((c.msg_count_vc, c.msg_count_cs), (3, 1));
    assert_eq!(entries(&c.trcb.node_vector_clock), vec![(0, 0), (1, 1), (2, 0)]);
}

#[test]
fn peer_update_of_unknown_origin_is_refused() {
    let mut c = counter(0, 10, 10);
    assert!(matches!(
        c.general_process_peer_msg(update(9, &[(0, 0), (1, 0), (2, 0), (9, 1)], SDPOpsType::SDPAdd, 3)),
        Err(VectorClockError::NodeNotFound)
    ));
    assert!(matches!(
        c.general_process_peer_msg(update(1, &[(0, 0), (2, 0)], SDPOpsType::SDPAdd, 3)),
        Err(VectorClockError::NodeNotFound)
    ));
}

#[test]
fn clock_summary_raises_belief_and_counts_towards_the_sweep() {
    let mut c = counter(0, 10, 10);
    c.general_process_vc_msg(NodeVectorClockMsg::new(1, clock(&[(0, 0), (1, 4), (2, 1)])))
        .unwrap();
    assert_eq!(entries(&c.trcb.node_trcb[&1]), vec![(0, 0), (1, 4), (2, 1)]);
    assert_eq!(c.msg_count_cs, 1);
    assert_eq!(c.msg_count_vc, 0);
    assert!(matches!(
        c.general_process_vc_msg(NodeVectorClockMsg::new(0, clock(&[(0, 0), (1, 4), (2, 1)]))),
        Err(VectorClockError::NodeNotFound)
    ));
    assert!(matches!(
        c.general_process_vc_msg(NodeVectorClockMsg::new(1, clock(&[(0, 0), (1, 4)]))),
        Err(VectorClockError::NonCompatibleVC)
    ));
}

#[test]
fn sweep_runs_only_when_due_and_resets_its_counter() {
    let mut c = counter(0, 10, 2);
    c.add_msg(update(0, &[(0, 0), (1, 0), (2, 0)], SDPOpsType::SDPAdd, 1)).unwrap();
    c.msg_count_cs = 1;
    c.causally_stable().unwrap();
    assert_eq!(c.msg_list_len(), 1);
    assert_eq!(c.msg_count_cs, 1);
    c.msg_count_cs = 2;
    c.causally_stable().unwrap();
    // the zero stamp equals the zero frontier: dominated
    assert_eq!(c.msg_list_len(), 0);
    assert_eq!(c.msg_count_cs, 0);
}

#[test]
fn sweep_threshold_zero_is_always_due() {
    let mut c = counter(0, 10, 0);
    c.add_msg(update(0, &[(0, 0), (1, 0), (2, 0)], SDPOpsType::SDPAdd, 1)).unwrap();
    c.causally_stable().unwrap();
    assert_eq!(c.msg_list_len(), 0);
}

#[test]
fn update_leaves_the_buffer_once_every_peer_has_it() {
    let mut c = counter(0, 10, 0);
    let msg = c.create_local_msg(user(SDPOpsType::SDPAdd, 5)).unwrap();
    c.process_local_msg(msg).unwrap();
    assert_eq!(buffered_keys(&c), vec![msg_key(0, 1)]);
    c.general_process_vc_msg(NodeVectorClockMsg::new(1, clock(&[(0, 1), (1, 0), (2, 0)])))
        .unwrap();
    assert_eq!(buffered_keys(&c), vec![msg_key(0, 1)]);
    c.general_process_vc_msg(NodeVectorClockMsg::new(2, clock(&[(0, 1), (1, 0), (2, 0)])))
        .unwrap();
    assert_eq!(c.msg_list_len(), 0);
}

#[test]
fn nothing_goes_out_unless_forced_or_due() {
    let mut c = counter(0, 3, 10);
    c.msg_count_vc = 2;
    assert_eq!(c.create_peer_msg_list(false).unwrap().len(), 0);
    c.msg_count_vc = 3;
    let out = c.create_peer_msg_list(false).unwrap();
    assert_eq!(out.len(), 2);
    for peer in [1u16, 2] {
        assert_eq!(out[&peer].len(), 1);
        match &out[&peer][0] {
            PeerNodeMsg::VectorClockNodeMsg(m) => {
                assert_eq!(m.node, 0);
                assert_eq!(entries(&m.node_vector_clock), vec![(0, 0), (1, 0), (2, 0)]);
            }
            _ => panic!("a heartbeat carried an update"),
        }
    }
}

#[test]
fn summary_threshold_zero_is_always_due() {
    let c = counter(0, 0, 10);
    assert_eq!(c.create_peer_msg_list(false).unwrap().len(), 2);
}

#[test]
fn full_push_sends_summary_first_then_what_each_peer_lacks_ascending() {
    let mut c = counter(0, 10, 10);
    for value in [5, 6, 7] {
        let msg = c.create_local_msg(user(SDPOpsType::SDPAdd, value)).unwrap();
        c.add_msg(msg).unwrap();
    }
    c.general_process_peer_msg(update(1, &[(0, 0), (1, 1), (2, 0)], SDPOpsType::SDPMult, 2))
        .unwrap();
    // peer 2 is believed to have the first update of node 0
    c.trcb.add_peer_vcmsg(2, clock(&[(0, 1), (1, 0), (2, 0)])).unwrap();
    let out = c.create_peer_msg_list(true).unwrap();
    assert_eq!(out.len(), 2);

    let describe = |list: &Vec<PeerNodeMsg<i64>>| -> Vec<(u16, u32)> {
        list.iter()
            .map(|m| match m {
                PeerNodeMsg::VectorClockNodeMsg(v) => (v.node, 0),
                PeerNodeMsg::UpdateNodeMsg(u) => (u.node, u.node_vector_clock.vcmap[&u.node]),
            })
            .collect()
    };
    // to peer 1: the summary, then node 0's updates 1..3; nothing of peer 1 itself
    let to_one = &out[&1];
    assert!(matches!(to_one[0], PeerNodeMsg::VectorClockNodeMsg(_)));
    assert_eq!(describe(to_one)[1..].to_vec(), vec![(0, 1), (0, 2), (0, 3)]);
    // to peer 2: the summary, then node 0's updates 2..3 and node 1's update 1
    let to_two = &out[&2];
    assert!(matches!(to_two[0], PeerNodeMsg::VectorClockNodeMsg(_)));
    let rest = describe(to_two)[1..].to_vec();
    let of_zero: Vec<(u16, u32)> = rest.iter().copied().filter(|e| e.0 == 0).collect();
    let of_one: Vec<(u16, u32)> = rest.iter().copied().filter(|e| e.0 == 1).collect();
    assert_eq!(of_zero, vec![(0, 2), (0, 3)]);
    assert_eq!(of_one, vec![(1, 1)]);
    assert_eq!(rest.len(), 3);
}

#[test]
fn full_push_is_refused_where_an_update_has_left_the_buffer() {
    let mut c = counter(0, 10, 10);
    let msg = c.create_local_msg(user(SDPOpsType::SDPAdd, 5)).unwrap();
    c.add_msg(msg).unwrap();
    c.msg_list.clear();
    assert!(matches!(c.create_peer_msg_list(true), Err(VectorClockError::UnexpectedError(_))));
    // a heartbeat looks at no update
    assert_eq!(c.create_peer_msg_list(false).unwrap().len(), 0);
}

#[test]
fn local_update_resets_the_summary_counter_and_pushes_in_full() {
    let mut c = counter(0, 10, 10);
    c.msg_count_vc = 7;
    let msg = c.create_local_msg(user(SDPOpsType::SDPAdd, 5)).unwrap();
    let out = c.general_process_local_msg(msg).unwrap();
    assert_eq!(c.msg_count_vc, 0);
    assert_eq!(c.msg_count_cs, 1);
    assert_eq!(buffered_keys(&c), vec![msg_key(0, 1)]);
    assert_eq!(out.len(), 2);
    assert_eq!(out[&1].len(), 2);
    assert_eq!(out[&2].len(), 2);
    // the engine alone does not touch the value
    assert_eq!(*c.query(), 0);
}

#[test]
fn replay_brings_a_peer_up_to_the_sender() {
    let mut sender = counter(0, 10, 10);
    let mut out = None;
    for value in [1, 2, 3, 4] {
        let msg = sender.create_local_msg(user(SDPOpsType::SDPAdd, value)).unwrap();
        out = Some(sender.process_local_msg(msg).unwrap());
    }
    let mut peer = counter(1, 10, 10);
    peer.process_peer_msg(out.unwrap().remove(&1).unwrap()).unwrap();
    assert_eq!(entries(&peer.trcb.node_vector_clock), vec![(0, 4), (1, 0), (2, 0)]);
    assert_eq!(*peer.query(), 10);
    assert_eq!(
        buffered_keys(&peer),
        vec![msg_key(0, 1), msg_key(0, 2), msg_key(0, 3), msg_key(0, 4)]
    );
}

#[test]
fn batch_heartbeat_resets_the_summary_counter_when_something_goes_out() {
    let mut c = counter(0, 2, 10);
    let out = c
        .process_peer_msg(vec![PeerNodeMsg::UpdateNodeMsg(update(
            1,
            &[(0, 0), (1, 1), (2, 0)],
            SDPOpsType::SDPAdd,
            3,
        ))])
        .unwrap();
    assert_eq!(out.len(), 0);
    assert_eq!(c.msg_count_vc, 1);
    let out = c
        .process_peer_msg(vec![PeerNodeMsg::UpdateNodeMsg(update(
            1,
            &[(0, 0), (1, 2), (2, 0)],
            SDPOpsType::SDPAdd,
            4,
        ))])
        .unwrap();
    assert_eq!(out.len(), 2);
    assert_eq!(c.msg_count_vc, 0);
    assert_eq!(*c.query(), 7);
}

#[test]
fn batch_stops_at_the_first_refusal_and_keeps_what_came_before() {
    let mut c = counter(0, 10, 10);
    let r = c.process_peer_msg(vec![
        PeerNodeMsg::UpdateNodeMsg(update(1, &[(0, 0), (1, 1), (2, 0)], SDPOpsType::SDPAdd, 3)),
        PeerNodeMsg::VectorClockNodeMsg(NodeVectorClockMsg::new(1, clock(&[(0, 0), (1, 1)]))),
        PeerNodeMsg::UpdateNodeMsg(update(1, &[(0, 0), (1, 2), (2, 0)], SDPOpsType::SDPAdd, 4)),
    ]);
    assert!(matches!(r, Err(VectorClockError::NonCompatibleVC)));
    assert_eq!(*c.query(), 3);
    assert_eq!(buffered_keys(&c), vec![msg_key(1, 1)]);
}

#[test]
fn refused_sweep_leaves_the_raised_belief_and_the_count() {
    let mut c = counter(0, 10, 0);
    // a stamp over other members than the cluster makes the sweep refuse
    c.add_msg(update(1, &[(0, 0), (1, 1)], SDPOpsType::SDPAdd, 3)).unwrap();
    let r = c.general_process_vc_msg(NodeVectorClockMsg::new(1, clock(&[(0, 2), (1, 4), (2, 1)])));
    assert!(matches!(r, Err(VectorClockError::NonCompatibleVC)));
    assert_eq!(entries(&c.trcb.node_trcb[&1]), vec![(0, 2), (1, 4), (2, 1)]);
    assert_eq!(c.msg_count_cs, 1);
    assert_eq!(c.msg_list_len(), 1);
}

#[test]
fn refused_local_update_leaves_what_was_done_before() {
    let mut c = counter(0, 10, 10);
    c.msg_count_vc = 4;
    // something else already sits where the next local update belongs
    c.add_msg(update(0, &[(0, 1), (1, 0), (2, 0)], SDPOpsType::SDPMult, 9)).unwrap();
    let msg = c.create_local_msg(user(SDPOpsType::SDPAdd, 5)).unwrap();
    let r = c.process_local_msg(msg);
    assert!(matches!(r, Err(VectorClockError::UnexpectedError(_))));
    // the addition took effect, the counters moved, the buffer is as it was
    assert_eq!(*c.query(), 5);
    assert_eq!((c.msg_count_vc, c.msg_count_cs), (0, 1));
    assert_eq!(c.msg_list[&msg_key(0, 1)].user_update_msg.ops_instance.ops_value, 9);
}

#[test]
fn refused_peer_update_is_counted_all_the_same() {
    let mut c = counter(0, 10, 10);
    c.add_msg(update(1, &[(0, 0), (1, 1), (2, 0)], SDPOpsType::SDPMult, 9)).unwrap();
    let r = c.general_process_peer_msg(update(1, &[(0, 0), (1, 1), (2, 0)], SDPOpsType::SDPAdd, 3));
    assert!(matches!(r, Err(VectorClockError::UnexpectedError(_))));
    assert_eq!((c.msg_count_vc, c.msg_count_cs), (1, 1));
    assert_eq!(entries(&c.trcb.node_vector_clock), vec![(0, 0), (1, 0), (2, 0)]);
}
