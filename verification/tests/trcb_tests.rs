use ops_crdt_rust::trcb::TRCBData;
use ops_crdt_rust::vector_clock::{VCOrdering, VCStatus, VectorClock, VectorClockError};

fn clock(entries: &[(u16, u32)]) -> VectorClock {
    let mut vc = VectorClock::new(entries.iter().map(|e| e.0).collect()).unwrap();
    for (node, lc) in entries {
        vc.vcmap.insert(*node, *lc);
    }
    vc
}

fn entries(vc: &VectorClock) -> Vec<(u16, u32)> {
    let mut v: Vec<(u16, u32)> = vc.vcmap.iter().map(|(k, v)| (*k, *v)).collect();
    v.sort();
    v
}

#[test]
fn tracker_starts_with_a_belief_per_other_member() {
    let t = TRCBData::new(1, vec![0, 1, 2]).unwrap();
    assert_eq!(t.node, 1);
    assert_eq!(entries(&t.node_vector_clock), vec![(0, 0), (1, 0), (2, 0)]);
    let mut peers: Vec<u16> = t.node_trcb.keys().copied().collect();
    peers.sort();
    assert_eq!(peers, vec![0, 2]);
    assert_eq!(entries(&t.node_trcb[&0]), vec![(0, 0), (1, 0), (2, 0)]);
    assert_eq!(entries(&t.node_trcb[&2]), vec![(0, 0), (1, 0), (2, 0)]);
}

#[test]
fn tracker_refuses_a_node_outside_the_list() {
    match TRCBData::new(5, vec![0, 1, 2]) {
        Err(VectorClockError::InconsistentInputTRBC(node, list)) => {
            assert_eq!(node, 5);
            assert_eq!(list, vec![0, 1, 2]);
        }
        _ => panic!("a node outside the list was accepted"),
    }
    assert!(matches!(
        TRCBData::new(0, vec![]),
        Err(VectorClockError::InconsistentInputTRBC(0, _))
    ));
}

#[test]
fn own_clock_advances_by_one_each_time() {
    let mut t = TRCBData::new(1, vec![0, 1, 2]).unwrap();
    let first = t.next_vc().unwrap();
    let second = t.next_vc().unwrap();
    assert_eq!(entries(&first), vec![(0, 0), (1, 1), (2, 0)]);
    assert_eq!(entries(&second), vec![(0, 0), (1, 2), (2, 0)]);
    assert_eq!(entries(&t.node_vector_clock), vec![(0, 0), (1, 2), (2, 0)]);
    assert_eq!(second.cmp_vc(&first).unwrap(), VCOrdering::VCGR);
}

#[test]
fn next_update_of_a_peer_is_delivered() {
    let mut t = TRCBData::new(1, vec![0, 1, 2]).unwrap();
    let st = t.add_peer_vc(0, clock(&[(0, 1), (1, 0), (2, 3)])).unwrap();
    assert_eq!(st, VCStatus::INORDER);
    assert_eq!(entries(&t.node_vector_clock), vec![(0, 1), (1, 0), (2, 0)]);
    assert_eq!(entries(&t.node_trcb[&0]), vec![(0, 1), (1, 0), (2, 3)]);
    assert_eq!(entries(&t.node_trcb[&2]), vec![(0, 0), (1, 0), (2, 0)]);
}

#[test]
fn duplicate_update_changes_nothing() {
    let mut t = TRCBData::new(1, vec![0, 1, 2]).unwrap();
    let sent = clock(&[(0, 1), (1, 0), (2, 0)]);
    assert_eq!(t.add_peer_vc(0, sent.clone()).unwrap(), VCStatus::INORDER);
    let clock_before = entries(&t.node_vector_clock);
    let belief_before = entries(&t.node_trcb[&0]);
    assert_eq!(t.add_peer_vc(0, sent).unwrap(), VCStatus::DUPLICATE);
    assert_eq!(entries(&t.node_vector_clock), clock_before);
    assert_eq!(entries(&t.node_trcb[&0]), belief_before);
}

#[test]
fn update_too_far_ahead_changes_nothing() {
    let mut t = TRCBData::new(1, vec![0, 1, 2]).unwrap();
    let st = t.add_peer_vc(0, clock(&[(0, 2), (1, 0), (2, 0)])).unwrap();
    assert_eq!(st, VCStatus::OUTOFORDER);
    assert_eq!(entries(&t.node_vector_clock), vec![(0, 0), (1, 0), (2, 0)]);
    assert_eq!(entries(&t.node_trcb[&0]), vec![(0, 0), (1, 0), (2, 0)]);
}

#[test]
fn update_of_an_unknown_node_is_refused() {
    let mut t = TRCBData::new(1, vec![0, 1, 2]).unwrap();
    assert!(matches!(
        t.add_peer_vc(9, clock(&[(0, 0), (1, 0), (2, 0)])),
        Err(VectorClockError::NodeNotFound)
    ));
    assert!(matches!(t.add_peer_vc(0, clock(&[(1, 0)])), Err(VectorClockError::NodeNotFound)));
}

#[test]
fn clock_summary_raises_belief_to_the_maximum() {
    let mut t = TRCBData::new(1, vec![0, 1, 2]).unwrap();
    t.add_peer_vcmsg(0, clock(&[(0, 4), (1, 1), (2, 0)])).unwrap();
    t.add_peer_vcmsg(0, clock(&[(0, 2), (1, 3), (2, 0)])).unwrap();
    assert_eq!(entries(&t.node_trcb[&0]), vec![(0, 4), (1, 3), (2, 0)]);
    assert_eq!(entries(&t.node_vector_clock), vec![(0, 0), (1, 0), (2, 0)]);
}

#[test]
fn clock_summary_twice_is_the_same_as_once() {
    let mut t = TRCBData::new(1, vec![0, 1, 2]).unwrap();
    t.add_peer_vcmsg(2, clock(&[(0, 4), (1, 1), (2, 6)])).unwrap();
    let once = entries(&t.node_trcb[&2]);
    t.add_peer_vcmsg(2, clock(&[(0, 4), (1, 1), (2, 6)])).unwrap();
    assert_eq!(entries(&t.node_trcb[&2]), once);
}

#[test]
fn clock_summary_is_refused_for_unknown_peer_or_other_members() {
    let mut t = TRCBData::new(1, vec![0, 1, 2]).unwrap();
    assert!(matches!(
        t.add_peer_vcmsg(1, clock(&[(0, 0), (1, 0), (2, 0)])),
        Err(VectorClockError::NodeNotFound)
    ));
    assert!(matches!(
        t.add_peer_vcmsg(0, clock(&[(0, 0), (1, 0)])),
        Err(VectorClockError::NonCompatibleVC)
    ));
    assert_eq!(entries(&t.node_trcb[&0]), vec![(0, 0), (1, 0), (2, 0)]);
}

#[test]
fn frontier_is_the_minimum_over_own_clock_and_beliefs() {
    let mut t = TRCBData::new(0, vec![0, 1, 2]).unwrap();
    t.node_vector_clock = clock(&[(0, 5), (1, 4), (2, 3)]);
    t.node_trcb.insert(1, clock(&[(0, 3), (1, 4), (2, 9)]));
    t.node_trcb.insert(2, clock(&[(0, 4), (1, 2), (2, 3)]));
    let frontier = t.causally_stable().unwrap();
    assert_eq!(entries(&frontier), vec![(0, 3), (1, 2), (2, 3)]);
}

#[test]
fn frontier_never_exceeds_own_clock() {
    let mut t = TRCBData::new(0, vec![0, 1, 2]).unwrap();
    t.node_vector_clock = clock(&[(0, 1), (1, 0), (2, 2)]);
    t.node_trcb.insert(1, clock(&[(0, 7), (1, 7), (2, 7)]));
    t.node_trcb.insert(2, clock(&[(0, 9), (1, 9), (2, 1)]));
    let frontier = t.causally_stable().unwrap();
    assert_eq!(entries(&frontier), vec![(0, 1), (1, 0), (2, 1)]);
    let rel = frontier.cmp_vc(&t.node_vector_clock).unwrap();
    assert!(rel == VCOrdering::VCLE || rel == VCOrdering::VCEQ);
}

#[test]
fn frontier_without_peers_is_the_own_clock() {
    let mut t = TRCBData::new(0, vec![0]).unwrap();
    t.next_vc().unwrap();
    assert_eq!(entries(&t.causally_stable().unwrap()), vec![(0, 1)]);
}

#[test]
fn frontier_is_refused_where_a_belief_lacks_an_origin() {
    let mut t = TRCBData::new(0, vec![0, 1, 2]).unwrap();
    t.node_trcb.insert(1, clock(&[(0, 3), (1, 4)]));
    assert!(matches!(t.causally_stable(), Err(VectorClockError::UnexpectedError(_))));
}
