use ops_crdt_rust::vector_clock::{
    cmp_lc, max_lc, min_lc, peer_vc_status, vc_order, VCOrdering, VCStatus, VectorClock,
    VectorClockError, INC_LC, INITIAL_LC,
};

fn clock(entries: &[(u16, u32)]) -> VectorClock {
    let mut vc = VectorClock::new(entries.iter().map(|e| e.0).collect()).unwrap();
    for (node, lc) in entries {
        vc.vcmap.insert(*node, *lc);
    }
    vc
}

#[test]
fn constants_are_zero_and_one() {
    assert_eq!(INITIAL_LC, 0);
    assert_eq!(INC_LC, 1);
}

#[test]
fn new_clock_starts_at_zero() {
    let vc = VectorClock::new(vec![0, 1, 2]).unwrap();
    assert_eq!(vc.len(), 3);
    assert_eq!(vc.vcmap.get(&0), Some(&0));
    assert_eq!(vc.vcmap.get(&1), Some(&0));
    assert_eq!(vc.vcmap.get(&2), Some(&0));
    assert_eq!(vc.vcmap.get(&3), None);
}

#[test]
fn new_clock_counts_a_repeated_member_once() {
    let vc = VectorClock::new(vec![4, 4, 7]).unwrap();
    assert_eq!(vc.len(), 2);
}

#[test]
fn new_clock_refuses_empty_list() {
    assert!(matches!(VectorClock::new(vec![]), Err(VectorClockError::EmptyNodeList)));
}

#[test]
fn next_vc_advances_one_entry_only() {
    let mut vc = VectorClock::new(vec![0, 1, 2]).unwrap();
    vc.next_vc(&1).unwrap();
    vc.next_vc(&1).unwrap();
    assert_eq!(vc.vcmap.get(&0), Some(&0));
    assert_eq!(vc.vcmap.get(&1), Some(&2));
    assert_eq!(vc.vcmap.get(&2), Some(&0));
}

#[test]
fn next_vc_refuses_unknown_node() {
    let mut vc = VectorClock::new(vec![0, 1]).unwrap();
    assert!(matches!(vc.next_vc(&9), Err(VectorClockError::NodeNotFound)));
    assert_eq!(vc.vcmap.get(&0), Some(&0));
    assert_eq!(vc.vcmap.get(&1), Some(&0));
    assert_eq!(vc.len(), 2);
}

#[test]
fn compare_with_itself_is_equal() {
    let vc = clock(&[(0, 3), (1, 0), (2, 7)]);
    assert_eq!(vc.cmp_vc(&vc.clone()).unwrap(), VCOrdering::VCEQ);
}

#[test]
fn compare_gives_each_of_the_four_outcomes() {
    let a = clock(&[(0, 1), (1, 2)]);
    assert_eq!(a.cmp_vc(&clock(&[(0, 1), (1, 2)])).unwrap(), VCOrdering::VCEQ);
    assert_eq!(a.cmp_vc(&clock(&[(0, 1), (1, 3)])).unwrap(), VCOrdering::VCLE);
    assert_eq!(a.cmp_vc(&clock(&[(0, 0), (1, 2)])).unwrap(), VCOrdering::VCGR);
    assert_eq!(a.cmp_vc(&clock(&[(0, 2), (1, 1)])).unwrap(), VCOrdering::VCCN);
}

#[test]
fn compare_is_mirrored_in_the_other_direction() {
    let a = clock(&[(0, 1), (1, 2), (2, 0)]);
    let less = clock(&[(0, 1), (1, 1), (2, 0)]);
    let other = clock(&[(0, 0), (1, 5), (2, 0)]);
    assert_eq!(a.cmp_vc(&less).unwrap(), VCOrdering::VCGR);
    assert_eq!(less.cmp_vc(&a).unwrap(), VCOrdering::VCLE);
    assert_eq!(a.cmp_vc(&other).unwrap(), VCOrdering::VCCN);
    assert_eq!(other.cmp_vc(&a).unwrap(), VCOrdering::VCCN);
    assert_eq!(a.cmp_vc(&a.clone()).unwrap(), VCOrdering::VCEQ);
}

#[test]
fn compare_refuses_different_member_sets() {
    let a = clock(&[(0, 1), (1, 2)]);
    assert!(matches!(a.cmp_vc(&clock(&[(0, 1)])), Err(VectorClockError::NonCompatibleVC)));
    assert!(matches!(
        a.cmp_vc(&clock(&[(0, 1), (2, 2)])),
        Err(VectorClockError::NonCompatibleVC)
    ));
}

#[test]
fn incremented_clock_is_greater_for_every_member() {
    for node in [0u16, 1, 2] {
        let old = clock(&[(0, 4), (1, 0), (2, 9)]);
        let mut new = old.clone();
        new.next_vc(&node).unwrap();
        assert_eq!(new.cmp_vc(&old).unwrap(), VCOrdering::VCGR);
        assert_eq!(old.cmp_vc(&new).unwrap(), VCOrdering::VCLE);
    }
}

#[test]
fn is_next_classifies_duplicate_inorder_outoforder() {
    let ours = clock(&[(0, 5), (1, 2)]);
    let status = |theirs: u32| ours.is_next_vc(&0, &clock(&[(0, theirs), (1, 0)])).unwrap();
    assert_eq!(status(0), VCStatus::DUPLICATE);
    assert_eq!(status(4), VCStatus::DUPLICATE);
    assert_eq!(status(5), VCStatus::DUPLICATE);
    assert_eq!(status(6), VCStatus::INORDER);
    assert_eq!(status(7), VCStatus::OUTOFORDER);
    assert_eq!(status(u32::MAX), VCStatus::OUTOFORDER);
}

#[test]
fn is_next_at_the_largest_counter_does_not_overflow() {
    let ours = clock(&[(0, u32::MAX)]);
    assert_eq!(ours.is_next_vc(&0, &clock(&[(0, u32::MAX)])).unwrap(), VCStatus::DUPLICATE);
    assert_eq!(ours.is_next_vc(&0, &clock(&[(0, 0)])).unwrap(), VCStatus::DUPLICATE);
}

#[test]
fn is_next_refuses_missing_node() {
    let ours = clock(&[(0, 5), (1, 2)]);
    assert!(matches!(
        ours.is_next_vc(&7, &clock(&[(0, 5), (1, 2)])),
        Err(VectorClockError::NodeNotFound)
    ));
    assert!(matches!(
        ours.is_next_vc(&1, &clock(&[(0, 5)])),
        Err(VectorClockError::NodeNotFound)
    ));
}

#[test]
fn check_vc_compares_successor_with_other() {
    let ours = clock(&[(0, 5)]);
    assert_eq!(ours.check_vc(0, &clock(&[(0, 5)])).unwrap(), VCOrdering::VCGR);
    assert_eq!(ours.check_vc(0, &clock(&[(0, 6)])).unwrap(), VCOrdering::VCEQ);
    assert_eq!(ours.check_vc(0, &clock(&[(0, 7)])).unwrap(), VCOrdering::VCLE);
    assert!(matches!(ours.check_vc(3, &clock(&[(0, 7)])), Err(VectorClockError::NodeNotFound)));
}

#[test]
fn merge_takes_minimum_and_maximum_member_by_member() {
    let a = clock(&[(0, 1), (1, 9), (2, 4)]);
    let b = clock(&[(0, 3), (1, 2), (2, 4)]);
    let lo = a.min_vc(&b).unwrap();
    let hi = a.max_vc(&b).unwrap();
    assert_eq!((lo.vcmap[&0], lo.vcmap[&1], lo.vcmap[&2]), (1, 2, 4));
    assert_eq!((hi.vcmap[&0], hi.vcmap[&1], hi.vcmap[&2]), (3, 9, 4));
    assert_eq!(lo.len(), 3);
    assert_eq!(hi.len(), 3);
}

#[test]
fn merge_through_a_function_of_the_caller() {
    let a = clock(&[(0, 1), (1, 9)]);
    let b = clock(&[(0, 3), (1, 2)]);
    let sum = a.min_max_vc(&b, |x, y| x + y).unwrap();
    assert_eq!((sum.vcmap[&0], sum.vcmap[&1]), (4, 11));
}

#[test]
fn merge_refuses_different_member_sets() {
    let a = clock(&[(0, 1), (1, 9)]);
    assert!(matches!(a.max_vc(&clock(&[(0, 1)])), Err(VectorClockError::NonCompatibleVC)));
    assert!(matches!(
        a.min_vc(&clock(&[(0, 1), (1, 2), (2, 3)])),
        Err(VectorClockError::NonCompatibleVC)
    ));
    assert!(matches!(
        a.min_vc(&clock(&[(0, 1), (5, 2)])),
        Err(VectorClockError::NonCompatibleVC)
    ));
}

#[test]
fn orderings_fold_as_the_rule_says() {
    let (le, eq, gr, cn) =
        (VCOrdering::VCLE, VCOrdering::VCEQ, VCOrdering::VCGR, VCOrdering::VCCN);
    assert_eq!(vc_order(eq, eq), eq);
    assert_eq!(vc_order(eq, le), le);
    assert_eq!(vc_order(gr, eq), gr);
    assert_eq!(vc_order(cn, le), cn);
    assert_eq!(vc_order(gr, cn), cn);
    assert_eq!(vc_order(le, le), le);
    assert_eq!(vc_order(gr, gr), gr);
    assert_eq!(vc_order(le, gr), cn);
    assert_eq!(vc_order(gr, le), cn);
}

#[test]
fn counters_compare_and_merge() {
    assert_eq!(cmp_lc(1, 2), VCOrdering::VCLE);
    assert_eq!(cmp_lc(2, 2), VCOrdering::VCEQ);
    assert_eq!(cmp_lc(3, 2), VCOrdering::VCGR);
    assert_eq!(min_lc(3, 2), 2);
    assert_eq!(max_lc(3, 2), 3);
}

#[test]
fn ordering_reads_as_delivery_status() {
    assert_eq!(peer_vc_status(VCOrdering::VCGR), VCStatus::DUPLICATE);
    assert_eq!(peer_vc_status(VCOrdering::VCEQ), VCStatus::INORDER);
    assert_eq!(peer_vc_status(VCOrdering::VCLE), VCStatus::OUTOFORDER);
    assert_eq!(peer_vc_status(VCOrdering::VCCN), VCStatus::OUTOFORDER);
}
