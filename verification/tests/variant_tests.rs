use std::collections::HashMap;
use std::collections::HashSet;

use ops_crdt_rust::add_mult_crdt::AddMult;
use ops_crdt_rust::arset_crdt::{AWSet, RWSet};
use ops_crdt_rust::constants::Config;
use ops_crdt_rust::crdt::{CrdtInstance, CrdtType, CrdtVariant, CRDT};
use ops_crdt_rust::edflag_crdt::{DWFlag, EDFlag, EWFlag};
use ops_crdt_rust::message_data::{
    NodeUpdateMsg, OpsInstance, PeerNodeMsg, SDPOpsType, UserUpdateMsg,
};
use ops_crdt_rust::pncnt_crdt::{PNCounter, PNCounterData};
use ops_crdt_rust::vector_clock::{VectorClock, VectorClockError};

type Counter = CRDT<i64, i64, AddMult>;
type Out<T> = HashMap<u16, Vec<PeerNodeMsg<T>>>;

fn config() -> Config {
    Config::new(vec![0, 1, 2], 100, 100)
}

fn counter(node: u16) -> Counter {
    CRDT::new(node, 0, &config()).unwrap()
}

fn clock(entries: &[(u16, u32)]) -> VectorClock {
    let mut vc = VectorClock::new(entries.iter().map(|e| e.0).collect()).unwrap();
    for (node, lc) in entries {
        vc.vcmap.insert(*node, *lc);
    }
    vc
}

fn stamped<T: Copy + PartialEq>(
    node: u16,
    stamp: &[(u16, u32)],
    ops: OpsInstance<T>,
    kind: CrdtType,
) -> NodeUpdateMsg<T> {
    NodeUpdateMsg::new(
        node,
        clock(stamp),
        UserUpdateMsg::new(CrdtInstance::new_default(kind), ops),
    )
}

fn local<K: CrdtVariant>(c: &mut CRDT<K::Value, K::Ops, K>, ops: OpsInstance<K::Ops>) -> Out<K::Ops> {
    let user = UserUpdateMsg::new(CrdtInstance::new_default(CrdtType::AddMultCrdt), ops);
    let msg = c.create_local_msg(user).unwrap();
    c.process_local_msg(msg).unwrap()
}

fn updates_only<T: Copy + PartialEq>(list: &Vec<PeerNodeMsg<T>>) -> Vec<PeerNodeMsg<T>> {
    list.iter().filter(|m| matches!(m, PeerNodeMsg::UpdateNodeMsg(_))).cloned().collect()
}

#[test]
fn counter_operations_are_made_as_asked() {
    let c = counter(0);
    let add = c.get_add_ops(5);
    let mult = c.get_mult_ops(3);
    assert_eq!((add.ops_type, add.ops_value), (SDPOpsType::SDPAdd, 5));
    assert_eq!((mult.ops_type, mult.ops_value), (SDPOpsType::SDPMult, 3));
    assert_eq!(c.get_option_value(), None);
}

#[test]
fn counter_adds_and_multiplies_locally() {
    let mut c = counter(0);
    let add = c.get_add_ops(5);
    local(&mut c, add);
    assert_eq!(*c.query(), 5);
    let mult = c.get_mult_ops(3);
    local(&mut c, mult);
    assert_eq!(*c.query(), 15);
    let add = c.get_add_ops(-20);
    local(&mut c, add);
    assert_eq!(*c.query(), -5);
}

#[test]
fn counter_scales_an_addition_by_concurrent_multiplications() {
    let mut c = counter(2);
    c.crdt_value = 1;
    // two multiplications of nodes 0 and 1, both concurrent with what follows
    c.add_msg(stamped(0, &[(0, 1), (1, 0), (2, 0)], c.get_mult_ops(3), CrdtType::AddMultCrdt))
        .unwrap();
    c.add_msg(stamped(1, &[(0, 0), (1, 1), (2, 0)], c.get_mult_ops(4), CrdtType::AddMultCrdt))
        .unwrap();
    // an addition that saw the first of them but not the second
    let add = stamped(2, &[(0, 1), (1, 0), (2, 1)], c.get_add_ops(5), CrdtType::AddMultCrdt);
    c.process_msg(&add).unwrap();
    assert_eq!(*c.query(), 1 + 5 * 4);
    // an addition that saw neither
    let add = stamped(2, &[(0, 0), (1, 0), (2, 1)], c.get_add_ops(2), CrdtType::AddMultCrdt);
    c.process_msg(&add).unwrap();
    assert_eq!(*c.query(), 21 + 2 * 12);
}

#[test]
fn counter_knows_whether_a_local_update_fits() {
    let mut c = counter(0);
    let at = |c: &Counter, ops: OpsInstance<i64>| -> bool {
        c.local_fits(&stamped(0, &[(0, 1), (1, 0), (2, 0)], ops, CrdtType::AddMultCrdt))
    };
    c.crdt_value = i64::MAX;
    assert!(at(&c, c.get_add_ops(0)));
    assert!(at(&c, c.get_add_ops(-1)));
    assert!(!at(&c, c.get_add_ops(1)));
    assert!(at(&c, c.get_mult_ops(1)));
    assert!(at(&c, c.get_mult_ops(-1)));
    assert!(at(&c, c.get_mult_ops(0)));
    assert!(!at(&c, c.get_mult_ops(2)));
    c.crdt_value = i64::MIN;
    assert!(at(&c, c.get_add_ops(1)));
    assert!(!at(&c, c.get_add_ops(-1)));
    assert!(at(&c, c.get_mult_ops(1)));
    assert!(!at(&c, c.get_mult_ops(-1)));
    c.crdt_value = 7;
    c.msg_count_cs = u16::MAX;
    assert!(!at(&c, c.get_add_ops(1)));
}

#[test]
fn counter_scales_up_to_the_very_limit() {
    let mut c = counter(2);
    // two concurrent multiplications whose product is two to the 63rd
    c.add_msg(stamped(0, &[(0, 1), (1, 0), (2, 0)], c.get_mult_ops(1 << 62), CrdtType::AddMultCrdt))
        .unwrap();
    c.add_msg(stamped(1, &[(0, 0), (1, 1), (2, 0)], c.get_mult_ops(2), CrdtType::AddMultCrdt))
        .unwrap();
    let add = stamped(2, &[(0, 0), (1, 0), (2, 1)], c.get_add_ops(1), CrdtType::AddMultCrdt);
    let sub = stamped(2, &[(0, 0), (1, 0), (2, 1)], c.get_add_ops(-1), CrdtType::AddMultCrdt);
    c.crdt_value = 0;
    assert!(!c.local_fits(&add));
    assert!(c.local_fits(&sub));
    c.crdt_value = -1;
    assert!(c.local_fits(&add));
    c.process_msg(&add).unwrap();
    assert_eq!(*c.query(), i64::MAX);
    c.crdt_value = 0;
    c.process_msg(&sub).unwrap();
    assert_eq!(*c.query(), i64::MIN);
}

#[test]
fn counter_with_a_product_beyond_all_bounds() {
    let mut c = counter(2);
    c.crdt_value = 5;
    c.add_msg(stamped(0, &[(0, 1), (1, 0), (2, 0)], c.get_mult_ops(i64::MAX), CrdtType::AddMultCrdt))
        .unwrap();
    c.add_msg(stamped(0, &[(0, 2), (1, 0), (2, 0)], c.get_mult_ops(i64::MIN), CrdtType::AddMultCrdt))
        .unwrap();
    c.add_msg(stamped(1, &[(0, 0), (1, 1), (2, 0)], c.get_mult_ops(i64::MIN), CrdtType::AddMultCrdt))
        .unwrap();
    let add = stamped(2, &[(0, 0), (1, 0), (2, 1)], c.get_add_ops(1), CrdtType::AddMultCrdt);
    let none = stamped(2, &[(0, 0), (1, 0), (2, 1)], c.get_add_ops(0), CrdtType::AddMultCrdt);
    assert!(!c.local_fits(&add));
    // an addition of nothing fits whatever the product
    assert!(c.local_fits(&none));
    c.process_msg(&none).unwrap();
    assert_eq!(*c.query(), 5);
    // a concurrent multiplication by nothing brings the product to nothing
    c.add_msg(stamped(1, &[(0, 0), (1, 2), (2, 0)], c.get_mult_ops(0), CrdtType::AddMultCrdt))
        .unwrap();
    assert!(c.local_fits(&add));
    c.process_msg(&add).unwrap();
    assert_eq!(*c.query(), 5);
}

#[test]
fn counter_knows_whether_a_message_of_a_peer_fits() {
    let mut c = counter(0);
    c.crdt_value = i64::MAX;
    let next = PeerNodeMsg::UpdateNodeMsg(stamped(
        1,
        &[(0, 0), (1, 1), (2, 0)],
        c.get_add_ops(1),
        CrdtType::AddMultCrdt,
    ));
    let ahead = PeerNodeMsg::UpdateNodeMsg(stamped(
        1,
        &[(0, 0), (1, 2), (2, 0)],
        c.get_add_ops(1),
        CrdtType::AddMultCrdt,
    ));
    // what is dropped needs no room in the value
    assert!(!c.peer_msg_fits(&next));
    assert!(c.peer_msg_fits(&ahead));
    c.crdt_value = 0;
    assert!(c.peer_msg_fits(&next));
    c.msg_count_vc = u16::MAX;
    assert!(!c.peer_msg_fits(&next));
    c.msg_count_vc = 0;
    c.msg_count_cs = u16::MAX;
    assert!(!c.peer_msg_fits(&ahead));
}

#[test]
fn counter_refuses_an_addition_where_a_buffered_stamp_has_other_members() {
    let mut c = counter(0);
    c.add_msg(stamped(1, &[(0, 0), (1, 1)], c.get_mult_ops(3), CrdtType::AddMultCrdt)).unwrap();
    let add = stamped(0, &[(0, 1), (1, 0), (2, 0)], c.get_add_ops(1), CrdtType::AddMultCrdt);
    assert!(matches!(c.process_msg(&add), Err(VectorClockError::NonCompatibleVC)));
    assert_eq!(*c.query(), 0);
    // a multiplication does not look at the buffer
    let mult = stamped(0, &[(0, 1), (1, 0), (2, 0)], c.get_mult_ops(2), CrdtType::AddMultCrdt);
    c.process_msg(&mult).unwrap();
}

#[test]
fn three_nodes_converge_on_fifteen() {
    let mut n0 = counter(0);
    let mut n1 = counter(1);
    let mut n2 = counter(2);

    let add = n0.get_add_ops(5);
    let mut out0 = local(&mut n0, add);
    assert_eq!(*n0.query(), 5);

    let mult = n1.get_mult_ops(3);
    let mut out1 = local(&mut n1, mult);
    assert_eq!(*n1.query(), 0);

    n1.process_peer_msg(out0.remove(&1).unwrap()).unwrap();
    n2.process_peer_msg(out0.remove(&2).unwrap()).unwrap();
    n0.process_peer_msg(out1.remove(&0).unwrap()).unwrap();
    n2.process_peer_msg(out1.remove(&2).unwrap()).unwrap();

    assert_eq!(*n0.query(), 15);
    assert_eq!(*n1.query(), 15);
    assert_eq!(*n2.query(), 15);
}

#[test]
fn delivery_order_of_concurrent_updates_does_not_matter() {
    let mut n0 = counter(0);
    let mut n1 = counter(1);
    let add = n0.get_add_ops(5);
    let out0 = local(&mut n0, add);
    let mult = n1.get_mult_ops(3);
    let out1 = local(&mut n1, mult);
    let from0 = updates_only(&out0[&2]);
    let from1 = updates_only(&out1[&2]);

    let mut first = counter(2);
    first.crdt_value = 7;
    first.process_peer_msg(from0.clone()).unwrap();
    first.process_peer_msg(from1.clone()).unwrap();

    let mut second = counter(2);
    second.crdt_value = 7;
    second.process_peer_msg(from1).unwrap();
    second.process_peer_msg(from0).unwrap();

    assert_eq!(*first.query(), (7 + 5) * 3);
    assert_eq!(*second.query(), 7 * 3 + 5 * 3);
    assert_eq!(first.msg_list_len(), 2);
    assert_eq!(second.msg_list_len(), 2);
}

#[test]
fn update_out_of_order_is_dropped() {
    let mut n0 = counter(0);
    let add = n0.get_add_ops(5);
    local(&mut n0, add);
    let add = n0.get_add_ops(6);
    let out = local(&mut n0, add);
    let list = updates_only(&out[&1]);
    let mut n1 = counter(1);
    // the second update alone is ahead by two
    n1.process_peer_msg(vec![list[1].clone()]).unwrap();
    assert_eq!(*n1.query(), 0);
    assert_eq!(n1.msg_list_len(), 0);
    n1.process_peer_msg(list).unwrap();
    assert_eq!(*n1.query(), 11);
}

fn ew(node: u16) -> CRDT<EDFlag, EDFlag, EWFlag> {
    CRDT::new(node, EDFlag::Enabled, &config()).unwrap()
}

fn dw(node: u16) -> CRDT<EDFlag, EDFlag, DWFlag> {
    CRDT::new(node, EDFlag::Disabled, &config()).unwrap()
}

#[test]
fn flag_operations_are_made_as_documented() {
    let e = ew(0);
    assert_eq!(e.get_add_ops().ops_type, SDPOpsType::SDPAdd);
    assert!(e.get_add_ops().ops_value == EDFlag::Disabled);
    assert_eq!(e.get_mult_ops().ops_type, SDPOpsType::SDPMult);
    assert!(e.get_mult_ops().ops_value == EDFlag::Enabled);
    assert!(e.get_option_value().is_none());
    let d = dw(0);
    assert_eq!(d.get_add_ops().ops_type, SDPOpsType::SDPAdd);
    assert!(d.get_add_ops().ops_value == EDFlag::Enabled);
    assert_eq!(d.get_mult_ops().ops_type, SDPOpsType::SDPMult);
    assert!(d.get_mult_ops().ops_value == EDFlag::Disabled);
    assert!(d.get_option_value().is_none());
    assert!(EDFlag::Enabled != EDFlag::Disabled);
}

#[test]
fn flag_follows_local_operations() {
    let mut e = ew(0);
    let disable = e.get_add_ops();
    local(&mut e, disable);
    assert!(*e.query() == EDFlag::Disabled);
    let enable = e.get_mult_ops();
    local(&mut e, enable);
    assert!(*e.query() == EDFlag::Enabled);
    let mut d = dw(0);
    let enable = d.get_add_ops();
    local(&mut d, enable);
    assert!(*d.query() == EDFlag::Enabled);
    let disable = d.get_mult_ops();
    local(&mut d, disable);
    assert!(*d.query() == EDFlag::Disabled);
}

#[test]
fn enabling_wins_in_either_delivery_order() {
    let mut n0 = ew(0);
    let mut n1 = ew(1);
    let disable = n0.get_add_ops();
    let out0 = local(&mut n0, disable);
    let enable = n1.get_mult_ops();
    let out1 = local(&mut n1, enable);
    let from0 = updates_only(&out0[&2]);
    let from1 = updates_only(&out1[&2]);

    let mut first = ew(2);
    first.process_peer_msg(from0.clone()).unwrap();
    assert!(*first.query() == EDFlag::Disabled);
    first.process_peer_msg(from1.clone()).unwrap();
    assert!(*first.query() == EDFlag::Enabled);

    let mut second = ew(2);
    second.process_peer_msg(from1).unwrap();
    second.process_peer_msg(from0).unwrap();
    assert!(*second.query() == EDFlag::Enabled);

    n0.process_peer_msg(out1[&0].clone()).unwrap();
    n1.process_peer_msg(out0[&1].clone()).unwrap();
    assert!(*n0.query() == EDFlag::Enabled);
    assert!(*n1.query() == EDFlag::Enabled);
}

#[test]
fn disabling_wins_in_either_delivery_order() {
    let mut n0 = dw(0);
    let mut n1 = dw(1);
    let enable = n0.get_add_ops();
    let out0 = local(&mut n0, enable);
    let disable = n1.get_mult_ops();
    let out1 = local(&mut n1, disable);
    let from0 = updates_only(&out0[&2]);
    let from1 = updates_only(&out1[&2]);

    let mut first = dw(2);
    first.process_peer_msg(from0.clone()).unwrap();
    assert!(*first.query() == EDFlag::Enabled);
    first.process_peer_msg(from1.clone()).unwrap();
    assert!(*first.query() == EDFlag::Disabled);

    let mut second = dw(2);
    second.crdt_value = EDFlag::Enabled;
    second.process_peer_msg(from1).unwrap();
    second.process_peer_msg(from0).unwrap();
    assert!(*second.query() == EDFlag::Disabled);
}

#[test]
fn later_disabling_takes_effect_on_the_enable_wins_flag() {
    let mut n0 = ew(0);
    let mut n1 = ew(1);
    let enable = n1.get_mult_ops();
    let out1 = local(&mut n1, enable);
    n0.process_peer_msg(out1[&0].clone()).unwrap();
    // node 0 has seen the enabling: its disabling is after it, not concurrent
    let disable = n0.get_add_ops();
    let out0 = local(&mut n0, disable);
    assert!(*n0.query() == EDFlag::Disabled);
    n1.process_peer_msg(out0[&1].clone()).unwrap();
    assert!(*n1.query() == EDFlag::Disabled);
}

fn aw(node: u16) -> CRDT<HashSet<i32>, i32, AWSet> {
    CRDT::new(node, HashSet::new(), &config()).unwrap()
}

fn rw(node: u16) -> CRDT<HashSet<i32>, i32, RWSet> {
    CRDT::new(node, HashSet::new(), &config()).unwrap()
}

fn elements(s: &HashSet<i32>) -> Vec<i32> {
    let mut v: Vec<i32> = s.iter().copied().collect();
    v.sort();
    v
}

#[test]
fn set_operations_are_made_as_asked() {
    let a = aw(0);
    assert_eq!((a.get_add_ops(4).ops_type, a.get_add_ops(4).ops_value), (SDPOpsType::SDPAdd, 4));
    assert_eq!((a.get_mult_ops(4).ops_type, a.get_mult_ops(4).ops_value), (SDPOpsType::SDPMult, 4));
    assert_eq!(a.get_option_value(4), Some(4));
    let r = rw(0);
    assert_eq!((r.get_add_ops(4).ops_type, r.get_add_ops(4).ops_value), (SDPOpsType::SDPAdd, 4));
    assert_eq!((r.get_mult_ops(4).ops_type, r.get_mult_ops(4).ops_value), (SDPOpsType::SDPMult, 4));
    assert_eq!(r.get_option_value(4), Some(4));
}

#[test]
fn add_wins_set_follows_local_operations() {
    let mut a = aw(0);
    for e in [3, 1, 2] {
        let insert = a.get_mult_ops(e);
        local(&mut a, insert);
    }
    assert_eq!(elements(a.query()), vec![1, 2, 3]);
    let remove = a.get_add_ops(2);
    local(&mut a, remove);
    assert_eq!(elements(a.query()), vec![1, 3]);
    let remove = a.get_add_ops(9);
    local(&mut a, remove);
    assert_eq!(elements(a.query()), vec![1, 3]);
}

#[test]
fn adding_wins_over_a_concurrent_removal_of_the_same_element() {
    let mut n0 = aw(0);
    let mut n1 = aw(1);
    let remove = n0.get_add_ops(4);
    let out0 = local(&mut n0, remove);
    let insert = n1.get_mult_ops(4);
    let out1 = local(&mut n1, insert);
    let from0 = updates_only(&out0[&2]);
    let from1 = updates_only(&out1[&2]);

    let mut first = aw(2);
    first.crdt_value.insert(4);
    first.process_peer_msg(from0.clone()).unwrap();
    assert_eq!(elements(first.query()), Vec::<i32>::new());
    first.process_peer_msg(from1.clone()).unwrap();
    assert_eq!(elements(first.query()), vec![4]);

    let mut second = aw(2);
    second.crdt_value.insert(4);
    second.process_peer_msg(from1).unwrap();
    second.process_peer_msg(from0).unwrap();
    assert_eq!(elements(second.query()), vec![4]);
}

#[test]
fn concurrent_adding_of_another_element_does_not_stop_a_removal() {
    let mut n0 = aw(0);
    let mut n1 = aw(1);
    let remove = n0.get_add_ops(4);
    let out0 = local(&mut n0, remove);
    let insert = n1.get_mult_ops(5);
    let out1 = local(&mut n1, insert);
    let mut n2 = aw(2);
    n2.crdt_value.insert(4);
    n2.process_peer_msg(updates_only(&out1[&2])).unwrap();
    n2.process_peer_msg(updates_only(&out0[&2])).unwrap();
    assert_eq!(elements(n2.query()), vec![5]);
}

#[test]
fn removing_wins_over_a_concurrent_adding_of_the_same_element() {
    let mut n0 = rw(0);
    let mut n1 = rw(1);
    let insert = n0.get_add_ops(4);
    let out0 = local(&mut n0, insert);
    assert_eq!(elements(n0.query()), vec![4]);
    let remove = n1.get_mult_ops(4);
    let out1 = local(&mut n1, remove);
    let from0 = updates_only(&out0[&2]);
    let from1 = updates_only(&out1[&2]);

    let mut first = rw(2);
    first.process_peer_msg(from0.clone()).unwrap();
    assert_eq!(elements(first.query()), vec![4]);
    first.process_peer_msg(from1.clone()).unwrap();
    assert_eq!(elements(first.query()), Vec::<i32>::new());

    let mut second = rw(2);
    second.process_peer_msg(from1).unwrap();
    second.process_peer_msg(from0).unwrap();
    assert_eq!(elements(second.query()), Vec::<i32>::new());
}

fn pn(node: u16) -> CRDT<PNCounterData, u32, PNCounter> {
    CRDT::new(node, PNCounterData::new(), &config()).unwrap()
}

#[test]
fn pn_counter_keeps_two_accumulators() {
    let start = PNCounterData::new();
    assert_eq!((start.pcount, start.ncount), (0, 0));
    let mut c = pn(0);
    assert_eq!((c.get_add_ops(4).ops_type, c.get_add_ops(4).ops_value), (SDPOpsType::SDPAdd, 4));
    assert_eq!((c.get_mult_ops(4).ops_type, c.get_mult_ops(4).ops_value), (SDPOpsType::SDPMult, 4));
    for (up, value) in [(true, 10), (false, 3), (true, 5), (false, 4)] {
        let ops = if up { c.get_add_ops(value) } else { c.get_mult_ops(value) };
        local(&mut c, ops);
    }
    assert_eq!((c.query().pcount, c.query().ncount), (15, 7));
}

#[test]
fn pn_counter_knows_whether_an_update_fits() {
    let mut c = pn(0);
    c.crdt_value = PNCounterData { pcount: u32::MAX - 1, ncount: u32::MAX };
    let at = |c: &CRDT<PNCounterData, u32, PNCounter>, ops: OpsInstance<u32>| -> bool {
        c.local_fits(&stamped(0, &[(0, 1), (1, 0), (2, 0)], ops, CrdtType::PNCounterCrdt))
    };
    assert!(at(&c, c.get_add_ops(0)));
    assert!(at(&c, c.get_add_ops(1)));
    assert!(!at(&c, c.get_add_ops(2)));
    assert!(at(&c, c.get_mult_ops(0)));
    assert!(!at(&c, c.get_mult_ops(1)));
    let up = c.get_add_ops(1);
    local(&mut c, up);
    assert_eq!((c.query().pcount, c.query().ncount), (u32::MAX, u32::MAX));
}

#[test]
fn flags_and_sets_always_have_room() {
    let e = ew(0);
    assert!(e.local_fits(&stamped(0, &[(0, 1), (1, 0), (2, 0)], e.get_add_ops(), CrdtType::EWFlagCrdt)));
    let d = dw(0);
    assert!(d.local_fits(&stamped(0, &[(0, 1), (1, 0), (2, 0)], d.get_mult_ops(), CrdtType::DWFlagCrdt)));
    let a = aw(0);
    assert!(a.local_fits(&stamped(0, &[(0, 1), (1, 0), (2, 0)], a.get_mult_ops(i32::MAX), CrdtType::AWSetCrdt)));
    let r = rw(0);
    assert!(r.local_fits(&stamped(0, &[(0, 1), (1, 0), (2, 0)], r.get_add_ops(i32::MIN), CrdtType::RWSetCrdt)));
}

#[test]
fn pn_counter_takes_in_a_peer() {
    let mut n0 = pn(0);
    let up = n0.get_add_ops(8);
    local(&mut n0, up);
    let down = n0.get_mult_ops(3);
    let out = local(&mut n0, down);
    let mut n1 = pn(1);
    n1.process_peer_msg(out[&1].clone()).unwrap();
    assert_eq!((n1.query().pcount, n1.query().ncount), (8, 3));
    // the same batch again: duplicates, nothing changes
    n1.process_peer_msg(out[&1].clone()).unwrap();
    assert_eq!((n1.query().pcount, n1.query().ncount), (8, 3));
    assert_eq!(n1.msg_list_len(), 2);
}

#[test]
fn every_delivery_order_of_three_concurrent_updates_gives_the_same() {
    let cluster = Config::new(vec![0, 1, 2, 3], 100, 100);
    let fresh = |node: u16| -> Counter { CRDT::new(node, 0, &cluster).unwrap() };
    let mut n0 = fresh(0);
    let mut n1 = fresh(1);
    let mut n2 = fresh(2);
    let add = n0.get_add_ops(5);
    let from0 = updates_only(&local(&mut n0, add)[&3]);
    let mult = n1.get_mult_ops(3);
    let from1 = updates_only(&local(&mut n1, mult)[&3]);
    let add = n2.get_add_ops(7);
    let from2 = updates_only(&local(&mut n2, add)[&3]);
    let batches = [from0, from1, from2];
    for order in [[0, 1, 2], [0, 2, 1], [1, 0, 2], [1, 2, 0], [2, 0, 1], [2, 1, 0]] {
        let mut n3 = fresh(3);
        for at in order {
            n3.process_peer_msg(batches[at].clone()).unwrap();
        }
        assert_eq!(*n3.query(), 36, "{:?}", order);
        assert_eq!(n3.msg_list_len(), 3);
        assert_eq!(n3.trcb.node_vector_clock.vcmap[&0], 1);
        assert_eq!(n3.trcb.node_vector_clock.vcmap[&1], 1);
        assert_eq!(n3.trcb.node_vector_clock.vcmap[&2], 1);
    }
}
