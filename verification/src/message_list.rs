//! The buffer of updates that are not yet known to have reached every
//! peer, keyed by origin and by the origin's own counter.
use vstd::prelude::*;
use vstd::std_specs::cmp::PartialEqSpec;
use std::collections::HashMap;
use crate::{LCType, NodeType};
use crate::key_set::{collect_keys, held, lists_keys};
use crate::message_data::{NodeUpdateMsg, NodeUpdateMsgView, selects};
use crate::vector_clock::{
    VectorClock, VectorClockError, VCOrdering, compare_clocks, lemma_take_push_set,
};

verus! {

/// The buffer: each update under the key of its origin and origin counter.
pub type MsgList<OpsValue> = HashMap<u64, NodeUpdateMsg<OpsValue>>;

/// The key that stands for the pair of an origin and one of its counters:
/// the origin in the upper half, the counter in the lower.
pub open spec fn key_of(node: NodeType, lc: LCType) -> u64 {
    (node * 0x1_0000_0000 + lc) as u64
}

/// Different pairs have different keys.
pub proof fn lemma_key_injective(n1: NodeType, lc1: LCType, n2: NodeType, lc2: LCType)
    requires
        key_of(n1, lc1) == key_of(n2, lc2),
    ensures
        n1 == n2,
        lc1 == lc2,
{
}

/// The key of the update number `lc` of `node`.
pub fn msg_key(node: NodeType, lc: LCType) -> (k: u64)
    ensures
        k == key_of(node, lc),
{
    (node as u64) * 0x1_0000_0000 + (lc as u64)
}

/// The buffer with each update as plain mathematical data.
pub open spec fn buffer_view<OpsValue: Copy + PartialEq>(
    m: Map<u64, NodeUpdateMsg<OpsValue>>,
) -> Map<u64, NodeUpdateMsgView<OpsValue>> {
    Map::new(|k: u64| m.contains_key(k), |k: u64| m[k]@)
}

/// Every buffered update is stamped with a clock over `members`.
pub open spec fn clocks_over<OpsValue: Copy + PartialEq>(
    b: Map<u64, NodeUpdateMsgView<OpsValue>>,
    members: Set<NodeType>,
) -> bool {
    forall|k: u64| b.contains_key(k) ==> (#[trigger] b[k]).clock.dom() == members
}

/// An update stamped `msg_clock` is not yet covered by `frontier`: the
/// frontier is below the stamp somewhere, so some peer may still lack it.
pub open spec fn survives(
    frontier: Map<NodeType, LCType>,
    msg_clock: Map<NodeType, LCType>,
) -> bool {
    compare_clocks(frontier, msg_clock) == VCOrdering::VCCN || compare_clocks(frontier, msg_clock)
        == VCOrdering::VCLE
}

/// The buffer without the updates that `frontier` covers.
pub open spec fn sweep<OpsValue: Copy + PartialEq>(
    frontier: Map<NodeType, LCType>,
    b: Map<u64, NodeUpdateMsgView<OpsValue>>,
) -> Map<u64, NodeUpdateMsgView<OpsValue>> {
    Map::new(|k: u64| b.contains_key(k) && survives(frontier, b[k].clock), |k: u64| b[k])
}

/// Sweeping a second time with the same frontier removes nothing more.
pub proof fn law_sweep_idempotent<OpsValue: Copy + PartialEq>(
    frontier: Map<NodeType, LCType>,
    b: Map<u64, NodeUpdateMsgView<OpsValue>>,
)
    ensures
        sweep(frontier, sweep(frontier, b)) == sweep(frontier, b),
{
    assert(sweep(frontier, sweep(frontier, b)) =~= sweep(frontier, b));
}

/// A sweep keeps exactly the updates that the frontier does not dominate,
/// and keeps them unchanged.
pub proof fn law_sweep_retains<OpsValue: Copy + PartialEq>(
    frontier: Map<NodeType, LCType>,
    b: Map<u64, NodeUpdateMsgView<OpsValue>>,
    k: u64,
)
    requires
        b.contains_key(k),
        b[k].clock.dom() == frontier.dom(),
    ensures
        sweep(frontier, b).contains_key(k) <==> exists|n: NodeType|
            frontier.contains_key(n) && frontier[n] < b[k].clock[n],
        sweep(frontier, b).contains_key(k) ==> sweep(frontier, b)[k] == b[k],
{
    let c = b[k].clock;
    if survives(frontier, c) {
        assert(!crate::vector_clock::clock_leq(c, frontier));
        let n = choose|n: NodeType| c.contains_key(n) && !(c[n] <= frontier[n]);
        assert(frontier.dom().contains(n));
        assert(frontier.contains_key(n) && frontier[n] < c[n]);
    }
    if exists|n: NodeType| frontier.contains_key(n) && frontier[n] < c[n] {
        let n = choose|n: NodeType| frontier.contains_key(n) && frontier[n] < c[n];
        assert(c.dom().contains(n));
        assert(c.contains_key(n) && !(c[n] <= frontier[n]));
    }
}

/// Whether the buffered update `m` happened concurrently with the clock
/// `query_clock` and its operation is one that `wanted` selects.
pub open spec fn is_concurrent_match<OpsValue: Copy + PartialEq>(
    query_clock: Map<NodeType, LCType>,
    wanted: Option<OpsValue>,
    m: NodeUpdateMsgView<OpsValue>,
) -> bool {
    compare_clocks(query_clock, m.clock) == VCOrdering::VCCN && selects(
        m.update.ops_instance,
        wanted,
    )
}

/// The keys of the buffered updates that are concurrent with `query_clock`
/// and selected by `wanted`.
pub open spec fn concurrent_keys<OpsValue: Copy + PartialEq>(
    query_clock: Map<NodeType, LCType>,
    b: Map<u64, NodeUpdateMsgView<OpsValue>>,
    wanted: Option<OpsValue>,
) -> Set<u64> {
    Set::new(|k: u64| b.contains_key(k) && is_concurrent_match(query_clock, wanted, b[k]))
}

/// `list` holds the buffered updates under the keys in `order`, one for one.
pub open spec fn follows_order<OpsValue: Copy + PartialEq>(
    list: Seq<NodeUpdateMsgView<OpsValue>>,
    b: Map<u64, NodeUpdateMsgView<OpsValue>>,
    order: Seq<u64>,
) -> bool {
    &&& order.len() == list.len()
    &&& forall|i: int| 0 <= i < list.len() ==> #[trigger] list[i] == b[order[i]]
}

/// `list` holds exactly the buffered updates under `keys`, each once, in
/// some order.
pub open spec fn lists_messages<OpsValue: Copy + PartialEq>(
    list: Seq<NodeUpdateMsgView<OpsValue>>,
    b: Map<u64, NodeUpdateMsgView<OpsValue>>,
    keys: Set<u64>,
) -> bool {
    exists|order: Seq<u64>|
        {
            &&& order.no_duplicates()
            &&& forall|k: u64| order.contains(k) <==> keys.contains(k)
            &&& #[trigger] follows_order(list, b, order)
        }
}

/// The buffer without the updates that the stability frontier `cs_vc`
/// dominates: those are known to have reached every peer. An update whose
/// stamp is over other members than the frontier is refused.
pub fn remove_causally_stable<OpsValue: Copy + PartialEq>(
    cs_vc: &VectorClock,
    msg_list: &MsgList<OpsValue>,
) -> (r: Result<MsgList<OpsValue>, VectorClockError>)
    ensures
        r is Ok <==> clocks_over(buffer_view(msg_list@), cs_vc@.dom()),
        r matches Err(e) ==> e is NonCompatibleVC,
        r matches Ok(kept) ==> buffer_view(kept@) == sweep(cs_vc@, buffer_view(msg_list@)),
{
    broadcast use vstd::std_specs::hash::group_hash_axioms;

    let mut new_list: MsgList<OpsValue> = HashMap::new();
    let keys = collect_keys(msg_list);
    let ghost b = buffer_view(msg_list@);
    let mut i: usize = 0;
    while i < keys.len()
        invariant
            i <= keys.len(),
            lists_keys(keys@, msg_list@),
            b == buffer_view(msg_list@),
            forall|j: int| 0 <= j < i ==> (#[trigger] b[keys@[j]]).clock.dom() == cs_vc@.dom(),
            forall|k: u64|
                new_list@.contains_key(k) <==> (keys@.take(i as int).contains(k) && survives(
                    cs_vc@,
                    b[k].clock,
                )),
            forall|k: u64| new_list@.contains_key(k) ==> (#[trigger] new_list@[k])@ == b[k],
        decreases keys.len() - i,
    {
        let key = keys[i];
        assert(keys@.contains(key));
        proof {
            lemma_take_push_set(keys@, i as int);
        }
        let msg = held(msg_list, &key);
        let order = match cs_vc.relation_to(&msg.node_vector_clock) {
            Ok(o) => o,
            Err(e) => {
                proof {
                    assert(b.contains_key(key));
                    assert(b[key].clock.dom() != cs_vc@.dom());
                }
                return Err(e);
            },
        };
        if order == VCOrdering::VCCN || order == VCOrdering::VCLE {
            new_list.insert(key, msg.clone());
        }
        i += 1;
    }
    proof {
        assert(keys@.take(keys@.len() as int) == keys@);
        assert forall|k: u64| b.contains_key(k) implies (#[trigger] b[k]).clock.dom()
            == cs_vc@.dom() by {
            assert(keys@.contains(k));
            let j = choose|j: int| 0 <= j < keys@.len() && keys@[j] == k;
            assert(b[keys@[j]].clock.dom() == cs_vc@.dom());
        }
        assert(buffer_view(new_list@) =~= sweep(cs_vc@, b));
    }
    Ok(new_list)
}

/// The buffered updates that happened concurrently with `msg_vc` and whose
/// operation is tagged `SDPMult` and, where `check_value` is given, has
/// that operand. They come in no particular order. An update whose stamp is
/// over other members than `msg_vc` is refused.
pub fn concurrent_msg_list<OpsValue: Copy + PartialEq>(
    msg_vc: &VectorClock,
    msg_list: &MsgList<OpsValue>,
    check_value: Option<OpsValue>,
) -> (r: Result<Vec<NodeUpdateMsg<OpsValue>>, VectorClockError>)
    ensures
        r is Ok <==> clocks_over(buffer_view(msg_list@), msg_vc@.dom()),
        r matches Err(e) ==> e is NonCompatibleVC,
        r matches Ok(clist) ==> (OpsValue::obeys_eq_spec() ==> lists_messages(
            crate::message_data::update_views(clist@),
            buffer_view(msg_list@),
            concurrent_keys(msg_vc@, buffer_view(msg_list@), check_value),
        )),
{
    broadcast use vstd::std_specs::hash::group_hash_axioms;

    let mut clist: Vec<NodeUpdateMsg<OpsValue>> = Vec::new();
    let keys = collect_keys(msg_list);
    let ghost b = buffer_view(msg_list@);
    let ghost mut order: Seq<u64> = Seq::empty();
    let mut i: usize = 0;
    while i < keys.len()
        invariant
            i <= keys.len(),
            lists_keys(keys@, msg_list@),
            b == buffer_view(msg_list@),
            forall|j: int| 0 <= j < i ==> (#[trigger] b[keys@[j]]).clock.dom() == msg_vc@.dom(),
            order.no_duplicates(),
            order.len() == clist@.len(),
            forall|j: int| 0 <= j < clist@.len() ==> (#[trigger] clist@[j])@ == b[order[j]],
            forall|k: u64| order.contains(k) ==> keys@.take(i as int).contains(k),
            OpsValue::obeys_eq_spec() ==> forall|k: u64|
                order.contains(k) <==> (keys@.take(i as int).contains(k) && is_concurrent_match(
                    msg_vc@,
                    check_value,
                    b[k],
                )),
        decreases keys.len() - i,
    {
        let key = keys[i];
        assert(keys@.contains(key));
        proof {
            lemma_take_push_set(keys@, i as int);
            assert(!keys@.take(i as int).contains(key)) by {
                if keys@.take(i as int).contains(key) {
                    let j = choose|j: int|
                        0 <= j < keys@.take(i as int).len() && keys@.take(i as int)[j] == key;
                    assert(keys@[j] == keys@[i as int]);
                }
            }
        }
        let msg = held(msg_list, &key);
        let relation = match msg_vc.relation_to(&msg.node_vector_clock) {
            Ok(o) => o,
            Err(e) => {
                proof {
                    assert(b.contains_key(key));
                    assert(b[key].clock.dom() != msg_vc@.dom());
                }
                return Err(e);
            },
        };
        let concurrent = relation == VCOrdering::VCCN;
        let selected = msg.user_update_msg.ops_instance.check(&check_value);
        if concurrent && selected {
            clist.push(msg.clone());
            proof {
                let before = order;
                assert(!before.contains(key));
                order = order.push(key);
                assert(order.no_duplicates()) by {
                    assert forall|x: int, y: int|
                        0 <= x < order.len() && 0 <= y < order.len() && x != y implies order[x]
                        != order[y] by {
                        if x < before.len() {
                            assert(before.contains(before[x]));
                        }
                        if y < before.len() {
                            assert(before.contains(before[y]));
                        }
                    }
                }
                assert forall|k: u64| order.contains(k) <==> (before.contains(k) || k
                    == key) by {
                    if order.contains(k) {
                        let j = choose|j: int| 0 <= j < order.len() && order[j] == k;
                        if j < before.len() {
                            assert(before[j] == k);
                        }
                    }
                    if before.contains(k) {
                        let j = choose|j: int| 0 <= j < before.len() && before[j] == k;
                        assert(order[j] == k);
                    }
                    if k == key {
                        assert(order[before.len() as int] == k);
                    }
                }
            }
        }
        i += 1;
    }
    proof {
        assert(keys@.take(keys@.len() as int) == keys@);
        assert forall|k: u64| b.contains_key(k) implies (#[trigger] b[k]).clock.dom()
            == msg_vc@.dom() by {
            assert(keys@.contains(k));
            let j = choose|j: int| 0 <= j < keys@.len() && keys@[j] == k;
            assert(b[keys@[j]].clock.dom() == msg_vc@.dom());
        }
        if OpsValue::obeys_eq_spec() {
            let list = crate::message_data::update_views(clist@);
            let wanted = concurrent_keys(msg_vc@, b, check_value);
            assert(follows_order(list, b, order));
            assert forall|k: u64| order.contains(k) <==> wanted.contains(k) by {
                if wanted.contains(k) {
                    assert(keys@.contains(k));
                }
            }
        }
    }
    Ok(clist)
}

} // verus!
