//! The two sets: one on which adding an element wins over a concurrent
//! removal of it, and one on which removing wins.
use vstd::prelude::*;
use std::collections::HashSet;
use crate::ARSetOpsValue;
use crate::crdt::{
    CRDT, CrdtVariant, CrdtView, concurrent_pair, pair_commutes, taken, update_step,
    lemma_pair_engine,
};
use crate::edflag_crdt::{unopposed, lemma_empty_listing, lemma_unopposed_after};
use crate::message_data::{
    NodeUpdateMsg, NodeUpdateMsgView, OpsInstance, SDPOpsType, update_views,
};
use crate::message_list::{
    buffer_view, clocks_over, concurrent_msg_list, key_of, lemma_key_injective,
};
use crate::vector_clock::{VectorClockError, ErrorKind};

verus! {

/// Marks an instance as a set on which adding wins.
#[derive(Debug)]
pub struct AWSet;

/// Marks an instance as a set on which removing wins.
#[derive(Debug)]
pub struct RWSet;

/// The set after an update under the rule that adding wins. An `SDPMult`
/// operation adds its element. An `SDPAdd` operation removes its element
/// unless the same element was added concurrently.
pub open spec fn add_wins_merged(
    s: CrdtView<Set<ARSetOpsValue>, ARSetOpsValue>,
    m: NodeUpdateMsgView<ARSetOpsValue>,
) -> Result<Set<ARSetOpsValue>, ErrorKind> {
    let element = m.update.ops_instance.ops_value;
    match m.update.ops_instance.ops_type {
        SDPOpsType::SDPAdd => if !clocks_over(s.buffer, m.clock.dom()) {
            Err(ErrorKind::NonCompatibleVC)
        } else if unopposed(m.clock, s.buffer, Some(element)) {
            Ok(s.value.remove(element))
        } else {
            Ok(s.value)
        },
        SDPOpsType::SDPMult => Ok(s.value.insert(element)),
    }
}

/// The set after an update under the rule that removing wins. An `SDPMult`
/// operation removes its element. An `SDPAdd` operation adds its element
/// unless the same element was removed concurrently.
pub open spec fn remove_wins_merged(
    s: CrdtView<Set<ARSetOpsValue>, ARSetOpsValue>,
    m: NodeUpdateMsgView<ARSetOpsValue>,
) -> Result<Set<ARSetOpsValue>, ErrorKind> {
    let element = m.update.ops_instance.ops_value;
    match m.update.ops_instance.ops_type {
        SDPOpsType::SDPAdd => if !clocks_over(s.buffer, m.clock.dom()) {
            Err(ErrorKind::NonCompatibleVC)
        } else if unopposed(m.clock, s.buffer, Some(element)) {
            Ok(s.value.insert(element))
        } else {
            Ok(s.value)
        },
        SDPOpsType::SDPMult => Ok(s.value.remove(element)),
    }
}

impl CrdtVariant for AWSet {
    type Value = HashSet<ARSetOpsValue>;

    type Ops = ARSetOpsValue;

    open spec fn merged(
        s: CrdtView<Set<ARSetOpsValue>, ARSetOpsValue>,
        m: NodeUpdateMsgView<ARSetOpsValue>,
    ) -> Result<Set<ARSetOpsValue>, ErrorKind> {
        add_wins_merged(s, m)
    }

    /// A set has room for every element.
    open spec fn merge_fits(
        s: CrdtView<Set<ARSetOpsValue>, ARSetOpsValue>,
        m: NodeUpdateMsgView<ARSetOpsValue>,
    ) -> bool {
        true
    }

    proof fn operands_compare() {
    }

    proof fn fits_when_buffered(
        s: CrdtView<Set<ARSetOpsValue>, ARSetOpsValue>,
        u: NodeUpdateMsgView<ARSetOpsValue>,
    ) {
    }

    fn fits(
        crdt: &CRDT<HashSet<ARSetOpsValue>, ARSetOpsValue, AWSet>,
        msg: &NodeUpdateMsg<ARSetOpsValue>,
    ) -> (r: bool) {
        true
    }

    fn merge(
        crdt: &mut CRDT<HashSet<ARSetOpsValue>, ARSetOpsValue, AWSet>,
        msg: &NodeUpdateMsg<ARSetOpsValue>,
    ) -> (r: Result<(), VectorClockError>) {
        broadcast use vstd::std_specs::hash::group_hash_axioms;

        let value = msg.user_update_msg.ops_instance.ops_value;
        match msg.user_update_msg.ops_instance.ops_type {
            SDPOpsType::SDPAdd => {
                let wanted = crdt.get_option_value(value);
                let clist = match concurrent_msg_list(
                    &msg.node_vector_clock,
                    &crdt.msg_list,
                    wanted,
                ) {
                    Ok(l) => l,
                    Err(e) => {
                        return Err(e);
                    },
                };
                proof {
                    lemma_empty_listing(
                        update_views(clist@),
                        msg@.clock,
                        buffer_view(crdt.msg_list@),
                        wanted,
                    );
                }
                if clist.len() == 0 {
                    crdt.crdt_value.remove(&value);
                }
            },
            SDPOpsType::SDPMult => {
                crdt.crdt_value.insert(value);
            },
        }
        Ok(())
    }
}

impl CrdtVariant for RWSet {
    type Value = HashSet<ARSetOpsValue>;

    type Ops = ARSetOpsValue;

    open spec fn merged(
        s: CrdtView<Set<ARSetOpsValue>, ARSetOpsValue>,
        m: NodeUpdateMsgView<ARSetOpsValue>,
    ) -> Result<Set<ARSetOpsValue>, ErrorKind> {
        remove_wins_merged(s, m)
    }

    /// A set has room for every element.
    open spec fn merge_fits(
        s: CrdtView<Set<ARSetOpsValue>, ARSetOpsValue>,
        m: NodeUpdateMsgView<ARSetOpsValue>,
    ) -> bool {
        true
    }

    proof fn operands_compare() {
    }

    proof fn fits_when_buffered(
        s: CrdtView<Set<ARSetOpsValue>, ARSetOpsValue>,
        u: NodeUpdateMsgView<ARSetOpsValue>,
    ) {
    }

    fn fits(
        crdt: &CRDT<HashSet<ARSetOpsValue>, ARSetOpsValue, RWSet>,
        msg: &NodeUpdateMsg<ARSetOpsValue>,
    ) -> (r: bool) {
        true
    }

    fn merge(
        crdt: &mut CRDT<HashSet<ARSetOpsValue>, ARSetOpsValue, RWSet>,
        msg: &NodeUpdateMsg<ARSetOpsValue>,
    ) -> (r: Result<(), VectorClockError>) {
        broadcast use vstd::std_specs::hash::group_hash_axioms;

        let value = msg.user_update_msg.ops_instance.ops_value;
        match msg.user_update_msg.ops_instance.ops_type {
            SDPOpsType::SDPAdd => {
                let wanted = crdt.get_option_value(value);
                let clist = match concurrent_msg_list(
                    &msg.node_vector_clock,
                    &crdt.msg_list,
                    wanted,
                ) {
                    Ok(l) => l,
                    Err(e) => {
                        return Err(e);
                    },
                };
                proof {
                    lemma_empty_listing(
                        update_views(clist@),
                        msg@.clock,
                        buffer_view(crdt.msg_list@),
                        wanted,
                    );
                }
                if clist.len() == 0 {
                    crdt.crdt_value.insert(value);
                }
            },
            SDPOpsType::SDPMult => {
                crdt.crdt_value.remove(&value);
            },
        }
        Ok(())
    }
}

impl CRDT<HashSet<ARSetOpsValue>, ARSetOpsValue, AWSet> {
    /// Which operand a concurrent operation must have to count: the
    /// element in question.
    pub fn get_option_value(&self, value: ARSetOpsValue) -> (r: Option<ARSetOpsValue>)
        ensures
            r == Some(value),
    {
        Some(value)
    }

    /// The operation that removes `value`.
    pub fn get_add_ops(&self, value: ARSetOpsValue) -> (r: OpsInstance<ARSetOpsValue>)
        ensures
            r.ops_type == SDPOpsType::SDPAdd,
            r.ops_value == value,
    {
        OpsInstance::new(SDPOpsType::SDPAdd, value)
    }

    /// The operation that adds `value`.
    pub fn get_mult_ops(&self, value: ARSetOpsValue) -> (r: OpsInstance<ARSetOpsValue>)
        ensures
            r.ops_type == SDPOpsType::SDPMult,
            r.ops_value == value,
    {
        OpsInstance::new(SDPOpsType::SDPMult, value)
    }
}

impl CRDT<HashSet<ARSetOpsValue>, ARSetOpsValue, RWSet> {
    /// Which operand a concurrent operation must have to count: the
    /// element in question.
    pub fn get_option_value(&self, value: ARSetOpsValue) -> (r: Option<ARSetOpsValue>)
        ensures
            r == Some(value),
    {
        Some(value)
    }

    /// The operation that adds `value`.
    pub fn get_add_ops(&self, value: ARSetOpsValue) -> (r: OpsInstance<ARSetOpsValue>)
        ensures
            r.ops_type == SDPOpsType::SDPAdd,
            r.ops_value == value,
    {
        OpsInstance::new(SDPOpsType::SDPAdd, value)
    }

    /// The operation that removes `value`.
    pub fn get_mult_ops(&self, value: ARSetOpsValue) -> (r: OpsInstance<ARSetOpsValue>)
        ensures
            r.ops_type == SDPOpsType::SDPMult,
            r.ops_value == value,
    {
        OpsInstance::new(SDPOpsType::SDPMult, value)
    }
}

/// What the buffer holds while two concurrent updates are taken in, in
/// either order, and what that does to whether each of them is opposed.
proof fn lemma_set_pair_buffers<K: CrdtVariant<Value = HashSet<ARSetOpsValue>, Ops = ARSetOpsValue>>(
    s: CrdtView<Set<ARSetOpsValue>, ARSetOpsValue>,
    x: NodeUpdateMsgView<ARSetOpsValue>,
    y: NodeUpdateMsgView<ARSetOpsValue>,
)
    requires
        concurrent_pair(s, x, y),
        K::merged(update_step(s, x)->Ok_0, x) is Ok,
        K::merged(update_step(s, y)->Ok_0, y) is Ok,
    ensures
        ({
            let ex = Some(x.update.ops_instance.ops_value);
            let ey = Some(y.update.ops_instance.ops_value);
            let bx = update_step(s, x)->Ok_0.buffer;
            let by = update_step(s, y)->Ok_0.buffer;
            let bxy = update_step(taken::<K>(s, x), y)->Ok_0.buffer;
            let byx = update_step(taken::<K>(s, y), x)->Ok_0.buffer;
            &&& clocks_over(bx, x.clock.dom())
            &&& clocks_over(by, x.clock.dom())
            &&& clocks_over(bxy, x.clock.dom())
            &&& clocks_over(byx, x.clock.dom())
            &&& unopposed(x.clock, bx, ex) == unopposed(x.clock, s.buffer, ex)
            &&& unopposed(y.clock, by, ey) == unopposed(y.clock, s.buffer, ey)
            &&& unopposed(y.clock, bxy, ey) == (unopposed(y.clock, s.buffer, ey)
                && !crate::message_list::is_concurrent_match(y.clock, ey, x))
            &&& unopposed(x.clock, byx, ex) == (unopposed(x.clock, s.buffer, ex)
                && !crate::message_list::is_concurrent_match(x.clock, ex, y))
        }),
{
    crate::vector_clock::law_compare_mirror(x.clock, y.clock);
    let ex = Some(x.update.ops_instance.ops_value);
    let ey = Some(y.update.ops_instance.ops_value);
    let kx = key_of(x.node, x.origin_clock());
    let ky = key_of(y.node, y.origin_clock());
    if kx == ky {
        lemma_key_injective(x.node, x.origin_clock(), y.node, y.origin_clock());
    }
    let b = s.buffer;
    let bx = update_step(s, x)->Ok_0.buffer;
    assert(bx == b.insert(kx, x));
    lemma_unopposed_after(x.clock, b, kx, x, ex);
    let bxy = update_step(taken::<K>(s, x), y)->Ok_0.buffer;
    assert(bxy == bx.insert(ky, y));
    lemma_unopposed_after(y.clock, b, kx, x, ey);
    lemma_unopposed_after(y.clock, bx, ky, y, ey);
    let by = update_step(s, y)->Ok_0.buffer;
    assert(by == b.insert(ky, y));
    lemma_unopposed_after(y.clock, b, ky, y, ey);
    let byx = update_step(taken::<K>(s, y), x)->Ok_0.buffer;
    assert(byx == by.insert(kx, x));
    lemma_unopposed_after(x.clock, b, ky, y, ex);
    lemma_unopposed_after(x.clock, by, kx, x, ex);
}

/// Two updates of the set on which adding wins that happened concurrently
/// leave an instance the same in whichever order the two are delivered.
pub proof fn law_add_wins_updates_commute(
    s: CrdtView<Set<ARSetOpsValue>, ARSetOpsValue>,
    x: NodeUpdateMsgView<ARSetOpsValue>,
    y: NodeUpdateMsgView<ARSetOpsValue>,
)
    requires
        concurrent_pair(s, x, y),
    ensures
        pair_commutes::<AWSet>(s, x, y),
{
    assert(clocks_over(update_step(s, x)->Ok_0.buffer, x.clock.dom()));
    assert(clocks_over(update_step(s, y)->Ok_0.buffer, y.clock.dom()));
    lemma_set_pair_buffers::<AWSet>(s, x, y);
    let vxy = AWSet::merged(update_step(taken::<AWSet>(s, x), y)->Ok_0, y)->Ok_0;
    let vyx = AWSet::merged(update_step(taken::<AWSet>(s, y), x)->Ok_0, x)->Ok_0;
    assert(vxy =~= vyx);
    lemma_pair_engine::<AWSet>(s, x, y);
}

/// Two updates of the set on which removing wins that happened
/// concurrently leave an instance the same in whichever order the two are
/// delivered.
pub proof fn law_remove_wins_updates_commute(
    s: CrdtView<Set<ARSetOpsValue>, ARSetOpsValue>,
    x: NodeUpdateMsgView<ARSetOpsValue>,
    y: NodeUpdateMsgView<ARSetOpsValue>,
)
    requires
        concurrent_pair(s, x, y),
    ensures
        pair_commutes::<RWSet>(s, x, y),
{
    assert(clocks_over(update_step(s, x)->Ok_0.buffer, x.clock.dom()));
    assert(clocks_over(update_step(s, y)->Ok_0.buffer, y.clock.dom()));
    lemma_set_pair_buffers::<RWSet>(s, x, y);
    let vxy = RWSet::merged(update_step(taken::<RWSet>(s, x), y)->Ok_0, y)->Ok_0;
    let vyx = RWSet::merged(update_step(taken::<RWSet>(s, y), x)->Ok_0, x)->Ok_0;
    assert(vxy =~= vyx);
    lemma_pair_engine::<RWSet>(s, x, y);
}

} // verus!
