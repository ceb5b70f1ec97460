//! The positive-negative counter: one accumulator for what was added and
//! one for what was taken away.
use vstd::prelude::*;
use vstd::wrapping::u32_specs;
use crate::PNCntOpsValue;
use crate::crdt::{CRDT, CrdtVariant, CrdtView, concurrent_pair, pair_commutes, lemma_pair_engine};
use crate::message_data::{NodeUpdateMsg, NodeUpdateMsgView, OpsInstance, SDPOpsType};
use crate::vector_clock::{VectorClockError, ErrorKind};

verus! {

/// Marks an instance as a positive-negative counter.
#[derive(Debug)]
pub struct PNCounter;

/// The two accumulators. The counter's value is the first less the second.
#[derive(Debug, Clone, Copy)]
pub struct PNCounterData {
    pub pcount: PNCntOpsValue,
    pub ncount: PNCntOpsValue,
}

impl View for PNCounterData {
    type V = PNCounterData;

    open spec fn view(&self) -> PNCounterData {
        *self
    }
}

impl PNCounterData {
    /// Both accumulators at zero.
    pub fn new() -> (r: Self)
        ensures
            r.pcount == 0,
            r.ncount == 0,
    {
        Self { pcount: 0, ncount: 0 }
    }
}

/// The accumulators after one operation: `SDPAdd` raises the positive
/// one by the operand, `SDPMult` the negative one. Where an accumulator has
/// no room for the operand it wraps around.
pub open spec fn counted(
    value: PNCounterData,
    ops: OpsInstance<PNCntOpsValue>,
) -> PNCounterData {
    match ops.ops_type {
        SDPOpsType::SDPAdd => PNCounterData {
            pcount: u32_specs::wrapping_add(value.pcount, ops.ops_value),
            ncount: value.ncount,
        },
        SDPOpsType::SDPMult => PNCounterData {
            pcount: value.pcount,
            ncount: u32_specs::wrapping_add(value.ncount, ops.ops_value),
        },
    }
}

impl CrdtVariant for PNCounter {
    type Value = PNCounterData;

    type Ops = PNCntOpsValue;

    open spec fn merged(
        s: CrdtView<PNCounterData, PNCntOpsValue>,
        m: NodeUpdateMsgView<PNCntOpsValue>,
    ) -> Result<PNCounterData, ErrorKind> {
        Ok(counted(s.value, m.update.ops_instance))
    }

    /// The accumulator that the operation raises has room for the operand.
    open spec fn merge_fits(
        s: CrdtView<PNCounterData, PNCntOpsValue>,
        m: NodeUpdateMsgView<PNCntOpsValue>,
    ) -> bool {
        match m.update.ops_instance.ops_type {
            SDPOpsType::SDPAdd => s.value.pcount + m.update.ops_instance.ops_value
                <= PNCntOpsValue::MAX,
            SDPOpsType::SDPMult => s.value.ncount + m.update.ops_instance.ops_value
                <= PNCntOpsValue::MAX,
        }
    }

    proof fn operands_compare() {
    }

    proof fn fits_when_buffered(
        s: CrdtView<PNCounterData, PNCntOpsValue>,
        u: NodeUpdateMsgView<PNCntOpsValue>,
    ) {
    }

    fn fits(
        crdt: &CRDT<PNCounterData, PNCntOpsValue, PNCounter>,
        msg: &NodeUpdateMsg<PNCntOpsValue>,
    ) -> (r: bool) {
        let operand = msg.user_update_msg.ops_instance.ops_value;
        match msg.user_update_msg.ops_instance.ops_type {
            SDPOpsType::SDPAdd => operand <= PNCntOpsValue::MAX - crdt.crdt_value.pcount,
            SDPOpsType::SDPMult => operand <= PNCntOpsValue::MAX - crdt.crdt_value.ncount,
        }
    }

    fn merge(
        crdt: &mut CRDT<PNCounterData, PNCntOpsValue, PNCounter>,
        msg: &NodeUpdateMsg<PNCntOpsValue>,
    ) -> (r: Result<(), VectorClockError>) {
        let operand = msg.user_update_msg.ops_instance.ops_value;
        match msg.user_update_msg.ops_instance.ops_type {
            SDPOpsType::SDPAdd => {
                crdt.crdt_value = PNCounterData {
                    pcount: crdt.crdt_value.pcount + operand,
                    ncount: crdt.crdt_value.ncount,
                };
            },
            SDPOpsType::SDPMult => {
                crdt.crdt_value = PNCounterData {
                    pcount: crdt.crdt_value.pcount,
                    ncount: crdt.crdt_value.ncount + operand,
                };
            },
        }
        Ok(())
    }
}

impl CRDT<PNCounterData, PNCntOpsValue, PNCounter> {
    /// The operation that adds `value`.
    pub fn get_add_ops(&self, value: PNCntOpsValue) -> (r: OpsInstance<PNCntOpsValue>)
        ensures
            r.ops_type == SDPOpsType::SDPAdd,
            r.ops_value == value,
    {
        OpsInstance::new(SDPOpsType::SDPAdd, value)
    }

    /// The operation that takes `value` away.
    pub fn get_mult_ops(&self, value: PNCntOpsValue) -> (r: OpsInstance<PNCntOpsValue>)
        ensures
            r.ops_type == SDPOpsType::SDPMult,
            r.ops_value == value,
    {
        OpsInstance::new(SDPOpsType::SDPMult, value)
    }
}

/// Two updates of the positive-negative counter that happened
/// concurrently leave an instance the same in whichever order the two are
/// delivered.
pub proof fn law_pn_updates_commute(
    s: CrdtView<PNCounterData, PNCntOpsValue>,
    x: NodeUpdateMsgView<PNCntOpsValue>,
    y: NodeUpdateMsgView<PNCntOpsValue>,
)
    requires
        concurrent_pair(s, x, y),
    ensures
        pair_commutes::<PNCounter>(s, x, y),
{
    lemma_pair_engine::<PNCounter>(s, x, y);
}

} // verus!
