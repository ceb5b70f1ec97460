//! One node with one instance of each replicated data type.
use vstd::prelude::*;
use std::collections::HashSet;
use crate::{
    ARSetOpsValue, EDFlagCrdtValue, EDFlagOpsValue, IntMultCrdtValue, IntMultOpsValue, NodeType,
    PNCntOpsValue,
};
use crate::add_mult_crdt::AddMult;
use crate::arset_crdt::{AWSet, RWSet};
use crate::constants::Config;
use crate::crdt::{CRDT, initial_instance};
use crate::edflag_crdt::{DWFlag, EDFlag, EWFlag};
use crate::pncnt_crdt::{PNCounter, PNCounterData};
use crate::vector_clock::VectorClockError;

verus! {

/// A node and its replicated instances, one of each kind.
#[derive(Debug)]
pub struct NodeInstance {
    pub node: NodeType,
    pub add_mult_crdt: CRDT<IntMultCrdtValue, IntMultOpsValue, AddMult>,
    pub ewflag_crdt: CRDT<EDFlagCrdtValue, EDFlagOpsValue, EWFlag>,
    pub dwflag_crdt: CRDT<EDFlagCrdtValue, EDFlagOpsValue, DWFlag>,
    pub awset_crdt: CRDT<HashSet<ARSetOpsValue>, ARSetOpsValue, AWSet>,
    pub rwset_crdt: CRDT<HashSet<ARSetOpsValue>, ARSetOpsValue, RWSet>,
    pub pncnt_crdt: CRDT<PNCounterData, PNCntOpsValue, PNCounter>,
}

impl NodeInstance {
    /// The instances of `node`, each at its starting value: the counter at
    /// zero, the flag on which enabling wins enabled, the other disabled,
    /// both sets empty, both accumulators at zero. A node outside the
    /// cluster of `config` is refused.
    pub fn new(node: NodeType, config: &Config) -> (r: Result<Self, VectorClockError>)
        ensures
            r is Ok <==> config.node_list@.contains(node),
            r matches Err(e) ==> e matches VectorClockError::InconsistentInputTRBC(n, l) && n
                == node && l@ == config.node_list@,
            r matches Ok(ni) ==> {
                let members = config.node_list@.to_set();
                let vc = config.max_msg_count_vc;
                let cs = config.max_msg_count_cs;
                &&& ni.node == node
                &&& ni.add_mult_crdt@ == initial_instance::<IntMultCrdtValue, IntMultOpsValue>(
                    node,
                    members,
                    0,
                    vc,
                    cs,
                )
                &&& ni.ewflag_crdt@ == initial_instance::<EDFlag, EDFlag>(
                    node,
                    members,
                    EDFlag::Enabled,
                    vc,
                    cs,
                )
                &&& ni.dwflag_crdt@ == initial_instance::<EDFlag, EDFlag>(
                    node,
                    members,
                    EDFlag::Disabled,
                    vc,
                    cs,
                )
                &&& ni.awset_crdt@ == initial_instance::<Set<ARSetOpsValue>, ARSetOpsValue>(
                    node,
                    members,
                    Set::empty(),
                    vc,
                    cs,
                )
                &&& ni.rwset_crdt@ == initial_instance::<Set<ARSetOpsValue>, ARSetOpsValue>(
                    node,
                    members,
                    Set::empty(),
                    vc,
                    cs,
                )
                &&& ni.pncnt_crdt@ == initial_instance::<PNCounterData, PNCntOpsValue>(
                    node,
                    members,
                    PNCounterData { pcount: 0, ncount: 0 },
                    vc,
                    cs,
                )
            },
    {
        let add_mult_crdt: CRDT<IntMultCrdtValue, IntMultOpsValue, AddMult> = match CRDT::new(
            node,
            0,
            config,
        ) {
            Ok(c) => c,
            Err(e) => {
                return Err(e);
            },
        };
        let ewflag_crdt: CRDT<EDFlagCrdtValue, EDFlagOpsValue, EWFlag> = match CRDT::new(
            node,
            EDFlag::Enabled,
            config,
        ) {
            Ok(c) => c,
            Err(e) => {
                return Err(e);
            },
        };
        let dwflag_crdt: CRDT<EDFlagCrdtValue, EDFlagOpsValue, DWFlag> = match CRDT::new(
            node,
            EDFlag::Disabled,
            config,
        ) {
            Ok(c) => c,
            Err(e) => {
                return Err(e);
            },
        };
        let awset_crdt: CRDT<HashSet<ARSetOpsValue>, ARSetOpsValue, AWSet> = match CRDT::new(
            node,
            HashSet::<ARSetOpsValue>::new(),
            config,
        ) {
            Ok(c) => c,
            Err(e) => {
                return Err(e);
            },
        };
        let rwset_crdt: CRDT<HashSet<ARSetOpsValue>, ARSetOpsValue, RWSet> = match CRDT::new(
            node,
            HashSet::<ARSetOpsValue>::new(),
            config,
        ) {
            Ok(c) => c,
            Err(e) => {
                return Err(e);
            },
        };
        let pncnt_crdt: CRDT<PNCounterData, PNCntOpsValue, PNCounter> = match CRDT::new(
            node,
            PNCounterData::new(),
            config,
        ) {
            Ok(c) => c,
            Err(e) => {
                return Err(e);
            },
        };
        Ok(
            Self {
                node,
                add_mult_crdt,
                ewflag_crdt,
                dwflag_crdt,
                awset_crdt,
                rwset_crdt,
                pncnt_crdt,
            },
        )
    }
}

} // verus!
