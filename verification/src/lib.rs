//! Operation-based replicated data types kept consistent by vector clocks
//! and a tailored reliable causal broadcast layer.
//!
//! Every data type in this crate has a mathematical view, and every
//! function states what it returns or changes over those views.
use vstd::prelude::*;

pub mod key_set;
pub mod vector_clock;
pub mod trcb;
pub mod message_data;
pub mod message_list;
pub mod anti_entropy;
pub mod crdt;
pub mod constants;
pub mod add_mult_crdt;
pub mod pncnt_crdt;
pub mod edflag_crdt;
pub mod arset_crdt;
pub mod delivery_order;
pub mod node_instance;
pub mod node_state;
pub mod rand_crdt;

verus! {

/// A logical clock value: how many updates of one node have been seen.
pub type LCType = u32;

/// The identity of a cluster member.
pub type NodeType = u16;

/// The sequence number of a replicated instance on the node that made it.
pub type CRDTNumType = u16;

/// The value of the multiplicative counter.
pub type IntMultCrdtValue = i64;

/// The operand of an operation on the multiplicative counter.
pub type IntMultOpsValue = i64;

/// The value of a flag.
pub type EDFlagCrdtValue = edflag_crdt::EDFlag;

/// The operand of an operation on a flag.
pub type EDFlagOpsValue = edflag_crdt::EDFlag;

/// The operand of an operation on the positive-negative counter.
pub type PNCntOpsValue = u32;

/// The element type of the replicated sets.
pub type ARSetOpsValue = i32;

} // verus!
