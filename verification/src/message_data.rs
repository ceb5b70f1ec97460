//! The messages that nodes exchange: operations, stamped updates and clock
//! summaries.
use vstd::prelude::*;
use vstd::std_specs::cmp::PartialEqSpec;
use crate::{LCType, NodeType};
use crate::vector_clock::{VectorClock, VCOrdering};
use crate::crdt::CrdtInstance;

verus! {

/// The tag of an operation. What each tag means is up to the data type
/// that it is applied to.
#[derive(Debug, Clone, Copy, PartialEq, Eq, Structural)]
pub enum SDPOpsType {
    SDPAdd,
    SDPMult,
}

/// One operation: its tag and its operand.
#[derive(Debug)]
pub struct OpsInstance<OpsValue: Copy + PartialEq> {
    pub ops_type: SDPOpsType,
    pub ops_value: OpsValue,
}

impl<OpsValue: Copy + PartialEq> Clone for OpsInstance<OpsValue> {
    fn clone(&self) -> (r: Self)
        ensures
            r == *self,
    {
        *self
    }
}

impl<OpsValue: Copy + PartialEq> Copy for OpsInstance<OpsValue> {

}

/// Whether `ops` is tagged `SDPMult` and, where an operand is `wanted`,
/// has that operand.
pub open spec fn selects<OpsValue: Copy + PartialEq>(
    ops: OpsInstance<OpsValue>,
    wanted: Option<OpsValue>,
) -> bool {
    ops.ops_type == SDPOpsType::SDPMult && match wanted {
        Some(value) => value.eq_spec(&ops.ops_value),
        None => true,
    }
}

impl<OpsValue: Copy + PartialEq> OpsInstance<OpsValue> {
    pub fn new(ops_type: SDPOpsType, ops_value: OpsValue) -> (r: Self)
        ensures
            r.ops_type == ops_type,
            r.ops_value == ops_value,
    {
        Self { ops_type, ops_value }
    }

    /// Whether this operation is tagged `SDPMult` and matches
    /// `check_value`, where one is given.
    pub fn check(&self, check_value: &Option<OpsValue>) -> (r: bool)
        ensures
            OpsValue::obeys_eq_spec() ==> r == selects(*self, *check_value),
    {
        self.ops_type == SDPOpsType::SDPMult && match check_value {
            Some(value) => *value == self.ops_value,
            None => true,
        }
    }
}

/// An operation together with the replicated instance it is meant for.
#[derive(Debug)]
pub struct UserUpdateMsg<OpsValue: Copy + PartialEq> {
    pub crdt_instance: CrdtInstance,
    pub ops_instance: OpsInstance<OpsValue>,
}

impl<OpsValue: Copy + PartialEq> Clone for UserUpdateMsg<OpsValue> {
    fn clone(&self) -> (r: Self)
        ensures
            r == *self,
    {
        *self
    }
}

impl<OpsValue: Copy + PartialEq> Copy for UserUpdateMsg<OpsValue> {

}

impl<OpsValue: Copy + PartialEq> UserUpdateMsg<OpsValue> {
    pub fn new(crdt_instance: CrdtInstance, ops_instance: OpsInstance<OpsValue>) -> (r: Self)
        ensures
            r.crdt_instance == crdt_instance,
            r.ops_instance == ops_instance,
    {
        Self { crdt_instance, ops_instance }
    }
}

/// An update as its origin sent it: the origin, the origin's clock when it
/// issued the update, and the operation.
#[derive(Debug)]
pub struct NodeUpdateMsg<OpsValue: Copy + PartialEq> {
    pub node: NodeType,
    pub node_vector_clock: VectorClock,
    pub user_update_msg: UserUpdateMsg<OpsValue>,
}

/// A stamped update as plain mathematical data.
pub struct NodeUpdateMsgView<OpsValue: Copy + PartialEq> {
    pub node: NodeType,
    pub clock: Map<NodeType, LCType>,
    pub update: UserUpdateMsg<OpsValue>,
}

impl<OpsValue: Copy + PartialEq> NodeUpdateMsgView<OpsValue> {
    /// The origin's own counter in the stamp: the number of this update
    /// among those of its origin.
    pub open spec fn origin_clock(self) -> LCType {
        self.clock[self.node]
    }
}

impl<OpsValue: Copy + PartialEq> View for NodeUpdateMsg<OpsValue> {
    type V = NodeUpdateMsgView<OpsValue>;

    open spec fn view(&self) -> NodeUpdateMsgView<OpsValue> {
        NodeUpdateMsgView {
            node: self.node,
            clock: self.node_vector_clock@,
            update: self.user_update_msg,
        }
    }
}

impl<OpsValue: Copy + PartialEq> Clone for NodeUpdateMsg<OpsValue> {
    fn clone(&self) -> (r: Self)
        ensures
            r@ == self@,
    {
        NodeUpdateMsg {
            node: self.node,
            node_vector_clock: self.node_vector_clock.clone(),
            user_update_msg: self.user_update_msg,
        }
    }
}

/// Two stamped updates say the same: same origin, same stamp, same
/// instance, same operation.
pub open spec fn same_payload<OpsValue: Copy + PartialEq>(
    a: NodeUpdateMsgView<OpsValue>,
    b: NodeUpdateMsgView<OpsValue>,
) -> bool {
    &&& a.node == b.node
    &&& a.clock == b.clock
    &&& a.update.crdt_instance == b.update.crdt_instance
    &&& a.update.ops_instance.ops_type == b.update.ops_instance.ops_type
    &&& a.update.ops_instance.ops_value.eq_spec(&b.update.ops_instance.ops_value)
}

impl<OpsValue: Copy + PartialEq> NodeUpdateMsg<OpsValue> {
    /// Whether this update and `other` say the same.
    pub fn same_as(&self, other: &Self) -> (r: bool)
        ensures
            OpsValue::obeys_eq_spec() ==> r == same_payload(self@, other@),
    {
        let same_clock = match self.node_vector_clock.relation_to(&other.node_vector_clock) {
            Ok(o) => o == VCOrdering::VCEQ,
            Err(_) => false,
        };
        proof {
            if same_clock {
                assert(self@.clock =~= other@.clock);
            }
        }
        same_clock && self.node == other.node && self.user_update_msg.crdt_instance
            == other.user_update_msg.crdt_instance && self.user_update_msg.ops_instance.ops_type
            == other.user_update_msg.ops_instance.ops_type
            && self.user_update_msg.ops_instance.ops_value
            == other.user_update_msg.ops_instance.ops_value
    }

    pub fn new(
        node: NodeType,
        node_vector_clock: VectorClock,
        user_update_msg: UserUpdateMsg<OpsValue>,
    ) -> (r: Self)
        ensures
            r.node == node,
            r.node_vector_clock == node_vector_clock,
            r.user_update_msg == user_update_msg,
    {
        Self { node, node_vector_clock, user_update_msg }
    }
}

/// A clock summary: a node tells its clock without an update.
#[derive(Debug)]
pub struct NodeVectorClockMsg {
    pub node: NodeType,
    pub node_vector_clock: VectorClock,
}

/// A clock summary as plain mathematical data.
pub struct NodeVectorClockMsgView {
    pub node: NodeType,
    pub clock: Map<NodeType, LCType>,
}

impl View for NodeVectorClockMsg {
    type V = NodeVectorClockMsgView;

    open spec fn view(&self) -> NodeVectorClockMsgView {
        NodeVectorClockMsgView { node: self.node, clock: self.node_vector_clock@ }
    }
}

impl Clone for NodeVectorClockMsg {
    fn clone(&self) -> (r: Self)
        ensures
            r@ == self@,
    {
        NodeVectorClockMsg { node: self.node, node_vector_clock: self.node_vector_clock.clone() }
    }
}

impl NodeVectorClockMsg {
    pub fn new(node: NodeType, node_vector_clock: VectorClock) -> (r: Self)
        ensures
            r.node == node,
            r.node_vector_clock == node_vector_clock,
    {
        Self { node, node_vector_clock }
    }
}

/// What one node sends to another: a clock summary or a stamped update.
#[derive(Debug)]
pub enum PeerNodeMsg<OpsValue: Copy + PartialEq> {
    VectorClockNodeMsg(NodeVectorClockMsg),
    UpdateNodeMsg(NodeUpdateMsg<OpsValue>),
}

/// A message between nodes as plain mathematical data.
pub enum PeerNodeMsgView<OpsValue: Copy + PartialEq> {
    VectorClockNodeMsg(NodeVectorClockMsgView),
    UpdateNodeMsg(NodeUpdateMsgView<OpsValue>),
}

impl<OpsValue: Copy + PartialEq> View for PeerNodeMsg<OpsValue> {
    type V = PeerNodeMsgView<OpsValue>;

    open spec fn view(&self) -> PeerNodeMsgView<OpsValue> {
        match self {
            PeerNodeMsg::VectorClockNodeMsg(m) => PeerNodeMsgView::VectorClockNodeMsg(m@),
            PeerNodeMsg::UpdateNodeMsg(m) => PeerNodeMsgView::UpdateNodeMsg(m@),
        }
    }
}

impl<OpsValue: Copy + PartialEq> Clone for PeerNodeMsg<OpsValue> {
    fn clone(&self) -> (r: Self)
        ensures
            r@ == self@,
    {
        match self {
            PeerNodeMsg::VectorClockNodeMsg(m) => PeerNodeMsg::VectorClockNodeMsg(m.clone()),
            PeerNodeMsg::UpdateNodeMsg(m) => PeerNodeMsg::UpdateNodeMsg(m.clone()),
        }
    }
}

/// A list of messages, each as plain mathematical data.
pub open spec fn peer_msg_views<OpsValue: Copy + PartialEq>(
    msgs: Seq<PeerNodeMsg<OpsValue>>,
) -> Seq<PeerNodeMsgView<OpsValue>> {
    msgs.map_values(|m: PeerNodeMsg<OpsValue>| m@)
}

/// A list of updates, each as plain mathematical data.
pub open spec fn update_views<OpsValue: Copy + PartialEq>(
    msgs: Seq<NodeUpdateMsg<OpsValue>>,
) -> Seq<NodeUpdateMsgView<OpsValue>> {
    msgs.map_values(|m: NodeUpdateMsg<OpsValue>| m@)
}

} // verus!
