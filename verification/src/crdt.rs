//! The engine that all replicated data types share.
use vstd::prelude::*;
use vstd::std_specs::cmp::PartialEqSpec;
use std::collections::HashMap;
use std::marker::PhantomData;
use crate::{CRDTNumType, NodeType};
use crate::constants::Config;
use crate::trcb::{
    TRCBData, TRCBView, initial_tracker, advance_own, accept_update, accept_summary,
    beliefs_complete, stability_frontier,
};
use crate::vector_clock::{VectorClock, VectorClockError, VCStatus, ErrorKind, delivery_status};
use crate::message_data::{
    NodeUpdateMsg, NodeUpdateMsgView, NodeVectorClockMsg, NodeVectorClockMsgView, UserUpdateMsg,
    PeerNodeMsg, PeerNodeMsgView, peer_msg_views, same_payload,
};
use crate::anti_entropy::{PeerMsgMap, batch_views, clock_due, is_peer_msg_map, replay_gap};
use crate::message_list::{
    MsgList, buffer_view, key_of, msg_key, clocks_over, sweep, remove_causally_stable,
};

verus! {

/// The replicated data types that there are.
#[derive(Debug, Clone, Copy, PartialEq, Eq, Structural)]
pub enum CrdtType {
    AddMultCrdt,
    EWFlagCrdt,
    DWFlagCrdt,
    AWSetCrdt,
    RWSetCrdt,
    PNCounterCrdt,
}

/// The identity of one replicated instance: the node that made it, its
/// number on that node, and its data type.
#[derive(Debug, Clone, Copy, PartialEq, Eq, Structural)]
pub struct CrdtInstance {
    pub instance_node_id: NodeType,
    pub instance_num: CRDTNumType,
    pub instance_type: CrdtType,
}

impl CrdtInstance {
    pub fn new(
        instance_node_id: NodeType,
        instance_num: CRDTNumType,
        instance_type: CrdtType,
    ) -> (r: Self)
        ensures
            r.instance_node_id == instance_node_id,
            r.instance_num == instance_num,
            r.instance_type == instance_type,
    {
        Self { instance_node_id, instance_num, instance_type }
    }

    /// The first instance of a data type on node 0.
    pub fn new_default(instance_type: CrdtType) -> (r: Self)
        ensures
            r.instance_node_id == 0,
            r.instance_num == 0,
            r.instance_type == instance_type,
    {
        Self { instance_node_id: 0, instance_num: 0, instance_type }
    }
}

/// One replicated instance on one node: the broadcast tracker, the buffer
/// of updates that may still have to be sent again, the current value, and
/// the two counters with their thresholds. `State` says which data type
/// the instance is, and so what its operations mean.
#[derive(Debug)]
pub struct CRDT<CrdtValue, OpsValue: Copy + PartialEq, State> {
    pub trcb: TRCBData,
    pub msg_list: MsgList<OpsValue>,
    pub crdt_value: CrdtValue,
    /// After how many peer updates a clock summary is due.
    pub max_msg_count_vc: u16,
    /// After how many messages the buffer is swept.
    pub max_msg_count_cs: u16,
    /// Peer updates since the last clock summary went out.
    pub msg_count_vc: u16,
    /// Messages since the buffer was last swept.
    pub msg_count_cs: u16,
    pub state: PhantomData<State>,
}

/// An instance as plain mathematical data.
pub struct CrdtView<Val, OpsValue: Copy + PartialEq> {
    pub trcb: TRCBView,
    pub buffer: Map<u64, NodeUpdateMsgView<OpsValue>>,
    pub value: Val,
    pub max_msg_count_vc: u16,
    pub max_msg_count_cs: u16,
    pub msg_count_vc: u16,
    pub msg_count_cs: u16,
}

impl<CrdtValue: View, OpsValue: Copy + PartialEq, State> View for CRDT<CrdtValue, OpsValue, State> {
    type V = CrdtView<CrdtValue::V, OpsValue>;

    open spec fn view(&self) -> CrdtView<CrdtValue::V, OpsValue> {
        CrdtView {
            trcb: self.trcb@,
            buffer: buffer_view(self.msg_list@),
            value: self.crdt_value@,
            max_msg_count_vc: self.max_msg_count_vc,
            max_msg_count_cs: self.max_msg_count_cs,
            msg_count_vc: self.msg_count_vc,
            msg_count_cs: self.msg_count_cs,
        }
    }
}

/// The instance of `node` in the cluster `members`, before anything
/// happened.
pub open spec fn initial_instance<Val, OpsValue: Copy + PartialEq>(
    node: NodeType,
    members: Set<NodeType>,
    value: Val,
    max_msg_count_vc: u16,
    max_msg_count_cs: u16,
) -> CrdtView<Val, OpsValue> {
    CrdtView {
        trcb: initial_tracker(node, members),
        buffer: Map::empty(),
        value,
        max_msg_count_vc,
        max_msg_count_cs,
        msg_count_vc: 0,
        msg_count_cs: 0,
    }
}

/// The instance after `m` was put into the buffer under its origin and
/// origin counter. A stamp without an entry for the origin is refused, and
/// so is an update that would take the place of a different one.
pub open spec fn buffered<Val, OpsValue: Copy + PartialEq>(
    s: CrdtView<Val, OpsValue>,
    m: NodeUpdateMsgView<OpsValue>,
) -> Result<CrdtView<Val, OpsValue>, ErrorKind> {
    let key = key_of(m.node, m.origin_clock());
    if !m.clock.contains_key(m.node) {
        Err(ErrorKind::NodeNotFound)
    } else if s.buffer.contains_key(key) && !same_payload(s.buffer[key], m) {
        Err(ErrorKind::UnexpectedError)
    } else {
        Ok(CrdtView { buffer: s.buffer.insert(key, m), ..s })
    }
}

/// The instance after the stability check: where the sweep is due, the
/// updates that the stability frontier covers leave the buffer and the
/// counter starts again.
pub open spec fn stability_step<Val, OpsValue: Copy + PartialEq>(
    s: CrdtView<Val, OpsValue>,
) -> Result<CrdtView<Val, OpsValue>, ErrorKind> {
    if s.msg_count_cs >= s.max_msg_count_cs {
        if !beliefs_complete(s.trcb) {
            Err(ErrorKind::UnexpectedError)
        } else if !clocks_over(s.buffer, s.trcb.clock.dom()) {
            Err(ErrorKind::NonCompatibleVC)
        } else {
            Ok(
                CrdtView {
                    buffer: sweep(stability_frontier(s.trcb), s.buffer),
                    msg_count_cs: 0,
                    ..s
                },
            )
        }
    } else {
        Ok(s)
    }
}

/// One more than a counter, as long as it fits.
pub open spec fn bump(count: u16) -> u16 {
    (count + 1) as u16
}

/// The engine's part in a local update `m` whose effect on the value is
/// already in: the summary counter starts again, the update is buffered,
/// and the stability check runs.
pub open spec fn local_step<Val, OpsValue: Copy + PartialEq>(
    s: CrdtView<Val, OpsValue>,
    m: NodeUpdateMsgView<OpsValue>,
) -> Result<CrdtView<Val, OpsValue>, ErrorKind> {
    match buffered(CrdtView { msg_count_vc: 0, msg_count_cs: bump(s.msg_count_cs), ..s }, m) {
        Ok(s1) => stability_step(s1),
        Err(e) => Err(e),
    }
}

/// The engine's part in an update `m` that a peer sent: it counts towards
/// the next clock summary; if it is the next one from its origin it is
/// buffered and the tracker moves on, otherwise nothing else changes.
pub open spec fn update_step<Val, OpsValue: Copy + PartialEq>(
    s: CrdtView<Val, OpsValue>,
    m: NodeUpdateMsgView<OpsValue>,
) -> Result<CrdtView<Val, OpsValue>, ErrorKind> {
    let s1 = CrdtView { msg_count_vc: bump(s.msg_count_vc), ..s };
    if !(s.trcb.clock.contains_key(m.node) && m.clock.contains_key(m.node)) {
        Err(ErrorKind::NodeNotFound)
    } else if delivery_status(s.trcb.clock[m.node], m.clock[m.node]) == VCStatus::INORDER {
        match buffered(CrdtView { msg_count_cs: bump(s.msg_count_cs), ..s1 }, m) {
            Ok(s2) => Ok(CrdtView { trcb: accept_update(s2.trcb, m.node, m.clock), ..s2 }),
            Err(e) => Err(e),
        }
    } else {
        Ok(s1)
    }
}

/// The engine's part in a clock summary `m` that a peer sent: the belief
/// about that peer rises, and the stability check runs.
pub open spec fn summary_step<Val, OpsValue: Copy + PartialEq>(
    s: CrdtView<Val, OpsValue>,
    m: NodeVectorClockMsgView,
) -> Result<CrdtView<Val, OpsValue>, ErrorKind> {
    if !s.trcb.beliefs.contains_key(m.node) {
        Err(ErrorKind::NodeNotFound)
    } else if s.trcb.beliefs[m.node].dom() != m.clock.dom() {
        Err(ErrorKind::NonCompatibleVC)
    } else {
        stability_step(
            CrdtView {
                trcb: accept_summary(s.trcb, m.node, m.clock),
                msg_count_cs: bump(s.msg_count_cs),
                ..s
            },
        )
    }
}

/// The update `m` is the next one of its origin for the instance `s`.
pub open spec fn arrives_in_order<Val, OpsValue: Copy + PartialEq>(
    s: CrdtView<Val, OpsValue>,
    m: NodeUpdateMsgView<OpsValue>,
) -> bool {
    &&& s.trcb.clock.contains_key(m.node)
    &&& m.clock.contains_key(m.node)
    &&& delivery_status(s.trcb.clock[m.node], m.clock[m.node]) == VCStatus::INORDER
}

/// The counters have room for an update `m` of a peer: one more towards
/// the next clock summary and, if it is the next one of its origin, one
/// more towards the next sweep.
pub open spec fn update_fits<Val, OpsValue: Copy + PartialEq>(
    s: CrdtView<Val, OpsValue>,
    m: NodeUpdateMsgView<OpsValue>,
) -> bool {
    &&& s.msg_count_vc < u16::MAX
    &&& arrives_in_order(s, m) ==> s.msg_count_cs < u16::MAX
}

/// The counters have room for a clock summary `m` of a peer: one more
/// towards the next sweep, unless the tracker refuses the summary.
pub open spec fn summary_fits<Val, OpsValue: Copy + PartialEq>(
    s: CrdtView<Val, OpsValue>,
    m: NodeVectorClockMsgView,
) -> bool {
    s.trcb.beliefs.contains_key(m.node) && s.trcb.beliefs[m.node].dom() == m.clock.dom()
        ==> s.msg_count_cs < u16::MAX
}

/// What a refused update of a peer leaves behind: it was counted towards
/// the next clock summary, and towards the next sweep if it was the next
/// one of its origin.
pub open spec fn stalled_update<Val, OpsValue: Copy + PartialEq>(
    s: CrdtView<Val, OpsValue>,
    m: NodeUpdateMsgView<OpsValue>,
) -> CrdtView<Val, OpsValue> {
    let s1 = CrdtView { msg_count_vc: bump(s.msg_count_vc), ..s };
    if !(s.trcb.clock.contains_key(m.node) && m.clock.contains_key(m.node)) {
        s1
    } else {
        CrdtView { msg_count_cs: bump(s.msg_count_cs), ..s1 }
    }
}

/// What a refused clock summary leaves behind: nothing where the tracker
/// refused it; the raised belief and the count where the sweep was
/// refused.
pub open spec fn stalled_summary<Val, OpsValue: Copy + PartialEq>(
    s: CrdtView<Val, OpsValue>,
    m: NodeVectorClockMsgView,
) -> CrdtView<Val, OpsValue> {
    if !s.trcb.beliefs.contains_key(m.node) || s.trcb.beliefs[m.node].dom() != m.clock.dom() {
        s
    } else {
        CrdtView {
            trcb: accept_summary(s.trcb, m.node, m.clock),
            msg_count_cs: bump(s.msg_count_cs),
            ..s
        }
    }
}

/// What the engine's part in a refused local update leaves behind: the
/// counters moved, and the update is buffered unless that was what was
/// refused.
pub open spec fn stalled_local_step<Val, OpsValue: Copy + PartialEq>(
    s: CrdtView<Val, OpsValue>,
    m: NodeUpdateMsgView<OpsValue>,
) -> CrdtView<Val, OpsValue> {
    let s1 = CrdtView { msg_count_vc: 0, msg_count_cs: bump(s.msg_count_cs), ..s };
    match buffered(s1, m) {
        Ok(s2) => s2,
        Err(_) => s1,
    }
}

/// What a call that returned `r` and left the instance as `after` has to
/// do with what the model says, `expected`: success with the expected
/// instance, or the expected kind of refusal with the instance left as
/// `stalled`.
pub open spec fn outcome_is<T, Val, OpsValue: Copy + PartialEq>(
    r: Result<T, VectorClockError>,
    after: CrdtView<Val, OpsValue>,
    expected: Result<CrdtView<Val, OpsValue>, ErrorKind>,
    stalled: CrdtView<Val, OpsValue>,
) -> bool {
    match r {
        Ok(_) => expected == Ok::<CrdtView<Val, OpsValue>, ErrorKind>(after),
        Err(e) => expected == Err::<CrdtView<Val, OpsValue>, ErrorKind>(e.kind()) && after
            == stalled,
    }
}

impl<CrdtValue: View, OpsValue: Copy + PartialEq, State> CRDT<CrdtValue, OpsValue, State> {
    /// A fresh instance on `node` with the value `crdt_value`, for the
    /// cluster and thresholds of `config`. A node outside the cluster is
    /// refused.
    pub fn new(node: NodeType, crdt_value: CrdtValue, config: &Config) -> (r: Result<
        Self,
        VectorClockError,
    >)
        ensures
            r is Ok <==> config.node_list@.contains(node),
            r matches Err(e) ==> e matches VectorClockError::InconsistentInputTRBC(n, l) && n
                == node && l@ == config.node_list@,
            r matches Ok(c) ==> c@ == initial_instance::<CrdtValue::V, OpsValue>(
                node,
                config.node_list@.to_set(),
                crdt_value@,
                config.max_msg_count_vc,
                config.max_msg_count_cs,
            ),
    {
        let trcb = match TRCBData::new(node, config.members()) {
            Ok(t) => t,
            Err(e) => {
                return Err(e);
            },
        };
        let msg_list: MsgList<OpsValue> = HashMap::new();
        let c = Self {
            trcb,
            msg_list,
            crdt_value,
            max_msg_count_vc: config.max_msg_count_vc,
            max_msg_count_cs: config.max_msg_count_cs,
            msg_count_vc: 0,
            msg_count_cs: 0,
            state: PhantomData,
        };
        proof {
            assert(c@.buffer =~= Map::empty());
        }
        Ok(c)
    }

    /// Advances the own counter by one and hands out the new clock.
    pub fn next_vc(&mut self) -> (r: Result<VectorClock, VectorClockError>)
        requires
            old(self)@.trcb.clock.contains_key(old(self)@.trcb.node) ==> old(
                self,
            )@.trcb.clock[old(self)@.trcb.node] < crate::LCType::MAX,
        ensures
            r is Ok <==> old(self)@.trcb.clock.contains_key(old(self)@.trcb.node),
            r matches Err(e) ==> e is NodeNotFound && final(self)@ == old(self)@,
            r matches Ok(vc) ==> final(self)@ == (CrdtView {
                trcb: advance_own(old(self)@.trcb),
                ..old(self)@
            }) && vc@ == final(self)@.trcb.clock,
    {
        self.trcb.next_vc()
    }

    /// The node that this instance lives on.
    pub fn get_node(&self) -> (node: NodeType)
        ensures
            node == self@.trcb.node,
    {
        self.trcb.node
    }

    /// Stamps a local operation: the own counter advances by one, and the
    /// update carries the new clock.
    pub fn create_local_msg(&mut self, user_update_msg: UserUpdateMsg<OpsValue>) -> (r: Result<
        NodeUpdateMsg<OpsValue>,
        VectorClockError,
    >)
        requires
            old(self)@.trcb.clock.contains_key(old(self)@.trcb.node) ==> old(
                self,
            )@.trcb.clock[old(self)@.trcb.node] < crate::LCType::MAX,
        ensures
            r is Ok <==> old(self)@.trcb.clock.contains_key(old(self)@.trcb.node),
            r matches Err(e) ==> e is NodeNotFound && final(self)@ == old(self)@,
            r matches Ok(msg) ==> final(self)@ == (CrdtView {
                trcb: advance_own(old(self)@.trcb),
                ..old(self)@
            }) && msg@ == (NodeUpdateMsgView {
                node: old(self)@.trcb.node,
                clock: final(self)@.trcb.clock,
                update: user_update_msg,
            }),
    {
        let node = self.get_node();
        let node_vector_clock = match self.next_vc() {
            Ok(vc) => vc,
            Err(e) => {
                return Err(e);
            },
        };
        Ok(NodeUpdateMsg::new(node, node_vector_clock, user_update_msg))
    }

    /// Puts `msg` into the buffer under its origin and origin counter. A
    /// stamp without an entry for the origin is refused; so is an update
    /// that would take the place of a different one under the same key.
    /// Nothing changes where it is refused.
    pub fn add_msg(&mut self, msg: NodeUpdateMsg<OpsValue>) -> (r: Result<(), VectorClockError>)
        ensures
            OpsValue::obeys_eq_spec() ==> outcome_is(
                r,
                final(self)@,
                buffered(old(self)@, msg@),
                old(self)@,
            ),
            r is Err ==> final(self)@ == old(self)@,
    {
        broadcast use vstd::std_specs::hash::group_hash_axioms;

        let lc = match msg.node_vector_clock.vcmap.get(&msg.node) {
            Some(lc) => *lc,
            None => {
                return Err(VectorClockError::NodeNotFound);
            },
        };
        let key = msg_key(msg.node, lc);
        let collides = match self.msg_list.get(&key) {
            Some(present) => !present.same_as(&msg),
            None => false,
        };
        if collides {
            return Err(
                VectorClockError::UnexpectedError("a different update holds this key".to_owned()),
            );
        }
        self.msg_list.insert(key, msg);
        proof {
            assert(final(self)@.buffer =~= old(self)@.buffer.insert(key, msg@));
        }
        Ok(())
    }

    /// The stability check: where the sweep is due, the updates that the
    /// stability frontier covers leave the buffer and the counter starts
    /// again. Nothing changes where it is refused.
    pub fn causally_stable(&mut self) -> (r: Result<(), VectorClockError>)
        ensures
            outcome_is(r, final(self)@, stability_step(old(self)@), old(self)@),
    {
        if self.msg_count_cs >= self.max_msg_count_cs {
            let cs_vc = match self.trcb.causally_stable() {
                Ok(vc) => vc,
                Err(e) => {
                    return Err(e);
                },
            };
            proof {
                assert(cs_vc@.dom() =~= self@.trcb.clock.dom());
            }
            let new_list = match remove_causally_stable(&cs_vc, &self.msg_list) {
                Ok(l) => l,
                Err(e) => {
                    return Err(e);
                },
            };
            self.msg_list = new_list;
            self.msg_count_cs = 0;
        }
        Ok(())
    }

    /// Takes in an update that a peer sent and says how it stands to what
    /// was delivered from its origin. It counts towards the next clock
    /// summary; if it is the next one it is buffered and the tracker moves
    /// on. Where the call is refused the counters have moved all the same.
    pub fn general_process_peer_msg(&mut self, msg: NodeUpdateMsg<OpsValue>) -> (r: Result<
        VCStatus,
        VectorClockError,
    >)
        requires
            update_fits(old(self)@, msg@),
        ensures
            OpsValue::obeys_eq_spec() ==> outcome_is(
                r,
                final(self)@,
                update_step(old(self)@, msg@),
                stalled_update(old(self)@, msg@),
            ),
            r matches Ok(st) ==> st == delivery_status(
                old(self)@.trcb.clock[msg.node],
                msg@.clock[msg.node],
            ),
    {
        self.msg_count_vc += 1;
        let vc_ord = match self.trcb.node_vector_clock.check_vc(msg.node, &msg.node_vector_clock) {
            Ok(o) => o,
            Err(e) => {
                return Err(e);
            },
        };
        let vc_status = crate::vector_clock::peer_vc_status(vc_ord);
        if vc_status == VCStatus::INORDER {
            self.msg_count_cs += 1;
            let node = msg.node;
            let clock = msg.node_vector_clock.clone();
            match self.add_msg(msg) {
                Ok(()) => {},
                Err(e) => {
                    return Err(e);
                },
            }
            match self.trcb.add_peer_vc(node, clock) {
                Ok(_) => {},
                Err(e) => {
                    return Err(e);
                },
            }
        }
        Ok(vc_status)
    }

    /// Takes in a clock summary that a peer sent: the belief about that
    /// peer rises, and the stability check runs. Where the stability check
    /// is refused the belief has risen all the same.
    pub fn general_process_vc_msg(&mut self, msg: NodeVectorClockMsg) -> (r: Result<
        (),
        VectorClockError,
    >)
        requires
            summary_fits(old(self)@, msg@),
        ensures
            outcome_is(
                r,
                final(self)@,
                summary_step(old(self)@, msg@),
                stalled_summary(old(self)@, msg@),
            ),
    {
        match self.trcb.add_peer_vcmsg(msg.node, msg.node_vector_clock) {
            Ok(()) => {},
            Err(e) => {
                return Err(e);
            },
        }
        self.msg_count_cs += 1;
        self.causally_stable()
    }

    /// The current value.
    pub fn query(&self) -> (value: &CrdtValue)
        ensures
            *value == self.crdt_value,
    {
        &self.crdt_value
    }

    /// The number of buffered updates.
    pub fn msg_list_len(&self) -> (n: usize)
        ensures
            n == self@.buffer.len(),
    {
        broadcast use vstd::std_specs::hash::group_hash_axioms;

        proof {
            assert(self@.buffer.dom() =~= self.msg_list@.dom());
        }
        self.msg_list.len()
    }
}

/// What tells one replicated data type from another: the type of its
/// value, the type of its operands, and what an operation does to the
/// value.
pub trait CrdtVariant: Sized {
    type Value: View;

    type Ops: Copy + PartialEq;

    /// The value after the update `m` was applied to the instance `s`.
    /// Refused where the buffer has to be searched and holds a stamp over
    /// other members than that of `m`.
    spec fn merged(
        s: CrdtView<<Self::Value as View>::V, Self::Ops>,
        m: NodeUpdateMsgView<Self::Ops>,
    ) -> Result<<Self::Value as View>::V, ErrorKind>;

    /// What the update `m` makes of the value of `s` lies in the range of
    /// the value's type. Where it does not, `merged` wraps around, so that
    /// it says something of every update; what computes asks that it fits.
    spec fn merge_fits(
        s: CrdtView<<Self::Value as View>::V, Self::Ops>,
        m: NodeUpdateMsgView<Self::Ops>,
    ) -> bool;

    /// Operands are compared for what they are.
    proof fn operands_compare()
        ensures
            <Self::Ops as PartialEqSpec>::obeys_eq_spec(),
    ;

    /// Whether the effect of an update fits does not change when the
    /// update itself is buffered.
    proof fn fits_when_buffered(
        s: CrdtView<<Self::Value as View>::V, Self::Ops>,
        u: NodeUpdateMsgView<Self::Ops>,
    )
        requires
            s.buffer.dom().finite(),
            update_step(s, u) is Ok,
            arrives_in_order(s, u),
        ensures
            Self::merge_fits(update_step(s, u)->Ok_0, u) == Self::merge_fits(s, u),
    ;

    /// Whether what the update `msg` makes of the value of `crdt` lies in
    /// the range of the value's type.
    fn fits(crdt: &CRDT<Self::Value, Self::Ops, Self>, msg: &NodeUpdateMsg<Self::Ops>) -> (r: bool)
        ensures
            r == Self::merge_fits(crdt@, msg@),
    ;

    /// Applies the update `msg` to the value of `crdt`, which must have
    /// room for the result. Nothing changes where it is refused.
    fn merge(crdt: &mut CRDT<Self::Value, Self::Ops, Self>, msg: &NodeUpdateMsg<Self::Ops>) -> (r:
        Result<(), VectorClockError>)
        requires
            Self::merge_fits(old(crdt)@, msg@),
        ensures
            match Self::merged(old(crdt)@, msg@) {
                Ok(v) => r is Ok && final(crdt)@ == (CrdtView { value: v, ..old(crdt)@ }),
                Err(k) => r matches Err(e) && e.kind() == k && final(crdt)@ == old(crdt)@,
            },
    ;
}

/// The instance after a local update `m`: its effect on the value, then
/// the engine's part.
pub open spec fn local_update<K: CrdtVariant>(
    s: CrdtView<<K::Value as View>::V, K::Ops>,
    m: NodeUpdateMsgView<K::Ops>,
) -> Result<CrdtView<<K::Value as View>::V, K::Ops>, ErrorKind> {
    match K::merged(s, m) {
        Ok(v) => local_step(CrdtView { value: v, ..s }, m),
        Err(e) => Err(e),
    }
}

/// The instance after one message `m` of a peer: a clock summary goes to
/// the tracker; an update goes through the engine and, if it was the next
/// one from its origin, takes effect on the value.
pub open spec fn peer_msg_step<K: CrdtVariant>(
    s: CrdtView<<K::Value as View>::V, K::Ops>,
    m: PeerNodeMsgView<K::Ops>,
) -> Result<CrdtView<<K::Value as View>::V, K::Ops>, ErrorKind> {
    match m {
        PeerNodeMsgView::VectorClockNodeMsg(c) => summary_step(s, c),
        PeerNodeMsgView::UpdateNodeMsg(u) => match update_step(s, u) {
            Ok(s1) => if s.trcb.clock.contains_key(u.node) && delivery_status(
                s.trcb.clock[u.node],
                u.clock[u.node],
            ) == VCStatus::INORDER {
                match K::merged(s1, u) {
                    Ok(v) => Ok(CrdtView { value: v, ..s1 }),
                    Err(e) => Err(e),
                }
            } else {
                Ok(s1)
            },
            Err(e) => Err(e),
        },
    }
}

/// The instance after the messages of `batch`, one after the other; the
/// first refusal ends it.
pub open spec fn peer_batch_steps<K: CrdtVariant>(
    s: CrdtView<<K::Value as View>::V, K::Ops>,
    batch: Seq<PeerNodeMsgView<K::Ops>>,
) -> Result<CrdtView<<K::Value as View>::V, K::Ops>, ErrorKind>
    decreases batch.len(),
{
    if batch.len() == 0 {
        Ok(s)
    } else {
        match peer_msg_step::<K>(s, batch[0]) {
            Ok(s1) => peer_batch_steps::<K>(s1, batch.drop_first()),
            Err(e) => Err(e),
        }
    }
}

/// The instance after a batch of a peer and the stability check that
/// follows it.
pub open spec fn peer_batch_result<K: CrdtVariant>(
    s: CrdtView<<K::Value as View>::V, K::Ops>,
    batch: Seq<PeerNodeMsgView<K::Ops>>,
) -> Result<CrdtView<<K::Value as View>::V, K::Ops>, ErrorKind> {
    match peer_batch_steps::<K>(s, batch) {
        Ok(s1) => stability_step(s1),
        Err(e) => Err(e),
    }
}

/// The instance after it told its clock where that was due and there was
/// a peer to tell: the summary counter starts again.
pub open spec fn heartbeat_sent<Val, OpsValue: Copy + PartialEq>(
    s: CrdtView<Val, OpsValue>,
) -> CrdtView<Val, OpsValue> {
    if clock_due(s, false) && s.trcb.beliefs.len() > 0 {
        CrdtView { msg_count_vc: 0, ..s }
    } else {
        s
    }
}

/// What a refused local update leaves behind: nothing where its effect
/// on the value was refused, else the new value and what the engine's part
/// left.
pub open spec fn stalled_local<K: CrdtVariant>(
    s: CrdtView<<K::Value as View>::V, K::Ops>,
    m: NodeUpdateMsgView<K::Ops>,
) -> CrdtView<<K::Value as View>::V, K::Ops> {
    match K::merged(s, m) {
        Ok(v) => stalled_local_step(CrdtView { value: v, ..s }, m),
        Err(_) => s,
    }
}

/// What a refused message of a peer leaves behind.
pub open spec fn stalled_peer_msg<K: CrdtVariant>(
    s: CrdtView<<K::Value as View>::V, K::Ops>,
    m: PeerNodeMsgView<K::Ops>,
) -> CrdtView<<K::Value as View>::V, K::Ops> {
    match m {
        PeerNodeMsgView::VectorClockNodeMsg(c) => stalled_summary(s, c),
        PeerNodeMsgView::UpdateNodeMsg(u) => match update_step(s, u) {
            Ok(s1) => s1,
            Err(_) => stalled_update(s, u),
        },
    }
}

/// What a refused batch leaves behind: what its messages before the
/// refused one made of the instance, and what the refused one left.
pub open spec fn stalled_batch<K: CrdtVariant>(
    s: CrdtView<<K::Value as View>::V, K::Ops>,
    batch: Seq<PeerNodeMsgView<K::Ops>>,
) -> CrdtView<<K::Value as View>::V, K::Ops>
    decreases batch.len(),
{
    if batch.len() == 0 {
        s
    } else {
        match peer_msg_step::<K>(s, batch[0]) {
            Ok(s1) => stalled_batch::<K>(s1, batch.drop_first()),
            Err(_) => stalled_peer_msg::<K>(s, batch[0]),
        }
    }
}

/// The counters have room for one message of a peer, and so has the value
/// for what the message makes of it.
pub open spec fn peer_msg_fits<K: CrdtVariant>(
    s: CrdtView<<K::Value as View>::V, K::Ops>,
    m: PeerNodeMsgView<K::Ops>,
) -> bool {
    match m {
        PeerNodeMsgView::VectorClockNodeMsg(c) => summary_fits(s, c),
        PeerNodeMsgView::UpdateNodeMsg(u) => {
            &&& update_fits(s, u)
            &&& arrives_in_order(s, u) && update_step(s, u) is Ok ==> K::merge_fits(
                update_step(s, u)->Ok_0,
                u,
            )
        },
    }
}

/// The counters and the value have room for every message of `batch` at
/// the time it is taken in.
pub open spec fn batch_fits<K: CrdtVariant>(
    s: CrdtView<<K::Value as View>::V, K::Ops>,
    batch: Seq<PeerNodeMsgView<K::Ops>>,
) -> bool
    decreases batch.len(),
{
    batch.len() == 0 || (peer_msg_fits::<K>(s, batch[0]) && match peer_msg_step::<K>(
        s,
        batch[0],
    ) {
        Ok(s1) => batch_fits::<K>(s1, batch.drop_first()),
        Err(_) => true,
    })
}

/// On a data type whose value has room for whatever comes, there is room
/// for a batch that is no longer than what is left to either counter.
pub proof fn lemma_short_batch_fits<K: CrdtVariant>(
    s: CrdtView<<K::Value as View>::V, K::Ops>,
    batch: Seq<PeerNodeMsgView<K::Ops>>,
)
    requires
        s.msg_count_vc + batch.len() <= u16::MAX,
        s.msg_count_cs + batch.len() <= u16::MAX,
        forall|t: CrdtView<<K::Value as View>::V, K::Ops>, m: NodeUpdateMsgView<K::Ops>|
            #[trigger] K::merge_fits(t, m),
    ensures
        batch_fits::<K>(s, batch),
    decreases batch.len(),
{
    if batch.len() > 0 {
        if let Ok(s1) = peer_msg_step::<K>(s, batch[0]) {
            lemma_short_batch_fits::<K>(s1, batch.drop_first());
        }
    }
}

/// What a call that pushes to the peers has to do with what the model
/// says, `expected`. Where the model refuses, so does the call, and the
/// instance is left as `stalled`. Where the model gives an instance, that
/// is how the call left it, and the call returns what goes out, or is
/// refused because something to send again has left the buffer.
pub open spec fn push_outcome<Val, OpsValue: Copy + PartialEq>(
    r: Result<PeerMsgMap<OpsValue>, VectorClockError>,
    after: CrdtView<Val, OpsValue>,
    expected: Result<CrdtView<Val, OpsValue>, ErrorKind>,
    stalled: CrdtView<Val, OpsValue>,
) -> bool {
    match expected {
        Err(k) => r matches Err(e) && e.kind() == k && after == stalled,
        Ok(s) => after == s && match r {
            Ok(out) => !replay_gap(s) && is_peer_msg_map(batch_views(out@), s, true),
            Err(e) => replay_gap(s) && e.kind() == ErrorKind::UnexpectedError,
        },
    }
}

/// What a call that takes in a batch has to do with what the model says,
/// `expected`. Where the model refuses, so does the call, and the instance
/// is left as `stalled`. Where the model gives an instance, the call
/// returns what goes out from it, and leaves it with the summary counter
/// started again if something went out.
pub open spec fn batch_outcome<Val, OpsValue: Copy + PartialEq>(
    r: Result<PeerMsgMap<OpsValue>, VectorClockError>,
    after: CrdtView<Val, OpsValue>,
    expected: Result<CrdtView<Val, OpsValue>, ErrorKind>,
    stalled: CrdtView<Val, OpsValue>,
) -> bool {
    match expected {
        Err(k) => r matches Err(e) && e.kind() == k && after == stalled,
        Ok(s) => r matches Ok(out) && is_peer_msg_map(batch_views(out@), s, false) && after
            == heartbeat_sent(s),
    }
}

impl<CrdtValue: View, OpsValue: Copy + PartialEq, State> CRDT<CrdtValue, OpsValue, State> {
    /// The engine's part in a local update whose effect on the value is
    /// already in: the summary counter starts again, the update is
    /// buffered, the stability check runs, and a full push to the peers is
    /// built. Where the call is refused, what was done before stays.
    pub fn general_process_local_msg(&mut self, msg: NodeUpdateMsg<OpsValue>) -> (r: Result<
        PeerMsgMap<OpsValue>,
        VectorClockError,
    >)
        requires
            old(self).msg_count_cs < u16::MAX,
        ensures
            OpsValue::obeys_eq_spec() ==> push_outcome(
                r,
                final(self)@,
                local_step(old(self)@, msg@),
                stalled_local_step(old(self)@, msg@),
            ),
    {
        self.msg_count_vc = 0;
        self.msg_count_cs += 1;
        match self.add_msg(msg) {
            Ok(()) => {},
            Err(e) => {
                return Err(e);
            },
        }
        match self.causally_stable() {
            Ok(()) => {},
            Err(e) => {
                return Err(e);
            },
        }
        self.create_peer_msg_list(true)
    }
}

/// Taking the first message of a batch, then the rest, is taking the batch.
pub proof fn lemma_batch_unfold<K: CrdtVariant>(
    s: CrdtView<<K::Value as View>::V, K::Ops>,
    batch: Seq<PeerNodeMsgView<K::Ops>>,
    i: int,
)
    requires
        0 <= i < batch.len(),
    ensures
        peer_batch_steps::<K>(s, batch.skip(i)) == match peer_msg_step::<K>(s, batch[i]) {
            Ok(s1) => peer_batch_steps::<K>(s1, batch.skip(i + 1)),
            Err(e) => Err(e),
        },
        stalled_batch::<K>(s, batch.skip(i)) == match peer_msg_step::<K>(s, batch[i]) {
            Ok(s1) => stalled_batch::<K>(s1, batch.skip(i + 1)),
            Err(_) => stalled_peer_msg::<K>(s, batch[i]),
        },
        batch_fits::<K>(s, batch.skip(i)) == (peer_msg_fits::<K>(s, batch[i])
            && match peer_msg_step::<K>(s, batch[i]) {
            Ok(s1) => batch_fits::<K>(s1, batch.skip(i + 1)),
            Err(_) => true,
        }),
{
    assert(batch.skip(i)[0] == batch[i]);
    assert(batch.skip(i).drop_first() =~= batch.skip(i + 1));
}

impl<K: CrdtVariant> CRDT<K::Value, K::Ops, K> {
    /// Applies the update `msg` to the value, as the data type has it. The
    /// value must have room for the result. Nothing changes where the
    /// update is refused.
    pub fn process_msg(&mut self, msg: &NodeUpdateMsg<K::Ops>) -> (r: Result<(), VectorClockError>)
        requires
            K::merge_fits(old(self)@, msg@),
        ensures
            match K::merged(old(self)@, msg@) {
                Ok(v) => r is Ok && final(self)@ == (CrdtView { value: v, ..old(self)@ }),
                Err(k) => r matches Err(e) && e.kind() == k && final(self)@ == old(self)@,
            },
    {
        K::merge(self, msg)
    }

    /// Takes in a local update that `create_local_msg` stamped: it takes
    /// effect on the value, is buffered, and a full push to the peers comes
    /// back. The value and the sweep counter must have room for what the
    /// update makes of them. Where the call is refused, what was done
    /// before stays.
    pub fn process_local_msg(&mut self, msg: NodeUpdateMsg<K::Ops>) -> (r: Result<
        PeerMsgMap<K::Ops>,
        VectorClockError,
    >)
        requires
            K::merge_fits(old(self)@, msg@),
            K::merged(old(self)@, msg@) is Ok ==> old(self).msg_count_cs < u16::MAX,
        ensures
            push_outcome(
                r,
                final(self)@,
                local_update::<K>(old(self)@, msg@),
                stalled_local::<K>(old(self)@, msg@),
            ),
    {
        proof {
            K::operands_compare();
        }
        match self.process_msg(&msg) {
            Ok(()) => {},
            Err(e) => {
                return Err(e);
            },
        }
        self.general_process_local_msg(msg)
    }

    /// Takes in what a peer sent, message by message in the order given.
    /// A clock summary raises the belief about the peer. An update that is
    /// the next one from its origin is buffered and takes effect on the
    /// value; any other update is dropped. Then the stability check runs,
    /// and where a clock summary is due it comes back, one for each peer.
    /// The first refusal ends the call, and what was taken in before it
    /// stays. The counters and the value must have room for what the batch
    /// makes of them.
    pub fn process_peer_msg(&mut self, pmsg_list: Vec<PeerNodeMsg<K::Ops>>) -> (r: Result<
        PeerMsgMap<K::Ops>,
        VectorClockError,
    >)
        requires
            batch_fits::<K>(old(self)@, peer_msg_views(pmsg_list@)),
        ensures
            batch_outcome(
                r,
                final(self)@,
                peer_batch_result::<K>(old(self)@, peer_msg_views(pmsg_list@)),
                stalled_batch::<K>(old(self)@, peer_msg_views(pmsg_list@)),
            ),
    {
        broadcast use vstd::std_specs::hash::group_hash_axioms;

        proof {
            K::operands_compare();
        }
        let ghost batch = peer_msg_views(pmsg_list@);
        let ghost start = self@;
        let mut i: usize = 0;
        proof {
            assert(batch.skip(0) =~= batch);
        }
        while i < pmsg_list.len()
            invariant
                i <= pmsg_list.len(),
                start == old(self)@,
                batch == peer_msg_views(pmsg_list@),
                <K::Ops as PartialEqSpec>::obeys_eq_spec(),
                batch_fits::<K>(self@, batch.skip(i as int)),
                peer_batch_steps::<K>(start, batch) == peer_batch_steps::<K>(
                    self@,
                    batch.skip(i as int),
                ),
                stalled_batch::<K>(start, batch) == stalled_batch::<K>(self@, batch.skip(i as int)),
            decreases pmsg_list.len() - i,
        {
            proof {
                lemma_batch_unfold::<K>(self@, batch, i as int);
                assert(batch[i as int] == pmsg_list@[i as int]@);
            }
            match &pmsg_list[i] {
                PeerNodeMsg::VectorClockNodeMsg(vmsg) => {
                    match self.general_process_vc_msg(vmsg.clone()) {
                        Ok(()) => {},
                        Err(e) => {
                            return Err(e);
                        },
                    }
                },
                PeerNodeMsg::UpdateNodeMsg(umsg) => {
                    let vc_status = match self.general_process_peer_msg(umsg.clone()) {
                        Ok(st) => st,
                        Err(e) => {
                            return Err(e);
                        },
                    };
                    if vc_status == VCStatus::INORDER {
                        match self.process_msg(umsg) {
                            Ok(()) => {},
                            Err(e) => {
                                return Err(e);
                            },
                        }
                    }
                },
            }
            i += 1;
        }
        proof {
            assert(batch.skip(batch.len() as int) =~= Seq::empty());
        }
        match self.causally_stable() {
            Ok(()) => {},
            Err(e) => {
                return Err(e);
            },
        }
        let msg_list = match self.create_peer_msg_list(false) {
            Ok(l) => l,
            Err(e) => {
                return Err(e);
            },
        };
        proof {
            assert(batch_views(msg_list@).dom() =~= msg_list@.dom());
            assert(self@.trcb.beliefs.dom() =~= self.trcb.node_trcb@.dom());
        }
        if msg_list.len() > 0 {
            self.msg_count_vc = 0;
        }
        Ok(msg_list)
    }

    /// Whether there is room for the local update `msg`: in the value for
    /// what the update makes of it, and in the sweep counter. Where there
    /// is, `process_local_msg` may be called.
    pub fn local_fits(&self, msg: &NodeUpdateMsg<K::Ops>) -> (r: bool)
        ensures
            r == (K::merge_fits(self@, msg@) && self.msg_count_cs < u16::MAX),
    {
        self.msg_count_cs < u16::MAX && K::fits(self, msg)
    }

    /// Whether there is room for the message `msg` of a peer: in both
    /// counters and, for an update that is the next one of its origin, in
    /// the value for what the update makes of it. Where there is,
    /// `process_peer_msg` may be called with this message alone.
    pub fn peer_msg_fits(&self, msg: &PeerNodeMsg<K::Ops>) -> (r: bool)
        ensures
            r == (self.msg_count_vc < u16::MAX && self.msg_count_cs < u16::MAX && (
            msg@ matches PeerNodeMsgView::UpdateNodeMsg(u) ==> (arrives_in_order(self@, u)
                ==> K::merge_fits(self@, u)))),
            r ==> batch_fits::<K>(self@, seq![msg@]),
    {
        broadcast use vstd::std_specs::hash::group_hash_axioms;

        if self.msg_count_vc == u16::MAX || self.msg_count_cs == u16::MAX {
            return false;
        }
        let r = match msg {
            PeerNodeMsg::VectorClockNodeMsg(_) => true,
            PeerNodeMsg::UpdateNodeMsg(umsg) => {
                match self.trcb.node_vector_clock.is_next_vc(&umsg.node, &umsg.node_vector_clock) {
                    Ok(VCStatus::INORDER) => K::fits(self, umsg),
                    _ => true,
                }
            },
        };
        proof {
            if r {
                let batch = seq![msg@];
                assert(batch[0] == msg@);
                assert(batch.drop_first() =~= Seq::empty());
                assert(self@.buffer.dom() =~= self.msg_list@.dom());
                if let PeerNodeMsgView::UpdateNodeMsg(u) = msg@ {
                    if arrives_in_order(self@, u) && update_step(self@, u) is Ok {
                        K::fits_when_buffered(self@, u);
                    }
                }
                if let Ok(s1) = peer_msg_step::<K>(self@, msg@) {
                    assert(batch_fits::<K>(s1, batch.drop_first()));
                }
            }
        }
        r
    }
}

/// The update `u` is the next one of its origin for the instance `s`, and
/// its place in the buffer is free.
pub open spec fn next_from_origin<Val, OpsValue: Copy + PartialEq>(
    s: CrdtView<Val, OpsValue>,
    u: NodeUpdateMsgView<OpsValue>,
) -> bool {
    &&& s.trcb.clock.contains_key(u.node)
    &&& u.clock.contains_key(u.node)
    &&& delivery_status(s.trcb.clock[u.node], u.clock[u.node]) == VCStatus::INORDER
    &&& !s.buffer.contains_key(key_of(u.node, u.origin_clock()))
}

/// The updates `x` and `y` of two different origins happened concurrently,
/// each is the next one of its origin for the instance `s`, and their
/// stamps and those in the buffer of `s` are over one member set.
pub open spec fn concurrent_pair<Val, OpsValue: Copy + PartialEq>(
    s: CrdtView<Val, OpsValue>,
    x: NodeUpdateMsgView<OpsValue>,
    y: NodeUpdateMsgView<OpsValue>,
) -> bool {
    &&& x.node != y.node
    &&& next_from_origin(s, x)
    &&& next_from_origin(s, y)
    &&& x.clock.dom() == y.clock.dom()
    &&& clocks_over(s.buffer, x.clock.dom())
    &&& crate::vector_clock::compare_clocks(x.clock, y.clock)
        == crate::vector_clock::VCOrdering::VCCN
}

/// The instance after the two updates `x` and `y` of a peer, in this order.
pub open spec fn after_two<K: CrdtVariant>(
    s: CrdtView<<K::Value as View>::V, K::Ops>,
    x: NodeUpdateMsgView<K::Ops>,
    y: NodeUpdateMsgView<K::Ops>,
) -> Result<CrdtView<<K::Value as View>::V, K::Ops>, ErrorKind> {
    peer_batch_steps::<K>(
        s,
        seq![PeerNodeMsgView::UpdateNodeMsg(x), PeerNodeMsgView::UpdateNodeMsg(y)],
    )
}

/// Taking in one list and then another is taking in the two as one.
pub proof fn lemma_batch_concat<K: CrdtVariant>(
    t: CrdtView<<K::Value as View>::V, K::Ops>,
    first: Seq<PeerNodeMsgView<K::Ops>>,
    second: Seq<PeerNodeMsgView<K::Ops>>,
)
    ensures
        peer_batch_steps::<K>(t, first + second) == match peer_batch_steps::<K>(t, first) {
            Ok(t1) => peer_batch_steps::<K>(t1, second),
            Err(e) => Err(e),
        },
    decreases first.len(),
{
    if first.len() == 0 {
        assert(first + second =~= second);
    } else {
        assert((first + second)[0] == first[0]);
        assert((first + second).drop_first() =~= first.drop_first() + second);
        match peer_msg_step::<K>(t, first[0]) {
            Ok(t1) => {
                lemma_batch_concat::<K>(t1, first.drop_first(), second);
            },
            Err(e) => {},
        }
    }
}

/// A batch of one message is one step.
pub proof fn lemma_single_step<K: CrdtVariant>(
    s: CrdtView<<K::Value as View>::V, K::Ops>,
    m: PeerNodeMsgView<K::Ops>,
)
    ensures
        peer_batch_steps::<K>(s, seq![m]) == peer_msg_step::<K>(s, m),
{
    let batch = seq![m];
    lemma_batch_unfold::<K>(s, batch, 0);
    assert(batch.skip(0) =~= batch);
    assert(batch.skip(1) =~= Seq::empty());
    match peer_msg_step::<K>(s, m) {
        Ok(s1) => {
            assert(peer_batch_steps::<K>(s1, batch.skip(1)) == Ok::<
                CrdtView<<K::Value as View>::V, K::Ops>,
                ErrorKind,
            >(s1));
        },
        Err(e) => {},
    }
}

/// A batch of two updates is one step after the other.
pub proof fn lemma_two_steps<K: CrdtVariant>(
    s: CrdtView<<K::Value as View>::V, K::Ops>,
    x: NodeUpdateMsgView<K::Ops>,
    y: NodeUpdateMsgView<K::Ops>,
)
    ensures
        after_two::<K>(s, x, y) == match peer_msg_step::<K>(s, PeerNodeMsgView::UpdateNodeMsg(x)) {
            Ok(s1) => peer_msg_step::<K>(s1, PeerNodeMsgView::UpdateNodeMsg(y)),
            Err(e) => Err(e),
        },
{
    let batch = seq![PeerNodeMsgView::UpdateNodeMsg(x), PeerNodeMsgView::UpdateNodeMsg(y)];
    lemma_batch_unfold::<K>(s, batch, 0);
    assert(batch.skip(0) =~= batch);
    match peer_msg_step::<K>(s, PeerNodeMsgView::UpdateNodeMsg(x)) {
        Ok(s1) => {
            lemma_batch_unfold::<K>(s1, batch, 1);
            assert(batch.skip(2) =~= Seq::empty());
            match peer_msg_step::<K>(s1, PeerNodeMsgView::UpdateNodeMsg(y)) {
                Ok(s2) => {
                    assert(peer_batch_steps::<K>(s2, batch.skip(2)) == Ok::<
                        CrdtView<<K::Value as View>::V, K::Ops>,
                        ErrorKind,
                    >(s2));
                },
                Err(e) => {},
            }
        },
        Err(e) => {},
    }
}

/// Every buffered update sits under the key of its own origin and origin
/// counter.
pub open spec fn buffer_keyed<OpsValue: Copy + PartialEq>(
    b: Map<u64, NodeUpdateMsgView<OpsValue>>,
) -> bool {
    forall|k: u64|
        b.contains_key(k) ==> (#[trigger] b[k]).clock.contains_key(b[k].node) && k == key_of(
            b[k].node,
            b[k].origin_clock(),
        )
}

/// Whatever an instance takes in, every buffered update stays under the
/// key of its own origin and origin counter, and the buffer stays finite:
/// a fresh instance has an empty buffer, and no step of the engine puts an
/// update elsewhere than under its key.
pub proof fn law_buffer_stays_keyed<K: CrdtVariant>(
    s: CrdtView<<K::Value as View>::V, K::Ops>,
    local: NodeUpdateMsgView<K::Ops>,
    batch: Seq<PeerNodeMsgView<K::Ops>>,
)
    requires
        buffer_keyed(s.buffer),
        s.buffer.dom().finite(),
    ensures
        local_update::<K>(s, local) matches Ok(t) ==> buffer_keyed(t.buffer)
            && t.buffer.dom().finite(),
        peer_batch_steps::<K>(s, batch) matches Ok(t) ==> buffer_keyed(t.buffer)
            && t.buffer.dom().finite(),
        peer_batch_result::<K>(s, batch) matches Ok(t) ==> buffer_keyed(t.buffer)
            && t.buffer.dom().finite(),
    decreases batch.len(),
{
    if let Ok(t) = local_update::<K>(s, local) {
        let v = K::merged(s, local)->Ok_0;
        let s0 = CrdtView { value: v, ..s };
        let s1 = buffered(
            CrdtView { msg_count_vc: 0, msg_count_cs: bump(s0.msg_count_cs), ..s0 },
            local,
        )->Ok_0;
        lemma_sweep_keeps_keyed(s1);
    }
    if batch.len() > 0 {
        if let Ok(s1) = peer_msg_step::<K>(s, batch[0]) {
            match batch[0] {
                PeerNodeMsgView::VectorClockNodeMsg(c) => {
                    let s0 = CrdtView {
                        trcb: accept_summary(s.trcb, c.node, c.clock),
                        msg_count_cs: bump(s.msg_count_cs),
                        ..s
                    };
                    lemma_sweep_keeps_keyed(s0);
                },
                PeerNodeMsgView::UpdateNodeMsg(u) => {},
            }
            law_buffer_stays_keyed::<K>(s1, local, batch.drop_first());
        }
    }
    if let Ok(t) = peer_batch_steps::<K>(s, batch) {
        lemma_sweep_keeps_keyed(t);
    }
}

/// The stability check takes updates out of the buffer and moves none.
proof fn lemma_sweep_keeps_keyed<Val, OpsValue: Copy + PartialEq>(s: CrdtView<Val, OpsValue>)
    requires
        buffer_keyed(s.buffer),
        s.buffer.dom().finite(),
    ensures
        stability_step(s) matches Ok(t) ==> buffer_keyed(t.buffer) && t.buffer.dom().finite(),
{
    if let Ok(t) = stability_step(s) {
        assert(t.buffer.dom().subset_of(s.buffer.dom()));
        vstd::set_lib::lemma_set_subset_finite(s.buffer.dom(), t.buffer.dom());
    }
}

/// The instance after the update `x` of a peer, which is the next one of
/// its origin and takes effect.
pub open spec fn taken<K: CrdtVariant>(
    s: CrdtView<<K::Value as View>::V, K::Ops>,
    x: NodeUpdateMsgView<K::Ops>,
) -> CrdtView<<K::Value as View>::V, K::Ops> {
    CrdtView { value: K::merged(update_step(s, x)->Ok_0, x)->Ok_0, ..update_step(s, x)->Ok_0 }
}

/// The two updates `x` and `y` make the same of the instance `s` in
/// either order.
pub open spec fn pair_commutes<K: CrdtVariant>(
    s: CrdtView<<K::Value as View>::V, K::Ops>,
    x: NodeUpdateMsgView<K::Ops>,
    y: NodeUpdateMsgView<K::Ops>,
) -> bool {
    after_two::<K>(s, x, y) is Ok && after_two::<K>(s, x, y) == after_two::<K>(s, y, x)
}

/// Two concurrent updates leave the tracker, the buffer and the counters
/// the same in either order; so if they also leave the value the same,
/// they leave the whole instance the same.
pub proof fn lemma_pair_engine<K: CrdtVariant>(
    s: CrdtView<<K::Value as View>::V, K::Ops>,
    x: NodeUpdateMsgView<K::Ops>,
    y: NodeUpdateMsgView<K::Ops>,
)
    requires
        concurrent_pair(s, x, y),
        K::merged(update_step(s, x)->Ok_0, x) is Ok,
        K::merged(update_step(s, y)->Ok_0, y) is Ok,
        K::merged(update_step(taken::<K>(s, x), y)->Ok_0, y) is Ok,
        K::merged(update_step(taken::<K>(s, y), x)->Ok_0, x) == K::merged(
            update_step(taken::<K>(s, x), y)->Ok_0,
            y,
        ),
    ensures
        pair_commutes::<K>(s, x, y),
        after_two::<K>(s, x, y) == Ok::<CrdtView<<K::Value as View>::V, K::Ops>, ErrorKind>(
            taken::<K>(taken::<K>(s, x), y),
        ),
{
    K::operands_compare();
    lemma_two_steps::<K>(s, x, y);
    lemma_two_steps::<K>(s, y, x);
    let kx = key_of(x.node, x.origin_clock());
    let ky = key_of(y.node, y.origin_clock());
    if kx == ky {
        crate::message_list::lemma_key_injective(
            x.node,
            x.origin_clock(),
            y.node,
            y.origin_clock(),
        );
    }
    let s2 = taken::<K>(taken::<K>(s, x), y);
    let t2 = taken::<K>(taken::<K>(s, y), x);
    assert(s2.buffer =~= t2.buffer);
    assert(s2.trcb.clock =~= t2.trcb.clock);
    assert(s2.trcb.beliefs =~= t2.trcb.beliefs);
    assert(s2.trcb == t2.trcb);
    assert(s2 == t2);
}

/// An update that an instance has taken in is a duplicate when it arrives
/// again: it is counted towards the next clock summary and changes nothing
/// else, neither the value nor the buffer nor the tracker.
pub proof fn law_duplicate_changes_nothing<K: CrdtVariant>(
    s: CrdtView<<K::Value as View>::V, K::Ops>,
    u: NodeUpdateMsgView<K::Ops>,
)
    requires
        s.trcb.clock.contains_key(u.node),
        u.clock.contains_key(u.node),
        delivery_status(s.trcb.clock[u.node], u.clock[u.node]) == VCStatus::INORDER,
        peer_msg_step::<K>(s, PeerNodeMsgView::UpdateNodeMsg(u)) is Ok,
    ensures
        ({
            let once = peer_msg_step::<K>(s, PeerNodeMsgView::UpdateNodeMsg(u))->Ok_0;
            &&& delivery_status(once.trcb.clock[u.node], u.clock[u.node]) == VCStatus::DUPLICATE
            &&& peer_msg_step::<K>(once, PeerNodeMsgView::UpdateNodeMsg(u)) == Ok::<
                CrdtView<<K::Value as View>::V, K::Ops>,
                ErrorKind,
            >(CrdtView { msg_count_vc: bump(once.msg_count_vc), ..once })
        }),
{
}

} // verus!
