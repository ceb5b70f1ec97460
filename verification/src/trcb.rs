//! The causal broadcast tracker of one node: its own clock, and the clock
//! it believes each peer to have reached.
use vstd::prelude::*;
use std::collections::HashMap;
use crate::{LCType, NodeType};
use crate::key_set::{collect_keys, held, lists_keys};
use crate::vector_clock::{
    VectorClock, VectorClockError, VCStatus, zero_clock, clock_leq, delivery_status, pointwise_max,
    lemma_take_push_set, INC_LC,
};

verus! {

/// What one node knows of the progress of the broadcast.
#[derive(Debug)]
pub struct TRCBData {
    /// The node that owns this tracker.
    pub node: NodeType,
    /// The high-water mark of all updates seen, the node's own and its peers'.
    pub node_vector_clock: VectorClock,
    /// For each peer, the last clock believed fully delivered from it.
    pub node_trcb: HashMap<NodeType, VectorClock>,
}

/// The tracker as plain mathematical data.
pub struct TRCBView {
    pub node: NodeType,
    pub clock: Map<NodeType, LCType>,
    pub beliefs: Map<NodeType, Map<NodeType, LCType>>,
}

/// The clocks recorded for the peers, each as a map.
pub open spec fn belief_views(m: Map<NodeType, VectorClock>) -> Map<
    NodeType,
    Map<NodeType, LCType>,
> {
    Map::new(|p: NodeType| m.contains_key(p), |p: NodeType| m[p]@)
}

impl View for TRCBData {
    type V = TRCBView;

    open spec fn view(&self) -> TRCBView {
        TRCBView {
            node: self.node,
            clock: self.node_vector_clock@,
            beliefs: belief_views(self.node_trcb@),
        }
    }
}

/// The tracker of `node` in a cluster of `members` before anything happened.
pub open spec fn initial_tracker(node: NodeType, members: Set<NodeType>) -> TRCBView {
    TRCBView {
        node,
        clock: zero_clock(members),
        beliefs: Map::new(
            |p: NodeType| members.contains(p) && p != node,
            |p: NodeType| zero_clock(members),
        ),
    }
}

/// The tracker after its own node has issued one more update.
pub open spec fn advance_own(t: TRCBView) -> TRCBView {
    TRCBView { clock: t.clock.insert(t.node, (t.clock[t.node] + INC_LC) as LCType), ..t }
}

/// The tracker after the next update of `peer`, stamped `peer_clock`, was
/// delivered.
pub open spec fn accept_update(
    t: TRCBView,
    peer: NodeType,
    peer_clock: Map<NodeType, LCType>,
) -> TRCBView {
    TRCBView {
        clock: t.clock.insert(peer, (t.clock[peer] + INC_LC) as LCType),
        beliefs: t.beliefs.insert(peer, peer_clock),
        ..t
    }
}

/// The tracker after an update of `peer`, stamped `peer_clock`, arrived:
/// delivered if it is the next one, ignored otherwise.
pub open spec fn offer_update(
    t: TRCBView,
    peer: NodeType,
    peer_clock: Map<NodeType, LCType>,
) -> TRCBView {
    if delivery_status(t.clock[peer], peer_clock[peer]) == VCStatus::INORDER {
        accept_update(t, peer, peer_clock)
    } else {
        t
    }
}

/// The tracker after `peer` told its clock without an update: the belief
/// about `peer` rises to the member-by-member maximum.
pub open spec fn accept_summary(
    t: TRCBView,
    peer: NodeType,
    peer_clock: Map<NodeType, LCType>,
) -> TRCBView {
    TRCBView { beliefs: t.beliefs.insert(peer, pointwise_max(t.beliefs[peer], peer_clock)), ..t }
}

/// Every recorded peer clock has an entry for every member of the own clock.
pub open spec fn beliefs_complete(t: TRCBView) -> bool {
    forall|p: NodeType, n: NodeType|
        t.beliefs.contains_key(p) && t.clock.contains_key(n) ==> #[trigger] t.beliefs[p].contains_key(
            n,
        )
}

/// `v` is the smallest counter for origin `n` among the own clock and the
/// recorded clocks of `peers`.
pub open spec fn is_least_among(t: TRCBView, n: NodeType, peers: Set<NodeType>, v: LCType) -> bool {
    &&& v <= t.clock[n]
    &&& forall|p: NodeType| peers.contains(p) ==> v <= (#[trigger] t.beliefs[p])[n]
    &&& (v == t.clock[n] || exists|p: NodeType|
        peers.contains(p) && (#[trigger] t.beliefs[p])[n] == v)
}

/// `v` is the smallest counter for origin `n` among the own clock and all
/// recorded peer clocks.
pub open spec fn is_stable_entry(t: TRCBView, n: NodeType, v: LCType) -> bool {
    is_least_among(t, n, t.beliefs.dom(), v)
}

/// The causal-stability frontier: for each origin, the counter up to which
/// every peer is known to have received that origin's updates.
pub open spec fn stability_frontier(t: TRCBView) -> Map<NodeType, LCType> {
    Map::new(
        |n: NodeType| t.clock.contains_key(n),
        |n: NodeType| choose|v: LCType| is_stable_entry(t, n, v),
    )
}

/// There is only one smallest counter.
pub proof fn lemma_stable_entry_unique(t: TRCBView, n: NodeType, v1: LCType, v2: LCType)
    requires
        is_stable_entry(t, n, v1),
        is_stable_entry(t, n, v2),
    ensures
        v1 == v2,
{
}

/// Among finitely many counters there is a smallest.
pub proof fn lemma_least_exists(t: TRCBView, n: NodeType, peers: Set<NodeType>)
    requires
        peers.finite(),
    ensures
        exists|v: LCType| is_least_among(t, n, peers, v),
    decreases peers.len(),
{
    if peers.len() == 0 {
        assert(is_least_among(t, n, peers, t.clock[n]));
    } else {
        let p0 = peers.choose();
        lemma_least_exists(t, n, peers.remove(p0));
        let v0 = choose|v: LCType| is_least_among(t, n, peers.remove(p0), v);
        let c = t.beliefs[p0][n];
        if c < v0 {
            assert(is_least_among(t, n, peers, c)) by {
                assert forall|p: NodeType| peers.contains(p) implies c <= (
                #[trigger] t.beliefs[p])[n] by {
                    if p != p0 {
                        assert(peers.remove(p0).contains(p));
                    }
                }
            }
        } else {
            assert(is_least_among(t, n, peers, v0)) by {
                assert forall|p: NodeType| peers.contains(p) implies v0 <= (
                #[trigger] t.beliefs[p])[n] by {
                    if p != p0 {
                        assert(peers.remove(p0).contains(p));
                    }
                }
                if v0 != t.clock[n] {
                    let q = choose|q: NodeType|
                        peers.remove(p0).contains(q) && (#[trigger] t.beliefs[q])[n] == v0;
                    assert(peers.contains(q));
                }
            }
        }
    }
}

/// The frontier never runs ahead of the node's own clock: at every origin
/// it is the smallest of the own counter and the peers' recorded counters.
pub proof fn law_frontier_below_clock(t: TRCBView)
    requires
        t.beliefs.dom().finite(),
    ensures
        stability_frontier(t).dom() == t.clock.dom(),
        clock_leq(stability_frontier(t), t.clock),
        forall|n: NodeType|
            t.clock.contains_key(n) ==> is_stable_entry(t, n, #[trigger] stability_frontier(t)[n]),
{
    assert(stability_frontier(t).dom() =~= t.clock.dom());
    assert forall|n: NodeType| t.clock.contains_key(n) implies is_stable_entry(
        t,
        n,
        #[trigger] stability_frontier(t)[n],
    ) by {
        lemma_least_exists(t, n, t.beliefs.dom());
        let v = choose|v: LCType| is_least_among(t, n, t.beliefs.dom(), v);
        assert(is_stable_entry(t, n, v));
    }
}

/// An update that was delivered is a duplicate when it arrives again, and
/// changes nothing the second time.
pub proof fn law_duplicate_update_ignored(
    t: TRCBView,
    peer: NodeType,
    peer_clock: Map<NodeType, LCType>,
)
    requires
        t.clock.contains_key(peer),
        peer_clock.contains_key(peer),
        delivery_status(t.clock[peer], peer_clock[peer]) == VCStatus::INORDER,
    ensures
        ({
            let once = offer_update(t, peer, peer_clock);
            &&& delivery_status(once.clock[peer], peer_clock[peer]) == VCStatus::DUPLICATE
            &&& offer_update(once, peer, peer_clock) == once
        }),
{
}

/// A clock summary that arrives a second time changes nothing.
pub proof fn law_duplicate_summary_ignored(
    t: TRCBView,
    peer: NodeType,
    peer_clock: Map<NodeType, LCType>,
)
    requires
        t.beliefs.contains_key(peer),
        t.beliefs[peer].dom() == peer_clock.dom(),
    ensures
        ({
            let once = accept_summary(t, peer, peer_clock);
            accept_summary(once, peer, peer_clock) == once
        }),
{
    let once = accept_summary(t, peer, peer_clock);
    let twice = accept_summary(once, peer, peer_clock);
    assert(pointwise_max(once.beliefs[peer], peer_clock) =~= once.beliefs[peer]);
    assert(twice.beliefs =~= once.beliefs);
}

impl TRCBData {
    /// The tracker of `node` in the cluster `node_list`: all clocks at zero,
    /// one belief per other member. A node outside the list is refused.
    pub fn new(node: NodeType, node_list: Vec<NodeType>) -> (r: Result<Self, VectorClockError>)
        ensures
            r is Ok <==> node_list@.contains(node),
            r matches Err(e) ==> e matches VectorClockError::InconsistentInputTRBC(n, l) && n
                == node && l@ == node_list@,
            r matches Ok(t) ==> t@ == initial_tracker(node, node_list@.to_set()),
    {
        broadcast use vstd::std_specs::hash::group_hash_axioms;

        if !contains_node(&node_list, node) {
            return Err(VectorClockError::InconsistentInputTRBC(node, node_list));
        }
        let node_vector_clock = VectorClock::zeroed(&node_list);
        let mut node_trcb: HashMap<NodeType, VectorClock> = HashMap::new();
        let mut i: usize = 0;
        while i < node_list.len()
            invariant
                i <= node_list.len(),
                node_vector_clock@ == zero_clock(node_list@.to_set()),
                forall|p: NodeType|
                    node_trcb@.contains_key(p) <==> (node_list@.take(i as int).contains(p) && p
                        != node),
                forall|p: NodeType|
                    node_trcb@.contains_key(p) ==> (#[trigger] node_trcb@[p])@ == zero_clock(
                        node_list@.to_set(),
                    ),
            decreases node_list.len() - i,
        {
            let pnode = node_list[i];
            proof {
                lemma_take_push_set(node_list@, i as int);
            }
            if pnode != node {
                node_trcb.insert(pnode, node_vector_clock.clone());
            }
            i += 1;
        }
        let t = Self { node, node_vector_clock, node_trcb };
        proof {
            assert(node_list@.take(node_list@.len() as int) == node_list@);
            assert(t@.beliefs =~= initial_tracker(node, node_list@.to_set()).beliefs);
        }
        Ok(t)
    }

    /// Advances the own counter by one and hands out the new clock.
    pub fn next_vc(&mut self) -> (r: Result<VectorClock, VectorClockError>)
        requires
            old(self)@.clock.contains_key(old(self).node) ==> old(self)@.clock[old(self).node]
                < LCType::MAX,
        ensures
            r is Ok <==> old(self)@.clock.contains_key(old(self).node),
            r matches Err(e) ==> e is NodeNotFound && final(self)@ == old(self)@,
            r matches Ok(vc) ==> final(self)@ == advance_own(old(self)@) && vc@ == final(self)@.clock,
    {
        let node = self.node;
        match self.node_vector_clock.next_vc(&node) {
            Ok(()) => {},
            Err(e) => {
                return Err(e);
            },
        }
        Ok(self.node_vector_clock.clone())
    }

    /// Takes in the clock of an update that `peer_node` sent. If it is the
    /// next one from that peer, the own counter for the peer advances and
    /// the belief about the peer becomes `peer_vc`; a duplicate, or one that
    /// is too far ahead, changes nothing.
    pub fn add_peer_vc(&mut self, peer_node: NodeType, peer_vc: VectorClock) -> (r: Result<
        VCStatus,
        VectorClockError,
    >)
        ensures
            r is Ok <==> old(self)@.clock.contains_key(peer_node) && peer_vc@.contains_key(
                peer_node,
            ),
            r matches Err(e) ==> e is NodeNotFound && final(self)@ == old(self)@,
            r matches Ok(st) ==> st == delivery_status(
                old(self)@.clock[peer_node],
                peer_vc@[peer_node],
            ) && final(self)@ == offer_update(old(self)@, peer_node, peer_vc@),
    {
        broadcast use vstd::std_specs::hash::group_hash_axioms;

        let peer_vc_status = match self.node_vector_clock.is_next_vc(&peer_node, &peer_vc) {
            Ok(st) => st,
            Err(e) => {
                return Err(e);
            },
        };
        if peer_vc_status == VCStatus::INORDER {
            match self.node_vector_clock.next_vc(&peer_node) {
                Ok(()) => {},
                Err(e) => {
                    return Err(e);
                },
            }
            self.node_trcb.insert(peer_node, peer_vc);
            proof {
                assert(final(self)@.beliefs =~= offer_update(
                    old(self)@,
                    peer_node,
                    peer_vc@,
                ).beliefs);
            }
        }
        Ok(peer_vc_status)
    }

    /// Takes in a clock that `peer_node` told without an update: the belief
    /// about the peer rises to the maximum of what was believed and what it
    /// told. An unknown peer, or a clock over other members, is refused and
    /// nothing changes.
    pub fn add_peer_vcmsg(&mut self, peer_node: NodeType, peer_vc: VectorClock) -> (r: Result<
        (),
        VectorClockError,
    >)
        ensures
            r is Ok <==> old(self)@.beliefs.contains_key(peer_node)
                && old(self)@.beliefs[peer_node].dom() == peer_vc@.dom(),
            r matches Err(e) ==> final(self)@ == old(self)@ && if old(self)@.beliefs.contains_key(
                peer_node,
            ) {
                e is NonCompatibleVC
            } else {
                e is NodeNotFound
            },
            r is Ok ==> final(self)@ == accept_summary(old(self)@, peer_node, peer_vc@),
    {
        broadcast use vstd::std_specs::hash::group_hash_axioms;

        let mvc = match self.node_trcb.get(&peer_node) {
            Some(cvc) => match cvc.max_vc(&peer_vc) {
                Ok(mvc) => mvc,
                Err(e) => {
                    return Err(e);
                },
            },
            None => {
                return Err(VectorClockError::NodeNotFound);
            },
        };
        self.node_trcb.insert(peer_node, mvc);
        proof {
            assert(final(self)@.beliefs =~= accept_summary(
                old(self)@,
                peer_node,
                peer_vc@,
            ).beliefs);
        }
        Ok(())
    }

    /// The causal-stability frontier: for each origin the smallest counter
    /// among the own clock and every peer's recorded clock. A recorded clock
    /// that lacks an origin is refused.
    pub fn causally_stable(&self) -> (r: Result<VectorClock, VectorClockError>)
        ensures
            r is Ok <==> beliefs_complete(self@),
            r matches Err(e) ==> e is UnexpectedError,
            r matches Ok(vc) ==> {
                &&& vc@ == stability_frontier(self@)
                &&& forall|n: NodeType| #[trigger]
                    vc@.contains_key(n) ==> is_stable_entry(self@, n, vc@[n])
                &&& clock_leq(vc@, self@.clock)
            },
    {
        broadcast use vstd::std_specs::hash::group_hash_axioms;

        let mut cs_map: HashMap<NodeType, LCType> = HashMap::new();
        let members = collect_keys(&self.node_vector_clock.vcmap);
        let peers = collect_keys(&self.node_trcb);
        let mut i: usize = 0;
        while i < members.len()
            invariant
                i <= members.len(),
                lists_keys(members@, self@.clock),
                lists_keys(peers@, self.node_trcb@),
                forall|n: NodeType|
                    cs_map@.contains_key(n) <==> members@.take(i as int).contains(n),
                forall|n: NodeType| #[trigger]
                    cs_map@.contains_key(n) ==> is_stable_entry(self@, n, cs_map@[n]),
                forall|n: NodeType, p: NodeType|
                    cs_map@.contains_key(n) && self@.beliefs.contains_key(p)
                        ==> #[trigger] self@.beliefs[p].contains_key(n),
            decreases members.len() - i,
        {
            let nnode = members[i];
            assert(members@.contains(nnode));
            let nlc = *held(&self.node_vector_clock.vcmap, &nnode);
            let mut mlc = nlc;
            let mut j: usize = 0;
            while j < peers.len()
                invariant
                    j <= peers.len(),
                    lists_keys(peers@, self.node_trcb@),
                    self@.clock.contains_key(nnode),
                    nlc == self@.clock[nnode],
                    mlc <= nlc,
                    forall|q: int|
                        0 <= q < j ==> (#[trigger] self@.beliefs[peers@[q]]).contains_key(nnode)
                            && mlc <= self@.beliefs[peers@[q]][nnode],
                    mlc == nlc || exists|q: int|
                        0 <= q < j && (#[trigger] self@.beliefs[peers@[q]])[nnode] == mlc,
                decreases peers.len() - j,
            {
                let pnode = peers[j];
                assert(peers@.contains(pnode));
                let plc = match held(&self.node_trcb, &pnode).vcmap.get(&nnode) {
                    Some(lc) => *lc,
                    None => {
                        proof {
                            assert(self@.beliefs.contains_key(pnode));
                            assert(!self@.beliefs[pnode].contains_key(nnode));
                        }
                        return Err(
                            VectorClockError::UnexpectedError(
                                "peer clock lacks a member".to_owned(),
                            ),
                        );
                    },
                };
                assert(self@.beliefs[peers@[j as int]][nnode] == plc);
                if plc < mlc {
                    mlc = plc;
                }
                j += 1;
            }
            proof {
                assert forall|p: NodeType| self@.beliefs.contains_key(p) implies (
                #[trigger] self@.beliefs[p]).contains_key(nnode) && mlc <= self@.beliefs[p][nnode] by {
                    assert(peers@.contains(p));
                    let q = choose|q: int| 0 <= q < peers@.len() && peers@[q] == p;
                    assert(self@.beliefs[peers@[q]].contains_key(nnode));
                }
                if mlc != nlc {
                    let q = choose|q: int|
                        0 <= q < j && (#[trigger] self@.beliefs[peers@[q]])[nnode] == mlc;
                    assert(peers@.contains(peers@[q]));
                    assert(self@.beliefs.contains_key(peers@[q]));
                }
                assert(is_stable_entry(self@, nnode, mlc));
                lemma_take_push_set(members@, i as int);
            }
            cs_map.insert(nnode, mlc);
            i += 1;
        }
        let vc = VectorClock { vcmap: cs_map };
        proof {
            assert(members@.take(members@.len() as int) == members@);
            assert(vc@.dom() =~= self@.clock.dom());
            assert forall|n: NodeType| vc@.contains_key(n) implies vc@[n] == stability_frontier(
                self@,
            )[n] by {
                let w = choose|v: LCType| is_stable_entry(self@, n, v);
                assert(is_stable_entry(self@, n, vc@[n]));
                lemma_stable_entry_unique(self@, n, vc@[n], w);
            }
            assert(vc@ =~= stability_frontier(self@));
            assert(beliefs_complete(self@));
        }
        Ok(vc)
    }
}

/// Whether `node` occurs in `node_list`.
fn contains_node(node_list: &Vec<NodeType>, node: NodeType) -> (found: bool)
    ensures
        found == node_list@.contains(node),
{
    let mut i: usize = 0;
    while i < node_list.len()
        invariant
            i <= node_list.len(),
            forall|j: int| 0 <= j < i ==> node_list@[j] != node,
        decreases node_list.len() - i,
    {
        if node_list[i] == node {
            return true;
        }
        i += 1;
    }
    false
}

} // verus!
