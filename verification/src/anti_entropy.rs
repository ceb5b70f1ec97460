//! Anti-entropy: what a node pushes to each of its peers so that they catch
//! up with what it has seen.
use vstd::prelude::*;
use std::collections::HashMap;
use crate::{LCType, NodeType};
use crate::key_set::{collect_keys, held, lists_keys};
use crate::crdt::{
    CRDT, CrdtView, CrdtVariant, peer_batch_steps, lemma_single_step, lemma_batch_concat,
    buffer_keyed,
};
use crate::message_data::{
    PeerNodeMsg, PeerNodeMsgView, NodeVectorClockMsg, NodeVectorClockMsgView, peer_msg_views,
};
use crate::message_list::{key_of, msg_key, lemma_key_injective};
use crate::vector_clock::{VectorClock, VectorClockError, lemma_take_push_set};

verus! {

/// What goes out to the peers, one list each.
pub type PeerMsgMap<OpsValue> = HashMap<NodeType, Vec<PeerNodeMsg<OpsValue>>>;

/// The outgoing lists, each message as plain mathematical data.
pub open spec fn batch_views<OpsValue: Copy + PartialEq>(
    out: Map<NodeType, Vec<PeerNodeMsg<OpsValue>>>,
) -> Map<NodeType, Seq<PeerNodeMsgView<OpsValue>>> {
    Map::new(|p: NodeType| out.contains_key(p), |p: NodeType| peer_msg_views(out[p]@))
}

/// Whether the node has to tell its clock: always where a full push is
/// forced, else once enough peer updates came in since it last did.
pub open spec fn clock_due<Val, OpsValue: Copy + PartialEq>(
    s: CrdtView<Val, OpsValue>,
    forced: bool,
) -> bool {
    forced || s.msg_count_vc >= s.max_msg_count_vc
}

/// The clock summary of the node, as the one message it is.
pub open spec fn summary_part<Val, OpsValue: Copy + PartialEq>(s: CrdtView<Val, OpsValue>) -> Seq<
    PeerNodeMsgView<OpsValue>,
> {
    seq![
        PeerNodeMsgView::VectorClockNodeMsg(
            NodeVectorClockMsgView { node: s.trcb.node, clock: s.trcb.clock },
        ),
    ]
}

/// The buffered updates of origin `n` with counters above `lo` and up to
/// what the node has seen of `n`, lowest first.
pub open spec fn origin_range<Val, OpsValue: Copy + PartialEq>(
    s: CrdtView<Val, OpsValue>,
    n: NodeType,
    lo: LCType,
) -> Seq<PeerNodeMsgView<OpsValue>> {
    let hi = s.trcb.clock[n];
    Seq::new(
        (if hi > lo { hi - lo } else { 0 }) as nat,
        |i: int| PeerNodeMsgView::UpdateNodeMsg(s.buffer[key_of(n, (lo + 1 + i) as LCType)]),
    )
}

/// Something of origin `n` above `lo` cannot be sent again: the node has
/// no counter for `n`, or an update in the range has left the buffer.
pub open spec fn origin_missing<Val, OpsValue: Copy + PartialEq>(
    s: CrdtView<Val, OpsValue>,
    n: NodeType,
    lo: LCType,
) -> bool {
    !s.trcb.clock.contains_key(n) || exists|lc: LCType|
        lo < lc <= s.trcb.clock[n] && !s.buffer.contains_key(#[trigger] key_of(n, lc))
}

/// What the peer `p`, believed to be at `belief`, is sent of origin `n`:
/// nothing of its own, and of any other origin what it lacks.
pub open spec fn replay_part<Val, OpsValue: Copy + PartialEq>(
    s: CrdtView<Val, OpsValue>,
    p: NodeType,
    belief: Map<NodeType, LCType>,
    n: NodeType,
) -> Seq<PeerNodeMsgView<OpsValue>> {
    if n == p {
        Seq::empty()
    } else {
        origin_range(s, n, belief[n])
    }
}

/// What the peer `p` is sent of the origins in `order`, origin by origin.
pub open spec fn replay_for<Val, OpsValue: Copy + PartialEq>(
    s: CrdtView<Val, OpsValue>,
    p: NodeType,
    belief: Map<NodeType, LCType>,
    order: Seq<NodeType>,
) -> Seq<PeerNodeMsgView<OpsValue>>
    decreases order.len(),
{
    if order.len() == 0 {
        Seq::empty()
    } else {
        replay_for(s, p, belief, order.drop_last()) + replay_part(s, p, belief, order.last())
    }
}

/// Something that the peer `p` lacks cannot be sent again.
pub open spec fn peer_missing<Val, OpsValue: Copy + PartialEq>(
    s: CrdtView<Val, OpsValue>,
    p: NodeType,
    belief: Map<NodeType, LCType>,
) -> bool {
    exists|n: NodeType|
        belief.contains_key(n) && n != p && #[trigger] origin_missing(s, n, belief[n])
}

/// Something that some peer lacks cannot be sent again.
pub open spec fn replay_gap<Val, OpsValue: Copy + PartialEq>(s: CrdtView<Val, OpsValue>) -> bool {
    exists|p: NodeType|
        s.trcb.beliefs.contains_key(p) && #[trigger] peer_missing(s, p, s.trcb.beliefs[p])
}

/// `list` is what goes to a peer `p` that is believed to be at `belief`:
/// first the clock summary where one goes out, then, where updates go out,
/// for each origin but `p` the updates that `p` lacks, lowest counter first.
/// The origins come in no particular order.
pub open spec fn is_peer_batch<Val, OpsValue: Copy + PartialEq>(
    list: Seq<PeerNodeMsgView<OpsValue>>,
    s: CrdtView<Val, OpsValue>,
    p: NodeType,
    belief: Map<NodeType, LCType>,
    with_summary: bool,
    with_updates: bool,
) -> bool {
    exists|order: Seq<NodeType>|
        {
            &&& #[trigger] lists_keys(order, belief)
            &&& list == (if with_summary {
                summary_part(s)
            } else {
                Seq::empty()
            }) + (if with_updates {
                replay_for(s, p, belief, order)
            } else {
                Seq::empty()
            })
        }
}

/// `out` is what goes out: nothing unless the clock is due; else one list
/// for every peer, with the clock summary, and with updates where a full
/// push is `forced`.
pub open spec fn is_peer_msg_map<Val, OpsValue: Copy + PartialEq>(
    out: Map<NodeType, Seq<PeerNodeMsgView<OpsValue>>>,
    s: CrdtView<Val, OpsValue>,
    forced: bool,
) -> bool {
    if clock_due(s, forced) {
        &&& out.dom() == s.trcb.beliefs.dom()
        &&& forall|p: NodeType|
            out.contains_key(p) ==> is_peer_batch(
                #[trigger] out[p],
                s,
                p,
                s.trcb.beliefs[p],
                true,
                forced,
            )
    } else {
        out == Map::<NodeType, Seq<PeerNodeMsgView<OpsValue>>>::empty()
    }
}

/// Adding a message to a list adds its view to the list's views.
pub proof fn lemma_views_push<OpsValue: Copy + PartialEq>(
    list: Seq<PeerNodeMsg<OpsValue>>,
    m: PeerNodeMsg<OpsValue>,
)
    ensures
        peer_msg_views(list.push(m)) == peer_msg_views(list).push(m@),
{
    assert(peer_msg_views(list.push(m)) =~= peer_msg_views(list).push(m@));
}

impl<CrdtValue: View, OpsValue: Copy + PartialEq, State> CRDT<CrdtValue, OpsValue, State> {
    /// Appends to `out` the buffered updates of origin `n` above `lo`,
    /// lowest counter first. Refused where one of them has left the buffer.
    fn replay_origin(&self, n: NodeType, lo: LCType, out: &mut Vec<PeerNodeMsg<OpsValue>>) -> (r:
        Result<(), VectorClockError>)
        ensures
            r is Ok <==> !origin_missing(self@, n, lo),
            r matches Err(e) ==> e is UnexpectedError,
            r is Ok ==> peer_msg_views(final(out)@) == peer_msg_views(old(out)@) + origin_range(
                self@,
                n,
                lo,
            ),
    {
        broadcast use vstd::std_specs::hash::group_hash_axioms;

        let hi = match self.trcb.node_vector_clock.vcmap.get(&n) {
            Some(lc) => *lc,
            None => {
                return Err(
                    VectorClockError::UnexpectedError("own clock lacks an origin".to_owned()),
                );
            },
        };
        let ghost start = peer_msg_views(out@);
        let ghost range = origin_range(self@, n, lo);
        let mut lc = lo;
        proof {
            assert(range.take(0) =~= Seq::empty());
            assert(start + Seq::empty() =~= start);
        }
        while lc < hi
            invariant
                self@.trcb.clock.contains_key(n),
                hi == self@.trcb.clock[n],
                range == origin_range(self@, n, lo),
                lo <= lc,
                lc <= hi || lc == lo,
                forall|c: LCType| lo < c <= lc ==> self@.buffer.contains_key(#[trigger] key_of(n, c)),
                peer_msg_views(out@) == start + range.take(lc - lo),
            decreases hi - lc,
        {
            let ghost done = lc - lo;
            lc += 1;
            let key = msg_key(n, lc);
            match self.msg_list.get(&key) {
                Some(msg) => {
                    let next = PeerNodeMsg::UpdateNodeMsg(msg.clone());
                    proof {
                        lemma_views_push(out@, next);
                        assert(self@.buffer.contains_key(key));
                        assert(next@ == range[done]);
                        assert(range.take(done + 1) =~= range.take(done).push(range[done]));
                        assert((start + range.take(done)).push(range[done]) =~= start + range.take(
                            done + 1,
                        ));
                    }
                    out.push(next);
                },
                None => {
                    proof {
                        assert(!self@.buffer.contains_key(key_of(n, lc)));
                    }
                    return Err(
                        VectorClockError::UnexpectedError(
                            "an update to send again has left the buffer".to_owned(),
                        ),
                    );
                },
            }
        }
        proof {
            assert(range.take(range.len() as int) =~= range);
        }
        Ok(())
    }

    /// What goes to the peer `p`, believed to be at `pvc`.
    fn replay_peer(
        &self,
        p: NodeType,
        pvc: &VectorClock,
        with_summary: bool,
        with_updates: bool,
    ) -> (r: Result<Vec<PeerNodeMsg<OpsValue>>, VectorClockError>)
        ensures
            r is Ok <==> !(with_updates && peer_missing(self@, p, pvc@)),
            r matches Err(e) ==> e is UnexpectedError,
            r matches Ok(list) ==> is_peer_batch(
                peer_msg_views(list@),
                self@,
                p,
                pvc@,
                with_summary,
                with_updates,
            ),
    {
        broadcast use vstd::std_specs::hash::group_hash_axioms;

        let mut msg_vec: Vec<PeerNodeMsg<OpsValue>> = Vec::new();
        if with_summary {
            let vc_msg = PeerNodeMsg::VectorClockNodeMsg(
                NodeVectorClockMsg::new(self.trcb.node, self.trcb.node_vector_clock.clone()),
            );
            proof {
                lemma_views_push(msg_vec@, vc_msg);
                assert(peer_msg_views(msg_vec@) =~= Seq::empty());
                assert(Seq::<PeerNodeMsgView<OpsValue>>::empty().push(vc_msg@) =~= summary_part(
                    self@,
                ));
            }
            msg_vec.push(vc_msg);
        }
        let ghost head = peer_msg_views(msg_vec@);
        let origins = collect_keys(&pvc.vcmap);
        proof {
            assert(head =~= if with_summary {
                summary_part(self@)
            } else {
                Seq::empty()
            });
        }
        if with_updates {
            let mut i: usize = 0;
            proof {
                assert(head + replay_for(self@, p, pvc@, origins@.take(0)) =~= head);
            }
            while i < origins.len()
                invariant
                    with_updates,
                    i <= origins.len(),
                    lists_keys(origins@, pvc@),
                    peer_msg_views(msg_vec@) == head + replay_for(
                        self@,
                        p,
                        pvc@,
                        origins@.take(i as int),
                    ),
                    forall|j: int|
                        0 <= j < i ==> !(origins@[j] != p && #[trigger] origin_missing(
                            self@,
                            origins@[j],
                            pvc@[origins@[j]],
                        )),
                decreases origins.len() - i,
            {
                let n = origins[i];
                assert(origins@.contains(n));
                let ghost before = peer_msg_views(msg_vec@);
                if n != p {
                    let lo = *held(&pvc.vcmap, &n);
                    match self.replay_origin(n, lo, &mut msg_vec) {
                        Ok(()) => {},
                        Err(e) => {
                            proof {
                                assert(origin_missing(self@, n, pvc@[n]));
                            }
                            return Err(e);
                        },
                    }
                }
                proof {
                    let sofar = origins@.take(i as int);
                    let next = origins@.take(i + 1);
                    assert(next.drop_last() =~= sofar);
                    assert(next.last() == n);
                    assert(peer_msg_views(msg_vec@) =~= before + replay_part(self@, p, pvc@, n));
                    assert((head + replay_for(self@, p, pvc@, sofar)) + replay_part(
                        self@,
                        p,
                        pvc@,
                        n,
                    ) =~= head + replay_for(self@, p, pvc@, next));
                }
                i += 1;
            }
            proof {
                assert(origins@.take(origins@.len() as int) =~= origins@);
                assert(!peer_missing(self@, p, pvc@)) by {
                    if peer_missing(self@, p, pvc@) {
                        let n = choose|n: NodeType|
                            pvc@.contains_key(n) && n != p && #[trigger] origin_missing(
                                self@,
                                n,
                                pvc@[n],
                            );
                        assert(origins@.contains(n));
                        let j = choose|j: int| 0 <= j < origins@.len() && origins@[j] == n;
                        assert(!(origins@[j] != p && origin_missing(
                            self@,
                            origins@[j],
                            pvc@[origins@[j]],
                        )));
                    }
                }
            }
        } else {
            proof {
                assert(head + Seq::empty() =~= head);
            }
        }
        proof {
            assert(lists_keys(origins@, pvc@));
        }
        Ok(msg_vec)
    }

    /// What the node pushes to its peers. Nothing unless a full push is
    /// asked for (`msg_flag`) or a clock summary is due. Else every peer
    /// gets the node's clock, and in a full push after it, for each other
    /// origin, the buffered updates above what the peer is believed to
    /// have, lowest counter first. Refused where such an update has left
    /// the buffer.
    pub fn create_peer_msg_list(&self, msg_flag: bool) -> (r: Result<
        PeerMsgMap<OpsValue>,
        VectorClockError,
    >)
        ensures
            r is Ok <==> !(msg_flag && replay_gap(self@)),
            r matches Err(e) ==> e is UnexpectedError,
            r matches Ok(out) ==> is_peer_msg_map(batch_views(out@), self@, msg_flag),
    {
        broadcast use vstd::std_specs::hash::group_hash_axioms;

        let mut msg_map: PeerMsgMap<OpsValue> = HashMap::new();
        let vc_flag = msg_flag || self.msg_count_vc >= self.max_msg_count_vc;
        if vc_flag {
            let peers = collect_keys(&self.trcb.node_trcb);
            let mut i: usize = 0;
            while i < peers.len()
                invariant
                    i <= peers.len(),
                    lists_keys(peers@, self.trcb.node_trcb@),
                    forall|p: NodeType|
                        msg_map@.contains_key(p) <==> peers@.take(i as int).contains(p),
                    forall|p: NodeType|
                        msg_map@.contains_key(p) ==> is_peer_batch(
                            peer_msg_views((#[trigger] msg_map@[p])@),
                            self@,
                            p,
                            self@.trcb.beliefs[p],
                            true,
                            msg_flag,
                        ),
                    forall|j: int|
                        0 <= j < i ==> !(msg_flag && #[trigger] peer_missing(
                            self@,
                            peers@[j],
                            self@.trcb.beliefs[peers@[j]],
                        )),
                decreases peers.len() - i,
            {
                let pnode = peers[i];
                assert(peers@.contains(pnode));
                proof {
                    lemma_take_push_set(peers@, i as int);
                }
                let pvc = held(&self.trcb.node_trcb, &pnode);
                let msg_vec = match self.replay_peer(pnode, pvc, true, msg_flag) {
                    Ok(v) => v,
                    Err(e) => {
                        proof {
                            assert(self@.trcb.beliefs.contains_key(pnode));
                            assert(peer_missing(self@, pnode, self@.trcb.beliefs[pnode]));
                        }
                        return Err(e);
                    },
                };
                msg_map.insert(pnode, msg_vec);
                i += 1;
            }
            proof {
                assert(peers@.take(peers@.len() as int) =~= peers@);
                assert(batch_views(msg_map@).dom() =~= self@.trcb.beliefs.dom());
                if msg_flag && replay_gap(self@) {
                    let p = choose|p: NodeType|
                        self@.trcb.beliefs.contains_key(p) && #[trigger] peer_missing(
                            self@,
                            p,
                            self@.trcb.beliefs[p],
                        );
                    assert(peers@.contains(p));
                    let j = choose|j: int| 0 <= j < peers@.len() && peers@[j] == p;
                    assert(!(msg_flag && peer_missing(
                        self@,
                        peers@[j],
                        self@.trcb.beliefs[peers@[j]],
                    )));
                }
            }
        } else {
            proof {
                assert(batch_views(msg_map@) =~= Map::empty());
            }
        }
        Ok(msg_map)
    }
}

/// The counter that the instance `t` holds for `n` after it took in
/// `batch`, where it took it in.
pub open spec fn entry_after<K: CrdtVariant>(
    t: CrdtView<<K::Value as View>::V, K::Ops>,
    batch: Seq<PeerNodeMsgView<K::Ops>>,
    n: NodeType,
) -> LCType {
    peer_batch_steps::<K>(t, batch)->Ok_0.trcb.clock[n]
}

/// The updates of origin `m` that a peer lacks raise the peer's counter
/// for `m` from where the peer is to where the sender is, and leave its
/// counters for other origins alone.
proof fn lemma_range_effect<K: CrdtVariant>(
    s: CrdtView<<K::Value as View>::V, K::Ops>,
    m: NodeType,
    lo: LCType,
    t: CrdtView<<K::Value as View>::V, K::Ops>,
    n: NodeType,
    j: int,
)
    requires
        buffer_keyed(s.buffer),
        !origin_missing(s, m, lo),
        t.trcb.clock.contains_key(n),
        0 <= j <= origin_range(s, m, lo).len(),
        peer_batch_steps::<K>(t, origin_range(s, m, lo).take(j)) is Ok,
        m == n ==> t.trcb.clock[n] == lo,
    ensures
        peer_batch_steps::<K>(t, origin_range(s, m, lo).take(j))->Ok_0.trcb.clock.contains_key(n),
        entry_after::<K>(t, origin_range(s, m, lo).take(j), n) == if m == n {
            (lo + j) as LCType
        } else {
            t.trcb.clock[n]
        },
    decreases j,
{
    let range = origin_range(s, m, lo);
    if j == 0 {
        assert(range.take(0) =~= Seq::empty());
    } else {
        let before = range.take(j - 1);
        let last = seq![range[j - 1]];
        assert(range.take(j) =~= before + last);
        lemma_batch_concat::<K>(t, before, last);
        lemma_range_effect::<K>(s, m, lo, t, n, j - 1);
        let t1 = peer_batch_steps::<K>(t, before)->Ok_0;
        let lc = (lo + 1 + (j - 1)) as LCType;
        let key = key_of(m, lc);
        assert(s.buffer.contains_key(key));
        let u = s.buffer[key];
        assert(range[j - 1] == PeerNodeMsgView::<K::Ops>::UpdateNodeMsg(u));
        lemma_key_injective(m, lc, u.node, u.origin_clock());
        lemma_single_step::<K>(t1, range[j - 1]);
    }
}

/// What a sender builds for a peer brings the peer up to the sender on
/// every origin, as far as the peer takes it in.
proof fn lemma_replay_effect<K: CrdtVariant>(
    s: CrdtView<<K::Value as View>::V, K::Ops>,
    p: NodeType,
    belief: Map<NodeType, LCType>,
    order: Seq<NodeType>,
    t: CrdtView<<K::Value as View>::V, K::Ops>,
    n: NodeType,
    j: int,
)
    requires
        buffer_keyed(s.buffer),
        !peer_missing(s, p, belief),
        lists_keys(order, belief),
        n != p,
        t.trcb.clock.contains_key(n),
        t.trcb.clock[n] == belief[n],
        belief[n] <= s.trcb.clock[n],
        0 <= j <= order.len(),
        peer_batch_steps::<K>(t, replay_for(s, p, belief, order.take(j))) is Ok,
    ensures
        peer_batch_steps::<K>(
            t,
            replay_for(s, p, belief, order.take(j)),
        )->Ok_0.trcb.clock.contains_key(n),
        entry_after::<K>(t, replay_for(s, p, belief, order.take(j)), n) == if order.take(
            j,
        ).contains(n) {
            s.trcb.clock[n]
        } else {
            belief[n]
        },
    decreases j,
{
    if j == 0 {
        assert(order.take(0) =~= Seq::<NodeType>::empty());
        assert(!order.take(0).contains(n));
    } else {
        let sofar = order.take(j - 1);
        let m = order[j - 1];
        assert(order.take(j).drop_last() =~= sofar);
        assert(order.take(j).last() == m);
        let head = replay_for(s, p, belief, sofar);
        let part = replay_part(s, p, belief, m);
        lemma_batch_concat::<K>(t, head, part);
        lemma_replay_effect::<K>(s, p, belief, order, t, n, j - 1);
        lemma_take_push_set(order, j - 1);
        let t1 = peer_batch_steps::<K>(t, head)->Ok_0;
        assert(order.contains(m));
        if m == p {
            assert(part =~= Seq::empty());
        } else {
            assert(!origin_missing(s, m, belief[m]));
            let range = origin_range(s, m, belief[m]);
            assert(range.take(range.len() as int) =~= range);
            if m == n {
                assert(!sofar.contains(n)) by {
                    if sofar.contains(n) {
                        let i = choose|i: int| 0 <= i < sofar.len() && sofar[i] == n;
                        assert(order[i] == order[j - 1]);
                    }
                }
            }
            lemma_range_effect::<K>(s, m, belief[m], t1, n, range.len() as int);
        }
    }
}

/// Replaying catches the peer up. A node builds a full push for its peer
/// `p`, of which it believes that `p` has seen the updates of origin `n`
/// up to a counter that the node itself is not behind; the belief is true
/// of the peer's instance `t`; every buffered update sits under its own
/// key and nothing that `p` lacks has left the buffer. Then `p`, where it
/// takes the list in, has seen the updates of `n` up to exactly the
/// node's own counter for `n`.
pub proof fn law_replay_catches_up<K: CrdtVariant>(
    s: CrdtView<<K::Value as View>::V, K::Ops>,
    p: NodeType,
    list: Seq<PeerNodeMsgView<K::Ops>>,
    t: CrdtView<<K::Value as View>::V, K::Ops>,
    n: NodeType,
)
    requires
        s.trcb.beliefs.contains_key(p),
        is_peer_batch(list, s, p, s.trcb.beliefs[p], true, true),
        buffer_keyed(s.buffer),
        !peer_missing(s, p, s.trcb.beliefs[p]),
        n != p,
        s.trcb.beliefs[p].contains_key(n),
        s.trcb.clock.contains_key(n),
        t.trcb.clock.contains_key(n),
        t.trcb.clock[n] == s.trcb.beliefs[p][n],
        s.trcb.beliefs[p][n] <= s.trcb.clock[n],
        peer_batch_steps::<K>(t, list) is Ok,
    ensures
        entry_after::<K>(t, list, n) == s.trcb.clock[n],
{
    let belief = s.trcb.beliefs[p];
    let order = choose|order: Seq<NodeType>|
        {
            &&& #[trigger] lists_keys(order, belief)
            &&& list == summary_part(s) + replay_for(s, p, belief, order)
        };
    let head = summary_part(s);
    let tail = replay_for(s, p, belief, order);
    lemma_batch_concat::<K>(t, head, tail);
    lemma_single_step::<K>(t, head[0]);
    assert(head =~= seq![head[0]]);
    let t1 = peer_batch_steps::<K>(t, head)->Ok_0;
    assert(t1.trcb.clock == t.trcb.clock);
    assert(order.take(order.len() as int) =~= order);
    assert(order.contains(n));
    lemma_replay_effect::<K>(s, p, belief, order, t1, n, order.len() as int);
}

} // verus!
