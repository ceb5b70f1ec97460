//! Convergence: two delivery orders of the same updates that both respect
//! causality make the same of an instance.
use vstd::prelude::*;
use crate::{ARSetOpsValue, IntMultCrdtValue, IntMultOpsValue, PNCntOpsValue};
use crate::add_mult_crdt::{AddMult, law_concurrent_updates_commute};
use crate::arset_crdt::{
    AWSet, RWSet, law_add_wins_updates_commute, law_remove_wins_updates_commute,
};
use crate::crdt::{
    CrdtVariant, CrdtView, concurrent_pair, next_from_origin, pair_commutes, after_two,
    peer_batch_steps, peer_msg_step, lemma_batch_concat, lemma_single_step, lemma_two_steps,
};
use crate::message_list::{clocks_over, key_of, lemma_key_injective};
use crate::vector_clock::{VCOrdering, compare_clocks, law_compare_mirror};
use crate::{LCType, NodeType};
use crate::edflag_crdt::{
    DWFlag, EDFlag, EWFlag, law_disable_wins_updates_commute, law_enable_wins_updates_commute,
};
use crate::message_data::{NodeUpdateMsgView, PeerNodeMsgView};
use crate::pncnt_crdt::{PNCounter, PNCounterData, law_pn_updates_commute};

verus! {

/// The list with the items at `i` and `i + 1` in each other's place.
pub open spec fn exchanged<A>(batch: Seq<A>, i: int) -> Seq<A> {
    batch.update(i, batch[i + 1]).update(i + 1, batch[i])
}

/// The messages at `i` and `i + 1` of `batch` are updates of two origins
/// that happened concurrently, and each is the next one of its origin when
/// the instance `s` has taken in what comes before them.
pub open spec fn may_exchange<K: CrdtVariant>(
    s: CrdtView<<K::Value as View>::V, K::Ops>,
    batch: Seq<PeerNodeMsgView<K::Ops>>,
    i: int,
) -> bool {
    &&& 0 <= i
    &&& i + 1 < batch.len()
    &&& batch[i] matches PeerNodeMsgView::UpdateNodeMsg(x)
    &&& batch[i + 1] matches PeerNodeMsgView::UpdateNodeMsg(y)
    &&& peer_batch_steps::<K>(s, batch.take(i)) matches Ok(t)
    &&& concurrent_pair(t, x, y)
    &&& t.buffer.dom().finite()
}

/// On every instance with a finite buffer, two updates that happened
/// concurrently make the same in either order.
pub open spec fn concurrent_pairs_commute<K: CrdtVariant>() -> bool {
    forall|
        t: CrdtView<<K::Value as View>::V, K::Ops>,
        x: NodeUpdateMsgView<K::Ops>,
        y: NodeUpdateMsgView<K::Ops>,
    |
        concurrent_pair(t, x, y) && t.buffer.dom().finite() ==> #[trigger] pair_commutes::<K>(
            t,
            x,
            y,
        )
}

/// Exchanging two neighbours that happened concurrently changes nothing in
/// what a batch makes of an instance.
pub proof fn lemma_exchange<K: CrdtVariant>(
    s: CrdtView<<K::Value as View>::V, K::Ops>,
    batch: Seq<PeerNodeMsgView<K::Ops>>,
    i: int,
)
    requires
        may_exchange::<K>(s, batch, i),
        concurrent_pairs_commute::<K>(),
    ensures
        peer_batch_steps::<K>(s, exchanged(batch, i)) == peer_batch_steps::<K>(s, batch),
{
    let x = batch[i]->UpdateNodeMsg_0;
    let y = batch[i + 1]->UpdateNodeMsg_0;
    let head = batch.take(i);
    let tail = batch.skip(i + 2);
    let xy = seq![batch[i], batch[i + 1]];
    let yx = seq![batch[i + 1], batch[i]];
    assert(batch =~= head + (xy + tail));
    assert(exchanged(batch, i) =~= head + (yx + tail));
    lemma_batch_concat::<K>(s, head, xy + tail);
    lemma_batch_concat::<K>(s, head, yx + tail);
    let t = peer_batch_steps::<K>(s, head)->Ok_0;
    lemma_batch_concat::<K>(t, xy, tail);
    lemma_batch_concat::<K>(t, yx, tail);
    assert(pair_commutes::<K>(t, x, y));
    assert(after_two::<K>(t, x, y) == peer_batch_steps::<K>(t, xy));
    assert(after_two::<K>(t, y, x) == peer_batch_steps::<K>(t, yx));
}

/// The key under which an update is buffered.
pub open spec fn key_of_update<OpsValue: Copy + PartialEq>(u: NodeUpdateMsgView<OpsValue>) -> u64 {
    key_of(u.node, u.origin_clock())
}

/// Every message of `batch` is an update that, at the time it arrives at
/// the instance `s`, is the next one of its origin, is stamped over the
/// same members as what is buffered, and takes effect.
pub open spec fn all_delivered<K: CrdtVariant>(
    s: CrdtView<<K::Value as View>::V, K::Ops>,
    batch: Seq<PeerNodeMsgView<K::Ops>>,
) -> bool
    decreases batch.len(),
{
    batch.len() == 0 || {
        &&& batch[0] matches PeerNodeMsgView::UpdateNodeMsg(u)
        &&& next_from_origin(s, u)
        &&& clocks_over(s.buffer, u.clock.dom())
        &&& peer_msg_step::<K>(s, batch[0]) matches Ok(s1)
        &&& all_delivered::<K>(s1, batch.drop_first())
    }
}

/// The instance after the first `i` messages of `batch`.
pub open spec fn after_prefix<K: CrdtVariant>(
    s: CrdtView<<K::Value as View>::V, K::Ops>,
    batch: Seq<PeerNodeMsgView<K::Ops>>,
    i: int,
) -> CrdtView<<K::Value as View>::V, K::Ops> {
    peer_batch_steps::<K>(s, batch.take(i))->Ok_0
}

/// A delivered batch is delivered up to any place in it, and from there
/// on.
pub proof fn lemma_delivered_split<K: CrdtVariant>(
    s: CrdtView<<K::Value as View>::V, K::Ops>,
    batch: Seq<PeerNodeMsgView<K::Ops>>,
    i: int,
)
    requires
        all_delivered::<K>(s, batch),
        0 <= i <= batch.len(),
    ensures
        peer_batch_steps::<K>(s, batch.take(i)) is Ok,
        all_delivered::<K>(s, batch.take(i)),
        all_delivered::<K>(after_prefix::<K>(s, batch, i), batch.skip(i)),
    decreases i,
{
    if i == 0 {
        assert(batch.take(0) =~= Seq::empty());
        assert(batch.skip(0) =~= batch);
    } else {
        let s1 = peer_msg_step::<K>(s, batch[0])->Ok_0;
        let rest = batch.drop_first();
        lemma_delivered_split::<K>(s1, rest, i - 1);
        assert(batch.take(i)[0] == batch[0]);
        assert(batch.take(i).drop_first() =~= rest.take(i - 1));
        assert(rest.skip(i - 1) =~= batch.skip(i));
    }
}

/// A batch that is delivered up to a place, and from there on, is
/// delivered.
pub proof fn lemma_delivered_join<K: CrdtVariant>(
    s: CrdtView<<K::Value as View>::V, K::Ops>,
    first: Seq<PeerNodeMsgView<K::Ops>>,
    second: Seq<PeerNodeMsgView<K::Ops>>,
)
    requires
        all_delivered::<K>(s, first),
        peer_batch_steps::<K>(s, first) matches Ok(t) && all_delivered::<K>(t, second),
    ensures
        all_delivered::<K>(s, first + second),
    decreases first.len(),
{
    if first.len() == 0 {
        assert(first + second =~= second);
    } else {
        let s1 = peer_msg_step::<K>(s, first[0])->Ok_0;
        lemma_delivered_join::<K>(s1, first.drop_first(), second);
        assert((first + second)[0] == first[0]);
        assert((first + second).drop_first() =~= first.drop_first() + second);
    }
}

/// The message is an update of origin `n`.
pub open spec fn is_from<OpsValue: Copy + PartialEq>(
    m: PeerNodeMsgView<OpsValue>,
    n: NodeType,
) -> bool {
    m->UpdateNodeMsg_0.node == n
}

/// The message is an update that is buffered under `key`.
pub open spec fn has_key<OpsValue: Copy + PartialEq>(m: PeerNodeMsgView<OpsValue>, key: u64) -> bool {
    key_of_update(m->UpdateNodeMsg_0) == key
}

/// What the first `i` messages of a delivered batch have done to the
/// counter for origin `n` and to what the buffer holds under `key`: the
/// counter has grown by the updates of `n` among them, and the buffer has
/// gained them and lost nothing.
pub proof fn lemma_delivered_state<K: CrdtVariant>(
    s: CrdtView<<K::Value as View>::V, K::Ops>,
    batch: Seq<PeerNodeMsgView<K::Ops>>,
    i: int,
    n: NodeType,
    key: u64,
)
    requires
        all_delivered::<K>(s, batch),
        0 <= i <= batch.len(),
        s.buffer.dom().finite(),
    ensures
        ({
            let t = after_prefix::<K>(s, batch, i);
            &&& peer_batch_steps::<K>(s, batch.take(i)) is Ok
            &&& t.buffer.dom().finite()
            &&& t.trcb.clock.contains_key(n) <==> s.trcb.clock.contains_key(n)
            &&& t.trcb.clock[n] >= s.trcb.clock[n]
            &&& (forall|j: int| 0 <= j < i ==> !is_from(#[trigger] batch[j], n))
                ==> t.trcb.clock[n] == s.trcb.clock[n]
            &&& (exists|j: int| 0 <= j < i && is_from(#[trigger] batch[j], n)) ==> t.trcb.clock[n]
                > s.trcb.clock[n]
            &&& t.buffer.contains_key(key) <==> (s.buffer.contains_key(key) || exists|j: int|
                0 <= j < i && has_key(#[trigger] batch[j], key))
            &&& s.buffer.contains_key(key) ==> t.buffer[key] == s.buffer[key]
            &&& forall|j: int|
                0 <= j < i && has_key(#[trigger] batch[j], key) ==> t.buffer[key]
                    == batch[j]->UpdateNodeMsg_0
            &&& forall|j: int| 0 <= j < batch.len() ==> (#[trigger] batch[j]) is UpdateNodeMsg
        }),
    decreases i,
{
    K::operands_compare();
    lemma_delivered_split::<K>(s, batch, i);
    assert forall|j: int| 0 <= j < batch.len() implies (#[trigger] batch[j]) is UpdateNodeMsg by {
        lemma_delivered_split::<K>(s, batch, j);
        assert(batch.skip(j)[0] == batch[j]);
    }
    if i == 0 {
        assert(batch.take(0) =~= Seq::empty());
    } else {
        lemma_delivered_state::<K>(s, batch, i - 1, n, key);
        lemma_delivered_split::<K>(s, batch, i - 1);
        let t0 = after_prefix::<K>(s, batch, i - 1);
        let m = batch[i - 1];
        let u = m->UpdateNodeMsg_0;
        assert(batch.skip(i - 1)[0] == m);
        assert(batch.take(i) =~= batch.take(i - 1) + seq![m]);
        lemma_batch_concat::<K>(s, batch.take(i - 1), seq![m]);
        lemma_single_step::<K>(t0, m);
        let t = after_prefix::<K>(s, batch, i);
        assert(t == peer_msg_step::<K>(t0, m)->Ok_0);
        assert(t.buffer == t0.buffer.insert(key_of_update(u), u));
        assert(t.trcb.clock == t0.trcb.clock.insert(
            u.node,
            (t0.trcb.clock[u.node] + 1) as LCType,
        ));
        assert(has_key(m, key) <==> key_of_update(u) == key);
        assert(is_from(m, n) <==> u.node == n);
        if exists|j: int| 0 <= j < i && is_from(#[trigger] batch[j], n) {
            let j = choose|j: int| 0 <= j < i && is_from(#[trigger] batch[j], n);
            if j < i - 1 {
                assert(is_from(batch[j], n));
            }
        }
        if t.buffer.contains_key(key) && !s.buffer.contains_key(key) {
            if key_of_update(u) == key {
                assert(has_key(batch[i - 1], key));
            } else {
                let j = choose|j: int| 0 <= j < i - 1 && has_key(#[trigger] batch[j], key);
                assert(has_key(batch[j], key));
            }
        }
        assert forall|j: int| 0 <= j < i && has_key(#[trigger] batch[j], key) implies t.buffer[key]
            == batch[j]->UpdateNodeMsg_0 by {
            if j < i - 1 {
                assert(t0.buffer.contains_key(key));
            }
        }
    }
}

/// Two updates of different origins that happened concurrently.
pub open spec fn beside<OpsValue: Copy + PartialEq>(
    m1: PeerNodeMsgView<OpsValue>,
    m2: PeerNodeMsgView<OpsValue>,
) -> bool {
    &&& m1->UpdateNodeMsg_0.node != m2->UpdateNodeMsg_0.node
    &&& compare_clocks(m1->UpdateNodeMsg_0.clock, m2->UpdateNodeMsg_0.clock) == VCOrdering::VCCN
}

/// Two neighbours of a delivered batch that are updates of different
/// origins and happened concurrently may be exchanged: the batch stays
/// delivered and makes the same of the instance.
pub proof fn lemma_exchange_delivered<K: CrdtVariant>(
    s: CrdtView<<K::Value as View>::V, K::Ops>,
    batch: Seq<PeerNodeMsgView<K::Ops>>,
    i: int,
)
    requires
        all_delivered::<K>(s, batch),
        0 <= i,
        i + 1 < batch.len(),
        beside(batch[i], batch[i + 1]),
        concurrent_pairs_commute::<K>(),
        s.buffer.dom().finite(),
    ensures
        all_delivered::<K>(s, exchanged(batch, i)),
        peer_batch_steps::<K>(s, exchanged(batch, i)) == peer_batch_steps::<K>(s, batch),
{
    K::operands_compare();
    let x = batch[i]->UpdateNodeMsg_0;
    let y = batch[i + 1]->UpdateNodeMsg_0;
    let kx = key_of_update(x);
    let ky = key_of_update(y);
    lemma_delivered_state::<K>(s, batch, i, x.node, kx);
    lemma_delivered_split::<K>(s, batch, i);
    lemma_delivered_split::<K>(s, batch, i + 1);
    lemma_delivered_split::<K>(s, batch, i + 2);
    let t = after_prefix::<K>(s, batch, i);
    let rest = batch.skip(i);
    assert(rest[0] == batch[i]);
    assert(rest.drop_first() =~= batch.skip(i + 1));
    assert(batch.skip(i + 1)[0] == batch[i + 1]);
    assert(batch.skip(i + 1).drop_first() =~= batch.skip(i + 2));
    let t1 = peer_msg_step::<K>(t, batch[i])->Ok_0;
    let t2 = peer_msg_step::<K>(t1, batch[i + 1])->Ok_0;
    assert(all_delivered::<K>(t1, batch.skip(i + 1)));
    assert(all_delivered::<K>(t2, batch.skip(i + 2)));
    assert(t1.buffer == t.buffer.insert(kx, x));
    assert(t1.buffer.contains_key(kx) && t1.buffer[kx] == x);
    assert(x.clock.dom() == y.clock.dom());
    if kx == ky {
        lemma_key_injective(x.node, x.origin_clock(), y.node, y.origin_clock());
    }
    assert(clocks_over(t.buffer, x.clock.dom()));
    assert(concurrent_pair(t, x, y));
    assert(pair_commutes::<K>(t, x, y));
    lemma_two_steps::<K>(t, x, y);
    lemma_two_steps::<K>(t, y, x);
    lemma_exchange::<K>(s, batch, i);

    let r1 = peer_msg_step::<K>(t, batch[i + 1])->Ok_0;
    assert(r1.buffer == t.buffer.insert(ky, y));
    let r2 = peer_msg_step::<K>(r1, batch[i])->Ok_0;
    assert(r2 == t2);
    let tail = batch.skip(i + 2);
    let back = seq![batch[i]] + tail;
    assert(back[0] == batch[i]);
    assert(back.drop_first() =~= tail);
    assert(clocks_over(r1.buffer, x.clock.dom()));
    assert(all_delivered::<K>(r1, back));
    let middle = seq![batch[i + 1]] + back;
    assert(middle[0] == batch[i + 1]);
    assert(middle.drop_first() =~= back);
    assert(all_delivered::<K>(t, middle));
    lemma_delivered_join::<K>(s, batch.take(i), middle);
    assert(exchanged(batch, i) =~= batch.take(i) + middle);
}

/// A message of a delivered batch that is beside every message before it
/// may come first: the batch stays delivered and makes the same of the
/// instance.
pub proof fn lemma_move_to_front<K: CrdtVariant>(
    s: CrdtView<<K::Value as View>::V, K::Ops>,
    batch: Seq<PeerNodeMsgView<K::Ops>>,
    k: int,
)
    requires
        all_delivered::<K>(s, batch),
        0 <= k < batch.len(),
        forall|j: int| 0 <= j < k ==> beside(#[trigger] batch[j], batch[k]),
        concurrent_pairs_commute::<K>(),
        s.buffer.dom().finite(),
    ensures
        all_delivered::<K>(s, seq![batch[k]] + batch.remove(k)),
        peer_batch_steps::<K>(s, seq![batch[k]] + batch.remove(k)) == peer_batch_steps::<K>(
            s,
            batch,
        ),
    decreases k,
{
    if k == 0 {
        assert(seq![batch[0]] + batch.remove(0) =~= batch);
    } else {
        assert(beside(batch[k - 1], batch[k]));
        lemma_exchange_delivered::<K>(s, batch, k - 1);
        let next = exchanged(batch, k - 1);
        assert(next[k - 1] == batch[k]);
        assert forall|j: int| 0 <= j < k - 1 implies beside(#[trigger] next[j], next[k - 1]) by {
            assert(next[j] == batch[j]);
            assert(beside(batch[j], batch[k]));
        }
        lemma_move_to_front::<K>(s, next, k - 1);
        assert(seq![next[k - 1]] + next.remove(k - 1) =~= seq![batch[k]] + batch.remove(k));
    }
}

/// The update `m1` happened before `m2` or concurrently with it, so that
/// it may be delivered first.
pub open spec fn may_precede<OpsValue: Copy + PartialEq>(
    m1: PeerNodeMsgView<OpsValue>,
    m2: PeerNodeMsgView<OpsValue>,
) -> bool {
    let o = compare_clocks(m1->UpdateNodeMsg_0.clock, m2->UpdateNodeMsg_0.clock);
    o == VCOrdering::VCLE || o == VCOrdering::VCCN
}

/// The order of the batch respects causality: no update comes after one
/// that it happened before.
pub open spec fn causally_ordered<OpsValue: Copy + PartialEq>(
    batch: Seq<PeerNodeMsgView<OpsValue>>,
) -> bool {
    forall|i: int, j: int|
        #![trigger batch[i], batch[j]]
        0 <= i < j < batch.len() ==> may_precede(batch[i], batch[j])
}

/// The two batches hold the same messages.
pub open spec fn same_messages<OpsValue: Copy + PartialEq>(
    a: Seq<PeerNodeMsgView<OpsValue>>,
    b: Seq<PeerNodeMsgView<OpsValue>>,
) -> bool {
    &&& a.len() == b.len()
    &&& forall|m: PeerNodeMsgView<OpsValue>| a.contains(m) <==> b.contains(m)
}

/// No update occurs twice in a delivered batch.
pub proof fn lemma_delivered_distinct<K: CrdtVariant>(
    s: CrdtView<<K::Value as View>::V, K::Ops>,
    batch: Seq<PeerNodeMsgView<K::Ops>>,
    j1: int,
    j2: int,
)
    requires
        all_delivered::<K>(s, batch),
        0 <= j1 < j2 < batch.len(),
        s.buffer.dom().finite(),
    ensures
        batch[j1] != batch[j2],
        batch[j1]->UpdateNodeMsg_0.clock.dom() == batch[j2]->UpdateNodeMsg_0.clock.dom(),
{
    let key = key_of_update(batch[j1]->UpdateNodeMsg_0);
    lemma_delivered_state::<K>(s, batch, j2, 0, key);
    lemma_delivered_split::<K>(s, batch, j2);
    assert(batch.skip(j2)[0] == batch[j2]);
    assert(has_key(batch[j1], key));
    let t = after_prefix::<K>(s, batch, j2);
    assert(t.buffer.contains_key(key));
    assert(t.buffer[key] == batch[j1]->UpdateNodeMsg_0);
}

/// Two delivery orders of the same updates that both respect causality
/// make the same of an instance, provided that two concurrent updates do
/// so in either order.
pub proof fn lemma_any_order<K: CrdtVariant>(
    s: CrdtView<<K::Value as View>::V, K::Ops>,
    a: Seq<PeerNodeMsgView<K::Ops>>,
    b: Seq<PeerNodeMsgView<K::Ops>>,
)
    requires
        concurrent_pairs_commute::<K>(),
        s.buffer.dom().finite(),
        all_delivered::<K>(s, a),
        all_delivered::<K>(s, b),
        causally_ordered(a),
        causally_ordered(b),
        same_messages(a, b),
    ensures
        peer_batch_steps::<K>(s, a) == peer_batch_steps::<K>(s, b),
    decreases a.len(),
{
    if a.len() == 0 {
        assert(a =~= b);
    } else {
        let first = b[0];
        let n = first->UpdateNodeMsg_0.node;
        assert(b.contains(first));
        let k = choose|k: int| 0 <= k < a.len() && a[k] == first;
        // every message before `a[k]` in `a` is beside it
        lemma_delivered_state::<K>(s, a, k, n, 0);
        lemma_delivered_split::<K>(s, a, k);
        assert(a.skip(k)[0] == a[k]);
        assert forall|j: int| 0 <= j < k implies beside(#[trigger] a[j], a[k]) by {
            if is_from(a[j], n) {
                assert(exists|j: int| 0 <= j < k && is_from(#[trigger] a[j], n));
            }
            assert(a.contains(a[j]));
            let m = choose|m: int| 0 <= m < b.len() && b[m] == a[j];
            assert(m != 0);
            assert(may_precede(b[0], b[m]));
            assert(may_precede(a[j], a[k]));
            lemma_delivered_distinct::<K>(s, a, j, k);
            law_compare_mirror(a[j]->UpdateNodeMsg_0.clock, a[k]->UpdateNodeMsg_0.clock);
        }
        lemma_move_to_front::<K>(s, a, k);
        let moved = seq![a[k]] + a.remove(k);
        let a1 = a.remove(k);
        let b1 = b.drop_first();
        assert(moved[0] == first);
        assert(moved.drop_first() =~= a1);
        let s1 = peer_msg_step::<K>(s, first)->Ok_0;
        assert(all_delivered::<K>(s1, a1));
        assert(all_delivered::<K>(s1, b1));
        assert(causally_ordered(a1)) by {
            assert forall|i: int, j: int| 0 <= i < j < a1.len() implies may_precede(
                #[trigger] a1[i],
                #[trigger] a1[j],
            ) by {
                let i0 = if i < k { i } else { i + 1 };
                let j0 = if j < k { j } else { j + 1 };
                assert(a1[i] == a[i0] && a1[j] == a[j0]);
                assert(may_precede(a[i0], a[j0]));
            }
        }
        assert(causally_ordered(b1)) by {
            assert forall|i: int, j: int| 0 <= i < j < b1.len() implies may_precede(
                #[trigger] b1[i],
                #[trigger] b1[j],
            ) by {
                assert(b1[i] == b[i + 1] && b1[j] == b[j + 1]);
                assert(may_precede(b[i + 1], b[j + 1]));
            }
        }
        assert(same_messages(a1, b1)) by {
            assert forall|m: PeerNodeMsgView<K::Ops>| a1.contains(m) <==> b1.contains(m) by {
                if a1.contains(m) {
                    let i = choose|i: int| 0 <= i < a1.len() && a1[i] == m;
                    let i0 = if i < k { i } else { i + 1 };
                    assert(a[i0] == m);
                    if i0 < k {
                        lemma_delivered_distinct::<K>(s, a, i0, k);
                    } else {
                        lemma_delivered_distinct::<K>(s, a, k, i0);
                    }
                    assert(a.contains(m));
                    let j = choose|j: int| 0 <= j < b.len() && b[j] == m;
                    assert(j != 0);
                    assert(b1[j - 1] == m);
                }
                if b1.contains(m) {
                    let j = choose|j: int| 0 <= j < b1.len() && b1[j] == m;
                    assert(b[j + 1] == m);
                    lemma_delivered_distinct::<K>(s, b, 0, j + 1);
                    assert(b.contains(m));
                    let i = choose|i: int| 0 <= i < a.len() && a[i] == m;
                    assert(i != k);
                    let i1 = if i < k { i } else { i - 1 };
                    assert(a1[i1] == m);
                }
            }
        }
        lemma_delivered_state::<K>(s, b, 1, n, 0);
        assert(b.take(1) =~= seq![first]);
        lemma_single_step::<K>(s, first);
        lemma_any_order::<K>(s1, a1, b1);
    }
}

/// Convergence of the multiplicative counter. Two delivery orders of the
/// same updates, in both of which every update is the next one of its
/// origin when it arrives and none comes after one that it happened
/// before, make the same of an instance: the same value, the same buffer,
/// the same clocks.
pub proof fn law_counter_converges(
    s: CrdtView<IntMultCrdtValue, IntMultOpsValue>,
    a: Seq<PeerNodeMsgView<IntMultOpsValue>>,
    b: Seq<PeerNodeMsgView<IntMultOpsValue>>,
)
    requires
        s.buffer.dom().finite(),
        all_delivered::<AddMult>(s, a),
        all_delivered::<AddMult>(s, b),
        causally_ordered(a),
        causally_ordered(b),
        same_messages(a, b),
    ensures
        peer_batch_steps::<AddMult>(s, a) == peer_batch_steps::<AddMult>(s, b),
{
    assert forall|
        t: CrdtView<IntMultCrdtValue, IntMultOpsValue>,
        x: NodeUpdateMsgView<IntMultOpsValue>,
        y: NodeUpdateMsgView<IntMultOpsValue>,
    | concurrent_pair(t, x, y) && t.buffer.dom().finite() implies #[trigger] pair_commutes::<
        AddMult,
    >(t, x, y) by {
        law_concurrent_updates_commute(t, x, y);
    }
    lemma_any_order::<AddMult>(s, a, b);
}

/// Convergence of the flag on which enabling wins, in the same sense.
pub proof fn law_enable_wins_converges(
    s: CrdtView<EDFlag, EDFlag>,
    a: Seq<PeerNodeMsgView<EDFlag>>,
    b: Seq<PeerNodeMsgView<EDFlag>>,
)
    requires
        s.buffer.dom().finite(),
        all_delivered::<EWFlag>(s, a),
        all_delivered::<EWFlag>(s, b),
        causally_ordered(a),
        causally_ordered(b),
        same_messages(a, b),
    ensures
        peer_batch_steps::<EWFlag>(s, a) == peer_batch_steps::<EWFlag>(s, b),
{
    assert forall|
        t: CrdtView<EDFlag, EDFlag>,
        x: NodeUpdateMsgView<EDFlag>,
        y: NodeUpdateMsgView<EDFlag>,
    | concurrent_pair(t, x, y) && t.buffer.dom().finite() implies #[trigger] pair_commutes::<
        EWFlag,
    >(t, x, y) by {
        law_enable_wins_updates_commute(t, x, y);
    }
    lemma_any_order::<EWFlag>(s, a, b);
}

/// Convergence of the flag on which disabling wins, in the same sense.
pub proof fn law_disable_wins_converges(
    s: CrdtView<EDFlag, EDFlag>,
    a: Seq<PeerNodeMsgView<EDFlag>>,
    b: Seq<PeerNodeMsgView<EDFlag>>,
)
    requires
        s.buffer.dom().finite(),
        all_delivered::<DWFlag>(s, a),
        all_delivered::<DWFlag>(s, b),
        causally_ordered(a),
        causally_ordered(b),
        same_messages(a, b),
    ensures
        peer_batch_steps::<DWFlag>(s, a) == peer_batch_steps::<DWFlag>(s, b),
{
    assert forall|
        t: CrdtView<EDFlag, EDFlag>,
        x: NodeUpdateMsgView<EDFlag>,
        y: NodeUpdateMsgView<EDFlag>,
    | concurrent_pair(t, x, y) && t.buffer.dom().finite() implies #[trigger] pair_commutes::<
        DWFlag,
    >(t, x, y) by {
        law_disable_wins_updates_commute(t, x, y);
    }
    lemma_any_order::<DWFlag>(s, a, b);
}

/// Convergence of the set on which adding wins, in the same sense.
pub proof fn law_add_wins_converges(
    s: CrdtView<Set<ARSetOpsValue>, ARSetOpsValue>,
    a: Seq<PeerNodeMsgView<ARSetOpsValue>>,
    b: Seq<PeerNodeMsgView<ARSetOpsValue>>,
)
    requires
        s.buffer.dom().finite(),
        all_delivered::<AWSet>(s, a),
        all_delivered::<AWSet>(s, b),
        causally_ordered(a),
        causally_ordered(b),
        same_messages(a, b),
    ensures
        peer_batch_steps::<AWSet>(s, a) == peer_batch_steps::<AWSet>(s, b),
{
    assert forall|
        t: CrdtView<Set<ARSetOpsValue>, ARSetOpsValue>,
        x: NodeUpdateMsgView<ARSetOpsValue>,
        y: NodeUpdateMsgView<ARSetOpsValue>,
    | concurrent_pair(t, x, y) && t.buffer.dom().finite() implies #[trigger] pair_commutes::<
        AWSet,
    >(t, x, y) by {
        law_add_wins_updates_commute(t, x, y);
    }
    lemma_any_order::<AWSet>(s, a, b);
}

/// Convergence of the set on which removing wins, in the same sense.
pub proof fn law_remove_wins_converges(
    s: CrdtView<Set<ARSetOpsValue>, ARSetOpsValue>,
    a: Seq<PeerNodeMsgView<ARSetOpsValue>>,
    b: Seq<PeerNodeMsgView<ARSetOpsValue>>,
)
    requires
        s.buffer.dom().finite(),
        all_delivered::<RWSet>(s, a),
        all_delivered::<RWSet>(s, b),
        causally_ordered(a),
        causally_ordered(b),
        same_messages(a, b),
    ensures
        peer_batch_steps::<RWSet>(s, a) == peer_batch_steps::<RWSet>(s, b),
{
    assert forall|
        t: CrdtView<Set<ARSetOpsValue>, ARSetOpsValue>,
        x: NodeUpdateMsgView<ARSetOpsValue>,
        y: NodeUpdateMsgView<ARSetOpsValue>,
    | concurrent_pair(t, x, y) && t.buffer.dom().finite() implies #[trigger] pair_commutes::<
        RWSet,
    >(t, x, y) by {
        law_remove_wins_updates_commute(t, x, y);
    }
    lemma_any_order::<RWSet>(s, a, b);
}

/// Convergence of the positive-negative counter, in the same sense.
pub proof fn law_pn_counter_converges(
    s: CrdtView<PNCounterData, PNCntOpsValue>,
    a: Seq<PeerNodeMsgView<PNCntOpsValue>>,
    b: Seq<PeerNodeMsgView<PNCntOpsValue>>,
)
    requires
        s.buffer.dom().finite(),
        all_delivered::<PNCounter>(s, a),
        all_delivered::<PNCounter>(s, b),
        causally_ordered(a),
        causally_ordered(b),
        same_messages(a, b),
    ensures
        peer_batch_steps::<PNCounter>(s, a) == peer_batch_steps::<PNCounter>(s, b),
{
    assert forall|
        t: CrdtView<PNCounterData, PNCntOpsValue>,
        x: NodeUpdateMsgView<PNCntOpsValue>,
        y: NodeUpdateMsgView<PNCntOpsValue>,
    | concurrent_pair(t, x, y) && t.buffer.dom().finite() implies #[trigger] pair_commutes::<
        PNCounter,
    >(t, x, y) by {
        law_pn_updates_commute(t, x, y);
    }
    lemma_any_order::<PNCounter>(s, a, b);
}

} // verus!
