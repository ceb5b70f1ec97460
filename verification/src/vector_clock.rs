//! Vector clocks: one logical counter per cluster member.
use vstd::prelude::*;
use std::collections::HashMap;
use crate::{LCType, NodeType};
use crate::key_set::{collect_keys, held, lists_keys, lemma_listing_len};

verus! {

/// The counter every member starts at.
pub const INITIAL_LC: LCType = 0;

/// The step by which one update advances its origin's counter.
pub const INC_LC: LCType = 1;

/// Why an operation on clocks was refused.
#[derive(Debug)]
pub enum VectorClockError {
    /// A clock was asked for over no members at all.
    EmptyNodeList,
    /// A node was looked up that the clock has no entry for.
    NodeNotFound,
    /// Two clocks over different member sets were compared or merged.
    NonCompatibleVC,
    /// A broadcast tracker was asked for a node outside its own member list.
    InconsistentInputTRBC(NodeType, Vec<NodeType>),
    /// Something that the bookkeeping of a node rules out: a recorded clock
    /// lacks a member, an update that has to be sent again has left the
    /// buffer, or a different update already sits under a key.
    UnexpectedError(String),
}

/// The kind of a refusal, without what it carries.
pub enum ErrorKind {
    EmptyNodeList,
    NodeNotFound,
    NonCompatibleVC,
    InconsistentInputTRBC,
    UnexpectedError,
}

impl VectorClockError {
    /// The kind of this refusal.
    pub open spec fn kind(self) -> ErrorKind {
        match self {
            VectorClockError::EmptyNodeList => ErrorKind::EmptyNodeList,
            VectorClockError::NodeNotFound => ErrorKind::NodeNotFound,
            VectorClockError::NonCompatibleVC => ErrorKind::NonCompatibleVC,
            VectorClockError::InconsistentInputTRBC(_, _) => ErrorKind::InconsistentInputTRBC,
            VectorClockError::UnexpectedError(_) => ErrorKind::UnexpectedError,
        }
    }
}

/// How one clock stands to another.
#[derive(Debug, Clone, Copy, PartialEq, Eq, Structural)]
pub enum VCOrdering {
    /// At most the other everywhere, and below it somewhere.
    VCLE,
    /// The same everywhere.
    VCEQ,
    /// At least the other everywhere, and above it somewhere.
    VCGR,
    /// Below the other somewhere and above it somewhere else.
    VCCN,
}

/// How a peer's clock stands to what has been delivered from that peer.
#[derive(Debug, Clone, Copy, PartialEq, Eq, Structural)]
pub enum VCStatus {
    /// Already seen.
    DUPLICATE,
    /// Exactly the next one.
    INORDER,
    /// Ahead by more than one: something in between is missing.
    OUTOFORDER,
}

/// A map from each cluster member to its logical counter.
#[derive(Debug)]
pub struct VectorClock {
    pub vcmap: HashMap<NodeType, LCType>,
}

impl View for VectorClock {
    type V = Map<NodeType, LCType>;

    open spec fn view(&self) -> Map<NodeType, LCType> {
        self.vcmap@
    }
}

/// The clock over `members` in which nothing has happened yet.
pub open spec fn zero_clock(members: Set<NodeType>) -> Map<NodeType, LCType> {
    Map::new(|k: NodeType| members.contains(k), |k: NodeType| INITIAL_LC)
}

/// `a` is at most `b` at every member of `a`.
pub open spec fn clock_leq(a: Map<NodeType, LCType>, b: Map<NodeType, LCType>) -> bool {
    forall|k: NodeType| a.contains_key(k) ==> a[k] <= b[k]
}

/// The relation between two clocks over one member set.
pub open spec fn compare_clocks(a: Map<NodeType, LCType>, b: Map<NodeType, LCType>) -> VCOrdering {
    if clock_leq(a, b) && clock_leq(b, a) {
        VCOrdering::VCEQ
    } else if clock_leq(a, b) {
        VCOrdering::VCLE
    } else if clock_leq(b, a) {
        VCOrdering::VCGR
    } else {
        VCOrdering::VCCN
    }
}

/// The relation between two counters.
pub open spec fn compare_counters(lc1: LCType, lc2: LCType) -> VCOrdering {
    if lc1 < lc2 {
        VCOrdering::VCLE
    } else if lc1 == lc2 {
        VCOrdering::VCEQ
    } else {
        VCOrdering::VCGR
    }
}

/// The relation between the successor of `lc1` and `lc2`.
pub open spec fn compare_successor(lc1: LCType, lc2: LCType) -> VCOrdering {
    if lc1 + INC_LC < lc2 {
        VCOrdering::VCLE
    } else if lc1 + INC_LC == lc2 {
        VCOrdering::VCEQ
    } else {
        VCOrdering::VCGR
    }
}

/// What two partial results of a comparison amount to together.
pub open spec fn combine_orderings(st1: VCOrdering, st2: VCOrdering) -> VCOrdering {
    match (st1, st2) {
        (VCOrdering::VCEQ, _) => st2,
        (_, VCOrdering::VCEQ) => st1,
        (VCOrdering::VCCN, _) => VCOrdering::VCCN,
        (_, VCOrdering::VCCN) => VCOrdering::VCCN,
        (VCOrdering::VCLE, VCOrdering::VCLE) => VCOrdering::VCLE,
        (VCOrdering::VCGR, VCOrdering::VCGR) => VCOrdering::VCGR,
        (_, _) => VCOrdering::VCCN,
    }
}

/// How a peer's counter `theirs` stands to `ours`, the last one delivered.
pub open spec fn delivery_status(ours: LCType, theirs: LCType) -> VCStatus {
    if theirs <= ours {
        VCStatus::DUPLICATE
    } else if theirs == ours + 1 {
        VCStatus::INORDER
    } else {
        VCStatus::OUTOFORDER
    }
}

/// The status that a comparison of "ours plus one" with "theirs" stands for.
pub open spec fn status_of_ordering(pord: VCOrdering) -> VCStatus {
    match pord {
        VCOrdering::VCGR => VCStatus::DUPLICATE,
        VCOrdering::VCEQ => VCStatus::INORDER,
        _ => VCStatus::OUTOFORDER,
    }
}

/// The mirror image of an ordering: what the other side sees.
pub open spec fn mirror(o: VCOrdering) -> VCOrdering {
    match o {
        VCOrdering::VCLE => VCOrdering::VCGR,
        VCOrdering::VCGR => VCOrdering::VCLE,
        VCOrdering::VCEQ => VCOrdering::VCEQ,
        VCOrdering::VCCN => VCOrdering::VCCN,
    }
}

/// The member-by-member minimum of two clocks over the members of `a`.
pub open spec fn pointwise_min(a: Map<NodeType, LCType>, b: Map<NodeType, LCType>) -> Map<
    NodeType,
    LCType,
> {
    Map::new(|k: NodeType| a.contains_key(k), |k: NodeType| if a[k] <= b[k] { a[k] } else { b[k] })
}

/// The member-by-member maximum of two clocks over the members of `a`.
pub open spec fn pointwise_max(a: Map<NodeType, LCType>, b: Map<NodeType, LCType>) -> Map<
    NodeType,
    LCType,
> {
    Map::new(|k: NodeType| a.contains_key(k), |k: NodeType| if a[k] >= b[k] { a[k] } else { b[k] })
}

/// The smaller of two counters.
pub fn min_lc(lc1: LCType, lc2: LCType) -> (r: LCType)
    ensures
        r == if lc1 <= lc2 { lc1 } else { lc2 },
{
    if lc1 <= lc2 { lc1 } else { lc2 }
}

/// The larger of two counters.
pub fn max_lc(lc1: LCType, lc2: LCType) -> (r: LCType)
    ensures
        r == if lc1 >= lc2 { lc1 } else { lc2 },
{
    if lc1 >= lc2 { lc1 } else { lc2 }
}

impl Clone for VectorClock {
    fn clone(&self) -> (r: Self)
        ensures
            r@ == self@,
    {
        VectorClock { vcmap: self.vcmap.clone() }
    }
}

impl VectorClock {
    /// A clock over the members in `node_list`, all counters at zero.
    /// An empty list is refused.
    pub fn new(node_list: Vec<NodeType>) -> (r: Result<Self, VectorClockError>)
        ensures
            r is Err <==> node_list@.len() == 0,
            r matches Err(e) ==> e is EmptyNodeList,
            r matches Ok(vc) ==> vc@ == zero_clock(node_list@.to_set()),
    {
        if node_list.len() == 0 {
            return Err(VectorClockError::EmptyNodeList);
        }
        Ok(Self::zeroed(&node_list))
    }

    /// The clock over the members in `node_list` with every counter at zero.
    pub(crate) fn zeroed(node_list: &Vec<NodeType>) -> (vc: Self)
        ensures
            vc@ == zero_clock(node_list@.to_set()),
    {
        broadcast use vstd::std_specs::hash::group_hash_axioms;

        let mut vcmap: HashMap<NodeType, LCType> = HashMap::new();
        let mut i: usize = 0;
        while i < node_list.len()
            invariant
                i <= node_list.len(),
                vcmap@ == zero_clock(node_list@.take(i as int).to_set()),
            decreases node_list.len() - i,
        {
            vcmap.insert(node_list[i], INITIAL_LC);
            proof {
                lemma_take_push_set(node_list@, i as int);
                assert(vcmap@ =~= zero_clock(node_list@.take(i + 1).to_set()));
            }
            i += 1;
        }
        proof {
            assert(node_list@.take(node_list@.len() as int) == node_list@);
        }
        Self { vcmap }
    }

    /// The number of members.
    pub fn len(&self) -> (n: usize)
        ensures
            n == self@.len(),
    {
        broadcast use vstd::std_specs::hash::group_hash_axioms;

        self.vcmap.len()
    }

    /// Advances the counter of `node` by one and leaves the others alone.
    /// A node without an entry is refused and nothing changes.
    pub fn next_vc(&mut self, node: &NodeType) -> (r: Result<(), VectorClockError>)
        requires
            old(self)@.contains_key(*node) ==> old(self)@[*node] < LCType::MAX,
        ensures
            r is Ok <==> old(self)@.contains_key(*node),
            r matches Err(e) ==> e is NodeNotFound && final(self)@ == old(self)@,
            r is Ok ==> final(self)@ == old(self)@.insert(
                *node,
                (old(self)@[*node] + INC_LC) as LCType,
            ),
    {
        broadcast use vstd::std_specs::hash::group_hash_axioms;

        let lc = match self.vcmap.get(node) {
            Some(lc) => *lc,
            None => {
                return Err(VectorClockError::NodeNotFound);
            },
        };
        self.vcmap.insert(*node, lc + INC_LC);
        Ok(())
    }

    /// Classifies the counter that `peer_vc` holds for `node` against the
    /// one held here: already seen, exactly the next, or further ahead.
    pub fn is_next_vc(&self, node: &NodeType, peer_vc: &VectorClock) -> (r: Result<
        VCStatus,
        VectorClockError,
    >)
        ensures
            r is Ok <==> self@.contains_key(*node) && peer_vc@.contains_key(*node),
            r matches Err(e) ==> e is NodeNotFound,
            r matches Ok(st) ==> st == delivery_status(self@[*node], peer_vc@[*node]),
    {
        broadcast use vstd::std_specs::hash::group_hash_axioms;

        let nlc = match self.vcmap.get(node) {
            Some(lc) => *lc,
            None => {
                return Err(VectorClockError::NodeNotFound);
            },
        };
        let plc = match peer_vc.vcmap.get(node) {
            Some(lc) => *lc,
            None => {
                return Err(VectorClockError::NodeNotFound);
            },
        };
        let vc_status = classify_successor(nlc, plc);
        Ok(peer_vc_status(vc_status))
    }

    /// Compares this clock with `other` member by member. Clocks over
    /// different member sets are refused.
    pub fn cmp_vc(&self, other: &VectorClock) -> (r: Result<VCOrdering, VectorClockError>)
        ensures
            r is Ok <==> self@.dom() == other@.dom(),
            r matches Err(e) ==> e is NonCompatibleVC,
            r matches Ok(o) ==> o == compare_clocks(self@, other@),
    {
        self.relation_to(other)
    }

    /// The comparison itself: folds the counter-by-counter results over the
    /// members of this clock.
    pub(crate) fn relation_to(&self, other: &VectorClock) -> (r: Result<
        VCOrdering,
        VectorClockError,
    >)
        ensures
            r is Ok <==> self@.dom() == other@.dom(),
            r matches Err(e) ==> e is NonCompatibleVC,
            r matches Ok(o) ==> o == compare_clocks(self@, other@),
    {
        broadcast use vstd::std_specs::hash::group_hash_axioms;

        if self.len() != other.len() {
            return Err(VectorClockError::NonCompatibleVC);
        }
        let keys = collect_keys(&self.vcmap);
        let mut vcords = VCOrdering::VCEQ;
        let mut i: usize = 0;
        while i < keys.len()
            invariant
                i <= keys.len(),
                lists_keys(keys@, self@),
                forall|j: int| 0 <= j < i ==> other@.contains_key(#[trigger] keys@[j]),
                vcords == prefix_ordering(keys@, i as int, self@, other@),
            decreases keys.len() - i,
        {
            let node = keys[i];
            assert(keys@.contains(node));
            let lc1 = *held(&self.vcmap, &node);
            let lc2 = match other.vcmap.get(&node) {
                Some(lc) => *lc,
                None => {
                    return Err(VectorClockError::NonCompatibleVC);
                },
            };
            let vcordo = counter_relation(lc1, lc2);
            proof {
                lemma_prefix_ordering_step(keys@, i as int, self@, other@);
            }
            vcords = vc_order(vcords, vcordo);
            i += 1;
        }
        proof {
            lemma_listing_len(keys@, self@);
            assert forall|k: NodeType| self@.contains_key(k) implies other@.contains_key(k) by {
                assert(keys@.contains(k));
                let j = choose|j: int| 0 <= j < keys@.len() && keys@[j] == k;
                assert(other@.contains_key(keys@[j]));
            }
            assert(self@.dom().subset_of(other@.dom()));
            vstd::set_lib::lemma_subset_equality(self@.dom(), other@.dom());
            lemma_prefix_ordering_full(keys@, self@, other@);
        }
        Ok(vcords)
    }

    /// Compares "the counter of `node` here, plus one" with the counter
    /// that `other` holds for `node`.
    pub fn check_vc(&self, node: NodeType, other: &VectorClock) -> (r: Result<
        VCOrdering,
        VectorClockError,
    >)
        ensures
            r is Ok <==> self@.contains_key(node) && other@.contains_key(node),
            r matches Err(e) ==> e is NodeNotFound,
            r matches Ok(o) ==> o == compare_successor(self@[node], other@[node]),
    {
        broadcast use vstd::std_specs::hash::group_hash_axioms;

        let lc1 = match self.vcmap.get(&node) {
            Some(lc) => *lc,
            None => {
                return Err(VectorClockError::NodeNotFound);
            },
        };
        let lc2 = match other.vcmap.get(&node) {
            Some(lc) => *lc,
            None => {
                return Err(VectorClockError::NodeNotFound);
            },
        };
        Ok(classify_successor(lc1, lc2))
    }

    /// Merges this clock with `other` member by member through `f`.
    /// Clocks over different member sets are refused.
    pub fn min_max_vc(&self, other: &VectorClock, f: impl Fn(LCType, LCType) -> LCType) -> (r:
        Result<VectorClock, VectorClockError>)
        requires
            forall|lc1: LCType, lc2: LCType| call_requires(f, (lc1, lc2)),
        ensures
            r is Ok <==> self@.dom() == other@.dom(),
            r matches Err(e) ==> e is NonCompatibleVC,
            r matches Ok(vc) ==> {
                &&& vc@.dom() == self@.dom()
                &&& forall|k: NodeType| #[trigger]
                    self@.contains_key(k) ==> call_ensures(f, (self@[k], other@[k]), vc@[k])
            },
    {
        broadcast use vstd::std_specs::hash::group_hash_axioms;

        if self.len() != other.len() {
            return Err(VectorClockError::NonCompatibleVC);
        }
        let keys = collect_keys(&self.vcmap);
        let mut vcmap: HashMap<NodeType, LCType> = HashMap::new();
        let mut i: usize = 0;
        while i < keys.len()
            invariant
                i <= keys.len(),
                lists_keys(keys@, self@),
                forall|lc1: LCType, lc2: LCType| call_requires(f, (lc1, lc2)),
                forall|j: int| 0 <= j < i ==> other@.contains_key(#[trigger] keys@[j]),
                forall|k: NodeType|
                    vcmap@.contains_key(k) <==> keys@.take(i as int).contains(k),
                forall|k: NodeType| #[trigger]
                    vcmap@.contains_key(k) ==> call_ensures(f, (self@[k], other@[k]), vcmap@[k]),
            decreases keys.len() - i,
        {
            let node = keys[i];
            assert(keys@.contains(node));
            let lc1 = *held(&self.vcmap, &node);
            let lc2 = match other.vcmap.get(&node) {
                Some(lc) => *lc,
                None => {
                    return Err(VectorClockError::NonCompatibleVC);
                },
            };
            let flc = f(lc1, lc2);
            vcmap.insert(node, flc);
            proof {
                let before = keys@.take(i as int);
                lemma_take_push_set(keys@, i as int);
                assert(!before.contains(node)) by {
                    if before.contains(node) {
                        let j = choose|j: int| 0 <= j < before.len() && before[j] == node;
                        assert(keys@[j] == keys@[i as int]);
                    }
                }
            }
            i += 1;
        }
        proof {
            lemma_listing_len(keys@, self@);
            assert(keys@.take(keys@.len() as int) == keys@);
            assert forall|k: NodeType| self@.contains_key(k) implies other@.contains_key(k) by {
                assert(keys@.contains(k));
                let j = choose|j: int| 0 <= j < keys@.len() && keys@[j] == k;
                assert(other@.contains_key(keys@[j]));
            }
            assert(self@.dom().subset_of(other@.dom()));
            vstd::set_lib::lemma_subset_equality(self@.dom(), other@.dom());
            assert(vcmap@.dom() =~= self@.dom());
        }
        Ok(VectorClock { vcmap })
    }

    /// The member-by-member maximum of this clock and `other`.
    pub fn max_vc(&self, other: &VectorClock) -> (r: Result<VectorClock, VectorClockError>)
        ensures
            r is Ok <==> self@.dom() == other@.dom(),
            r matches Err(e) ==> e is NonCompatibleVC,
            r matches Ok(vc) ==> vc@ == pointwise_max(self@, other@),
    {
        let r = self.min_max_vc(other, max_lc);
        proof {
            if r is Ok {
                assert(r->Ok_0@ =~= pointwise_max(self@, other@));
            }
        }
        r
    }

    /// The member-by-member minimum of this clock and `other`.
    pub fn min_vc(&self, other: &VectorClock) -> (r: Result<VectorClock, VectorClockError>)
        ensures
            r is Ok <==> self@.dom() == other@.dom(),
            r matches Err(e) ==> e is NonCompatibleVC,
            r matches Ok(vc) ==> vc@ == pointwise_min(self@, other@),
    {
        let r = self.min_max_vc(other, min_lc);
        proof {
            if r is Ok {
                assert(r->Ok_0@ =~= pointwise_min(self@, other@));
            }
        }
        r
    }
}

/// The members among the first `n + 1` items of a list are those among the
/// first `n`, and the item at `n`.
pub proof fn lemma_take_push_set<A>(s: Seq<A>, n: int)
    requires
        0 <= n < s.len(),
    ensures
        forall|k: A| #[trigger]
            s.take(n + 1).contains(k) <==> (s.take(n).contains(k) || k == s[n]),
{
    let before = s.take(n);
    let after = s.take(n + 1);
    assert forall|k: A| #[trigger] after.contains(k) <==> (before.contains(k) || k == s[n]) by {
        if after.contains(k) {
            let j = choose|j: int| 0 <= j < after.len() && after[j] == k;
            if j < n {
                assert(before[j] == k);
            }
        }
        if before.contains(k) {
            let j = choose|j: int| 0 <= j < before.len() && before[j] == k;
            assert(after[j] == k);
        }
        if k == s[n] {
            assert(after[n] == k);
        }
    }
}

/// Every clock is equal to itself.
pub proof fn law_compare_reflexive(a: Map<NodeType, LCType>)
    ensures
        compare_clocks(a, a) == VCOrdering::VCEQ,
{
}

/// Comparing two clocks over one member set in the other direction gives
/// the mirror image: less and greater change places, equal and concurrent
/// stay.
pub proof fn law_compare_mirror(a: Map<NodeType, LCType>, b: Map<NodeType, LCType>)
    requires
        a.dom() == b.dom(),
    ensures
        compare_clocks(b, a) == mirror(compare_clocks(a, b)),
{
}

/// A clock in which one member's counter was advanced is greater than the
/// clock it was advanced from.
pub proof fn law_increment_greater(a: Map<NodeType, LCType>, node: NodeType)
    requires
        a.contains_key(node),
        a[node] < LCType::MAX,
    ensures
        compare_clocks(a.insert(node, (a[node] + INC_LC) as LCType), a) == VCOrdering::VCGR,
{
    let b = a.insert(node, (a[node] + INC_LC) as LCType);
    assert(clock_leq(a, b));
    assert(!clock_leq(b, a)) by {
        assert(b.contains_key(node) && b[node] > a[node]);
    }
}

/// The ordering that the first `n` members of `keys` give: the fold of
/// `combine_orderings` over their counter-by-counter comparisons.
pub open spec fn prefix_ordering(
    keys: Seq<NodeType>,
    n: int,
    a: Map<NodeType, LCType>,
    b: Map<NodeType, LCType>,
) -> VCOrdering
    decreases n,
{
    if n <= 0 {
        VCOrdering::VCEQ
    } else {
        combine_orderings(
            prefix_ordering(keys, n - 1, a, b),
            compare_counters(a[keys[n - 1]], b[keys[n - 1]]),
        )
    }
}

proof fn lemma_prefix_ordering_step(
    keys: Seq<NodeType>,
    n: int,
    a: Map<NodeType, LCType>,
    b: Map<NodeType, LCType>,
)
    requires
        0 <= n < keys.len(),
    ensures
        prefix_ordering(keys, n + 1, a, b) == combine_orderings(
            prefix_ordering(keys, n, a, b),
            compare_counters(a[keys[n]], b[keys[n]]),
        ),
{
}

/// `a` is at most `b` at each of the first `n` members of `keys`.
pub open spec fn prefix_leq(
    keys: Seq<NodeType>,
    n: int,
    a: Map<NodeType, LCType>,
    b: Map<NodeType, LCType>,
) -> bool {
    forall|j: int| 0 <= j < n ==> a[#[trigger] keys[j]] <= b[keys[j]]
}

proof fn lemma_prefix_ordering_meaning(
    keys: Seq<NodeType>,
    n: int,
    a: Map<NodeType, LCType>,
    b: Map<NodeType, LCType>,
)
    requires
        0 <= n <= keys.len(),
    ensures
        prefix_ordering(keys, n, a, b) == if prefix_leq(keys, n, a, b) && prefix_leq(
            keys,
            n,
            b,
            a,
        ) {
            VCOrdering::VCEQ
        } else if prefix_leq(keys, n, a, b) {
            VCOrdering::VCLE
        } else if prefix_leq(keys, n, b, a) {
            VCOrdering::VCGR
        } else {
            VCOrdering::VCCN
        },
    decreases n,
{
    if n > 0 {
        lemma_prefix_ordering_meaning(keys, n - 1, a, b);
        let k = keys[n - 1];
        assert(prefix_leq(keys, n, a, b) <==> prefix_leq(keys, n - 1, a, b) && a[k] <= b[k]) by {
            if prefix_leq(keys, n - 1, a, b) && a[k] <= b[k] {
                assert forall|j: int| 0 <= j < n implies a[#[trigger] keys[j]] <= b[keys[j]] by {
                    if j < n - 1 {
                    }
                }
            }
            if prefix_leq(keys, n, a, b) {
                assert(a[keys[n - 1]] <= b[keys[n - 1]]);
            }
        }
        assert(prefix_leq(keys, n, b, a) <==> prefix_leq(keys, n - 1, b, a) && b[k] <= a[k]) by {
            if prefix_leq(keys, n - 1, b, a) && b[k] <= a[k] {
                assert forall|j: int| 0 <= j < n implies b[#[trigger] keys[j]] <= a[keys[j]] by {
                    if j < n - 1 {
                    }
                }
            }
            if prefix_leq(keys, n, b, a) {
                assert(b[keys[n - 1]] <= a[keys[n - 1]]);
            }
        }
    }
}

/// Folding the counter-by-counter comparisons over a listing of the common
/// member set gives the relation between the two clocks.
pub proof fn lemma_prefix_ordering_full(
    keys: Seq<NodeType>,
    a: Map<NodeType, LCType>,
    b: Map<NodeType, LCType>,
)
    requires
        lists_keys(keys, a),
        a.dom() == b.dom(),
    ensures
        prefix_ordering(keys, keys.len() as int, a, b) == compare_clocks(a, b),
{
    let n = keys.len() as int;
    lemma_prefix_ordering_meaning(keys, n, a, b);
    assert(prefix_leq(keys, n, a, b) <==> clock_leq(a, b)) by {
        if prefix_leq(keys, n, a, b) {
            assert forall|k: NodeType| a.contains_key(k) implies a[k] <= b[k] by {
                assert(keys.contains(k));
                let j = choose|j: int| 0 <= j < keys.len() && keys[j] == k;
                assert(a[keys[j]] <= b[keys[j]]);
            }
        }
        if clock_leq(a, b) {
            assert forall|j: int| 0 <= j < n implies a[#[trigger] keys[j]] <= b[keys[j]] by {
                assert(keys.contains(keys[j]));
            }
        }
    }
    assert(prefix_leq(keys, n, b, a) <==> clock_leq(b, a)) by {
        if prefix_leq(keys, n, b, a) {
            assert forall|k: NodeType| b.contains_key(k) implies b[k] <= a[k] by {
                assert(a.dom().contains(k));
                assert(keys.contains(k));
                let j = choose|j: int| 0 <= j < keys.len() && keys[j] == k;
                assert(b[keys[j]] <= a[keys[j]]);
            }
        }
        if clock_leq(b, a) {
            assert forall|j: int| 0 <= j < n implies b[#[trigger] keys[j]] <= a[keys[j]] by {
                assert(keys.contains(keys[j]));
                assert(b.dom().contains(keys[j]));
            }
        }
    }
}

/// Combines two partial results of a comparison: equality gives way to the
/// other side, a conflict stays, and two different strict results conflict.
pub fn vc_order(st1: VCOrdering, st2: VCOrdering) -> (r: VCOrdering)
    ensures
        r == combine_orderings(st1, st2),
{
    match (st1, st2) {
        (VCOrdering::VCEQ, _) => st2,
        (_, VCOrdering::VCEQ) => st1,
        (VCOrdering::VCCN, _) => VCOrdering::VCCN,
        (_, VCOrdering::VCCN) => VCOrdering::VCCN,
        (VCOrdering::VCLE, VCOrdering::VCLE) => VCOrdering::VCLE,
        (VCOrdering::VCGR, VCOrdering::VCGR) => VCOrdering::VCGR,
        (_, _) => VCOrdering::VCCN,
    }
}

/// Compares two counters.
pub fn cmp_lc(lc1: LCType, lc2: LCType) -> (r: VCOrdering)
    ensures
        r == compare_counters(lc1, lc2),
{
    counter_relation(lc1, lc2)
}

fn counter_relation(lc1: LCType, lc2: LCType) -> (r: VCOrdering)
    ensures
        r == compare_counters(lc1, lc2),
{
    if lc1 < lc2 {
        VCOrdering::VCLE
    } else if lc1 == lc2 {
        VCOrdering::VCEQ
    } else {
        VCOrdering::VCGR
    }
}

/// Compares the successor of `lc1` with `lc2`, whatever the size of `lc1`.
fn classify_successor(lc1: LCType, lc2: LCType) -> (r: VCOrdering)
    ensures
        r == compare_successor(lc1, lc2),
        status_of_ordering(r) == delivery_status(lc1, lc2),
{
    if lc2 <= lc1 {
        VCOrdering::VCGR
    } else if lc2 - lc1 == INC_LC {
        VCOrdering::VCEQ
    } else {
        VCOrdering::VCLE
    }
}

/// Reads a comparison of "ours plus one" with "theirs" as a delivery status.
pub fn peer_vc_status(pord: VCOrdering) -> (r: VCStatus)
    ensures
        r == status_of_ordering(pord),
{
    match pord {
        VCOrdering::VCGR => VCStatus::DUPLICATE,
        VCOrdering::VCEQ => VCStatus::INORDER,
        _ => VCStatus::OUTOFORDER,
    }
}

} // verus!
