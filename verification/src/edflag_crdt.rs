//! The two flags: one on which enabling wins over a concurrent disabling,
//! and one on which disabling wins.
use vstd::prelude::*;
use vstd::std_specs::cmp::PartialEqSpecImpl;
use crate::crdt::{
    CRDT, CrdtVariant, CrdtView, after_two, concurrent_pair, lemma_two_steps, update_step,
    pair_commutes, taken, lemma_pair_engine,
};
use crate::message_data::{
    NodeUpdateMsg, NodeUpdateMsgView, OpsInstance, SDPOpsType, update_views,
};
use crate::message_list::{
    buffer_view, clocks_over, concurrent_keys, concurrent_msg_list, is_concurrent_match,
    lists_messages, follows_order, key_of, lemma_key_injective,
};
use crate::vector_clock::{VectorClockError, ErrorKind};
use crate::{LCType, NodeType};

verus! {

/// Marks an instance as a flag on which enabling wins.
#[derive(Debug)]
pub struct EWFlag;

/// Marks an instance as a flag on which disabling wins.
#[derive(Debug)]
pub struct DWFlag;

/// The two states of a flag.
#[derive(Debug, Clone, Copy)]
pub enum EDFlag {
    Enabled,
    Disabled,
}

impl PartialEq for EDFlag {
    fn eq(&self, other: &EDFlag) -> (r: bool) {
        match (self, other) {
            (EDFlag::Enabled, EDFlag::Enabled) => true,
            (EDFlag::Disabled, EDFlag::Disabled) => true,
            _ => false,
        }
    }
}

impl Eq for EDFlag {

}

impl PartialEqSpecImpl for EDFlag {
    open spec fn obeys_eq_spec() -> bool {
        true
    }

    open spec fn eq_spec(&self, other: &EDFlag) -> bool {
        *self == *other
    }
}

impl View for EDFlag {
    type V = EDFlag;

    open spec fn view(&self) -> EDFlag {
        *self
    }
}

/// No buffered update that is concurrent with `query_clock` carries an
/// `SDPMult` operation that `wanted` selects.
pub open spec fn unopposed<OpsValue: Copy + PartialEq>(
    query_clock: Map<NodeType, LCType>,
    b: Map<u64, NodeUpdateMsgView<OpsValue>>,
    wanted: Option<OpsValue>,
) -> bool {
    forall|k: u64| b.contains_key(k) ==> !is_concurrent_match(query_clock, wanted, #[trigger] b[k])
}

/// A listing of the concurrent updates is empty exactly if there are none.
pub proof fn lemma_empty_listing<OpsValue: Copy + PartialEq>(
    list: Seq<NodeUpdateMsgView<OpsValue>>,
    query_clock: Map<NodeType, LCType>,
    b: Map<u64, NodeUpdateMsgView<OpsValue>>,
    wanted: Option<OpsValue>,
)
    requires
        lists_messages(list, b, concurrent_keys(query_clock, b, wanted)),
    ensures
        list.len() == 0 <==> unopposed(query_clock, b, wanted),
{
    let keys = concurrent_keys(query_clock, b, wanted);
    let order = choose|order: Seq<u64>|
        {
            &&& order.no_duplicates()
            &&& forall|k: u64| order.contains(k) <==> keys.contains(k)
            &&& #[trigger] follows_order(list, b, order)
        };
    if list.len() == 0 {
        assert forall|k: u64| b.contains_key(k) implies !is_concurrent_match(
            query_clock,
            wanted,
            #[trigger] b[k],
        ) by {
            if is_concurrent_match(query_clock, wanted, b[k]) {
                assert(keys.contains(k));
                assert(order.contains(k));
            }
        }
    } else {
        assert(order.contains(order[0]));
        assert(keys.contains(order[0]));
    }
}

/// The flag after an update under the rule that `SDPMult` wins: an
/// `SDPMult` operation sets the flag to `winner`; an `SDPAdd` operation
/// sets it to `loser` unless an `SDPMult` operation happened concurrently.
pub open spec fn flag_merged(
    s: CrdtView<EDFlag, EDFlag>,
    m: NodeUpdateMsgView<EDFlag>,
    winner: EDFlag,
    loser: EDFlag,
) -> Result<EDFlag, ErrorKind> {
    match m.update.ops_instance.ops_type {
        SDPOpsType::SDPAdd => if !clocks_over(s.buffer, m.clock.dom()) {
            Err(ErrorKind::NonCompatibleVC)
        } else if unopposed(m.clock, s.buffer, None) {
            Ok(loser)
        } else {
            Ok(s.value)
        },
        SDPOpsType::SDPMult => Ok(winner),
    }
}

/// Applies `msg` to a flag on which `winner` wins.
fn merge_flag<State>(
    crdt: &mut CRDT<EDFlag, EDFlag, State>,
    msg: &NodeUpdateMsg<EDFlag>,
    winner: EDFlag,
    loser: EDFlag,
) -> (r: Result<(), VectorClockError>)
    ensures
        match flag_merged(old(crdt)@, msg@, winner, loser) {
            Ok(v) => r is Ok && final(crdt)@ == (CrdtView { value: v, ..old(crdt)@ }),
            Err(k) => r matches Err(e) && e.kind() == k && final(crdt)@ == old(crdt)@,
        },
{
    match msg.user_update_msg.ops_instance.ops_type {
        SDPOpsType::SDPAdd => {
            let clist = match concurrent_msg_list(&msg.node_vector_clock, &crdt.msg_list, None) {
                Ok(l) => l,
                Err(e) => {
                    return Err(e);
                },
            };
            proof {
                lemma_empty_listing(
                    update_views(clist@),
                    msg@.clock,
                    buffer_view(crdt.msg_list@),
                    None,
                );
            }
            if clist.len() == 0 {
                crdt.crdt_value = loser;
            }
        },
        SDPOpsType::SDPMult => {
            crdt.crdt_value = winner;
        },
    }
    Ok(())
}

impl CrdtVariant for EWFlag {
    type Value = EDFlag;

    type Ops = EDFlag;

    /// Enabling is the `SDPMult` operation and wins.
    open spec fn merged(s: CrdtView<EDFlag, EDFlag>, m: NodeUpdateMsgView<EDFlag>) -> Result<
        EDFlag,
        ErrorKind,
    > {
        flag_merged(s, m, EDFlag::Enabled, EDFlag::Disabled)
    }

    /// A flag has room for either of its states.
    open spec fn merge_fits(s: CrdtView<EDFlag, EDFlag>, m: NodeUpdateMsgView<EDFlag>) -> bool {
        true
    }

    proof fn operands_compare() {
    }

    proof fn fits_when_buffered(s: CrdtView<EDFlag, EDFlag>, u: NodeUpdateMsgView<EDFlag>) {
    }

    fn fits(crdt: &CRDT<EDFlag, EDFlag, EWFlag>, msg: &NodeUpdateMsg<EDFlag>) -> (r: bool) {
        true
    }

    fn merge(crdt: &mut CRDT<EDFlag, EDFlag, EWFlag>, msg: &NodeUpdateMsg<EDFlag>) -> (r: Result<
        (),
        VectorClockError,
    >) {
        merge_flag(crdt, msg, EDFlag::Enabled, EDFlag::Disabled)
    }
}

impl CrdtVariant for DWFlag {
    type Value = EDFlag;

    type Ops = EDFlag;

    /// Disabling is the `SDPMult` operation and wins.
    open spec fn merged(s: CrdtView<EDFlag, EDFlag>, m: NodeUpdateMsgView<EDFlag>) -> Result<
        EDFlag,
        ErrorKind,
    > {
        flag_merged(s, m, EDFlag::Disabled, EDFlag::Enabled)
    }

    /// A flag has room for either of its states.
    open spec fn merge_fits(s: CrdtView<EDFlag, EDFlag>, m: NodeUpdateMsgView<EDFlag>) -> bool {
        true
    }

    proof fn operands_compare() {
    }

    proof fn fits_when_buffered(s: CrdtView<EDFlag, EDFlag>, u: NodeUpdateMsgView<EDFlag>) {
    }

    fn fits(crdt: &CRDT<EDFlag, EDFlag, DWFlag>, msg: &NodeUpdateMsg<EDFlag>) -> (r: bool) {
        true
    }

    fn merge(crdt: &mut CRDT<EDFlag, EDFlag, DWFlag>, msg: &NodeUpdateMsg<EDFlag>) -> (r: Result<
        (),
        VectorClockError,
    >) {
        merge_flag(crdt, msg, EDFlag::Disabled, EDFlag::Enabled)
    }
}

impl CRDT<EDFlag, EDFlag, EWFlag> {
    /// Which operand a concurrent operation must have to count: any.
    pub fn get_option_value(&self) -> (r: Option<EDFlag>)
        ensures
            r is None,
    {
        None
    }

    /// The operation that disables.
    pub fn get_add_ops(&self) -> (r: OpsInstance<EDFlag>)
        ensures
            r.ops_type == SDPOpsType::SDPAdd,
            r.ops_value == EDFlag::Disabled,
    {
        OpsInstance::new(SDPOpsType::SDPAdd, EDFlag::Disabled)
    }

    /// The operation that enables.
    pub fn get_mult_ops(&self) -> (r: OpsInstance<EDFlag>)
        ensures
            r.ops_type == SDPOpsType::SDPMult,
            r.ops_value == EDFlag::Enabled,
    {
        OpsInstance::new(SDPOpsType::SDPMult, EDFlag::Enabled)
    }
}

impl CRDT<EDFlag, EDFlag, DWFlag> {
    /// Which operand a concurrent operation must have to count: any.
    pub fn get_option_value(&self) -> (r: Option<EDFlag>)
        ensures
            r is None,
    {
        None
    }

    /// The operation that enables.
    pub fn get_add_ops(&self) -> (r: OpsInstance<EDFlag>)
        ensures
            r.ops_type == SDPOpsType::SDPAdd,
            r.ops_value == EDFlag::Enabled,
    {
        OpsInstance::new(SDPOpsType::SDPAdd, EDFlag::Enabled)
    }

    /// The operation that disables.
    pub fn get_mult_ops(&self) -> (r: OpsInstance<EDFlag>)
        ensures
            r.ops_type == SDPOpsType::SDPMult,
            r.ops_value == EDFlag::Disabled,
    {
        OpsInstance::new(SDPOpsType::SDPMult, EDFlag::Disabled)
    }
}

/// Where an `SDPAdd` and an `SDPMult` operation happened concurrently, a
/// flag ends up at `winner` in whichever order the two are delivered.
proof fn lemma_mult_wins<K: CrdtVariant<Value = EDFlag, Ops = EDFlag>>(
    s: CrdtView<EDFlag, EDFlag>,
    first: NodeUpdateMsgView<EDFlag>,
    second: NodeUpdateMsgView<EDFlag>,
    winner: EDFlag,
    loser: EDFlag,
)
    requires
        concurrent_pair(s, first, second),
        first.update.ops_instance.ops_type == SDPOpsType::SDPAdd,
        second.update.ops_instance.ops_type == SDPOpsType::SDPMult,
        forall|t: CrdtView<EDFlag, EDFlag>, m: NodeUpdateMsgView<EDFlag>|
            #[trigger] K::merged(t, m) == flag_merged(t, m, winner, loser),
    ensures
        after_two::<K>(s, first, second) matches Ok(t) && t.value == winner,
        after_two::<K>(s, second, first) matches Ok(t) && t.value == winner,
{
    K::operands_compare();
    lemma_two_steps::<K>(s, first, second);
    lemma_two_steps::<K>(s, second, first);
    let kf = key_of(first.node, first.origin_clock());
    let ks = key_of(second.node, second.origin_clock());
    if kf == ks {
        lemma_key_injective(first.node, first.origin_clock(), second.node, second.origin_clock());
    }
    // the winning operation first, then the losing one
    let s1 = update_step(s, second)->Ok_0;
    assert(s1.buffer.contains_key(ks) && s1.buffer[ks] == second);
    let s1v = CrdtView { value: winner, ..s1 };
    let s2 = update_step(s1v, first)->Ok_0;
    assert(s2.buffer.contains_key(ks) && s2.buffer[ks] == second);
    assert(is_concurrent_match(first.clock, None, s2.buffer[ks]));
    assert(!unopposed(first.clock, s2.buffer, None));
    assert(clocks_over(s2.buffer, first.clock.dom()));
    // the losing operation first, then the winning one
    let t1 = update_step(s, first)->Ok_0;
    assert(clocks_over(t1.buffer, first.clock.dom()));
}

/// On the flag on which enabling wins, a disabling and an enabling that
/// happened concurrently leave the flag enabled, in whichever order the two
/// are delivered.
pub proof fn law_enable_wins(
    s: CrdtView<EDFlag, EDFlag>,
    disable: NodeUpdateMsgView<EDFlag>,
    enable: NodeUpdateMsgView<EDFlag>,
)
    requires
        concurrent_pair(s, disable, enable),
        disable.update.ops_instance.ops_type == SDPOpsType::SDPAdd,
        enable.update.ops_instance.ops_type == SDPOpsType::SDPMult,
    ensures
        after_two::<EWFlag>(s, disable, enable) matches Ok(t) && t.value == EDFlag::Enabled,
        after_two::<EWFlag>(s, enable, disable) matches Ok(t) && t.value == EDFlag::Enabled,
{
    lemma_mult_wins::<EWFlag>(s, disable, enable, EDFlag::Enabled, EDFlag::Disabled);
}

/// On the flag on which disabling wins, an enabling and a disabling that
/// happened concurrently leave the flag disabled, in whichever order the
/// two are delivered.
pub proof fn law_disable_wins(
    s: CrdtView<EDFlag, EDFlag>,
    enable: NodeUpdateMsgView<EDFlag>,
    disable: NodeUpdateMsgView<EDFlag>,
)
    requires
        concurrent_pair(s, enable, disable),
        enable.update.ops_instance.ops_type == SDPOpsType::SDPAdd,
        disable.update.ops_instance.ops_type == SDPOpsType::SDPMult,
    ensures
        after_two::<DWFlag>(s, enable, disable) matches Ok(t) && t.value == EDFlag::Disabled,
        after_two::<DWFlag>(s, disable, enable) matches Ok(t) && t.value == EDFlag::Disabled,
{
    lemma_mult_wins::<DWFlag>(s, enable, disable, EDFlag::Disabled, EDFlag::Enabled);
}

/// One more buffered update `other` under a free key keeps an operation
/// stamped `query` unopposed unless `other` is an opposing one.
pub proof fn lemma_unopposed_after<OpsValue: Copy + PartialEq>(
    query: Map<NodeType, LCType>,
    b: Map<u64, NodeUpdateMsgView<OpsValue>>,
    ko: u64,
    other: NodeUpdateMsgView<OpsValue>,
    wanted: Option<OpsValue>,
)
    requires
        !b.contains_key(ko),
    ensures
        unopposed(query, b.insert(ko, other), wanted) <==> unopposed(query, b, wanted)
            && !is_concurrent_match(query, wanted, other),
{
    let b2 = b.insert(ko, other);
    if unopposed(query, b2, wanted) {
        assert(b2.contains_key(ko) && b2[ko] == other);
        assert forall|k: u64| b.contains_key(k) implies !is_concurrent_match(
            query,
            wanted,
            #[trigger] b[k],
        ) by {
            assert(b2.contains_key(k) && b2[k] == b[k]);
        }
    }
    if unopposed(query, b, wanted) && !is_concurrent_match(query, wanted, other) {
        assert forall|k: u64| b2.contains_key(k) implies !is_concurrent_match(
            query,
            wanted,
            #[trigger] b2[k],
        ) by {
            if k != ko {
                assert(b.contains_key(k) && b2[k] == b[k]);
            }
        }
    }
}

/// Two updates of a flag that happened concurrently leave an instance the
/// same in whichever order the two are delivered.
proof fn lemma_flag_pair<K: CrdtVariant<Value = EDFlag, Ops = EDFlag>>(
    s: CrdtView<EDFlag, EDFlag>,
    x: NodeUpdateMsgView<EDFlag>,
    y: NodeUpdateMsgView<EDFlag>,
    winner: EDFlag,
    loser: EDFlag,
)
    requires
        concurrent_pair(s, x, y),
        forall|t: CrdtView<EDFlag, EDFlag>, m: NodeUpdateMsgView<EDFlag>|
            #[trigger] K::merged(t, m) == flag_merged(t, m, winner, loser),
    ensures
        pair_commutes::<K>(s, x, y),
{
    crate::vector_clock::law_compare_mirror(x.clock, y.clock);
    let kx = key_of(x.node, x.origin_clock());
    let ky = key_of(y.node, y.origin_clock());
    if kx == ky {
        lemma_key_injective(x.node, x.origin_clock(), y.node, y.origin_clock());
    }
    let b = s.buffer;
    // x, then y
    let bx = update_step(s, x)->Ok_0.buffer;
    assert(bx == b.insert(kx, x));
    assert(clocks_over(bx, x.clock.dom()));
    lemma_unopposed_after(x.clock, b, kx, x, None);
    let bxy = update_step(taken::<K>(s, x), y)->Ok_0.buffer;
    assert(bxy == bx.insert(ky, y));
    assert(clocks_over(bxy, y.clock.dom()));
    lemma_unopposed_after(y.clock, b, kx, x, None);
    lemma_unopposed_after(y.clock, bx, ky, y, None);
    // y, then x
    let by = update_step(s, y)->Ok_0.buffer;
    assert(by == b.insert(ky, y));
    assert(clocks_over(by, y.clock.dom()));
    lemma_unopposed_after(y.clock, b, ky, y, None);
    let byx = update_step(taken::<K>(s, y), x)->Ok_0.buffer;
    assert(byx == by.insert(kx, x));
    assert(clocks_over(byx, x.clock.dom()));
    lemma_unopposed_after(x.clock, b, ky, y, None);
    lemma_unopposed_after(x.clock, by, kx, x, None);
    lemma_pair_engine::<K>(s, x, y);
}

/// Two updates of the flag on which enabling wins that happened
/// concurrently leave an instance the same in whichever order the two are
/// delivered.
pub proof fn law_enable_wins_updates_commute(
    s: CrdtView<EDFlag, EDFlag>,
    x: NodeUpdateMsgView<EDFlag>,
    y: NodeUpdateMsgView<EDFlag>,
)
    requires
        concurrent_pair(s, x, y),
    ensures
        pair_commutes::<EWFlag>(s, x, y),
{
    lemma_flag_pair::<EWFlag>(s, x, y, EDFlag::Enabled, EDFlag::Disabled);
}

/// Two updates of the flag on which disabling wins that happened
/// concurrently leave an instance the same in whichever order the two are
/// delivered.
pub proof fn law_disable_wins_updates_commute(
    s: CrdtView<EDFlag, EDFlag>,
    x: NodeUpdateMsgView<EDFlag>,
    y: NodeUpdateMsgView<EDFlag>,
)
    requires
        concurrent_pair(s, x, y),
    ensures
        pair_commutes::<DWFlag>(s, x, y),
{
    lemma_flag_pair::<DWFlag>(s, x, y, EDFlag::Disabled, EDFlag::Enabled);
}

} // verus!
