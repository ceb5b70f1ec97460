//! The multiplicative counter: additions and multiplications that commute
//! because an addition is scaled by the multiplications that happened
//! concurrently with it.
use vstd::prelude::*;
use vstd::wrapping::i64_specs::signed_crop;
use vstd::arithmetic::div_mod::{lemma_add_mod_noop, lemma_mul_mod_noop_general};
use vstd::arithmetic::mul::{lemma_mul_is_associative, lemma_mul_is_commutative};
use crate::{IntMultCrdtValue, IntMultOpsValue};
use crate::crdt::{
    CRDT, CrdtVariant, CrdtView, concurrent_pair, next_from_origin, pair_commutes,
    peer_msg_step, lemma_two_steps, update_step,
};
use crate::message_data::{
    NodeUpdateMsg, NodeUpdateMsgView, OpsInstance, PeerNodeMsgView, SDPOpsType, update_views,
};
use crate::message_list::{
    buffer_view, clocks_over, concurrent_keys, concurrent_msg_list, follows_order, lists_messages,
    is_concurrent_match, key_of, lemma_key_injective,
};
use crate::vector_clock::{VectorClockError, ErrorKind, law_compare_mirror};
use crate::{LCType, NodeType};

verus! {

/// Marks an instance as a multiplicative counter.
#[derive(Debug)]
pub struct AddMult;

/// The operand of a buffered update.
pub open spec fn operand(m: NodeUpdateMsgView<IntMultOpsValue>) -> int {
    m.update.ops_instance.ops_value as int
}

/// The product of the operands of the buffered updates under `keys`.
pub open spec fn product_over(
    b: Map<u64, NodeUpdateMsgView<IntMultOpsValue>>,
    keys: Set<u64>,
) -> int
    decreases keys.len(),
    when keys.finite()
{
    if keys.len() == 0 {
        1
    } else {
        let k = keys.choose();
        operand(b[k]) * product_over(b, keys.remove(k))
    }
}

/// The product of the operands of a list of updates.
pub open spec fn operand_product(list: Seq<NodeUpdateMsgView<IntMultOpsValue>>) -> int
    decreases list.len(),
{
    if list.len() == 0 {
        1
    } else {
        operand_product(list.drop_last()) * operand(list.last())
    }
}

/// Any factor of a product can be taken out first.
pub proof fn lemma_product_take_out(
    b: Map<u64, NodeUpdateMsgView<IntMultOpsValue>>,
    keys: Set<u64>,
    k: u64,
)
    requires
        keys.finite(),
        keys.contains(k),
    ensures
        product_over(b, keys) == operand(b[k]) * product_over(b, keys.remove(k)),
    decreases keys.len(),
{
    let c = keys.choose();
    if c != k {
        lemma_product_take_out(b, keys.remove(c), k);
        lemma_product_take_out(b, keys.remove(k), c);
        assert(keys.remove(c).remove(k) =~= keys.remove(k).remove(c));
        let rest = product_over(b, keys.remove(c).remove(k));
        lemma_mul_is_associative(operand(b[c]), operand(b[k]), rest);
        lemma_mul_is_commutative(operand(b[c]), operand(b[k]));
        lemma_mul_is_associative(operand(b[k]), operand(b[c]), rest);
    }
}

/// The product over a listing of updates is the product over their keys,
/// in whatever order the listing has them.
pub proof fn lemma_listing_product(
    list: Seq<NodeUpdateMsgView<IntMultOpsValue>>,
    b: Map<u64, NodeUpdateMsgView<IntMultOpsValue>>,
    keys: Set<u64>,
    order: Seq<u64>,
)
    requires
        order.no_duplicates(),
        forall|k: u64| order.contains(k) <==> keys.contains(k),
        follows_order(list, b, order),
    ensures
        keys.finite(),
        operand_product(list) == product_over(b, keys),
    decreases list.len(),
{
    assert(keys =~= order.to_set());
    if list.len() == 0 {
        assert(keys =~= Set::empty());
    } else {
        let k = order.last();
        let rest_order = order.drop_last();
        let rest_keys = keys.remove(k);
        assert(order.contains(k));
        assert forall|x: u64| rest_order.contains(x) <==> rest_keys.contains(x) by {
            if rest_order.contains(x) {
                let j = choose|j: int| 0 <= j < rest_order.len() && rest_order[j] == x;
                assert(order[j] == x);
                assert(order.contains(x));
            }
            if rest_keys.contains(x) {
                assert(order.contains(x));
                let j = choose|j: int| 0 <= j < order.len() && order[j] == x;
                assert(rest_order[j] == x);
            }
        }
        assert(follows_order(list.drop_last(), b, rest_order)) by {
            assert forall|i: int| 0 <= i < list.drop_last().len() implies #[trigger] list.drop_last()[i]
                == b[rest_order[i]] by {
                assert(list[i] == b[order[i]]);
            }
        }
        lemma_listing_product(list.drop_last(), b, rest_keys, rest_order);
        lemma_product_take_out(b, keys, k);
        assert(list.last() == b[k]) by {
            assert(list[list.len() - 1] == b[order[list.len() - 1]]);
        }
        lemma_mul_is_commutative(operand(b[k]), product_over(b, rest_keys));
    }
}

/// A listing of a set of buffered updates multiplies up to the product
/// over the set.
pub proof fn lemma_listed_product(
    list: Seq<NodeUpdateMsgView<IntMultOpsValue>>,
    b: Map<u64, NodeUpdateMsgView<IntMultOpsValue>>,
    keys: Set<u64>,
)
    requires
        lists_messages(list, b, keys),
    ensures
        operand_product(list) == product_over(b, keys),
{
    let order = choose|order: Seq<u64>|
        {
            &&& order.no_duplicates()
            &&& forall|k: u64| order.contains(k) <==> keys.contains(k)
            &&& #[trigger] follows_order(list, b, order)
        };
    lemma_listing_product(list, b, keys, order);
}

/// What wraps around to `y` is the only 64-bit value that differs from
/// `x` by a multiple of two to the 64th.
pub proof fn lemma_crop_unique(x: int, y: i64)
    requires
        (y as int) % 0x1_0000_0000_0000_0000int == x % 0x1_0000_0000_0000_0000int,
    ensures
        signed_crop(x) == y,
{
}

/// A wrapped factor can stand for the factor itself under a wrapped
/// product.
pub proof fn lemma_crop_mul(a: int, b: int)
    ensures
        signed_crop(signed_crop(a) * b) == signed_crop(a * b),
{
    let r = 0x1_0000_0000_0000_0000int;
    let c = signed_crop(a);
    assert((c as int) % r == a % r);
    lemma_mul_mod_noop_general(c as int, b, r);
    lemma_mul_mod_noop_general(a, b, r);
    assert((c * b) % r == (a * b) % r);
    let y = signed_crop(a * b);
    assert((y as int) % r == (a * b) % r);
    lemma_crop_unique(c * b, y);
}

/// A wrapped term can stand for the term itself under a wrapped sum.
pub proof fn lemma_crop_add(x: int, q: int)
    ensures
        signed_crop(x + signed_crop(q)) == signed_crop(x + q),
{
    let r = 0x1_0000_0000_0000_0000int;
    let c = signed_crop(q);
    assert((c as int) % r == q % r);
    lemma_add_mod_noop(x, c as int, r);
    lemma_add_mod_noop(x, q, r);
    let y = signed_crop(x + q);
    assert((y as int) % r == (x + q) % r);
    lemma_crop_unique(x + c, y);
}

/// The product of the operands of the multiplications in the buffer `b`
/// that happened concurrently with the clock `query`.
pub open spec fn concurrent_product(
    query: Map<NodeType, LCType>,
    b: Map<u64, NodeUpdateMsgView<IntMultOpsValue>>,
) -> int {
    product_over(b, concurrent_keys(query, b, None))
}

/// What the counter is after an update with the operation `ops`, where
/// `p` is the product of the operands of the concurrent multiplications. A
/// multiplication multiplies the counter by its operand. An addition adds
/// its operand times `p`. A result outside the counter's range wraps
/// around in 64-bit two's-complement arithmetic.
pub open spec fn counted(
    value: IntMultCrdtValue,
    ops: OpsInstance<IntMultOpsValue>,
    p: int,
) -> IntMultCrdtValue {
    match ops.ops_type {
        SDPOpsType::SDPAdd => signed_crop(value + ops.ops_value * p),
        SDPOpsType::SDPMult => signed_crop(value * ops.ops_value),
    }
}

/// The counter after an update. An addition has to search the buffer for
/// the multiplications that happened concurrently with it, and is refused
/// where the buffer holds a stamp over other members than its own.
pub open spec fn add_mult_merged(
    s: CrdtView<IntMultCrdtValue, IntMultOpsValue>,
    m: NodeUpdateMsgView<IntMultOpsValue>,
) -> Result<IntMultCrdtValue, ErrorKind> {
    if m.update.ops_instance.ops_type == SDPOpsType::SDPAdd && !clocks_over(
        s.buffer,
        m.clock.dom(),
    ) {
        Err(ErrorKind::NonCompatibleVC)
    } else {
        Ok(counted(s.value, m.update.ops_instance, concurrent_product(m.clock, s.buffer)))
    }
}

/// The number lies in the range of the counter.
pub open spec fn fits_counter(x: int) -> bool {
    i64::MIN <= x <= i64::MAX
}

/// What lies in the range of the counter is not changed by wrapping.
pub proof fn lemma_crop_in_range(x: int)
    requires
        fits_counter(x),
    ensures
        signed_crop(x) == x,
{
    lemma_crop_unique(x, x as i64);
}

/// A product with a factor zero is zero.
pub proof fn lemma_product_zero(list: Seq<NodeUpdateMsgView<IntMultOpsValue>>, i: int)
    requires
        0 <= i < list.len(),
        operand(list[i]) == 0,
    ensures
        operand_product(list) == 0,
    decreases list.len(),
{
    if i < list.len() - 1 {
        lemma_product_zero(list.drop_last(), i);
        assert(operand_product(list.drop_last()) * operand(list.last()) == 0) by (nonlinear_arith)
            requires
                operand_product(list.drop_last()) == 0,
        ;
    } else {
        assert(operand_product(list.drop_last()) * operand(list.last()) == 0) by (nonlinear_arith)
            requires
                operand(list.last()) == 0,
        ;
    }
}

/// The product of a list is the product of its beginning times the
/// product of its end.
pub proof fn lemma_product_split(list: Seq<NodeUpdateMsgView<IntMultOpsValue>>, i: int)
    requires
        0 <= i <= list.len(),
    ensures
        operand_product(list) == operand_product(list.take(i)) * operand_product(list.skip(i)),
    decreases list.len(),
{
    if i == list.len() {
        assert(list.take(i) =~= list);
        assert(list.skip(i) =~= Seq::empty());
    } else {
        let front = list.drop_last();
        lemma_product_split(front, i);
        assert(front.take(i) =~= list.take(i));
        assert(front.skip(i) =~= list.skip(i).drop_last());
        assert(list.skip(i).last() == list.last());
        lemma_mul_is_associative(
            operand_product(list.take(i)),
            operand_product(front.skip(i)),
            operand(list.last()),
        );
    }
}

/// A product without a factor zero is not zero.
pub proof fn lemma_product_nonzero(list: Seq<NodeUpdateMsgView<IntMultOpsValue>>)
    requires
        forall|i: int| 0 <= i < list.len() ==> operand(#[trigger] list[i]) != 0,
    ensures
        operand_product(list) != 0,
    decreases list.len(),
{
    if list.len() > 0 {
        assert(operand(list[list.len() - 1]) != 0);
        lemma_product_nonzero(list.drop_last());
        assert(operand_product(list.drop_last()) * operand(list.last()) != 0) by (nonlinear_arith)
            requires
                operand_product(list.drop_last()) != 0,
                operand(list.last()) != 0,
        ;
    }
}

/// A number times a number that is not zero is no nearer to zero.
pub proof fn lemma_mul_no_nearer(a: int, b: int)
    requires
        b != 0,
    ensures
        a >= 0 ==> (a * b >= a || a * b <= -a),
        a <= 0 ==> (a * b <= a || a * b >= -a),
{
    assert(a >= 0 && b >= 1 ==> a * b >= a) by (nonlinear_arith);
    assert(a >= 0 && b <= -1 ==> a * b <= -a) by (nonlinear_arith);
    assert(a <= 0 && b >= 1 ==> a * b <= a) by (nonlinear_arith);
    assert(a <= 0 && b <= -1 ==> a * b >= -a) by (nonlinear_arith);
}

/// A number of less than 65 bits times a 64-bit number has less than 128
/// bits.
proof fn lemma_product_bound(a: int, f: int)
    requires
        -0x1_0000_0000_0000_0000 < a < 0x1_0000_0000_0000_0000,
        -0x8000_0000_0000_0000 <= f <= 0x7fff_ffff_ffff_ffff,
    ensures
        -0x8000_0000_0000_0000_0000_0000_0000_0000 < a * f
            < 0x8000_0000_0000_0000_0000_0000_0000_0000,
{
    assert(a >= 0 && f >= 0 ==> 0 <= a * f <= 0xffff_ffff_ffff_ffff * 0x7fff_ffff_ffff_ffff)
        by (nonlinear_arith)
        requires
            a <= 0xffff_ffff_ffff_ffff,
            f <= 0x7fff_ffff_ffff_ffff,
    ;
    assert(a >= 0 && f <= 0 ==> 0 >= a * f >= 0xffff_ffff_ffff_ffff * (-0x8000_0000_0000_0000))
        by (nonlinear_arith)
        requires
            a <= 0xffff_ffff_ffff_ffff,
            f >= -0x8000_0000_0000_0000,
    ;
    assert(a <= 0 && f >= 0 ==> 0 >= a * f >= (-0xffff_ffff_ffff_ffff) * 0x7fff_ffff_ffff_ffff)
        by (nonlinear_arith)
        requires
            a >= -0xffff_ffff_ffff_ffff,
            f <= 0x7fff_ffff_ffff_ffff,
    ;
    assert(a <= 0 && f <= 0 ==> 0 <= a * f <= (-0xffff_ffff_ffff_ffff) * (-0x8000_0000_0000_0000))
        by (nonlinear_arith)
        requires
            a >= -0xffff_ffff_ffff_ffff,
            f >= -0x8000_0000_0000_0000,
    ;
}

/// A sum with a term that is far outside the range of the counter is
/// outside that range.
proof fn lemma_too_big(value: i64, factor: int, partial: int, rest: int)
    requires
        factor != 0,
        rest != 0,
        partial >= 0x1_0000_0000_0000_0000 || partial <= -0x1_0000_0000_0000_0000,
    ensures
        !fits_counter(value + factor * (partial * rest)),
{
    lemma_mul_no_nearer(partial, rest);
    lemma_mul_is_commutative(factor, partial * rest);
    lemma_mul_no_nearer(partial * rest, factor);
}

/// The counter `value` plus `factor` times the product of the operands of
/// `list`, where that lies in the range of the counter.
fn scaled_sum(value: IntMultCrdtValue, factor: IntMultOpsValue, list: &Vec<
    NodeUpdateMsg<IntMultOpsValue>,
>) -> (r: Option<IntMultCrdtValue>)
    ensures
        ({
            let x = value + factor * operand_product(update_views(list@));
            if fits_counter(x) {
                r == Some(x as i64)
            } else {
                r is None
            }
        }),
{
    let ghost views = update_views(list@);
    let ghost total = operand_product(views);
    if factor == 0 {
        assert(factor * total == 0) by (nonlinear_arith)
            requires
                factor == 0,
        ;
        return Some(value);
    }
    let mut i: usize = 0;
    while i < list.len()
        invariant
            i <= list.len(),
            views == update_views(list@),
            total == operand_product(views),
            forall|j: int| 0 <= j < i ==> operand(#[trigger] views[j]) != 0,
        decreases list.len() - i,
    {
        if list[i].user_update_msg.ops_instance.ops_value == 0 {
            proof {
                assert(operand(views[i as int]) == 0);
                lemma_product_zero(views, i as int);
                assert(factor * total == 0) by (nonlinear_arith)
                    requires
                        total == 0,
                ;
            }
            return Some(value);
        }
        i += 1;
    }
    let mut acc: i128 = 1;
    i = 0;
    proof {
        assert(views.take(0) =~= Seq::empty());
    }
    while i < list.len()
        invariant
            i <= list.len(),
            factor != 0,
            views == update_views(list@),
            total == operand_product(views),
            forall|j: int| 0 <= j < views.len() ==> operand(#[trigger] views[j]) != 0,
            acc == operand_product(views.take(i as int)),
            -0x1_0000_0000_0000_0000 < acc < 0x1_0000_0000_0000_0000,
        decreases list.len() - i,
    {
        let f = list[i].user_update_msg.ops_instance.ops_value;
        proof {
            let next = views.take(i + 1);
            assert(next.drop_last() =~= views.take(i as int));
            assert(next.last() == views[i as int]);
            assert(operand(views[i as int]) == f);
            lemma_product_bound(acc as int, f as int);
        }
        acc = acc * (f as i128);
        if acc >= 0x1_0000_0000_0000_0000 || acc <= -0x1_0000_0000_0000_0000 {
            proof {
                let rest = views.skip(i + 1);
                lemma_product_split(views, i + 1);
                assert forall|j: int| 0 <= j < rest.len() implies operand(#[trigger] rest[j])
                    != 0 by {
                    assert(rest[j] == views[i + 1 + j]);
                }
                lemma_product_nonzero(rest);
                lemma_too_big(value, factor as int, acc as int, operand_product(rest));
            }
            return None;
        }
        i += 1;
    }
    proof {
        assert(views.take(views.len() as int) =~= views);
        lemma_product_bound(acc as int, factor as int);
        lemma_mul_is_commutative(acc as int, factor as int);
    }
    let term: i128 = acc * (factor as i128);
    if term >= 0x1_0000_0000_0000_0000 || term <= -0x1_0000_0000_0000_0000 {
        return None;
    }
    let sum: i128 = (value as i128) + term;
    if sum < -0x8000_0000_0000_0000 || sum > 0x7fff_ffff_ffff_ffff {
        None
    } else {
        Some(sum as i64)
    }
}

/// What an update makes of the counter, as a number.
pub open spec fn exact(value: IntMultCrdtValue, ops: OpsInstance<IntMultOpsValue>, p: int) -> int {
    match ops.ops_type {
        SDPOpsType::SDPAdd => value + ops.ops_value * p,
        SDPOpsType::SDPMult => value * ops.ops_value,
    }
}

/// What an update makes of the counter lies in the counter's range.
pub open spec fn add_mult_fits(
    s: CrdtView<IntMultCrdtValue, IntMultOpsValue>,
    m: NodeUpdateMsgView<IntMultOpsValue>,
) -> bool {
    add_mult_merged(s, m) is Ok ==> fits_counter(
        exact(s.value, m.update.ops_instance, concurrent_product(m.clock, s.buffer)),
    )
}

impl CrdtVariant for AddMult {
    type Value = IntMultCrdtValue;

    type Ops = IntMultOpsValue;

    open spec fn merged(
        s: CrdtView<IntMultCrdtValue, IntMultOpsValue>,
        m: NodeUpdateMsgView<IntMultOpsValue>,
    ) -> Result<IntMultCrdtValue, ErrorKind> {
        add_mult_merged(s, m)
    }

    open spec fn merge_fits(
        s: CrdtView<IntMultCrdtValue, IntMultOpsValue>,
        m: NodeUpdateMsgView<IntMultOpsValue>,
    ) -> bool {
        add_mult_fits(s, m)
    }

    proof fn operands_compare() {
    }

    proof fn fits_when_buffered(
        s: CrdtView<IntMultCrdtValue, IntMultOpsValue>,
        u: NodeUpdateMsgView<IntMultOpsValue>,
    ) {
        let key = key_of(u.node, u.origin_clock());
        let s1 = update_step(s, u)->Ok_0;
        assert(!is_concurrent_match(u.clock, None, u));
        if s.buffer.contains_key(key) {
            assert(s.buffer[key] == u);
            assert(s1.buffer =~= s.buffer);
        } else {
            assert(s1.buffer == s.buffer.insert(key, u));
            lemma_product_grows(u.clock, s.buffer, key, u);
            assert(clocks_over(s1.buffer, u.clock.dom()) == clocks_over(s.buffer, u.clock.dom()))
                by {
                if clocks_over(s.buffer, u.clock.dom()) {
                    assert(clocks_over(s1.buffer, u.clock.dom()));
                }
                if clocks_over(s1.buffer, u.clock.dom()) {
                    assert forall|k: u64| s.buffer.contains_key(k) implies (
                    #[trigger] s.buffer[k]).clock.dom() == u.clock.dom() by {
                        assert(s1.buffer.contains_key(k) && s1.buffer[k] == s.buffer[k]);
                    }
                }
            }
        }
    }

    fn fits(
        crdt: &CRDT<IntMultCrdtValue, IntMultOpsValue, AddMult>,
        msg: &NodeUpdateMsg<IntMultOpsValue>,
    ) -> (r: bool) {
        let value = msg.user_update_msg.ops_instance.ops_value;
        match msg.user_update_msg.ops_instance.ops_type {
            SDPOpsType::SDPAdd => {
                match concurrent_msg_list(
                    &msg.node_vector_clock,
                    &crdt.msg_list,
                    crdt.get_option_value(),
                ) {
                    Ok(clist) => {
                        proof {
                            let b = buffer_view(crdt.msg_list@);
                            lemma_listed_product(
                                update_views(clist@),
                                b,
                                concurrent_keys(msg@.clock, b, None),
                            );
                        }
                        scaled_sum(crdt.crdt_value, value, &clist).is_some()
                    },
                    Err(_) => true,
                }
            },
            SDPOpsType::SDPMult => {
                proof {
                    lemma_product_bound(crdt.crdt_value as int, value as int);
                }
                let product: i128 = (crdt.crdt_value as i128) * (value as i128);
                -0x8000_0000_0000_0000 <= product && product <= 0x7fff_ffff_ffff_ffff
            },
        }
    }

    fn merge(
        crdt: &mut CRDT<IntMultCrdtValue, IntMultOpsValue, AddMult>,
        msg: &NodeUpdateMsg<IntMultOpsValue>,
    ) -> (r: Result<(), VectorClockError>) {
        let value = msg.user_update_msg.ops_instance.ops_value;
        match msg.user_update_msg.ops_instance.ops_type {
            SDPOpsType::SDPAdd => {
                let clist = match concurrent_msg_list(
                    &msg.node_vector_clock,
                    &crdt.msg_list,
                    crdt.get_option_value(),
                ) {
                    Ok(l) => l,
                    Err(e) => {
                        return Err(e);
                    },
                };
                proof {
                    let b = buffer_view(crdt.msg_list@);
                    let p = concurrent_product(msg@.clock, b);
                    lemma_listed_product(
                        update_views(clist@),
                        b,
                        concurrent_keys(msg@.clock, b, None),
                    );
                    lemma_crop_in_range(crdt.crdt_value + value * p);
                }
                match scaled_sum(crdt.crdt_value, value, &clist) {
                    Some(sum) => {
                        crdt.crdt_value = sum;
                    },
                    None => {},
                }
            },
            SDPOpsType::SDPMult => {
                proof {
                    lemma_crop_in_range(crdt.crdt_value * value);
                }
                crdt.crdt_value = crdt.crdt_value * value;
            },
        }
        Ok(())
    }
}

impl CRDT<IntMultCrdtValue, IntMultOpsValue, AddMult> {
    /// Which operand a concurrent multiplication must have to count: any.
    pub fn get_option_value(&self) -> (r: Option<IntMultOpsValue>)
        ensures
            r is None,
    {
        None
    }

    /// The operation that adds `value`.
    pub fn get_add_ops(&self, value: IntMultOpsValue) -> (r: OpsInstance<IntMultOpsValue>)
        ensures
            r.ops_type == SDPOpsType::SDPAdd,
            r.ops_value == value,
    {
        OpsInstance::new(SDPOpsType::SDPAdd, value)
    }

    /// The operation that multiplies by `value`.
    pub fn get_mult_ops(&self, value: IntMultOpsValue) -> (r: OpsInstance<IntMultOpsValue>)
        ensures
            r.ops_type == SDPOpsType::SDPMult,
            r.ops_value == value,
    {
        OpsInstance::new(SDPOpsType::SDPMult, value)
    }
}

/// The product over `keys` depends only on what the buffer holds there.
pub proof fn lemma_product_agrees(
    b1: Map<u64, NodeUpdateMsgView<IntMultOpsValue>>,
    b2: Map<u64, NodeUpdateMsgView<IntMultOpsValue>>,
    keys: Set<u64>,
)
    requires
        keys.finite(),
        forall|k: u64| keys.contains(k) ==> b1[k] == b2[k],
    ensures
        product_over(b1, keys) == product_over(b2, keys),
    decreases keys.len(),
{
    if keys.len() > 0 {
        let k = keys.choose();
        lemma_product_agrees(b1, b2, keys.remove(k));
    }
}

/// What one more buffered update `other` does to the product that scales an
/// addition stamped `query`: a concurrent multiplication becomes one more
/// factor, anything else changes nothing.
pub proof fn lemma_product_grows(
    query: Map<NodeType, LCType>,
    b: Map<u64, NodeUpdateMsgView<IntMultOpsValue>>,
    ko: u64,
    other: NodeUpdateMsgView<IntMultOpsValue>,
)
    requires
        b.dom().finite(),
        !b.contains_key(ko),
    ensures
        concurrent_product(query, b.insert(ko, other)) == if is_concurrent_match(
            query,
            None,
            other,
        ) {
            operand(other) * concurrent_product(query, b)
        } else {
            concurrent_product(query, b)
        },
{
    let b2 = b.insert(ko, other);
    let keys = concurrent_keys(query, b, None);
    let keys2 = concurrent_keys(query, b2, None);
    assert(keys.subset_of(b.dom()));
    vstd::set_lib::lemma_set_subset_finite(b.dom(), keys);
    lemma_product_agrees(b, b2, keys);
    if is_concurrent_match(query, None, other) {
        assert(keys2 =~= keys.insert(ko));
        lemma_product_take_out(b2, keys2, ko);
        assert(keys2.remove(ko) =~= keys);
    } else {
        assert(keys2 =~= keys);
    }
}

/// Two wrapped additions come to the same in either order.
pub proof fn lemma_add_add(v: int, a: int, c: int)
    ensures
        signed_crop(signed_crop(v + a) + c) == signed_crop(signed_crop(v + c) + a),
{
    lemma_crop_add(c, v + a);
    lemma_crop_add(a, v + c);
    assert(c + (v + a) == a + (v + c));
    assert(signed_crop(v + a) + c == c + signed_crop(v + a));
    assert(signed_crop(v + c) + a == a + signed_crop(v + c));
}

/// Two wrapped multiplications come to the same in either order.
pub proof fn lemma_mult_mult(v: int, a: int, c: int)
    ensures
        signed_crop(signed_crop(v * a) * c) == signed_crop(signed_crop(v * c) * a),
{
    lemma_crop_mul(v * a, c);
    lemma_crop_mul(v * c, a);
    assert((v * a) * c == (v * c) * a) by (nonlinear_arith);
}

/// An addition scaled by a product `p`, then a multiplication by `m`,
/// comes to the same as the multiplication first and then the addition
/// scaled by `m` times `p`.
pub proof fn lemma_add_mult(v: int, a: int, p: int, m: int)
    ensures
        signed_crop(signed_crop(v + a * p) * m) == signed_crop(signed_crop(v * m) + a * (m * p)),
{
    lemma_crop_mul(v + a * p, m);
    lemma_crop_add(a * (m * p), v * m);
    assert((v + a * p) * m == a * (m * p) + v * m) by (nonlinear_arith);
    assert(signed_crop(v * m) + a * (m * p) == a * (m * p) + signed_crop(v * m));
}

/// What taking in `u` makes of the instance `s`, for which `u` is the next
/// update of its origin and whose buffered stamps are over the members of
/// the stamp of `u`.
proof fn lemma_one_update(
    s: CrdtView<IntMultCrdtValue, IntMultOpsValue>,
    u: NodeUpdateMsgView<IntMultOpsValue>,
)
    requires
        next_from_origin(s, u),
        clocks_over(s.buffer, u.clock.dom()),
        s.buffer.dom().finite(),
    ensures
        peer_msg_step::<AddMult>(s, PeerNodeMsgView::UpdateNodeMsg(u))
            == Ok::<CrdtView<IntMultCrdtValue, IntMultOpsValue>, ErrorKind>(
            CrdtView {
                value: counted(
                    s.value,
                    u.update.ops_instance,
                    concurrent_product(u.clock, s.buffer),
                ),
                ..update_step(s, u)->Ok_0
            },
        ),
        update_step(s, u) is Ok,
{
    let k = key_of(u.node, u.origin_clock());
    let s1 = update_step(s, u)->Ok_0;
    assert(s1.buffer == s.buffer.insert(k, u));
    assert(clocks_over(s1.buffer, u.clock.dom()));
    lemma_product_grows(u.clock, s.buffer, k, u);
    assert(!is_concurrent_match(u.clock, None, u));
}

/// Two updates of the multiplicative counter that happened concurrently
/// leave an instance the same in whichever order the two are delivered.
pub proof fn law_concurrent_updates_commute(
    s: CrdtView<IntMultCrdtValue, IntMultOpsValue>,
    x: NodeUpdateMsgView<IntMultOpsValue>,
    y: NodeUpdateMsgView<IntMultOpsValue>,
)
    requires
        concurrent_pair(s, x, y),
        s.buffer.dom().finite(),
    ensures
        pair_commutes::<AddMult>(s, x, y),
{
    lemma_two_steps::<AddMult>(s, x, y);
    lemma_two_steps::<AddMult>(s, y, x);
    law_compare_mirror(x.clock, y.clock);
    let kx = key_of(x.node, x.origin_clock());
    let ky = key_of(y.node, y.origin_clock());
    if kx == ky {
        lemma_key_injective(x.node, x.origin_clock(), y.node, y.origin_clock());
    }
    let px = concurrent_product(x.clock, s.buffer);
    let py = concurrent_product(y.clock, s.buffer);
    let ox = x.update.ops_instance;
    let oy = y.update.ops_instance;

    // x first
    lemma_one_update(s, x);
    let s1 = CrdtView { value: counted(s.value, ox, px), ..update_step(s, x)->Ok_0 };
    assert(s1.buffer == s.buffer.insert(kx, x));
    assert(clocks_over(s1.buffer, y.clock.dom()));
    lemma_one_update(s1, y);
    lemma_product_grows(y.clock, s.buffer, kx, x);
    let py1 = concurrent_product(y.clock, s1.buffer);
    let s2 = CrdtView { value: counted(s1.value, oy, py1), ..update_step(s1, y)->Ok_0 };

    // y first
    lemma_one_update(s, y);
    let t1 = CrdtView { value: counted(s.value, oy, py), ..update_step(s, y)->Ok_0 };
    assert(t1.buffer == s.buffer.insert(ky, y));
    assert(clocks_over(t1.buffer, x.clock.dom()));
    lemma_one_update(t1, x);
    lemma_product_grows(x.clock, s.buffer, ky, y);
    let px1 = concurrent_product(x.clock, t1.buffer);
    let t2 = CrdtView { value: counted(t1.value, ox, px1), ..update_step(t1, x)->Ok_0 };

    assert(s2.value == t2.value) by {
        let v = s.value as int;
        let a = ox.ops_value as int;
        let c = oy.ops_value as int;
        match (ox.ops_type, oy.ops_type) {
            (SDPOpsType::SDPAdd, SDPOpsType::SDPAdd) => {
                assert(py1 == py && px1 == px);
                lemma_add_add(v, a * px, c * py);
            },
            (SDPOpsType::SDPMult, SDPOpsType::SDPMult) => {
                lemma_mult_mult(v, a, c);
            },
            (SDPOpsType::SDPAdd, SDPOpsType::SDPMult) => {
                assert(px1 == c * px);
                lemma_add_mult(v, a, px, c);
            },
            (SDPOpsType::SDPMult, SDPOpsType::SDPAdd) => {
                assert(py1 == a * py);
                lemma_add_mult(v, c, py, a);
            },
        }
    }
    assert(s2.buffer =~= t2.buffer);
    assert(s2.trcb.clock =~= t2.trcb.clock);
    assert(s2.trcb.beliefs =~= t2.trcb.beliefs);
    assert(s2.trcb == t2.trcb);
    assert(s2 == t2);
}

} // verus!
