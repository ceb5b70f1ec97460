//! Random draws for workloads that exercise the replicated data types.
use vstd::prelude::*;
use rand::Rng;

verus! {

/// A number from `low` up to, but not including, `high`, drawn by
/// `Rng::gen_range` of the rand crate on the generator that its
/// `thread_rng` hands out. That call refuses an empty range, so `low` must
/// be below `high`; what it returns lies in the range. Nothing more is
/// claimed of the number: two draws may differ.
#[verifier::external_body]
pub fn get_rand(low: u16, high: u16) -> (r: u16)
    requires
        low < high,
    ensures
        low <= r < high,
{
    rand::thread_rng().gen_range(low..high)
}

/// Whether a draw stands for "yes": the even ones do.
pub fn draw_is_yes(draw: u16) -> (r: bool)
    ensures
        r == (draw % 2 == 0),
{
    draw % 2 == 0
}

/// A random yes or no, from a draw below one hundred.
pub fn get_bool_index() -> bool {
    draw_is_yes(get_rand(0, 100))
}

/// A random position in a cluster of `node_list` members, which must not
/// be empty.
pub fn get_node_index(node_list: u16) -> (r: u16)
    requires
        node_list > 0,
    ensures
        r < node_list,
{
    get_rand(0, node_list)
}

/// Whether the message number `msg_num` of `msg_count` is passed on to the
/// peers at once: the last hundred are, those beyond `msg_range` are, and
/// of every hundred those from `msg_rate` on.
pub fn progesss_flag(msg_num: u16, msg_count: u16, msg_range: u16, msg_rate: u16) -> (r: bool)
    requires
        msg_num <= msg_count,
    ensures
        r == (msg_count - msg_num < 100 || msg_num > msg_range || msg_num % 100 >= msg_rate),
{
    msg_count - msg_num < 100 || msg_num > msg_range || (msg_num % 100) >= msg_rate
}

} // verus!
