//! The configuration that every replicated instance of a node is made
//! with, and how its values are read from text.
use vstd::prelude::*;
use vstd::string::StringSliceAdditionalSpecFns;
use crate::NodeType;

verus! {

/// The cluster and the two thresholds of the engine.
#[derive(Debug)]
pub struct Config {
    /// The members of the cluster.
    pub node_list: Vec<NodeType>,
    /// After how many peer updates a clock summary is due. Zero: always.
    pub max_msg_count_vc: u16,
    /// After how many messages the buffer is swept. Zero: always.
    pub max_msg_count_cs: u16,
}

impl Config {
    pub fn new(node_list: Vec<NodeType>, max_msg_count_vc: u16, max_msg_count_cs: u16) -> (r: Self)
        ensures
            r.node_list == node_list,
            r.max_msg_count_vc == max_msg_count_vc,
            r.max_msg_count_cs == max_msg_count_cs,
    {
        Self { node_list, max_msg_count_vc, max_msg_count_cs }
    }

    /// A copy of the member list.
    pub fn members(&self) -> (r: Vec<NodeType>)
        ensures
            r@ == self.node_list@,
    {
        copy_members(&self.node_list)
    }
}

/// A copy of a member list.
pub fn copy_members(node_list: &Vec<NodeType>) -> (r: Vec<NodeType>)
    ensures
        r@ == node_list@,
{
    let mut r: Vec<NodeType> = Vec::new();
    let mut i: usize = 0;
    while i < node_list.len()
        invariant
            i <= node_list.len(),
            r@ == node_list@.take(i as int),
        decreases node_list.len() - i,
    {
        r.push(node_list[i]);
        assert(node_list@.take(i + 1) == node_list@.take(i as int).push(node_list@[i as int]));
        i += 1;
    }
    assert(node_list@.take(node_list@.len() as int) == node_list@);
    r
}

/// The names under which the configuration is looked up.
pub const MAX_MSG_COUNT_VC_VAR: &'static str = "MAX_MSG_COUNT_VC";

pub const MAX_MSG_COUNT_CS_VAR: &'static str = "MAX_MSG_COUNT_CS";

pub const NODE_LIST_VAR: &'static str = "NODE_LIST";

pub const TEST_MSG_COUNT_VAR: &'static str = "TEST_MSG_COUNT";

pub const TEST_MSG_RANGE_PCT_VAR: &'static str = "TEST_MSG_RANGE_PCT";

pub const TEST_MSG_RATE_PCT_VAR: &'static str = "TEST_MSG_RATE_PCT";

pub const TEST_SLEEP_TIME_MS_VAR: &'static str = "TEST_SLEEP_TIME_MS";

/// The byte is one of the ten decimal digits.
pub open spec fn is_digit(b: u8) -> bool {
    48 <= b <= 57
}

/// Every byte is a decimal digit.
pub open spec fn all_digits(s: Seq<u8>) -> bool {
    forall|i: int| 0 <= i < s.len() ==> is_digit(#[trigger] s[i])
}

/// The number that a run of decimal digits writes.
pub open spec fn digits_value(s: Seq<u8>) -> nat
    decreases s.len(),
{
    if s.len() == 0 {
        0
    } else {
        digits_value(s.drop_last()) * 10 + (s.last() - 48) as nat
    }
}

/// The text without a plus sign in front.
pub open spec fn unsigned_part(s: Seq<u8>) -> Seq<u8> {
    if s.len() > 0 && s[0] == 43 {
        s.drop_first()
    } else {
        s
    }
}

/// The number that the text writes in decimal: an optional plus sign, then
/// at least one digit and nothing else, and the number fits in 64 bits.
pub open spec fn decimal_of(s: Seq<u8>) -> Option<u64> {
    let d = unsigned_part(s);
    if d.len() > 0 && all_digits(d) && digits_value(d) <= u64::MAX {
        Some(digits_value(d) as u64)
    } else {
        None
    }
}

/// A longer run of digits writes no smaller number.
pub proof fn lemma_digits_grow(s: Seq<u8>, n: int)
    requires
        0 <= n <= s.len(),
    ensures
        digits_value(s.take(n)) <= digits_value(s),
    decreases s.len() - n,
{
    if n < s.len() {
        lemma_digits_grow(s, n + 1);
        assert(s.take(n + 1).drop_last() =~= s.take(n));
    } else {
        assert(s.take(n) =~= s);
    }
}

/// Reads the number that the bytes from `from` up to `to` write in
/// decimal, or says that they write none.
fn parse_span(bytes: &[u8], from: usize, to: usize) -> (r: Option<u64>)
    requires
        from <= to <= bytes@.len(),
    ensures
        r == decimal_of(bytes@.subrange(from as int, to as int)),
{
    let ghost text = bytes@.subrange(from as int, to as int);
    let start: usize = if from < to && bytes[from] == 43 { from + 1 } else { from };
    let ghost d = unsigned_part(text);
    assert(d =~= bytes@.subrange(start as int, to as int));
    if start == to {
        return None;
    }
    let mut acc: u64 = 0;
    let mut i: usize = start;
    proof {
        assert(d.take(0) =~= Seq::<u8>::empty());
    }
    while i < to
        invariant
            from <= start <= i <= to <= bytes@.len(),
            text == bytes@.subrange(from as int, to as int),
            d == unsigned_part(text),
            d == bytes@.subrange(start as int, to as int),
            all_digits(d.take(i - start)),
            acc == digits_value(d.take(i - start)),
        decreases to - i,
    {
        let b = bytes[i];
        proof {
            assert(d[i - start] == b);
            assert(d.take(i - start + 1).drop_last() =~= d.take(i - start));
            assert(d.take(i - start + 1).last() == b);
        }
        if b < 48 || b > 57 {
            proof {
                assert(!is_digit(d[i - start]));
            }
            return None;
        }
        let digit: u64 = (b - 48) as u64;
        if acc > (u64::MAX - digit) / 10 {
            proof {
                lemma_digits_grow(d, i - start + 1);
                if all_digits(d) {
                    assert(digits_value(d.take(i - start + 1)) == acc * 10 + digit);
                }
            }
            return None;
        }
        acc = acc * 10 + digit;
        proof {
            assert forall|j: int| 0 <= j < i - start + 1 implies is_digit(
                #[trigger] d.take(i - start + 1)[j],
            ) by {
                if j < i - start {
                    assert(d.take(i - start)[j] == d[j]);
                }
            }
        }
        i += 1;
    }
    proof {
        assert(d.take(d.len() as int) =~= d);
    }
    Some(acc)
}

/// Reads a number written in decimal, or says that the text is none.
pub fn try_parse_int(s: &str) -> (r: Option<u64>)
    ensures
        r == decimal_of(s.spec_bytes()),
{
    let bytes = s.as_bytes();
    assert(bytes@.subrange(0, bytes@.len() as int) =~= bytes@);
    parse_span(bytes, 0, bytes.len())
}

/// Reads a number that is written in decimal.
pub fn parse_int(s: &str) -> (r: u64)
    requires
        decimal_of(s.spec_bytes()) is Some,
    ensures
        Some(r) == decimal_of(s.spec_bytes()),
{
    match try_parse_int(s) {
        Some(v) => v,
        None => 0,
    }
}

/// Reads a number that is written in decimal and keeps its lowest sixteen
/// bits.
pub fn parse_u16(s: &str) -> (r: u16)
    requires
        decimal_of(s.spec_bytes()) is Some,
    ensures
        r == decimal_of(s.spec_bytes())->0 % 0x1_0000,
{
    (parse_int(s) % 0x1_0000) as u16
}

/// The pieces of a text between its commas. A text without a comma is
/// one piece; a comma at either end leaves an empty piece there.
pub open spec fn pieces(s: Seq<u8>) -> Seq<Seq<u8>>
    decreases s.len(),
{
    if s.len() == 0 {
        seq![Seq::<u8>::empty()]
    } else if s.last() == 44 {
        pieces(s.drop_last()).push(Seq::<u8>::empty())
    } else {
        let before = pieces(s.drop_last());
        before.drop_last().push(before.last().push(s.last()))
    }
}

/// There is always at least one piece.
pub proof fn lemma_pieces_nonempty(s: Seq<u8>)
    ensures
        pieces(s).len() > 0,
    decreases s.len(),
{
    if s.len() > 0 {
        lemma_pieces_nonempty(s.drop_last());
    }
}

/// Each piece is a number written in decimal.
pub open spec fn all_decimal(ps: Seq<Seq<u8>>) -> bool {
    forall|i: int| 0 <= i < ps.len() ==> decimal_of(#[trigger] ps[i]) is Some
}

/// The lowest sixteen bits of the number that each piece writes.
pub open spec fn members_of(ps: Seq<Seq<u8>>) -> Seq<NodeType> {
    Seq::new(ps.len(), |i: int| (decimal_of(ps[i])->0 % 0x1_0000) as NodeType)
}

/// Reads a list of numbers written in decimal with commas between them,
/// each kept to its lowest sixteen bits, or says that some piece of the
/// text is no number.
pub fn try_parse_list(s: &str) -> (r: Option<Vec<NodeType>>)
    ensures
        r is Some <==> all_decimal(pieces(s.spec_bytes())),
        r matches Some(list) ==> list@ == members_of(pieces(s.spec_bytes())),
{
    let bytes = s.as_bytes();
    let mut list: Vec<NodeType> = Vec::new();
    let mut from: usize = 0;
    let mut i: usize = 0;
    proof {
        assert(bytes@.take(0) =~= Seq::<u8>::empty());
        assert(bytes@.subrange(0, 0) =~= Seq::<u8>::empty());
        assert(pieces(bytes@.take(0)).drop_last() =~= Seq::<Seq<u8>>::empty());
    }
    while i < bytes.len()
        invariant
            from <= i <= bytes.len(),
            bytes@ == s.spec_bytes(),
            pieces(bytes@.take(i as int)).len() > 0,
            pieces(bytes@.take(i as int)).last() == bytes@.subrange(from as int, i as int),
            all_decimal(pieces(bytes@.take(i as int)).drop_last()),
            list@ == members_of(pieces(bytes@.take(i as int)).drop_last()),
        decreases bytes.len() - i,
    {
        let ghost sofar = pieces(bytes@.take(i as int));
        proof {
            assert(bytes@.take(i + 1).drop_last() =~= bytes@.take(i as int));
            assert(bytes@.take(i + 1).last() == bytes@[i as int]);
            lemma_pieces_nonempty(bytes@.take(i + 1));
        }
        if bytes[i] == 44 {
            let value = match parse_span(bytes, from, i) {
                Some(v) => v,
                None => {
                    proof {
                        lemma_pieces_grow(bytes@, i + 1);
                        let all = pieces(bytes@);
                        assert(all[sofar.len() - 1] == sofar.last());
                    }
                    return None;
                },
            };
            list.push((value % 0x1_0000) as NodeType);
            proof {
                let next = pieces(bytes@.take(i + 1));
                assert(next == sofar.push(Seq::<u8>::empty()));
                assert(next.drop_last() =~= sofar);
                assert(next.last() =~= bytes@.subrange(i + 1, i + 1));
                assert(sofar =~= sofar.drop_last().push(sofar.last()));
                assert(list@ =~= members_of(sofar));
            }
            from = i + 1;
        } else {
            proof {
                let next = pieces(bytes@.take(i + 1));
                assert(next.drop_last() =~= sofar.drop_last());
                assert(next.last() =~= bytes@.subrange(from as int, i + 1));
            }
        }
        i += 1;
    }
    proof {
        assert(bytes@.take(bytes@.len() as int) =~= bytes@);
    }
    let ghost all = pieces(bytes@);
    let value = match parse_span(bytes, from, i) {
        Some(v) => v,
        None => {
            return None;
        },
    };
    list.push((value % 0x1_0000) as NodeType);
    proof {
        assert(all =~= all.drop_last().push(all.last()));
        assert(list@ =~= members_of(all));
    }
    Some(list)
}

/// The pieces of the beginning of a text, but for the last of them, are
/// pieces of the whole text.
pub proof fn lemma_pieces_grow(s: Seq<u8>, n: int)
    requires
        0 <= n <= s.len(),
    ensures
        pieces(s.take(n)).len() >= 1,
        pieces(s).len() >= pieces(s.take(n)).len(),
        forall|j: int|
            0 <= j < pieces(s.take(n)).len() - 1 ==> pieces(s)[j] == pieces(s.take(n))[j],
    decreases s.len() - n,
{
    lemma_pieces_nonempty(s.take(n));
    if n < s.len() {
        lemma_pieces_grow(s, n + 1);
        assert(s.take(n + 1).drop_last() =~= s.take(n));
        lemma_pieces_nonempty(s.take(n + 1));
    } else {
        assert(s.take(n) =~= s);
    }
}

/// Reads a list of numbers that are written in decimal with commas
/// between them, each kept to its lowest sixteen bits.
pub fn parse_list(s: &str) -> (r: Vec<NodeType>)
    requires
        all_decimal(pieces(s.spec_bytes())),
    ensures
        r@ == members_of(pieces(s.spec_bytes())),
{
    match try_parse_list(s) {
        Some(list) => list,
        None => Vec::new(),
    }
}

} // verus!
