use vstd::prelude::*;
use vstd::string::StringExecFns;
use crate::peers::PeerTable;
use crate::topic::{is_wildcard, is_wildcard_topic, keyed_topic, topic_key};

verus! {

/// Why a message could not be given a destination.
#[derive(Debug, Clone, Copy, PartialEq, Eq)]
pub enum DispatchError {
    /// No node but this one is alive, so a message for a single node has nowhere to go.
    NoAlivePeer,
}

impl DispatchError {
    /// The text that describes the error.
    pub fn message(&self) -> (text: String)
        ensures
            match self {
                DispatchError::NoAlivePeer => text@ == "no alive peer"@,
            },
    {
        match self {
            DispatchError::NoAlivePeer => String::from_str("no alive peer"),
        }
    }
}

/// The table index chosen after `last` among `n` nodes: the next one round the table,
/// skipping index 0, this node.
pub open spec fn next_index(last: int, n: int) -> int {
    let r = (last + 1) % n;
    if r < 1 {
        1
    } else {
        r
    }
}

/// Where a message for `origin` goes and which index was chosen, given the table `zids`
/// and the index chosen last; `None` when there is no other node. A wildcard topic is sent
/// as it is and chooses nothing.
pub open spec fn route(origin: Seq<char>, zids: Seq<Seq<char>>, last: int) -> Option<(Seq<char>, int)> {
    if is_wildcard_topic(origin) {
        Some((origin, last))
    } else if zids.len() < 2 {
        None
    } else {
        let i = next_index(last, zids.len() as int);
        Some((topic_key(origin, zids[i]), i))
    }
}

proof fn lemma_mod_succ(a: int, n: int)
    requires
        a >= 0,
        n > 0,
    ensures
        (a + 1) % n == (if a % n + 1 < n { a % n + 1 } else { 0 }),
{
    vstd::arithmetic::div_mod::lemma_add_mod_noop(a, 1, n);
    vstd::arithmetic::div_mod::lemma_mod_pos_bound(a, n);
    if n == 1 {
        vstd::arithmetic::div_mod::lemma_mod_pos_bound(a + 1, n);
    } else {
        vstd::arithmetic::div_mod::lemma_small_mod(1, n as nat);
        if a % n + 1 < n {
            vstd::arithmetic::div_mod::lemma_small_mod((a % n + 1) as nat, n as nat);
        } else {
            vstd::arithmetic::div_mod::lemma_mod_self_0(n);
        }
    }
}

/// A topic that ends in `/*` or `/**` is sent as it is, whatever the table; any other topic
/// goes, when there is another node, to `topic/zid` of the node right after the one chosen
/// last (wrapping past the end to index 1, never index 0), and to nowhere otherwise.
pub proof fn lemma_route_by_suffix(t: Seq<char>, zids: Seq<Seq<char>>, last: int)
    requires
        last >= 0,
    ensures
        ((t.len() >= 2 && t[t.len() - 2] == '/' && t[t.len() - 1] == '*') || (t.len() >= 3
            && t[t.len() - 3] == '/' && t[t.len() - 2] == '*' && t[t.len() - 1] == '*')) ==> route(t, zids, last) == Some((t, last)),
        !((t.len() >= 2 && t[t.len() - 2] == '/' && t[t.len() - 1] == '*') || (t.len() >= 3
            && t[t.len() - 3] == '/' && t[t.len() - 2] == '*' && t[t.len() - 1] == '*')) && zids.len() < 2 ==> route(t, zids, last) is None,
        !((t.len() >= 2 && t[t.len() - 2] == '/' && t[t.len() - 1] == '*') || (t.len() >= 3
            && t[t.len() - 3] == '/' && t[t.len() - 2] == '*' && t[t.len() - 1] == '*')) && zids.len() >= 2 ==> ({
            let n = zids.len() as int;
            let j = if (last + 1) % n == 0 { 1 } else { (last + 1) % n };
            &&& 1 <= j < n
            &&& route(t, zids, last) == Some((t + seq!['/'] + zids[j], j))
        }),
{
    crate::topic::lemma_wildcard_is_suffix(t);
    if zids.len() >= 2 {
        let n = zids.len() as int;
        vstd::arithmetic::div_mod::lemma_mod_pos_bound(last + 1, n);
        let j = if (last + 1) % n == 0 { 1 } else { (last + 1) % n };
        crate::topic::lemma_topic_key_chars(t, zids[j]);
    }
}

/// Chooses where a message for `origin_topic` goes. A wildcard topic (ending in `/*` or
/// `/**`) goes out as it is. Any other topic goes to one other node, taken round the table
/// after the one chosen last: the key is `origin_topic/zid`, and `last_sent` is set to the
/// index chosen. With no other node alive the result is `NoAlivePeer`.
pub fn dispatch_msg(origin_topic: &str, peers: &PeerTable, last_sent: &mut usize) -> (res: Result<String, DispatchError>)
    requires
        peers.wf(),
    ensures
        match route(origin_topic@, peers@, *old(last_sent) as int) {
            None => res == Err::<String, DispatchError>(DispatchError::NoAlivePeer)
                && *final(last_sent) == *old(last_sent),
            Some((key, index)) => res is Ok && res->Ok_0@ == key && *final(last_sent) == index,
        },
        ((origin_topic@.len() >= 2 && origin_topic@[origin_topic@.len() - 2] == '/'
            && origin_topic@[origin_topic@.len() - 1] == '*') || (origin_topic@.len() >= 3
            && origin_topic@[origin_topic@.len() - 3] == '/' && origin_topic@[origin_topic@.len()
            - 2] == '*' && origin_topic@[origin_topic@.len() - 1] == '*')) ==> res is Ok && res->Ok_0@ == origin_topic@ && *final(last_sent) == *old(last_sent),
        !((origin_topic@.len() >= 2 && origin_topic@[origin_topic@.len() - 2] == '/'
            && origin_topic@[origin_topic@.len() - 1] == '*') || (origin_topic@.len() >= 3
            && origin_topic@[origin_topic@.len() - 3] == '/' && origin_topic@[origin_topic@.len()
            - 2] == '*' && origin_topic@[origin_topic@.len() - 1] == '*')) && peers@.len() < 2 ==> res is Err,
        !((origin_topic@.len() >= 2 && origin_topic@[origin_topic@.len() - 2] == '/'
            && origin_topic@[origin_topic@.len() - 1] == '*') || (origin_topic@.len() >= 3
            && origin_topic@[origin_topic@.len() - 3] == '/' && origin_topic@[origin_topic@.len()
            - 2] == '*' && origin_topic@[origin_topic@.len() - 1] == '*')) && peers@.len() >= 2 ==> ({
            let n = peers@.len() as int;
            &&& res is Ok
            &&& *final(last_sent) == if (*old(last_sent) + 1) % n == 0 { 1 } else { (*old(last_sent) + 1) % n }
            &&& res->Ok_0@ == origin_topic@ + seq!['/'] + peers@[*final(last_sent) as int]
        }),
        !is_wildcard_topic(origin_topic@) && res is Ok ==> {
            &&& 1 <= *final(last_sent) < peers@.len()
            &&& peers@[*final(last_sent) as int] != peers.own_zid()
        },
{
    proof {
        lemma_route_by_suffix(origin_topic@, peers@, *old(last_sent) as int);
    }
    if is_wildcard(origin_topic) {
        return Ok(origin_topic.to_owned());
    }
    let n = peers.len();
    if n < 2 {
        return Err(DispatchError::NoAlivePeer);
    }
    let r = *last_sent % n;
    let next = if r + 1 == n { 0 } else { r + 1 };
    proof {
        lemma_mod_succ(*old(last_sent) as int, n as int);
    }
    let index = if next < 1 { 1 } else { next };
    *last_sent = index;
    let zid = peers.zid(index);
    Ok(keyed_topic(origin_topic, zid.as_str()))
}


/// The index that the `j`-th of consecutive dispatches chooses among `n` nodes, when the
/// one before the first had chosen `last` and the table does not change meanwhile.
pub open spec fn chosen_after(last: int, n: int, j: nat) -> int
    decreases j,
{
    if j == 0 {
        last
    } else {
        next_index(chosen_after(last, n, (j - 1) as nat), n)
    }
}

/// Whether one of the `n - 1` consecutive choices after `last` is `k`.
pub open spec fn chosen_within(last: int, n: int, k: int) -> bool {
    exists|j: nat| 1 <= j < n && #[trigger] chosen_after(last, n, j) == k
}

proof fn lemma_mod_distinct(a: int, b: int, m: int)
    requires
        0 <= a < b < a + m,
        m > 0,
    ensures
        a % m != b % m,
{
    vstd::arithmetic::div_mod::lemma_fundamental_div_mod(a, m);
    vstd::arithmetic::div_mod::lemma_fundamental_div_mod(b, m);
    if a % m == b % m {
        let qa = a / m;
        let qb = b / m;
        assert(b - a == m * (qb - qa)) by (nonlinear_arith)
            requires
                a == m * qa + a % m,
                b == m * qb + b % m,
                a % m == b % m,
        ;
        assert(false) by (nonlinear_arith)
            requires
                b - a == m * (qb - qa),
                0 < b - a < m,
                m > 0,
        ;
    }
}

/// The closed form of consecutive choices: after the first choice `v`, they run
/// `v, v + 1, ..., n - 1, 1, 2, ...`.
proof fn lemma_chosen_closed_form(last: int, n: int, j: nat)
    requires
        last >= 0,
        n >= 2,
        j >= 1,
    ensures
        chosen_after(last, n, j) == (next_index(last, n) - 1 + (j - 1)) % (n - 1) + 1,
    decreases j,
{
    let m = n - 1;
    let v = next_index(last, n);
    vstd::arithmetic::div_mod::lemma_mod_pos_bound(last + 1, n);
    if j == 1 {
        vstd::arithmetic::div_mod::lemma_small_mod((v - 1) as nat, m as nat);
    } else {
        lemma_chosen_closed_form(last, n, (j - 1) as nat);
        let a = v - 1 + (j - 2);
        let c = chosen_after(last, n, (j - 1) as nat);
        vstd::arithmetic::div_mod::lemma_mod_pos_bound(a, m);
        lemma_mod_succ(a, m);
        lemma_mod_succ(c, n);
        vstd::arithmetic::div_mod::lemma_small_mod(c as nat, n as nat);
        if c + 1 < n {
            vstd::arithmetic::div_mod::lemma_small_mod((c + 1) as nat, n as nat);
        }
    }
}

/// Round-robin fairness: while the table holds `n >= 2` nodes and does not change, any
/// `n - 1` consecutive dispatches of topics that are not wildcards choose each other node
/// exactly once, and never this node (index 0).
pub proof fn lemma_round_robin_fair(last: int, n: int)
    requires
        last >= 0,
        n >= 2,
    ensures
        forall|j: nat| 1 <= j < n ==> 1 <= #[trigger] chosen_after(last, n, j) < n,
        forall|i: nat, j: nat|
            1 <= i < j < n ==> #[trigger] chosen_after(last, n, i) != #[trigger] chosen_after(last, n, j),
        forall|k: int| 1 <= k < n ==> #[trigger] chosen_within(last, n, k),
{
    let m = n - 1;
    let v = next_index(last, n);
    vstd::arithmetic::div_mod::lemma_mod_pos_bound(last + 1, n);
    assert forall|j: nat| 1 <= j < n implies 1 <= #[trigger] chosen_after(last, n, j) < n by {
        lemma_chosen_closed_form(last, n, j);
        vstd::arithmetic::div_mod::lemma_mod_pos_bound(v - 1 + (j - 1), m);
    }
    assert forall|i: nat, j: nat| 1 <= i < j < n implies #[trigger] chosen_after(last, n, i)
        != #[trigger] chosen_after(last, n, j) by {
        lemma_chosen_closed_form(last, n, i);
        lemma_chosen_closed_form(last, n, j);
        lemma_mod_distinct(v - 1 + (i - 1), v - 1 + (j - 1), m);
    }
    assert forall|k: int| 1 <= k < n implies #[trigger] chosen_within(last, n, k) by {
        vstd::arithmetic::div_mod::lemma_mod_pos_bound(k - v + m, m);
        let j = ((k - v + m) % m + 1) as nat;
        lemma_chosen_closed_form(last, n, j);
        vstd::arithmetic::div_mod::lemma_add_mod_noop_right(v - 1, k - v + m, m);
        vstd::arithmetic::div_mod::lemma_mod_add_multiples_vanish(k - 1, m);
        vstd::arithmetic::div_mod::lemma_small_mod((k - 1) as nat, m as nat);
        assert(chosen_after(last, n, j) == k);
    }
}

} // verus!
