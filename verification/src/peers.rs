use vstd::prelude::*;
use indexmap::IndexSet;
use crate::topic::{liveliness_zid, parse_liveliness_key};

verus! {

#[verifier::external_type_specification]
#[verifier::external_body]
#[verifier::reject_recursive_types(T)]
#[verifier::reject_recursive_types(S)]
pub struct ExIndexSet<T, S>(IndexSet<T, S>);

/// The zids that an `IndexSet` holds, in its index order.
pub uninterp spec fn set_items(set: IndexSet<String>) -> Seq<Seq<char>>;

/// `IndexSet::new`: a set with no item.
#[verifier::external_body]
fn zid_set_new() -> (set: IndexSet<String>)
    ensures
        set_items(set) == Seq::<Seq<char>>::empty(),
{
    IndexSet::new()
}

/// `IndexSet::insert`: an item not yet present goes to the end and `true` comes back; an
/// item already present leaves the set as it was and `false` comes back.
#[verifier::external_body]
fn zid_set_insert(set: &mut IndexSet<String>, zid: String) -> (added: bool)
    ensures
        added == !set_items(*old(set)).contains(zid@),
        added ==> set_items(*final(set)) == set_items(*old(set)).push(zid@),
        !added ==> set_items(*final(set)) == set_items(*old(set)),
{
    set.insert(zid)
}

/// `IndexSet::shift_remove`: the item equal to `zid` leaves the set, the items after it move
/// down by one, keeping their order, and `true` comes back; with no such item the set is
/// left as it was and `false` comes back.
#[verifier::external_body]
fn zid_set_shift_remove(set: &mut IndexSet<String>, zid: &str) -> (removed: bool)
    ensures
        removed == set_items(*old(set)).contains(zid@),
        removed ==> exists|i: int|
            0 <= i < set_items(*old(set)).len() && set_items(*old(set))[i] == zid@
                && set_items(*final(set)) == set_items(*old(set)).remove(i),
        !removed ==> set_items(*final(set)) == set_items(*old(set)),
{
    set.shift_remove(zid)
}

/// `IndexSet::len`: the number of items.
#[verifier::external_body]
fn zid_set_len(set: &IndexSet<String>) -> (n: usize)
    ensures
        n == set_items(*set).len(),
{
    set.len()
}

/// Indexing an `IndexSet` (its `Index<usize>` impl, which panics past the end): the item at
/// `index`.
#[verifier::external_body]
fn zid_set_at(set: &IndexSet<String>, index: usize) -> (zid: &String)
    requires
        index < set_items(*set).len(),
    ensures
        zid@ == set_items(*set)[index as int],
{
    &set[index]
}

/// What a liveliness sample reports of the node that owns the token.
#[derive(Debug, Clone, Copy, PartialEq, Eq)]
pub enum LivelinessKind {
    /// The token was declared: the node is alive.
    Put,
    /// The token was dropped: the node went away.
    Delete,
}

/// The zids of the nodes known to be alive, in the order they were first seen. The first
/// is this node's own zid, which stays first and is never dropped.
pub struct PeerTable {
    zids: IndexSet<String>,
}

impl View for PeerTable {
    type V = Seq<Seq<char>>;

    closed spec fn view(&self) -> Seq<Seq<char>> {
        set_items(self.zids)
    }
}

/// The table after the node `zid` is seen alive: appended if it is new.
pub open spec fn with_alive(zids: Seq<Seq<char>>, zid: Seq<char>) -> Seq<Seq<char>> {
    if zids.contains(zid) {
        zids
    } else {
        zids.push(zid)
    }
}

/// The table after the node `zid` went away: removed, unless it is this node (the first
/// entry) or not in the table.
pub open spec fn without_dropped(zids: Seq<Seq<char>>, zid: Seq<char>) -> Seq<Seq<char>> {
    if zid != zids[0] && zids.contains(zid) {
        zids.remove(zids.index_of(zid))
    } else {
        zids
    }
}

/// The table after a liveliness sample of `kind` on `key`.
pub open spec fn after_liveliness(zids: Seq<Seq<char>>, key: Seq<char>, kind: LivelinessKind) -> Seq<Seq<char>> {
    match liveliness_zid(key) {
        None => zids,
        Some(zid) => match kind {
            LivelinessKind::Put => with_alive(zids, zid),
            LivelinessKind::Delete => without_dropped(zids, zid),
        },
    }
}

impl PeerTable {
    /// A table is well formed when it holds at least this node and no zid twice.
    pub open spec fn wf(&self) -> bool {
        self@.len() >= 1 && self@.no_duplicates()
    }

    /// The zid of this node.
    pub open spec fn own_zid(&self) -> Seq<char> {
        self@[0]
    }

    /// A table that holds this node's zid alone.
    pub fn new(self_zid: String) -> (table: PeerTable)
        ensures
            table.wf(),
            table@ == seq![self_zid@],
    {
        let mut zids = zid_set_new();
        zid_set_insert(&mut zids, self_zid);
        PeerTable { zids }
    }

    /// The number of nodes in the table, this one included.
    pub fn len(&self) -> (n: usize)
        ensures
            n == self@.len(),
    {
        zid_set_len(&self.zids)
    }

    /// The zid at `index`; index 0 is this node.
    pub fn zid(&self, index: usize) -> (zid: String)
        requires
            index < self@.len(),
        ensures
            zid@ == self@[index as int],
    {
        zid_set_at(&self.zids, index).clone()
    }

    /// Records that the node `zid` is alive: a zid not yet in the table is appended, one
    /// already there keeps its place. Returns whether it was new.
    pub fn peer_alive(&mut self, zid: &str) -> (added: bool)
        requires
            old(self).wf(),
        ensures
            final(self).wf(),
            added == !old(self)@.contains(zid@),
            final(self)@ == with_alive(old(self)@, zid@),
            added ==> final(self)@ == old(self)@.push(zid@),
            !added ==> final(self)@ == old(self)@,
            final(self).own_zid() == old(self).own_zid(),
    {
        let added = zid_set_insert(&mut self.zids, zid.to_owned());
        proof {
            if added {
                assert(self@[self@.len() - 1] == zid@);
            }
        }
        added
    }

    /// Records that the node `zid` went away: it leaves the table and the nodes after it
    /// keep their order. This node's own zid is never removed. Returns whether a zid left.
    pub fn peer_dropped(&mut self, zid: &str) -> (removed: bool)
        requires
            old(self).wf(),
        ensures
            final(self).wf(),
            removed == (zid@ != old(self).own_zid() && old(self)@.contains(zid@)),
            final(self)@ == without_dropped(old(self)@, zid@),
            removed ==> exists|i: int|
                #![trigger old(self)@[i]]
                1 <= i < old(self)@.len() && old(self)@[i] == zid@
                    && final(self)@.len() == old(self)@.len() - 1
                    && (forall|k: int| 0 <= k < i ==> final(self)@[k] == old(self)@[k])
                    && (forall|k: int| i <= k < final(self)@.len() ==> final(self)@[k] == old(self)@[k + 1]),
            !removed ==> final(self)@ == old(self)@,
            final(self).own_zid() == old(self).own_zid(),
    {
        let own = zid_set_at(&self.zids, 0);
        if *own == zid.to_owned() {
            return false;
        }
        let ghost before = self@;
        let removed = zid_set_shift_remove(&mut self.zids, zid);
        proof {
            if removed {
                let i = choose|i: int|
                    0 <= i < before.len() && before[i] == zid@ && self@ == before.remove(i);
                assert(before.index_of(zid@) == i);
                assert(i != 0);
            }
        }
        removed
    }

    /// Applies a liveliness sample: a key without the liveliness prefix changes nothing;
    /// otherwise the zid it names is recorded alive (`Put`) or gone (`Delete`). Returns the
    /// zid the key names.
    pub fn on_liveliness(&mut self, key: &str, kind: LivelinessKind) -> (zid: Option<String>)
        requires
            old(self).wf(),
        ensures
            final(self).wf(),
            final(self)@ == after_liveliness(old(self)@, key@, kind),
            zid is Some == liveliness_zid(key@) is Some,
            zid is Some ==> zid->0@ == liveliness_zid(key@)->0,
            zid is Some ==> zid->0@ == key@.skip("liveliness/"@.len() as int),
            zid is None ==> final(self)@ == old(self)@,
            zid is Some && kind is Put && old(self)@.contains(zid->0@) ==> final(self)@ == old(self)@,
            zid is Some && kind is Put && !old(self)@.contains(zid->0@) ==> final(self)@ == old(self)@.push(zid->0@),
            zid is Some && kind is Delete && (zid->0@ == old(self)@[0] || !old(self)@.contains(zid->0@))
                ==> final(self)@ == old(self)@,
            zid is Some && kind is Delete && zid->0@ != old(self)@[0] && old(self)@.contains(zid->0@)
                ==> exists|i: int|
                #![trigger old(self)@[i]]
                1 <= i < old(self)@.len() && old(self)@[i] == zid->0@
                    && final(self)@.len() == old(self)@.len() - 1
                    && (forall|k: int| 0 <= k < i ==> final(self)@[k] == old(self)@[k])
                    && (forall|k: int| i <= k < final(self)@.len() ==> final(self)@[k] == old(self)@[k + 1]),
            final(self).own_zid() == old(self).own_zid(),
    {
        proof {
            lemma_liveliness_effect(old(self)@, key@, kind);
        }
        match parse_liveliness_key(key) {
            None => None,
            Some(zid) => {
                match kind {
                    LivelinessKind::Put => {
                        self.peer_alive(zid);
                    },
                    LivelinessKind::Delete => {
                        self.peer_dropped(zid);
                    },
                }
                Some(zid.to_owned())
            },
        }
    }
}

/// A node seen alive and then gone leaves the table as it was before, provided it was not
/// in the table and is not this node.
pub proof fn lemma_alive_then_dropped(zids: Seq<Seq<char>>, zid: Seq<char>)
    requires
        zids.len() >= 1,
        zids.no_duplicates(),
        !zids.contains(zid),
    ensures
        without_dropped(with_alive(zids, zid), zid) == zids,
{
    let pushed = zids.push(zid);
    assert(pushed[zids.len() as int] == zid);
    assert(pushed.contains(zid));
    let i = pushed.index_of(zid);
    assert(i == zids.len()) by {
        if i != zids.len() {
            assert(zids[i] == zid);
        }
    }
    assert(pushed[0] != zid) by {
        assert(zids[0] == pushed[0]);
    }
    assert(pushed.remove(i) =~= zids);
}

/// Seeing a node alive twice changes the table no more than seeing it once.
pub proof fn lemma_alive_idempotent(zids: Seq<Seq<char>>, zid: Seq<char>)
    ensures
        with_alive(with_alive(zids, zid), zid) == with_alive(zids, zid),
{
    if !zids.contains(zid) {
        assert(zids.push(zid)[zids.len() as int] == zid);
    }
}

/// A node seen alive is appended when it is new, and otherwise leaves the table as it was:
/// a known node keeps its place.
pub proof fn lemma_alive_effect(zids: Seq<Seq<char>>, zid: Seq<char>)
    ensures
        zids.contains(zid) ==> with_alive(zids, zid) == zids,
        !zids.contains(zid) ==> with_alive(zids, zid) == zids.push(zid),
{
}

/// A node that went away and is in the table, and is not this node (index 0), is taken out
/// at its index `i`: the nodes before it stay, those after it move down by one in order.
/// Any other zid leaves the table as it was.
pub proof fn lemma_dropped_effect(zids: Seq<Seq<char>>, zid: Seq<char>)
    requires
        zids.len() >= 1,
        zids.no_duplicates(),
    ensures
        (zid == zids[0] || !zids.contains(zid)) ==> without_dropped(zids, zid) == zids,
        (zid != zids[0] && zids.contains(zid)) ==> exists|i: int|
            #![trigger zids[i]]
            1 <= i < zids.len() && zids[i] == zid
                && without_dropped(zids, zid).len() == zids.len() - 1
                && (forall|k: int| 0 <= k < i ==> without_dropped(zids, zid)[k] == zids[k])
                && (forall|k: int| i <= k < without_dropped(zids, zid).len()
                    ==> without_dropped(zids, zid)[k] == zids[k + 1]),
{
    if zid != zids[0] && zids.contains(zid) {
        let i = zids.index_of(zid);
        assert(zids[i] == zid);
        assert(i != 0);
        assert(zids[i] == zid);
    }
}

/// A liveliness sample on `liveliness/<zid>` that reports the node alive (`Put`) appends a
/// new zid and leaves a known one where it is; one that reports it gone (`Delete`) takes it
/// out at its index and keeps the order of the rest, except for this node (index 0), which
/// stays. A key without the `liveliness/` prefix changes nothing.
pub proof fn lemma_liveliness_effect(zids: Seq<Seq<char>>, key: Seq<char>, kind: LivelinessKind)
    requires
        zids.len() >= 1,
        zids.no_duplicates(),
    ensures
        !"liveliness/"@.is_prefix_of(key) ==> after_liveliness(zids, key, kind) == zids,
        "liveliness/"@.is_prefix_of(key) ==> ({
            let zid = key.skip("liveliness/"@.len() as int);
            let after = after_liveliness(zids, key, kind);
            &&& kind is Put && zids.contains(zid) ==> after == zids
            &&& kind is Put && !zids.contains(zid) ==> after == zids.push(zid)
            &&& kind is Delete && (zid == zids[0] || !zids.contains(zid)) ==> after == zids
            &&& kind is Delete && zid != zids[0] && zids.contains(zid) ==> exists|i: int|
                #![trigger zids[i]]
                1 <= i < zids.len() && zids[i] == zid && after.len() == zids.len() - 1
                    && (forall|k: int| 0 <= k < i ==> after[k] == zids[k])
                    && (forall|k: int| i <= k < after.len() ==> after[k] == zids[k + 1])
        }),
{
    if "liveliness/"@.is_prefix_of(key) {
        let zid = key.skip("liveliness/"@.len() as int);
        lemma_alive_effect(zids, zid);
        lemma_dropped_effect(zids, zid);
    }
}

} // verus!
