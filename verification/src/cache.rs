use vstd::prelude::*;

verus! {

/// Values kept by destination key, such as the publisher opened for each key; a value put
/// under a key that already has one replaces it.
pub struct KeyedCache<P> {
    entries: Vec<(String, P)>,
}

/// The map that a list of entries stands for: a later entry for a key wins.
pub open spec fn entries_map<P>(entries: Seq<(String, P)>) -> Map<Seq<char>, P>
    decreases entries.len(),
{
    if entries.len() == 0 {
        Map::empty()
    } else {
        entries_map(entries.drop_last()).insert(entries.last().0@, entries.last().1)
    }
}

/// The entry at `j` is the last one for its key, so the map holds its value there.
proof fn lemma_last_entry_wins<P>(entries: Seq<(String, P)>, j: int)
    requires
        0 <= j < entries.len(),
        forall|k: int| j < k < entries.len() ==> entries[k].0@ != entries[j].0@,
    ensures
        entries_map(entries).contains_key(entries[j].0@),
        entries_map(entries)[entries[j].0@] == entries[j].1,
    decreases entries.len(),
{
    if j < entries.len() - 1 {
        let rest = entries.drop_last();
        assert forall|k: int| j < k < rest.len() implies rest[k].0@ != rest[j].0@ by {
            assert(rest[k] == entries[k]);
        }
        lemma_last_entry_wins(rest, j);
    }
}

/// With no entry for `key`, the map has no value for it.
proof fn lemma_absent_key<P>(entries: Seq<(String, P)>, key: Seq<char>)
    requires
        forall|k: int| 0 <= k < entries.len() ==> entries[k].0@ != key,
    ensures
        !entries_map(entries).contains_key(key),
    decreases entries.len(),
{
    if entries.len() > 0 {
        let rest = entries.drop_last();
        assert forall|k: int| 0 <= k < rest.len() implies rest[k].0@ != key by {
            assert(rest[k] == entries[k]);
        }
        lemma_absent_key(rest, key);
    }
}

impl<P> View for KeyedCache<P> {
    type V = Map<Seq<char>, P>;

    closed spec fn view(&self) -> Map<Seq<char>, P> {
        entries_map(self.entries@)
    }
}

impl<P> KeyedCache<P> {
    /// A cache with no key.
    pub fn new() -> (cache: Self)
        ensures
            cache@ == Map::<Seq<char>, P>::empty(),
    {
        KeyedCache { entries: Vec::new() }
    }

    /// The value kept under `key`, if any.
    pub fn get(&self, key: &str) -> (value: Option<&P>)
        ensures
            value is Some == self@.contains_key(key@),
            value is Some ==> *value->0 == self@[key@],
    {
        let wanted = key.to_owned();
        let mut i = self.entries.len();
        while i > 0
            invariant
                i <= self.entries@.len(),
                wanted@ == key@,
                forall|k: int| i <= k < self.entries@.len() ==> self.entries@[k].0@ != key@,
            decreases i,
        {
            i = i - 1;
            if self.entries[i].0 == wanted {
                proof {
                    lemma_last_entry_wins(self.entries@, i as int);
                }
                return Some(&self.entries[i].1);
            }
        }
        proof {
            lemma_absent_key(self.entries@, key@);
        }
        None
    }

    /// Keeps `value` under `key`, in place of any value the key had.
    pub fn insert(&mut self, key: String, value: P)
        ensures
            final(self)@ == old(self)@.insert(key@, value),
    {
        let ghost before = self.entries@;
        self.entries.push((key, value));
        proof {
            assert(self.entries@.drop_last() =~= before);
        }
    }
}

/// What was put under a key is what a lookup of that key gives back, and other keys keep
/// their values.
pub proof fn lemma_insert_then_get<P>(cache: Map<Seq<char>, P>, key: Seq<char>, other: Seq<char>, value: P)
    ensures
        cache.insert(key, value).contains_key(key),
        cache.insert(key, value)[key] == value,
        other != key ==> cache.insert(key, value).contains_key(other) == cache.contains_key(other),
        other != key && cache.contains_key(other) ==> cache.insert(key, value)[other] == cache[other],
{
}

} // verus!
