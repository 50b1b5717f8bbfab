//! The cross-folder index from message identifier to location.
use crate::text::same_text;
use vstd::prelude::*;

verus! {

/// Where a message lives: its folder's display name and its unique id there.
#[derive(Debug)]
pub struct Location {
    pub folder: String,
    pub uid: u32,
}

impl View for Location {
    type V = (Seq<char>, u32);

    open spec fn view(&self) -> (Seq<char>, u32) {
        (self.folder@, self.uid)
    }
}

impl Location {
    pub fn new(folder: &str, uid: u32) -> (r: Location)
        ensures
            r@ == (folder@, uid),
    {
        Location { folder: folder.to_owned(), uid }
    }

    /// A copy with the same folder and unique id.
    pub fn duplicate(&self) -> (r: Location)
        ensures
            r@ == self@,
    {
        Location { folder: self.folder.clone(), uid: self.uid }
    }
}

/// The location stored under `key` in `s`: the first entry with that key.
pub open spec fn lookup(s: Seq<(Seq<char>, (Seq<char>, u32))>, key: Seq<char>) -> Option<(Seq<char>, u32)>
    decreases s.len(),
{
    if s.len() == 0 {
        None
    } else if s[0].0 == key {
        Some(s[0].1)
    } else {
        lookup(s.drop_first(), key)
    }
}

/// No two entries of `s` share a key.
pub open spec fn keys_unique(s: Seq<(Seq<char>, (Seq<char>, u32))>) -> bool {
    forall|a: int, b: int| 0 <= a < b < s.len() ==> s[a].0 != s[b].0
}

proof fn lemma_lookup_absent(s: Seq<(Seq<char>, (Seq<char>, u32))>, key: Seq<char>)
    requires
        forall|m: int| 0 <= m < s.len() ==> s[m].0 != key,
    ensures
        lookup(s, key) is None,
    decreases s.len(),
{
    if s.len() > 0 {
        lemma_lookup_absent(s.drop_first(), key);
    }
}

proof fn lemma_lookup_at(s: Seq<(Seq<char>, (Seq<char>, u32))>, key: Seq<char>, i: int)
    requires
        0 <= i < s.len(),
        s[i].0 == key,
        forall|m: int| 0 <= m < i ==> s[m].0 != key,
    ensures
        lookup(s, key) == Some(s[i].1),
    decreases i,
{
    if i > 0 {
        lemma_lookup_at(s.drop_first(), key, i - 1);
    }
}

proof fn lemma_lookup_push(s: Seq<(Seq<char>, (Seq<char>, u32))>, e: (Seq<char>, (Seq<char>, u32)), key: Seq<char>)
    ensures
        lookup(s.push(e), key) == (if lookup(s, key) is Some {
            lookup(s, key)
        } else if e.0 == key {
            Some(e.1)
        } else {
            None
        }),
    decreases s.len(),
{
    if s.len() > 0 {
        assert(s.push(e).drop_first() =~= s.drop_first().push(e));
        assert(s.push(e)[0] == s[0]);
        lemma_lookup_push(s.drop_first(), e, key);
    } else {
        assert(s.push(e).drop_first() =~= s);
        assert(s.push(e)[0] == e);
    }
}

proof fn lemma_lookup_update(s: Seq<(Seq<char>, (Seq<char>, u32))>, j: int, v: (Seq<char>, u32), key: Seq<char>)
    requires
        0 <= j < s.len(),
        forall|m: int| 0 <= m < j ==> s[m].0 != s[j].0,
    ensures
        lookup(s.update(j, (s[j].0, v)), key) == (if key == s[j].0 {
            Some(v)
        } else {
            lookup(s, key)
        }),
    decreases j,
{
    let t = s.update(j, (s[j].0, v));
    if j > 0 {
        assert(t.drop_first() =~= s.drop_first().update(j - 1, (s[j].0, v)));
        assert(t[0] == s[0]);
        assert(s.drop_first()[j - 1] == s[j]);
        lemma_lookup_update(s.drop_first(), j - 1, v, key);
    } else {
        assert(t.drop_first() =~= s.drop_first());
    }
}

/// Message identifier to location, one entry per identifier.
pub struct MessageIndex {
    entries: Vec<(String, Location)>,
}

impl View for MessageIndex {
    type V = Map<Seq<char>, (Seq<char>, u32)>;

    /// The index as a map.
    open spec fn view(&self) -> Map<Seq<char>, (Seq<char>, u32)> {
        Map::new(
            |k: Seq<char>| lookup(self.entries_view(), k) is Some,
            |k: Seq<char>| lookup(self.entries_view(), k)->Some_0,
        )
    }
}

impl MessageIndex {
    /// The entries in their internal order.
    pub closed spec fn entries_view(&self) -> Seq<(Seq<char>, (Seq<char>, u32))> {
        self.entries@.map_values(|e: (String, Location)| (e.0@, e.1@))
    }

    /// No identifier is held twice.
    pub open spec fn wf(&self) -> bool {
        keys_unique(self.entries_view())
    }

    pub fn new() -> (r: MessageIndex)
        ensures
            r.wf(),
            r.entries_view().len() == 0,
            r@ == Map::<Seq<char>, (Seq<char>, u32)>::empty(),
    {
        let r = MessageIndex { entries: Vec::new() };
        assert(r.entries_view() =~= Seq::<(Seq<char>, (Seq<char>, u32))>::empty());
        assert(r@ =~= Map::<Seq<char>, (Seq<char>, u32)>::empty());
        r
    }

    /// The number of identifiers held.
    pub fn len(&self) -> (r: usize)
        requires
            self.wf(),
        ensures
            r == self.entries_view().len(),
            r as int == self@.dom().len(),
    {
        proof { self.lemma_dom_len(); }
        self.entries.len()
    }

    proof fn lemma_dom_len(&self)
        requires
            self.wf(),
        ensures
            self@.dom() == self.entries_view().map_values(|e: (Seq<char>, (Seq<char>, u32))| e.0).to_set(),
            self@.dom().len() == self.entries_view().len(),
    {
        let s = self.entries_view();
        let ks = s.map_values(|e: (Seq<char>, (Seq<char>, u32))| e.0);
        assert forall|k: Seq<char>| self@.dom().contains(k) <==> ks.to_set().contains(k) by {
            if ks.contains(k) {
                let i = choose|i: int| 0 <= i < ks.len() && ks[i] == k;
                lemma_lookup_at(s, k, i);
            } else {
                assert forall|m: int| 0 <= m < s.len() implies s[m].0 != k by {
                    assert(ks[m] == s[m].0);
                }
                lemma_lookup_absent(s, k);
            }
        }
        assert(self@.dom() =~= ks.to_set());
        assert(ks.no_duplicates()) by {
            assert forall|a: int, b: int| 0 <= a < ks.len() && 0 <= b < ks.len() && a != b implies ks[a] != ks[b] by {
                assert(ks[a] == s[a].0 && ks[b] == s[b].0);
            }
        }
        ks.unique_seq_to_set();
    }

    /// Where the message with identifier `key` lives, if it is indexed.
    pub fn get(&self, key: &str) -> (r: Option<Location>)
        ensures
            r is Some <==> self@.contains_key(key@),
            r is Some ==> r->Some_0@ == self@[key@],
    {
        let mut i: usize = 0;
        while i < self.entries.len()
            invariant
                i <= self.entries@.len(),
                forall|m: int| 0 <= m < i ==> #[trigger] self.entries_view()[m].0 != key@,
            decreases self.entries.len() - i,
        {
            proof { assert(self.entries_view()[i as int] == (self.entries@[i as int].0@, self.entries@[i as int].1@)); }
            if same_text(self.entries[i].0.as_str(), key) {
                proof { lemma_lookup_at(self.entries_view(), key@, i as int); }
                return Some(self.entries[i].1.duplicate());
            }
            i = i + 1;
        }
        proof { lemma_lookup_absent(self.entries_view(), key@); }
        None
    }

    /// Records that `key` lives at `loc`; a later insert for the same key
    /// replaces the earlier location.
    pub fn insert(&mut self, key: String, loc: Location)
        requires
            old(self).wf(),
        ensures
            final(self).wf(),
            final(self)@ == old(self)@.insert(key@, loc@),
    {
        let ghost k = key@;
        let ghost v = loc@;
        let ghost s = self.entries_view();
        let mut i: usize = 0;
        while i < self.entries.len()
            invariant
                i <= self.entries@.len(),
                self.entries_view() == s,
                s == old(self).entries_view(),
                keys_unique(s),
                k == key@,
                v == loc@,
                forall|m: int| 0 <= m < i ==> #[trigger] s[m].0 != k,
            decreases self.entries.len() - i,
        {
            proof { assert(s[i as int] == (self.entries@[i as int].0@, self.entries@[i as int].1@)); }
            if same_text(self.entries[i].0.as_str(), key.as_str()) {
                proof { assert(s[i as int].0 == k); }
                self.entries.set(i, (key, loc));
                proof {
                    assert(self.entries_view() =~= s.update(i as int, (s[i as int].0, v)));
                    assert forall|q: Seq<char>| #[trigger] lookup(self.entries_view(), q) == (if q == k { Some(v) } else { lookup(s, q) }) by {
                        lemma_lookup_update(s, i as int, v, q);
                    }
                    assert(self@ =~= old(self)@.insert(k, v));
                    assert(keys_unique(self.entries_view()));
                }
                return;
            }
            i = i + 1;
        }
        self.entries.push((key, loc));
        proof {
            assert(self.entries_view() =~= s.push((k, v)));
            lemma_lookup_absent(s, k);
            assert forall|q: Seq<char>| #[trigger] lookup(self.entries_view(), q) == (if q == k { Some(v) } else { lookup(s, q) }) by {
                lemma_lookup_push(s, (k, v), q);
            }
            assert(self@ =~= old(self)@.insert(k, v));
        }
    }

    /// The number of entries; equal to `len` on a well-formed index.
    pub fn entry_count(&self) -> (r: usize)
        ensures
            r == self.entries_view().len(),
    {
        self.entries.len()
    }

    /// The entry at position `i` of the internal order.
    pub fn entry_at(&self, i: usize) -> (r: (String, Location))
        requires
            i < self.entries_view().len(),
        ensures
            (r.0@, r.1@) == self.entries_view()[i as int],
    {
        (self.entries[i].0.clone(), self.entries[i].1.duplicate())
    }

    /// Records the messages fetched from `folder`, each under its message
    /// identifier; a fetched item without an identifier is passed over.
    pub fn index_folder(&mut self, folder: &str, fetched: &Vec<(u32, Option<String>)>)
        requires
            old(self).wf(),
        ensures
            final(self).wf(),
            final(self)@ == indexed(old(self)@, folder@, fetched@.map_values(|f: (u32, Option<String>)| (f.0, opt_text(f.1)))),
    {
        let ghost f = fetched@.map_values(|f: (u32, Option<String>)| (f.0, opt_text(f.1)));
        let mut i: usize = 0;
        proof {
            assert(f.take(0) =~= Seq::<(u32, Option<Seq<char>>)>::empty());
        }
        while i < fetched.len()
            invariant
                i <= fetched@.len(),
                f == fetched@.map_values(|f: (u32, Option<String>)| (f.0, opt_text(f.1))),
                self.wf(),
                self@ == indexed(old(self)@, folder@, f.take(i as int)),
            decreases fetched.len() - i,
        {
            proof {
                assert(f.take(i + 1).drop_last() =~= f.take(i as int));
                assert(f.take(i + 1).last() == f[i as int]);
            }
            match &fetched[i].1 {
                Some(id) => {
                    self.insert(id.clone(), Location::new(folder, fetched[i].0));
                },
                None => {},
            }
            i = i + 1;
        }
        assert(f.take(fetched@.len() as int) =~= f);
    }
}

/// An optional string seen as an optional sequence of characters.
pub open spec fn opt_text(o: Option<String>) -> Option<Seq<char>> {
    match o {
        Some(s) => Some(s@),
        None => None,
    }
}

/// `index` after recording, in order, each fetched (unique id, identifier)
/// pair of `folder` that has an identifier; a later pair for the same
/// identifier replaces an earlier one.
pub open spec fn indexed(
    index: Map<Seq<char>, (Seq<char>, u32)>,
    folder: Seq<char>,
    fetched: Seq<(u32, Option<Seq<char>>)>,
) -> Map<Seq<char>, (Seq<char>, u32)>
    decreases fetched.len(),
{
    if fetched.len() == 0 {
        index
    } else {
        let before = indexed(index, folder, fetched.drop_last());
        match fetched.last().1 {
            Some(id) => before.insert(id, (folder, fetched.last().0)),
            None => before,
        }
    }
}

/// Indexing one message in each of two folders, under two different
/// identifiers, gives exactly those two entries, each pointing at its
/// folder and unique id.
pub proof fn lemma_two_folder_index(
    folder1: Seq<char>,
    uid1: u32,
    id1: Seq<char>,
    folder2: Seq<char>,
    uid2: u32,
    id2: Seq<char>,
)
    requires
        id1 != id2,
    ensures
        ({
            let first = indexed(Map::empty(), folder1, seq![(uid1, Some(id1))]);
            let both = indexed(first, folder2, seq![(uid2, Some(id2))]);
            &&& both == map![id1 => (folder1, uid1), id2 => (folder2, uid2)]
            &&& both.dom().len() == 2
        }),
{
    reveal_with_fuel(indexed, 2);
    let s1: Seq<(u32, Option<Seq<char>>)> = seq![(uid1, Some(id1))];
    let s2: Seq<(u32, Option<Seq<char>>)> = seq![(uid2, Some(id2))];
    assert(s1.drop_last() =~= Seq::<(u32, Option<Seq<char>>)>::empty());
    assert(s2.drop_last() =~= Seq::<(u32, Option<Seq<char>>)>::empty());
    assert(s1.last() == (uid1, Some(id1)));
    assert(s2.last() == (uid2, Some(id2)));
    let first = indexed(Map::empty(), folder1, s1);
    assert(first == Map::<Seq<char>, (Seq<char>, u32)>::empty().insert(id1, (folder1, uid1)));
    let both = indexed(first, folder2, seq![(uid2, Some(id2))]);
    assert(both =~= map![id1 => (folder1, uid1), id2 => (folder2, uid2)]);
    assert(both.dom() =~= set![id1].insert(id2));
}

/// The index built over a whole store: the fetched (unique id, identifier)
/// pairs of each folder recorded in turn, in listing order.
pub open spec fn indexed_store(
    index: Map<Seq<char>, (Seq<char>, u32)>,
    store: Seq<(Seq<char>, Seq<(u32, Option<Seq<char>>)>)>,
) -> Map<Seq<char>, (Seq<char>, u32)>
    decreases store.len(),
{
    if store.len() == 0 {
        index
    } else {
        indexed(indexed_store(index, store.drop_last()), store.last().0, store.last().1)
    }
}

proof fn lemma_indexed_keys(
    index: Map<Seq<char>, (Seq<char>, u32)>,
    folder: Seq<char>,
    fetched: Seq<(u32, Option<Seq<char>>)>,
    k: Seq<char>,
)
    ensures
        indexed(index, folder, fetched).contains_key(k) <==> (index.contains_key(k) || exists|b: int|
            0 <= b < fetched.len() && #[trigger] fetched[b].1 == Some(k)),
        (forall|b: int| 0 <= b < fetched.len() ==> #[trigger] fetched[b].1 != Some(k)) && index.contains_key(k)
            ==> indexed(index, folder, fetched)[k] == index[k],
    decreases fetched.len(),
{
    if fetched.len() > 0 {
        let init = fetched.drop_last();
        lemma_indexed_keys(index, folder, init, k);
        if exists|b: int| 0 <= b < init.len() && #[trigger] init[b].1 == Some(k) {
            let b = choose|b: int| 0 <= b < init.len() && #[trigger] init[b].1 == Some(k);
            assert(fetched[b].1 == Some(k));
        }
        if exists|b: int| 0 <= b < fetched.len() && #[trigger] fetched[b].1 == Some(k) {
            let b = choose|b: int| 0 <= b < fetched.len() && #[trigger] fetched[b].1 == Some(k);
            if b < fetched.len() - 1 {
                assert(init[b].1 == Some(k));
            }
        }
        assert forall|b: int| 0 <= b < init.len() && (forall|c: int| 0 <= c < fetched.len() ==> #[trigger] fetched[c].1 != Some(k))
            implies init[b].1 != Some(k) by {
            assert(init[b] == fetched[b]);
        }
    }
}

proof fn lemma_indexed_value(
    index: Map<Seq<char>, (Seq<char>, u32)>,
    folder: Seq<char>,
    fetched: Seq<(u32, Option<Seq<char>>)>,
    k: Seq<char>,
    b: int,
)
    requires
        0 <= b < fetched.len(),
        fetched[b].1 == Some(k),
        forall|c: int| b < c < fetched.len() ==> #[trigger] fetched[c].1 != Some(k),
    ensures
        indexed(index, folder, fetched).contains_key(k),
        indexed(index, folder, fetched)[k] == (folder, fetched[b].0),
    decreases fetched.len(),
{
    if b < fetched.len() - 1 {
        let init = fetched.drop_last();
        assert forall|c: int| b < c < init.len() implies #[trigger] init[c].1 != Some(k) by {
            assert(init[c] == fetched[c]);
        }
        lemma_indexed_value(index, folder, init, k, b);
    }
}

/// Whether identifier `k` is fetched somewhere in `store`.
pub open spec fn in_store(store: Seq<(Seq<char>, Seq<(u32, Option<Seq<char>>)>)>, k: Seq<char>) -> bool {
    exists|a: int, b: int| 0 <= a < store.len() && 0 <= b < store[a].1.len() && #[trigger] store[a].1[b].1 == Some(k)
}

/// Indexing a whole store from an empty index holds exactly the
/// identifiers fetched in it.
pub proof fn lemma_store_index_keys(store: Seq<(Seq<char>, Seq<(u32, Option<Seq<char>>)>)>, k: Seq<char>)
    ensures
        indexed_store(Map::empty(), store).contains_key(k) <==> in_store(store, k),
    decreases store.len(),
{
    if store.len() > 0 {
        let init = store.drop_last();
        let last = store.last();
        lemma_store_index_keys(init, k);
        lemma_indexed_keys(indexed_store(Map::empty(), init), last.0, last.1, k);
        if in_store(init, k) {
            let (a, b) = choose|a: int, b: int| 0 <= a < init.len() && 0 <= b < init[a].1.len() && #[trigger] init[a].1[b].1 == Some(k);
            assert(store[a] == init[a]);
            assert(store[a].1[b].1 == Some(k));
        }
        if exists|b: int| 0 <= b < last.1.len() && #[trigger] last.1[b].1 == Some(k) {
            let b = choose|b: int| 0 <= b < last.1.len() && #[trigger] last.1[b].1 == Some(k);
            assert(store[store.len() - 1].1[b].1 == Some(k));
        }
        if in_store(store, k) {
            let (a, b) = choose|a: int, b: int| 0 <= a < store.len() && 0 <= b < store[a].1.len() && #[trigger] store[a].1[b].1 == Some(k);
            if a < store.len() - 1 {
                assert(init[a] == store[a]);
                assert(init[a].1[b].1 == Some(k));
            } else {
                assert(last.1[b].1 == Some(k));
            }
        }
    }
}

/// Indexing a whole store from an empty index: a message whose identifier
/// occurs nowhere else in the store is found at its folder and unique id.
pub proof fn lemma_store_index_value(store: Seq<(Seq<char>, Seq<(u32, Option<Seq<char>>)>)>, a: int, b: int, k: Seq<char>)
    requires
        0 <= a < store.len(),
        0 <= b < store[a].1.len(),
        store[a].1[b].1 == Some(k),
        forall|a2: int, b2: int| 0 <= a2 < store.len() && 0 <= b2 < store[a2].1.len() && (a2 != a || b2 != b)
            ==> #[trigger] store[a2].1[b2].1 != Some(k),
    ensures
        indexed_store(Map::empty(), store).contains_key(k),
        indexed_store(Map::empty(), store)[k] == (store[a].0, store[a].1[b].0),
    decreases store.len(),
{
    let init = store.drop_last();
    let last = store.last();
    if a == store.len() - 1 {
        assert forall|c: int| b < c < last.1.len() implies #[trigger] last.1[c].1 != Some(k) by {
            assert(store[a].1[c].1 != Some(k));
        }
        lemma_indexed_value(indexed_store(Map::empty(), init), last.0, last.1, k, b);
    } else {
        assert forall|a2: int, b2: int| 0 <= a2 < init.len() && 0 <= b2 < init[a2].1.len() && (a2 != a || b2 != b)
            implies #[trigger] init[a2].1[b2].1 != Some(k) by {
            assert(init[a2] == store[a2]);
        }
        assert(init[a] == store[a]);
        lemma_store_index_value(init, a, b, k);
        assert forall|c: int| 0 <= c < last.1.len() implies #[trigger] last.1[c].1 != Some(k) by {
            assert(store[store.len() - 1].1[c].1 != Some(k));
        }
        lemma_indexed_keys(indexed_store(Map::empty(), init), last.0, last.1, k);
    }
}

} // verus!
