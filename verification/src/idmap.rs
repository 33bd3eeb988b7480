//! Ordered identifier sets and identifier-keyed maps.
//!
//! Every set or map of signer identifiers in this crate iterates in strictly
//! increasing identifier order, so that session assembly and cross-party
//! comparisons are deterministic. Both containers are sorted association
//! vectors; the map is viewed as a `Map<u16, V>` and the set as its ordered
//! `Seq<u16>` of elements.

use vstd::prelude::*;

verus! {

/// True iff `s` is strictly increasing.
pub open spec fn strictly_sorted(s: Seq<u16>) -> bool {
    forall|i: int, j: int| 0 <= i < j < s.len() ==> s[i] < s[j]
}

/// `s` with `id` inserted at its sorted position (unchanged if present).
pub open spec fn sorted_insert(s: Seq<u16>, id: u16) -> Seq<u16>
    decreases s.len(),
{
    if s.len() == 0 {
        seq![id]
    } else if id < s[0] {
        seq![id] + s
    } else if id == s[0] {
        s
    } else {
        seq![s[0]] + sorted_insert(s.drop_first(), id)
    }
}

/// What `sorted_insert` does, seen through `to_set`, `len` and order.
pub proof fn lemma_sorted_insert(s: Seq<u16>, id: u16)
    requires
        strictly_sorted(s),
    ensures
        strictly_sorted(sorted_insert(s, id)),
        sorted_insert(s, id).to_set() == s.to_set().insert(id),
        s.contains(id) ==> sorted_insert(s, id) == s,
        !s.contains(id) ==> sorted_insert(s, id).len() == s.len() + 1,
        forall|x: u16| sorted_insert(s, id).contains(x) <==> (s.contains(x) || x == id),
    decreases s.len(),
{
    broadcast use vstd::seq_lib::group_seq_properties;

    if s.len() == 0 {
        assert(seq![id][0] == id);
        assert(sorted_insert(s, id).to_set() =~= s.to_set().insert(id));
    } else if id < s[0] {
        let r = seq![id] + s;
        assert(seq![id][0] == id);
        assert(forall|i: int| 0 <= i < s.len() ==> r[i + 1] == s[i]);
        assert(!s.contains(id));
        assert(r.to_set() =~= s.to_set().insert(id));
    } else if id == s[0] {
        assert(s.contains(id));
        assert(s.to_set() =~= s.to_set().insert(id));
    } else {
        let rest = s.drop_first();
        assert(forall|i: int| 0 <= i < rest.len() ==> rest[i] == s[i + 1]);
        assert(strictly_sorted(rest));
        lemma_sorted_insert(rest, id);
        let ri = sorted_insert(rest, id);
        let r = seq![s[0]] + ri;
        assert(seq![s[0]][0] == s[0]);
        assert(s =~= seq![s[0]] + rest);
        assert forall|x: u16| ri.contains(x) implies s[0] < x by {
            if rest.contains(x) {
                let i = choose|i: int| 0 <= i < rest.len() && rest[i] == x;
                assert(s[i + 1] == x);
            }
        }
        assert(strictly_sorted(r)) by {
            assert(forall|j: int| 1 <= j < r.len() ==> r[j] == ri[j - 1] && ri.contains(ri[j - 1]));
        }
        assert(r.to_set() =~= s.to_set().insert(id));
        if s.contains(id) {
            assert(rest.contains(id));
            assert(r =~= s);
        }
    }
}

/// A strictly sorted set never repeats an element.
pub proof fn lemma_strictly_sorted_no_duplicates(s: Seq<u16>)
    requires
        strictly_sorted(s),
    ensures
        s.no_duplicates(),
{
}

/// A strictly sorted sequence has as many elements as its set of values.
pub proof fn lemma_strictly_sorted_set_len(s: Seq<u16>)
    requires
        strictly_sorted(s),
    ensures
        s.to_set().len() == s.len(),
        s.to_set().finite(),
{
    lemma_strictly_sorted_no_duplicates(s);
    s.unique_seq_to_set();
    vstd::seq_lib::seq_to_set_is_finite(s);
}

/// An ordered set of signer identifiers.
///
/// The elements are kept strictly increasing; the view is the ordered
/// sequence of elements.
#[derive(Clone)]
pub struct IdSet {
    ids: Vec<u16>,
}

impl View for IdSet {
    type V = Seq<u16>;

    closed spec fn view(&self) -> Seq<u16> {
        self.ids@
    }
}

impl IdSet {
    /// The elements are strictly increasing.
    pub open spec fn wf(&self) -> bool {
        strictly_sorted(self@)
    }

    /// The set of elements.
    pub open spec fn set(&self) -> Set<u16> {
        self@.to_set()
    }

    /// Creates an empty set.
    pub fn new() -> (s: Self)
        ensures
            s.wf(),
            s@ == Seq::<u16>::empty(),
    {
        IdSet { ids: Vec::new() }
    }

    /// The number of elements.
    pub fn len(&self) -> (n: usize)
        requires
            self.wf(),
        ensures
            n == self@.len(),
            n == self.set().len(),
    {
        proof {
            lemma_strictly_sorted_set_len(self@);
        }
        self.ids.len()
    }

    /// Whether `id` is an element.
    pub fn contains(&self, id: u16) -> (b: bool)
        requires
            self.wf(),
        ensures
            b == self.set().contains(id),
    {
        let n = self.ids.len();
        let mut i: usize = 0;
        while i < n
            invariant
                0 <= i <= n,
                n == self.ids@.len(),
                forall|k: int| 0 <= k < i ==> self.ids@[k] != id,
            decreases n - i,
        {
            if self.ids[i] == id {
                assert(self@.contains(self@[i as int]));
                return true;
            }
            i += 1;
        }
        assert(!self@.contains(id));
        false
    }

    /// Inserts `id`; no effect if it is already an element.
    pub fn insert(&mut self, id: u16)
        requires
            old(self).wf(),
        ensures
            final(self).wf(),
            final(self)@ == sorted_insert(old(self)@, id),
            final(self).set() == old(self).set().insert(id),
    {
        let n = self.ids.len();
        let mut i: usize = 0;
        while i < n && self.ids[i] < id
            invariant
                0 <= i <= n,
                self.ids@ == old(self).ids@,
                n == self.ids@.len(),
                forall|k: int| 0 <= k < i ==> self.ids@[k] < id,
            decreases n - i,
        {
            i += 1;
        }
        if i < n && self.ids[i] == id {
            proof {
                assert(self@.contains(self@[i as int]));
                lemma_sorted_insert(self@, id);
            }
            return;
        }
        self.ids.insert(i, id);
        proof {
            let pre = old(self)@;
            lemma_sorted_insert(pre, id);
            lemma_sorted_insert_at(pre, id, i as int);
            assert(pre.insert(i as int, id) =~= pre.subrange(0, i as int) + seq![id]
                + pre.subrange(i as int, pre.len() as int));
        }
    }

    /// Removes and returns all elements, leaving the set empty.
    pub fn take(&mut self) -> (out: Vec<u16>)
        requires
            old(self).wf(),
        ensures
            final(self).wf(),
            final(self)@ == Seq::<u16>::empty(),
            out@ == old(self)@,
    {
        let mut out: Vec<u16> = Vec::new();
        core::mem::swap(&mut out, &mut self.ids);
        out
    }

    /// The elements in increasing order.
    pub fn elements(&self) -> (v: &Vec<u16>)
        ensures
            v@ == self@,
    {
        &self.ids
    }
}

/// The keys of an association sequence, in order.
pub open spec fn key_seq<V>(s: Seq<(u16, V)>) -> Seq<u16> {
    s.map_values(|p: (u16, V)| p.0)
}

/// The map described by an association sequence; a later pair wins.
pub open spec fn assoc_map<V>(s: Seq<(u16, V)>) -> Map<u16, V>
    decreases s.len(),
{
    if s.len() == 0 {
        Map::empty()
    } else {
        assoc_map(s.drop_last()).insert(s.last().0, s.last().1)
    }
}

/// The domain of the association map is exactly the set of keys.
pub proof fn lemma_assoc_map_dom<V>(s: Seq<(u16, V)>)
    ensures
        assoc_map(s).dom() == key_seq(s).to_set(),
    decreases s.len(),
{
    broadcast use vstd::seq_lib::group_seq_properties;

    if s.len() == 0 {
        assert(assoc_map(s).dom() =~= key_seq(s).to_set());
    } else {
        let dl = s.drop_last();
        lemma_assoc_map_dom(dl);
        assert(key_seq(s) =~= key_seq(dl).push(s.last().0));
        assert(key_seq(s).to_set() =~= key_seq(dl).to_set().insert(s.last().0)) by {
            broadcast use vstd::prelude::Seq::lemma_push_to_set_commute;

        }
        assert(assoc_map(s).dom() =~= key_seq(s).to_set());
    }
}

/// With distinct keys, each pair of the sequence is in the map as written.
pub proof fn lemma_assoc_map_index<V>(s: Seq<(u16, V)>)
    requires
        key_seq(s).no_duplicates(),
    ensures
        forall|i: int|
            0 <= i < s.len() ==> assoc_map(s).dom().contains(#[trigger] s[i].0) && assoc_map(s)[s[i].0]
                == s[i].1,
    decreases s.len(),
{
    if s.len() > 0 {
        let dl = s.drop_last();
        assert(key_seq(dl) =~= key_seq(s).drop_last());
        lemma_assoc_map_index(dl);
        lemma_assoc_map_dom(s);
        assert(key_seq(s).contains(key_seq(s)[s.len() - 1]));
        assert forall|i: int| 0 <= i < s.len() implies assoc_map(s).dom().contains(
            #[trigger] s[i].0,
        ) && assoc_map(s)[s[i].0] == s[i].1 by {
            assert(key_seq(s)[i] == s[i].0);
            if i < s.len() - 1 {
                assert(dl[i] == s[i]);
                assert(key_seq(s)[s.len() - 1] == s.last().0);
                assert(s[i].0 != s.last().0);
            }
        }
    }
}

/// Inserting a pair at the scan position updates the map by `insert`.
pub proof fn lemma_assoc_insert_at<V>(s: Seq<(u16, V)>, id: u16, v: V, i: int)
    requires
        strictly_sorted(key_seq(s)),
        0 <= i <= s.len(),
        forall|k: int| 0 <= k < i ==> s[k].0 < id,
        i < s.len() ==> s[i].0 > id,
    ensures
        strictly_sorted(key_seq(s.insert(i, (id, v)))),
        key_seq(s.insert(i, (id, v))) == sorted_insert(key_seq(s), id),
        assoc_map(s.insert(i, (id, v))) == assoc_map(s).insert(id, v),
{
    broadcast use vstd::seq_lib::group_seq_properties;

    let n = s.len() as int;
    let ns = s.insert(i, (id, v));
    let keys = key_seq(s);
    let nkeys = key_seq(ns);
    lemma_sorted_insert(keys, id);
    lemma_sorted_insert_at(keys, id, i);
    assert(nkeys =~= keys.subrange(0, i) + seq![id] + keys.subrange(i, n)) by {
        assert(forall|j: int| 0 <= j < i ==> ns[j] == s[j]);
        assert(forall|j: int| i < j < n + 1 ==> ns[j] == s[j - 1]);
        assert(ns[i] == (id, v));
    }
    assert(nkeys == sorted_insert(keys, id));
    lemma_strictly_sorted_no_duplicates(keys);
    lemma_strictly_sorted_no_duplicates(nkeys);
    lemma_assoc_map_dom(s);
    lemma_assoc_map_dom(ns);
    lemma_assoc_map_index(s);
    lemma_assoc_map_index(ns);
    assert(!keys.contains(id)) by {
        if keys.contains(id) {
            let j = choose|j: int| 0 <= j < n && keys[j] == id;
            assert(s[j].0 == id);
        }
    }
    assert(assoc_map(ns) =~= assoc_map(s).insert(id, v)) by {
        assert(ns[i] == (id, v));
        assert(assoc_map(ns)[id] == v);
        assert forall|k: u16| assoc_map(s).dom().contains(k) && k != id implies assoc_map(
            ns,
        ).dom().contains(k) && assoc_map(ns)[k] == assoc_map(s)[k] by {
            let j = choose|j: int| 0 <= j < n && keys[j] == k;
            assert(s[j].0 == k);
            if j < i {
                assert(ns[j] == s[j]);
                assert(assoc_map(ns)[k] == s[j].1);
            } else {
                assert(ns[j + 1] == s[j]);
                assert(assoc_map(ns)[k] == s[j].1);
            }
        }
        assert forall|k: u16| assoc_map(ns).dom().contains(k) implies k == id || assoc_map(
            s,
        ).dom().contains(k) by {
            let j = choose|j: int| 0 <= j < n + 1 && nkeys[j] == k;
            if j != i {
                if j < i {
                    assert(ns[j] == s[j]);
                    assert(keys[j] == k);
                } else {
                    assert(ns[j] == s[j - 1]);
                    assert(keys[j - 1] == k);
                }
            }
        }
    }
}

/// Replacing the pair at a key's position updates the map by `insert`.
pub proof fn lemma_assoc_update_at<V>(s: Seq<(u16, V)>, id: u16, v: V, i: int)
    requires
        strictly_sorted(key_seq(s)),
        0 <= i < s.len(),
        s[i].0 == id,
    ensures
        strictly_sorted(key_seq(s.update(i, (id, v)))),
        key_seq(s.update(i, (id, v))) == key_seq(s),
        assoc_map(s.update(i, (id, v))) == assoc_map(s).insert(id, v),
{
    broadcast use vstd::seq_lib::group_seq_properties;

    let n = s.len() as int;
    let ns = s.update(i, (id, v));
    let keys = key_seq(s);
    assert(key_seq(ns) =~= keys) by {
        assert(forall|j: int| 0 <= j < n && j != i ==> ns[j] == s[j]);
        assert(ns[i] == (id, v));
    }
    lemma_strictly_sorted_no_duplicates(keys);
    lemma_assoc_map_dom(s);
    lemma_assoc_map_dom(ns);
    lemma_assoc_map_index(s);
    lemma_assoc_map_index(ns);
    assert(assoc_map(ns) =~= assoc_map(s).insert(id, v)) by {
        assert(ns[i].0 == id && ns[i].1 == v);
        assert(assoc_map(ns)[id] == v);
        assert(keys[i] == id);
        assert forall|k: u16| assoc_map(s).dom().contains(k) && k != id implies assoc_map(
            ns,
        )[k] == assoc_map(s)[k] by {
            let j = choose|j: int| 0 <= j < n && keys[j] == k;
            assert(s[j].0 == k);
            assert(j != i);
            assert(ns[j].0 == k && ns[j].1 == s[j].1);
        }
    }
}

/// Removing the pair at a key's position updates the map by `remove`.
pub proof fn lemma_assoc_remove_at<V>(s: Seq<(u16, V)>, i: int)
    requires
        strictly_sorted(key_seq(s)),
        0 <= i < s.len(),
    ensures
        strictly_sorted(key_seq(s.remove(i))),
        key_seq(s.remove(i)) == key_seq(s).remove(i),
        assoc_map(s.remove(i)) == assoc_map(s).remove(s[i].0),
{
    broadcast use vstd::seq_lib::group_seq_properties;

    let n = s.len() as int;
    let ns = s.remove(i);
    let keys = key_seq(s);
    let id = s[i].0;
    assert(keys[i] == id);
    assert(key_seq(ns) =~= keys.remove(i)) by {
        assert(forall|j: int| 0 <= j < i ==> ns[j] == s[j]);
        assert(forall|j: int| i <= j < n - 1 ==> ns[j] == s[j + 1]);
    }
    assert(strictly_sorted(key_seq(ns))) by {
        assert(forall|j: int| 0 <= j < i ==> key_seq(ns)[j] == keys[j]);
        assert(forall|j: int| i <= j < n - 1 ==> key_seq(ns)[j] == keys[j + 1]);
    }
    lemma_strictly_sorted_no_duplicates(keys);
    lemma_strictly_sorted_no_duplicates(key_seq(ns));
    lemma_assoc_map_dom(s);
    lemma_assoc_map_dom(ns);
    lemma_assoc_map_index(s);
    lemma_assoc_map_index(ns);
    assert(assoc_map(ns) =~= assoc_map(s).remove(id)) by {
        assert forall|k: u16| assoc_map(ns).dom().contains(k) implies k != id && assoc_map(
            s,
        ).dom().contains(k) && assoc_map(ns)[k] == assoc_map(s)[k] by {
            let j = choose|j: int| 0 <= j < n - 1 && key_seq(ns)[j] == k;
            assert(ns[j].0 == k);
            if j < i {
                assert(ns[j] == s[j]);
                assert(keys[j] == k);
                assert(k != id);
            } else {
                assert(ns[j] == s[j + 1]);
                assert(keys[j + 1] == k);
                assert(k != id);
            }
            assert(assoc_map(ns)[k] == assoc_map(s)[k]);
        }
        assert forall|k: u16| assoc_map(s).dom().contains(k) && k != id implies assoc_map(
            ns,
        ).dom().contains(k) by {
            let j = choose|j: int| 0 <= j < n && keys[j] == k;
            assert(s[j].0 == k);
            assert(j != i);
            if j < i {
                assert(ns[j] == s[j]);
                assert(key_seq(ns)[j] == k);
            } else {
                assert(ns[j - 1] == s[j]);
                assert(key_seq(ns)[j - 1] == k);
            }
        }
    }
}


/// If the sorted scan stopped without hitting `id`, `id` is not a key.
proof fn lemma_seek_miss<V>(s: Seq<(u16, V)>, id: u16, i: int)
    requires
        strictly_sorted(key_seq(s)),
        0 <= i <= s.len(),
        forall|k: int| 0 <= k < i ==> s[k].0 < id,
        i < s.len() ==> s[i].0 >= id,
        !(i < s.len() && s[i].0 == id),
    ensures
        !key_seq(s).contains(id),
{
    if key_seq(s).contains(id) {
        let j = choose|j: int| 0 <= j < key_seq(s).len() && key_seq(s)[j] == id;
        assert(s[j].0 == id);
        if j < i {
            assert(s[j].0 < id);
        } else {
            assert(i < s.len());
            assert(s[i].0 != id);
            if j > i {
                assert(key_seq(s)[i] < key_seq(s)[j]);
            }
        }
        assert(false);
    }
}

/// A map from signer identifiers to values, ordered by identifier.
///
/// The entries are kept strictly sorted by key; the view is the
/// corresponding `Map<u16, V>`.
#[derive(Clone)]
pub struct IdMap<V> {
    entries: Vec<(u16, V)>,
}

impl<V> View for IdMap<V> {
    type V = Map<u16, V>;

    closed spec fn view(&self) -> Map<u16, V> {
        assoc_map(self.entries@)
    }
}

impl<V> IdMap<V> {
    /// The entries as an ordered association sequence.
    pub closed spec fn kv(&self) -> Seq<(u16, V)> {
        self.entries@
    }

    /// The keys in increasing order.
    pub open spec fn keys(&self) -> Seq<u16> {
        key_seq(self.kv())
    }

    /// The keys are strictly increasing.
    pub open spec fn wf(&self) -> bool {
        strictly_sorted(self.keys())
    }

    /// The map view is the association of the ordered entries.
    pub proof fn lemma_view(&self)
        requires
            self.wf(),
        ensures
            self@.dom() == self.keys().to_set(),
            self@.dom().finite(),
            self@.dom().len() == self.kv().len(),
            forall|i: int|
                0 <= i < self.kv().len() ==> self@.dom().contains(#[trigger] self.kv()[i].0)
                    && self@[self.kv()[i].0] == self.kv()[i].1,
    {
        lemma_assoc_map_dom(self.kv());
        lemma_strictly_sorted_no_duplicates(self.keys());
        lemma_strictly_sorted_set_len(self.keys());
        lemma_assoc_map_index(self.kv());
    }

    /// Creates an empty map.
    pub fn new() -> (m: Self)
        ensures
            m.wf(),
            m@ == Map::<u16, V>::empty(),
            m.kv() == Seq::<(u16, V)>::empty(),
    {
        IdMap { entries: Vec::new() }
    }

    /// The number of entries.
    pub fn len(&self) -> (n: usize)
        requires
            self.wf(),
        ensures
            n == self.kv().len(),
            n == self@.dom().len(),
    {
        proof {
            self.lemma_view();
        }
        self.entries.len()
    }

    /// The position of the first key not below `id`.
    fn seek(&self, id: u16) -> (i: usize)
        requires
            self.wf(),
        ensures
            0 <= i <= self.kv().len(),
            forall|k: int| 0 <= k < i ==> self.kv()[k].0 < id,
            i < self.kv().len() ==> self.kv()[i as int].0 >= id,
    {
        let n = self.entries.len();
        let mut i: usize = 0;
        while i < n && self.entries[i].0 < id
            invariant
                0 <= i <= n,
                n == self.kv().len(),
                forall|k: int| 0 <= k < i ==> self.kv()[k].0 < id,
            decreases n - i,
        {
            i += 1;
        }
        i
    }

    /// Whether the map holds a value for `id`.
    pub fn contains_key(&self, id: u16) -> (b: bool)
        requires
            self.wf(),
        ensures
            b == self@.dom().contains(id),
    {
        let i = self.seek(id);
        proof {
            self.lemma_view();
            if i < self.kv().len() && self.kv()[i as int].0 == id {
                assert(self@.dom().contains(id));
            } else {
                lemma_seek_miss(self.kv(), id, i as int);
            }
        }
        i < self.entries.len() && self.entries[i].0 == id
    }

    /// The value stored for `id`, if any.
    pub fn get(&self, id: u16) -> (r: Option<&V>)
        requires
            self.wf(),
        ensures
            match r {
                Some(v) => self@.dom().contains(id) && *v == self@[id],
                None => !self@.dom().contains(id),
            },
    {
        let i = self.seek(id);
        proof {
            self.lemma_view();
            if !(i < self.kv().len() && self.kv()[i as int].0 == id) {
                lemma_seek_miss(self.kv(), id, i as int);
            }
        }
        if i < self.entries.len() && self.entries[i].0 == id {
            Some(&self.entries[i].1)
        } else {
            None
        }
    }

    /// Stores `v` for `id`, replacing any earlier value.
    pub fn insert(&mut self, id: u16, v: V)
        requires
            old(self).wf(),
        ensures
            final(self).wf(),
            final(self)@ == old(self)@.insert(id, v),
            final(self).keys() == sorted_insert(old(self).keys(), id),
    {
        let i = self.seek(id);
        if i < self.entries.len() && self.entries[i].0 == id {
            self.entries.set(i, (id, v));
            proof {
                broadcast use vstd::seq_lib::group_seq_properties;

                assert(old(self).keys()[i as int] == id);
                lemma_assoc_update_at(old(self).kv(), id, v, i as int);
                lemma_sorted_insert(old(self).keys(), id);
            }
        } else {
            self.entries.insert(i, (id, v));
            proof {
                lemma_assoc_insert_at(old(self).kv(), id, v, i as int);
            }
        }
    }

    /// Removes and returns the value stored for `id`, if any.
    pub fn remove(&mut self, id: u16) -> (r: Option<V>)
        requires
            old(self).wf(),
        ensures
            final(self).wf(),
            final(self)@ == old(self)@.remove(id),
            match r {
                Some(v) => old(self)@.dom().contains(id) && v == old(self)@[id],
                None => !old(self)@.dom().contains(id) && final(self)@ == old(self)@,
            },
    {
        let i = self.seek(id);
        if i < self.entries.len() && self.entries[i].0 == id {
            let (_, v) = self.entries.remove(i);
            proof {
                lemma_assoc_remove_at(old(self).kv(), i as int);
                old(self).lemma_view();
            }
            Some(v)
        } else {
            proof {
                old(self).lemma_view();
                lemma_seek_miss(old(self).kv(), id, i as int);
                assert(final(self)@ =~= old(self)@.remove(id));
            }
            None
        }
    }

    /// The entries in increasing key order.
    pub fn entries(&self) -> (v: &Vec<(u16, V)>)
        ensures
            v@ == self.kv(),
    {
        &self.entries
    }

    /// Consumes the map, yielding its entries in increasing key order.
    pub fn into_entries(self) -> (v: Vec<(u16, V)>)
        ensures
            v@ == self.kv(),
    {
        self.entries
    }

    /// Builds a map from a list of entries; a later pair wins over an
    /// earlier one with the same key.
    pub fn from_entries(entries: Vec<(u16, V)>) -> (m: Self)
        ensures
            m.wf(),
            m@ == assoc_map(entries@),
    {
        let ghost all = entries@;
        let mut rest = entries;
        let mut m = IdMap::new();
        while rest.len() > 0
            invariant
                rest@.len() <= all.len(),
                all == all.take(all.len() - rest@.len()) + rest@,
                m.wf(),
                m@ == assoc_map(all.take(all.len() - rest@.len())),
            decreases rest@.len(),
        {
            let ghost k = all.len() - rest@.len();
            let (key, value) = rest.remove(0);
            proof {
                assert(all[k] == (key, value)) by {
                    assert(all == all.take(k) + (seq![(key, value)] + rest@));
                    assert(all[k] == (all.take(k) + (seq![(key, value)] + rest@))[k]);
                }
                assert(all.take(k + 1).drop_last() =~= all.take(k));
                assert(all.take(k + 1).last() == all[k]);
                assert(all.take(k + 1) =~= all.take(k) + seq![(key, value)]);
                assert(all == all.take(k + 1) + rest@) by {
                    assert(all =~= all.take(k + 1) + rest@);
                }
            }
            m.insert(key, value);
        }
        proof {
            assert(all.take(all.len() as int) =~= all);
        }
        m
    }
}

impl<V: Copy> IdMap<V> {
    /// The value stored for `id`, copied out.
    pub fn get_copy(&self, id: u16) -> (r: Option<V>)
        requires
            self.wf(),
        ensures
            match r {
                Some(v) => self@.dom().contains(id) && v == self@[id],
                None => !self@.dom().contains(id),
            },
    {
        match self.get(id) {
            Some(v) => Some(*v),
            None => None,
        }
    }
}

/// Inserting at the position where the scan stopped is `sorted_insert`.
proof fn lemma_sorted_insert_at(s: Seq<u16>, id: u16, i: int)
    requires
        strictly_sorted(s),
        0 <= i <= s.len(),
        forall|k: int| 0 <= k < i ==> s[k] < id,
        i < s.len() ==> s[i] > id,
    ensures
        sorted_insert(s, id) == s.subrange(0, i) + seq![id] + s.subrange(i, s.len() as int),
    decreases i,
{
    if s.len() == 0 {
        assert(sorted_insert(s, id) =~= s.subrange(0, i) + seq![id] + s.subrange(i, s.len() as int));
    } else if i == 0 {
        assert(id < s[0]);
        assert(sorted_insert(s, id) == seq![id] + s);
        assert(sorted_insert(s, id) =~= s.subrange(0, i) + seq![id] + s.subrange(i, s.len() as int));
    } else {
        let rest = s.drop_first();
        assert(s[0] < id);
        assert(sorted_insert(s, id) == seq![s[0]] + sorted_insert(rest, id));
        assert(forall|k: int| 0 <= k < rest.len() ==> rest[k] == s[k + 1]);
        lemma_sorted_insert_at(rest, id, i - 1);
        assert(sorted_insert(rest, id) == rest.subrange(0, i - 1) + seq![id] + rest.subrange(
            i - 1,
            rest.len() as int,
        ));
        assert(seq![s[0]] + rest.subrange(0, i - 1) =~= s.subrange(0, i));
        assert(rest.subrange(i - 1, rest.len() as int) =~= s.subrange(i, s.len() as int));
        assert(sorted_insert(s, id) =~= s.subrange(0, i) + seq![id] + s.subrange(i, s.len() as int));
    }
}

} // verus!
