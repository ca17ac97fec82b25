//! Insertion-ordered collections keyed by account and token names.

use vstd::prelude::*;

verus! {

/// The mathematical value of a name: an account, a token or a listing.
pub type Name = Seq<char>;

/// A key that can be compared by its mathematical value.
pub trait Key: View + Sized {
    /// Whether the two keys stand for the same value.
    fn same(&self, other: &Self) -> (b: bool)
        ensures
            b == (self@ == other@),
    ;

    /// A second key with the same value.
    fn duplicate(&self) -> (k: Self)
        ensures
            k@ == self@,
    ;
}

impl Key for String {
    fn same(&self, other: &Self) -> (b: bool) {
        *self == *other
    }

    fn duplicate(&self) -> (k: Self) {
        self.clone()
    }
}

/// The values of a vector of keys, in order.
pub open spec fn names_of<K: Key>(v: Seq<K>) -> Seq<K::V> {
    Seq::new(v.len(), |i: int| v[i]@)
}

/// Whether no two of the keys have the same value.
pub fn distinct<K: Key>(keys: &Vec<K>) -> (b: bool)
    ensures
        b == names_of(keys@).no_duplicates(),
{
    let ghost names = names_of(keys@);
    let mut i: usize = 0;
    while i < keys.len()
        invariant
            names == names_of(keys@),
            i <= keys.len(),
            forall|a: int, b: int| 0 <= a < b < i ==> names[a] != names[b],
        decreases keys.len() - i,
    {
        let mut j: usize = 0;
        while j < i
            invariant
                names == names_of(keys@),
                j <= i < keys.len(),
                forall|a: int| 0 <= a < j ==> names[a] != names[i as int],
            decreases i - j,
        {
            if keys[j].same(&keys[i]) {
                assert(names[j as int] == names[i as int]);
                return false;
            }
            j += 1;
        }
        i += 1;
    }
    assert forall|a: int, b: int|
        0 <= a < names.len() && 0 <= b < names.len() && a != b implies names[a] != names[b] by {
        if a < b {
        } else {
            assert(names[b] != names[a]);
        }
    }
    true
}

/// An insertion-ordered set of keys.
pub struct OrderedSet<K: Key> {
    items: Vec<K>,
}

/// An insertion-ordered set of names.
pub type NameSet = OrderedSet<String>;

impl<K: Key> OrderedSet<K> {
    /// The members in insertion order.
    pub closed spec fn view(&self) -> Seq<K::V> {
        names_of(self.items@)
    }

    /// No name occurs twice.
    pub open spec fn wf(&self) -> bool {
        self@.no_duplicates()
    }

    /// Whether the set is well formed.
    pub fn is_valid(&self) -> (b: bool)
        ensures
            b == self.wf(),
    {
        distinct(&self.items)
    }

    pub fn new() -> (s: Self)
        ensures
            s.wf(),
            s@ == Seq::<K::V>::empty(),
    {
        let s = OrderedSet { items: Vec::new() };
        assert(s@ =~= Seq::<K::V>::empty());
        s
    }

    pub fn len(&self) -> (n: usize)
        ensures
            n == self@.len(),
    {
        self.items.len()
    }

    pub fn is_empty(&self) -> (b: bool)
        ensures
            b == (self@.len() == 0),
    {
        self.items.len() == 0
    }

    /// The member at position `i`.
    pub fn get(&self, i: usize) -> (s: &K)
        requires
            i < self@.len(),
        ensures
            s@ == self@[i as int],
    {
        &self.items[i]
    }

    /// The position of `name`, if it is a member.
    pub fn position(&self, name: &K) -> (r: Option<usize>)
        ensures
            match r {
                Some(i) => i < self@.len() && self@[i as int] == name@,
                None => !self@.contains(name@),
            },
    {
        let mut i: usize = 0;
        while i < self.items.len()
            invariant
                i <= self.items.len(),
                forall|j: int| 0 <= j < i ==> self@[j] != name@,
            decreases self.items.len() - i,
        {
            if self.items[i].same(name) {
                return Some(i);
            }
            i += 1;
        }
        None
    }

    pub fn contains(&self, name: &K) -> (b: bool)
        ensures
            b == self@.contains(name@),
    {
        self.position(name).is_some()
    }

    /// Adds `name` at the end unless it is a member already.
    /// Returns whether it was added.
    pub fn insert(&mut self, name: K) -> (added: bool)
        requires
            old(self).wf(),
        ensures
            final(self).wf(),
            added == !old(self)@.contains(name@),
            final(self)@ == set_with(old(self)@, name@),
    {
        if self.position(&name).is_some() {
            false
        } else {
            let ghost before = self@;
            self.items.push(name);
            assert(self@ =~= before.push(name@));
            true
        }
    }

    /// Removes `name`, keeping the order of the others.
    /// Returns whether it was a member.
    pub fn remove(&mut self, name: &K) -> (removed: bool)
        requires
            old(self).wf(),
        ensures
            final(self).wf(),
            removed == old(self)@.contains(name@),
            final(self)@ == set_without(old(self)@, name@),
    {
        match self.position(name) {
            Some(i) => {
                let ghost before = self@;
                self.items.remove(i);
                assert(self@ =~= before.remove(i as int));
                proof {
                    before.index_of_first_ensures(name@);
                    lemma_remove_keeps_distinct(before, i as int);
                    assert(before.index_of(name@) == i);
                }
                true
            },
            None => false,
        }
    }
}

/// `s` with `name` added at the end, unless it is there already.
pub open spec fn set_with<A>(s: Seq<A>, name: A) -> Seq<A> {
    if s.contains(name) {
        s
    } else {
        s.push(name)
    }
}

/// `s` without `name`, the others in their order.
pub open spec fn set_without<A>(s: Seq<A>, name: A) -> Seq<A> {
    if s.contains(name) {
        s.remove(s.index_of(name))
    } else {
        s
    }
}

/// Removing one position of a sequence without duplicates leaves none.
pub proof fn lemma_remove_keeps_distinct<A>(s: Seq<A>, i: int)
    requires
        s.no_duplicates(),
        0 <= i < s.len(),
    ensures
        s.remove(i).no_duplicates(),
        forall|a: A| s.remove(i).contains(a) <==> (s.contains(a) && a != s[i]),
{
    let r = s.remove(i);
    assert forall|a: A| r.contains(a) <==> (s.contains(a) && a != s[i]) by {
        if r.contains(a) {
            let j = choose|j: int| 0 <= j < r.len() && r[j] == a;
            if j < i {
                assert(s[j] == a);
            } else {
                assert(s[j + 1] == a);
            }
        }
        if s.contains(a) && a != s[i] {
            let j = choose|j: int| 0 <= j < s.len() && s[j] == a;
            if j < i {
                assert(r[j] == a);
            } else {
                assert(r[j - 1] == a);
            }
        }
    }
}


/// The keys of a sequence of entries, in order.
pub open spec fn key_seq<A, V>(e: Seq<(A, V)>) -> Seq<A> {
    e.map_values(|p: (A, V)| p.0)
}

/// The map that a sequence of entries with distinct keys stands for.
pub open spec fn entries_map<A, V>(e: Seq<(A, V)>) -> Map<A, V> {
    Map::new(|k: A| key_seq(e).contains(k), |k: A| e[key_seq(e).index_of(k)].1)
}

/// `e` with `k` bound to `v`: in place where `k` has an entry, else at the end.
pub open spec fn entries_with<A, V>(e: Seq<(A, V)>, k: A, v: V) -> Seq<(A, V)> {
    if key_seq(e).contains(k) {
        e.update(key_seq(e).index_of(k), (k, v))
    } else {
        e.push((k, v))
    }
}

/// `e` without the entry of `k`, the others in their order.
pub open spec fn entries_without<A, V>(e: Seq<(A, V)>, k: A) -> Seq<(A, V)> {
    if key_seq(e).contains(k) {
        e.remove(key_seq(e).index_of(k))
    } else {
        e
    }
}

/// In entries with distinct keys, the key at position `i` is found at `i`.
pub proof fn lemma_entry_lookup<A, V>(e: Seq<(A, V)>, i: int)
    requires
        key_seq(e).no_duplicates(),
        0 <= i < e.len(),
    ensures
        key_seq(e).contains(e[i].0),
        key_seq(e).index_of(e[i].0) == i,
        entries_map(e).contains_key(e[i].0),
        entries_map(e)[e[i].0] == e[i].1,
{
    let ks = key_seq(e);
    assert(ks[i] == e[i].0);
    let j = ks.index_of(e[i].0);
    assert(0 <= j < ks.len() && ks[j] == e[i].0);
}

/// Binding a key in the entries binds it in the map.
pub proof fn lemma_entries_with<A, V>(e: Seq<(A, V)>, k: A, v: V)
    requires
        key_seq(e).no_duplicates(),
    ensures
        key_seq(entries_with(e, k, v)) == set_with(key_seq(e), k),
        key_seq(entries_with(e, k, v)).no_duplicates(),
        entries_map(entries_with(e, k, v)) == entries_map(e).insert(k, v),
{
    let ks = key_seq(e);
    let e2 = entries_with(e, k, v);
    let ks2 = key_seq(e2);
    if ks.contains(k) {
        let i = ks.index_of(k);
        assert(ks2 =~= ks);
    } else {
        assert(ks2 =~= ks.push(k));
    }
    assert(ks2.no_duplicates());
    assert forall|q: A| #[trigger] entries_map(e2).contains_key(q) <==> entries_map(e).insert(
        k,
        v,
    ).contains_key(q) by {
        if ks.contains(q) {
            let j = ks.index_of(q);
            assert(ks2[j] == q);
        }
        if !ks.contains(k) {
            assert(ks2[ks.len() as int] == k);
        }
    }
    assert forall|q: A| #[trigger] entries_map(e2).contains_key(q) implies entries_map(e2)[q]
        == entries_map(e).insert(k, v)[q] by {
        let j = ks2.index_of(q);
        assert(0 <= j < ks2.len() && ks2[j] == q);
        lemma_entry_lookup(e2, j);
        if q == k {
            if ks.contains(k) {
                let i = ks.index_of(k);
                assert(ks2[i] == k);
            } else {
                assert(ks2[ks.len() as int] == k);
            }
        } else {
            assert(ks[j] == q);
            lemma_entry_lookup(e, j);
        }
    }
    assert(entries_map(e2) =~= entries_map(e).insert(k, v));
}

/// Dropping a key from the entries drops it from the map.
pub proof fn lemma_entries_without<A, V>(e: Seq<(A, V)>, k: A)
    requires
        key_seq(e).no_duplicates(),
    ensures
        key_seq(entries_without(e, k)) == set_without(key_seq(e), k),
        key_seq(entries_without(e, k)).no_duplicates(),
        entries_map(entries_without(e, k)) == entries_map(e).remove(k),
{
    let ks = key_seq(e);
    let e2 = entries_without(e, k);
    let ks2 = key_seq(e2);
    if ks.contains(k) {
        let i = ks.index_of(k);
        assert(ks2 =~= ks.remove(i));
        lemma_remove_keeps_distinct(ks, i);
        assert forall|q: A| #[trigger] entries_map(e2).contains_key(q) implies entries_map(
            e2,
        )[q] == entries_map(e).remove(k)[q] by {
            let j = ks2.index_of(q);
            assert(0 <= j < ks2.len() && ks2[j] == q);
            lemma_entry_lookup(e2, j);
            if j < i {
                assert(e2[j] == e[j]);
                lemma_entry_lookup(e, j);
            } else {
                assert(e2[j] == e[j + 1]);
                lemma_entry_lookup(e, j + 1);
            }
        }
        assert(entries_map(e2) =~= entries_map(e).remove(k));
    } else {
        assert(entries_map(e2) =~= entries_map(e).remove(k));
    }
}

/// Each key of the map of entries is the key of one of the entries.
pub proof fn lemma_key_has_entry<A, V>(e: Seq<(A, V)>, k: A)
    requires
        key_seq(e).no_duplicates(),
        entries_map(e).contains_key(k),
    ensures
        0 <= key_seq(e).index_of(k) < e.len(),
        e[key_seq(e).index_of(k)].0 == k,
        e[key_seq(e).index_of(k)].1 == entries_map(e)[k],
{
    let j = key_seq(e).index_of(k);
    assert(0 <= j < key_seq(e).len() && key_seq(e)[j] == k);
}

/// The map of entries with distinct keys has as many keys as there are
/// entries.
pub proof fn lemma_entries_count<A, V>(e: Seq<(A, V)>)
    requires
        key_seq(e).no_duplicates(),
    ensures
        entries_map(e).dom().finite(),
        entries_map(e).dom().len() == e.len(),
{
    let ks = key_seq(e);
    vstd::seq_lib::seq_to_set_is_finite(ks);
    ks.unique_seq_to_set();
    assert(entries_map(e).dom() =~= ks.to_set());
}

/// A table from keys to values, in insertion order.
pub struct Table<K: Key, V> {
    keys: Vec<K>,
    vals: Vec<V>,
}

impl<K: Key, V> Table<K, V> {
    /// The entries in insertion order.
    pub closed spec fn entries(&self) -> Seq<(K::V, V)> {
        Seq::new(self.keys@.len(), |i: int| (self.keys@[i]@, self.vals@[i]))
    }

    /// Keys and values are stored in step.
    pub closed spec fn aligned(&self) -> bool {
        self.keys@.len() == self.vals@.len()
    }

    /// No key occurs twice.
    pub open spec fn wf(&self) -> bool {
        self.aligned() && key_seq(self.entries()).no_duplicates()
    }

    /// The table as a map.
    pub open spec fn view(&self) -> Map<K::V, V> {
        entries_map(self.entries())
    }

    /// Whether the table is well formed.
    pub fn is_valid(&self) -> (b: bool)
        ensures
            b == self.wf(),
    {
        if self.keys.len() != self.vals.len() {
            return false;
        }
        assert(key_seq(self.entries()) =~= names_of(self.keys@));
        distinct(&self.keys)
    }

    pub fn new() -> (t: Self)
        ensures
            t.wf(),
            t.entries() == Seq::<(K::V, V)>::empty(),
            t@ == Map::<K::V, V>::empty(),
    {
        let t = Table { keys: Vec::new(), vals: Vec::new() };
        assert(t.entries() =~= Seq::<(K::V, V)>::empty());
        assert(t@ =~= Map::<K::V, V>::empty());
        t
    }

    pub fn len(&self) -> (n: usize)
        requires
            self.wf(),
        ensures
            n == self.entries().len(),
    {
        self.keys.len()
    }

    /// The position of the entry of `key`.
    pub fn position(&self, key: &K) -> (r: Option<usize>)
        requires
            self.wf(),
        ensures
            match r {
                Some(i) => i < self.entries().len() && self.entries()[i as int].0 == key@
                    && key_seq(self.entries()).index_of(key@) == i && self@.contains_key(key@),
                None => !key_seq(self.entries()).contains(key@) && !self@.contains_key(key@),
            },
    {
        let mut i: usize = 0;
        while i < self.keys.len()
            invariant
                self.wf(),
                i <= self.keys.len(),
                forall|j: int| 0 <= j < i ==> key_seq(self.entries())[j] != key@,
            decreases self.keys.len() - i,
        {
            if self.keys[i].same(key) {
                proof {
                    lemma_entry_lookup(self.entries(), i as int);
                }
                return Some(i);
            }
            i += 1;
        }
        None
    }

    pub fn contains_key(&self, key: &K) -> (b: bool)
        requires
            self.wf(),
        ensures
            b == self@.contains_key(key@),
    {
        self.position(key).is_some()
    }

    /// The value bound to `key`.
    pub fn get(&self, key: &K) -> (r: Option<&V>)
        requires
            self.wf(),
        ensures
            match r {
                Some(v) => self@.contains_key(key@) && *v == self@[key@],
                None => !self@.contains_key(key@),
            },
    {
        match self.position(key) {
            Some(i) => {
                proof {
                    lemma_entry_lookup(self.entries(), i as int);
                }
                Some(&self.vals[i])
            },
            None => None,
        }
    }

    /// The key at position `i`.
    pub fn key_at(&self, i: usize) -> (k: &K)
        requires
            self.wf(),
            i < self.entries().len(),
        ensures
            k@ == self.entries()[i as int].0,
    {
        &self.keys[i]
    }

    /// The value at position `i`.
    pub fn value_at(&self, i: usize) -> (v: &V)
        requires
            self.wf(),
            i < self.entries().len(),
        ensures
            *v == self.entries()[i as int].1,
    {
        &self.vals[i]
    }

    /// Binds `key` to `value`; returns the value it was bound to before.
    pub fn insert(&mut self, key: K, value: V) -> (prev: Option<V>)
        requires
            old(self).wf(),
        ensures
            final(self).wf(),
            final(self).entries() == entries_with(old(self).entries(), key@, value),
            final(self)@ == old(self)@.insert(key@, value),
            prev == old(self)@.get(key@),
    {
        proof {
            lemma_entries_with(self.entries(), key@, value);
        }
        let ghost before = self.entries();
        match self.position(&key) {
            Some(i) => {
                proof {
                    lemma_entry_lookup(before, i as int);
                }
                self.vals.push(value);
                let prev = self.vals.swap_remove(i);
                assert(self.entries() =~= before.update(i as int, (key@, value)));
                Some(prev)
            },
            None => {
                self.keys.push(key);
                self.vals.push(value);
                assert(self.entries() =~= before.push((key@, value)));
                None
            },
        }
    }

    /// Removes the entry of `key`; returns the value it was bound to.
    pub fn remove(&mut self, key: &K) -> (prev: Option<V>)
        requires
            old(self).wf(),
        ensures
            final(self).wf(),
            final(self).entries() == entries_without(old(self).entries(), key@),
            final(self)@ == old(self)@.remove(key@),
            prev == old(self)@.get(key@),
    {
        proof {
            lemma_entries_without(self.entries(), key@);
        }
        let ghost before = self.entries();
        match self.position(key) {
            Some(i) => {
                proof {
                    lemma_entry_lookup(before, i as int);
                }
                self.keys.remove(i);
                let prev = self.vals.remove(i);
                assert(self.entries() =~= before.remove(i as int));
                Some(prev)
            },
            None => None,
        }
    }
}


impl<K: Key, V: Copy> Table<K, V> {
    /// A second table with the same entries.
    pub fn duplicate(&self) -> (t: Self)
        requires
            self.wf(),
        ensures
            t.wf(),
            t.entries() == self.entries(),
            t@ == self@,
    {
        let mut keys: Vec<K> = Vec::new();
        let mut vals: Vec<V> = Vec::new();
        let mut i: usize = 0;
        while i < self.keys.len()
            invariant
                self.wf(),
                i <= self.keys.len(),
                keys@.len() == i,
                vals@.len() == i,
                forall|j: int| 0 <= j < i ==> (#[trigger] keys@[j])@ == self.keys@[j]@,
                forall|j: int| 0 <= j < i ==> #[trigger] vals@[j] == self.vals@[j],
            decreases self.keys.len() - i,
        {
            keys.push(self.keys[i].duplicate());
            vals.push(self.vals[i]);
            i += 1;
        }
        let t = Table { keys, vals };
        assert(t.entries() =~= self.entries());
        t
    }
}

impl<K: Key> OrderedSet<K> {
    /// A second set with the same members in the same order.
    pub fn duplicate(&self) -> (t: Self)
        ensures
            t@ == self@,
    {
        let mut items: Vec<K> = Vec::new();
        let mut i: usize = 0;
        while i < self.items.len()
            invariant
                i <= self.items.len(),
                items@.len() == i,
                forall|j: int| 0 <= j < i ==> (#[trigger] items@[j])@ == self.items@[j]@,
            decreases self.items.len() - i,
        {
            items.push(self.items[i].duplicate());
            i += 1;
        }
        let t = OrderedSet { items };
        assert(t@ =~= self@);
        t
    }
}

/// The value of a name that may be absent.
pub open spec fn optional_name(o: Option<String>) -> Option<Name> {
    match o {
        Some(s) => Some(s@),
        None => None,
    }
}

/// A second optional name with the same value.
pub fn duplicate_optional(o: &Option<String>) -> (r: Option<String>)
    ensures
        optional_name(r) == optional_name(*o),
{
    match o {
        Some(s) => Some(s.duplicate()),
        None => None,
    }
}

/// `m` with `item` added to the members of `owner`.
pub open spec fn index_with<A>(m: Map<Name, Seq<A>>, owner: Name, item: A) -> Map<Name, Seq<A>> {
    m.insert(
        owner,
        set_with(
            if m.contains_key(owner) {
                m[owner]
            } else {
                Seq::empty()
            },
            item,
        ),
    )
}

/// `m` with `item` taken from the members of `owner`; an owner left with no
/// member leaves the index.
pub open spec fn index_without<A>(m: Map<Name, Seq<A>>, owner: Name, item: A) -> Map<
    Name,
    Seq<A>,
> {
    if !m.contains_key(owner) {
        m
    } else if set_without(m[owner], item).len() == 0 {
        m.remove(owner)
    } else {
        m.insert(owner, set_without(m[owner], item))
    }
}

/// How many members `owner` has.
pub open spec fn index_count<A>(m: Map<Name, Seq<A>>, owner: Name) -> nat {
    if m.contains_key(owner) {
        m[owner].len()
    } else {
        0
    }
}

/// Whether `item` is a member of `owner`.
pub open spec fn index_has<A>(m: Map<Name, Seq<A>>, owner: Name, item: A) -> bool {
    m.contains_key(owner) && m[owner].contains(item)
}

/// No owner has a member twice, and none is left without members.
pub open spec fn index_wf<A>(m: Map<Name, Seq<A>>) -> bool {
    forall|k: Name| #[trigger] m.contains_key(k) ==> m[k].no_duplicates() && m[k].len() > 0
}

/// Adding one member keeps an index well formed; only that membership changes.
pub proof fn lemma_index_with<A>(m: Map<Name, Seq<A>>, owner: Name, item: A)
    requires
        index_wf(m),
    ensures
        index_wf(index_with(m, owner, item)),
        forall|o: Name, t: A|
            index_has(index_with(m, owner, item), o, t) <==> (index_has(m, o, t) || (o == owner
                && t == item)),
        index_count(index_with(m, owner, item), owner) == index_count(m, owner) + (if index_has(
            m,
            owner,
            item,
        ) {
            0nat
        } else {
            1nat
        }),
{
    let m2 = index_with(m, owner, item);
    let before = if m.contains_key(owner) {
        m[owner]
    } else {
        Seq::empty()
    };
    let after = set_with(before, item);
    assert(m2[owner] == after);
    if !before.contains(item) {
        assert(after[before.len() as int] == item);
    }
    assert forall|o: Name, t: A|
        index_has(m2, o, t) <==> (index_has(m, o, t) || (o == owner && t == item)) by {
        if o == owner {
            if after.contains(t) && t != item {
                let j = choose|j: int| 0 <= j < after.len() && after[j] == t;
                assert(before[j] == t);
            }
            if before.contains(t) {
                let j = choose|j: int| 0 <= j < before.len() && before[j] == t;
                assert(after[j] == t);
            }
            if before.contains(item) {
                assert(after == before);
            }
        }
    }
    assert forall|k: Name| #[trigger] m2.contains_key(k) implies m2[k].no_duplicates() && m2[k].len()
        > 0 by {
        if k == owner {
        } else {
            assert(m.contains_key(k));
        }
    }
}

/// Taking one member keeps an index well formed; only that membership changes.
pub proof fn lemma_index_without<A>(m: Map<Name, Seq<A>>, owner: Name, item: A)
    requires
        index_wf(m),
    ensures
        index_wf(index_without(m, owner, item)),
        forall|o: Name, t: A|
            index_has(index_without(m, owner, item), o, t) <==> (index_has(m, o, t) && !(o == owner
                && t == item)),
        index_count(index_without(m, owner, item), owner) == index_count(m, owner) - (if index_has(
            m,
            owner,
            item,
        ) {
            1nat
        } else {
            0nat
        }),
{
    let m2 = index_without(m, owner, item);
    if m.contains_key(owner) {
        let before = m[owner];
        let after = set_without(before, item);
        if before.contains(item) {
            lemma_remove_keeps_distinct(before, before.index_of(item));
        }
        assert forall|o: Name, t: A|
            index_has(m2, o, t) <==> (index_has(m, o, t) && !(o == owner && t == item)) by {
            if o == owner {
                if after.len() == 0 {
                    if before.contains(t) && t != item {
                        assert(after.contains(t));
                        let j = choose|j: int| 0 <= j < after.len() && after[j] == t;
                    }
                }
            }
        }
        assert forall|k: Name| #[trigger] m2.contains_key(k) implies m2[k].no_duplicates()
            && m2[k].len() > 0 by {
            if k == owner {
            } else {
                assert(m.contains_key(k));
            }
        }
    }
}

/// For each owner the insertion-ordered set of its members.
pub struct Index<T: Key> {
    sets: Table<String, OrderedSet<T>>,
}

impl<T: Key> Index<T> {
    /// The members of each owner, in insertion order.
    pub closed spec fn view(&self) -> Map<Name, Seq<T::V>> {
        self.sets@.map_values(|s: OrderedSet<T>| s@)
    }

    /// The table below is well formed.
    pub closed spec fn aligned(&self) -> bool {
        self.sets.wf()
    }

    pub open spec fn wf(&self) -> bool {
        self.aligned() && index_wf(self@)
    }

    /// Whether the index is well formed.
    pub fn is_valid(&self) -> (b: bool)
        ensures
            b == self.wf(),
    {
        if !self.sets.is_valid() {
            return false;
        }
        let ghost entries = self.sets.entries();
        let n: usize = self.sets.len();
        let mut i: usize = 0;
        while i < n
            invariant
                self.sets.wf(),
                entries == self.sets.entries(),
                n == entries.len(),
                i <= n,
                forall|j: int| 0 <= j < i ==> (#[trigger] entries[j]).1.wf() && entries[j].1@.len() > 0,
            decreases n - i,
        {
            let members = self.sets.value_at(i);
            if !members.is_valid() || members.is_empty() {
                proof {
                    lemma_entry_lookup(entries, i as int);
                    assert(self@.contains_key(entries[i as int].0));
                    assert(self@[entries[i as int].0] == entries[i as int].1@);
                }
                return false;
            }
            i += 1;
        }
        proof {
            assert forall|k: Name| #[trigger] self@.contains_key(k) implies self@[k].no_duplicates()
                && self@[k].len() > 0 by {
                assert(self.sets@.contains_key(k));
                let j = key_seq(entries).index_of(k);
                assert(0 <= j < key_seq(entries).len() && key_seq(entries)[j] == k);
                lemma_entry_lookup(entries, j);
                assert(entries[j].1.wf());
            }
        }
        true
    }

    pub fn new() -> (x: Self)
        ensures
            x.wf(),
            x@ == Map::<Name, Seq<T::V>>::empty(),
    {
        let x = Index { sets: Table::new() };
        assert(x@ =~= Map::<Name, Seq<T::V>>::empty());
        x
    }

    /// The owners in the order in which the index holds them.
    pub closed spec fn owners(&self) -> Seq<Name> {
        key_seq(self.sets.entries())
    }

    /// How many owners the index holds: the accounts that it has members
    /// for, each one once.
    pub fn len(&self) -> (n: usize)
        requires
            self.wf(),
        ensures
            n == self.owners().len(),
            self.owners().no_duplicates(),
            forall|o: Name| self.owners().contains(o) <==> self@.contains_key(o),
    {
        proof {
            assert forall|o: Name| self.owners().contains(o) <==> self@.contains_key(o) by {
                assert(self.sets@.contains_key(o) <==> self@.contains_key(o));
            }
        }
        self.sets.len()
    }

    /// The owner at position `i`.
    pub fn owner_at(&self, i: usize) -> (owner: &String)
        requires
            self.wf(),
            i < self.owners().len(),
        ensures
            owner@ == self.owners()[i as int],
            self@.contains_key(owner@),
    {
        proof {
            lemma_entry_lookup(self.sets.entries(), i as int);
            assert(self.sets@.contains_key(self.owners()[i as int]));
        }
        self.sets.key_at(i)
    }

    /// The members of the owner at position `i`.
    pub fn members_at(&self, i: usize) -> (members: &OrderedSet<T>)
        requires
            self.wf(),
            i < self.owners().len(),
        ensures
            self@.contains_key(self.owners()[i as int]),
            members@ == self@[self.owners()[i as int]],
            members.wf(),
    {
        proof {
            lemma_entry_lookup(self.sets.entries(), i as int);
            assert(self.sets@.contains_key(self.owners()[i as int]));
            assert(self@.contains_key(self.owners()[i as int]));
        }
        self.sets.value_at(i)
    }

    /// The members of `owner`, if it has any.
    pub fn get(&self, owner: &String) -> (r: Option<&OrderedSet<T>>)
        requires
            self.wf(),
        ensures
            match r {
                Some(s) => self@.contains_key(owner@) && s@ == self@[owner@] && s.wf(),
                None => !self@.contains_key(owner@),
            },
    {
        let r = self.sets.get(owner);
        proof {
            if self.sets@.contains_key(owner@) {
                assert(self@.contains_key(owner@));
            }
        }
        r
    }

    /// How many members `owner` has.
    pub fn count(&self, owner: &String) -> (n: usize)
        requires
            self.wf(),
        ensures
            n == index_count(self@, owner@),
    {
        match self.get(owner) {
            Some(s) => s.len(),
            None => 0,
        }
    }

    /// Adds `item` to the members of `owner`.
    pub fn add(&mut self, owner: &String, item: T)
        requires
            old(self).wf(),
        ensures
            final(self).wf(),
            final(self)@ == index_with(old(self)@, owner@, item@),
    {
        proof {
            lemma_index_with(self@, owner@, item@);
        }
        let ghost before = self@;
        let ghost table = self.sets@;
        let mut set = match self.sets.remove(owner) {
            Some(s) => s,
            None => OrderedSet::new(),
        };
        proof {
            if table.contains_key(owner@) {
                assert(before.contains_key(owner@));
                assert(set@ == before[owner@]);
            }
        }
        set.insert(item);
        self.sets.insert(owner.duplicate(), set);
        assert(self@ =~= index_with(before, owner@, item@));
    }

    /// Takes `item` from the members of `owner`.
    pub fn remove(&mut self, owner: &String, item: &T)
        requires
            old(self).wf(),
        ensures
            final(self).wf(),
            final(self)@ == index_without(old(self)@, owner@, item@),
    {
        proof {
            lemma_index_without(self@, owner@, item@);
        }
        let ghost before = self@;
        match self.sets.remove(owner) {
            Some(s) => {
                let mut set = s;
                assert(before.contains_key(owner@));
                assert(set@ == before[owner@]);
                set.remove(item);
                if !set.is_empty() {
                    self.sets.insert(owner.duplicate(), set);
                }
                assert(self@ =~= index_without(before, owner@, item@));
            },
            None => {
                assert(self@ =~= before);
            },
        }
    }
}

} // verus!
