//! Small sets and maps that keep what they hold in a list.

use vstd::prelude::*;

verus! {

/// Values that can be told apart.
pub trait Same: Sized {
    /// Whether two values are the same.
    fn same(&self, other: &Self) -> (r: bool)
        ensures
            r == (*self == *other),
    ;
}

/// A set.
#[derive(Debug)]
pub struct Members<T> {
    items: Vec<T>,
}

impl<T> View for Members<T> {
    type V = Set<T>;

    closed spec fn view(&self) -> Set<T> {
        self.items@.to_set()
    }
}

impl<T: Same + Copy> Members<T> {
    /// Nothing is stored twice.
    pub closed spec fn wf(&self) -> bool {
        self.items@.no_duplicates()
    }

    /// Such a set is finite.
    pub proof fn lemma_finite(&self)
        requires
            self.wf(),
        ensures
            self@.finite(),
    {
        vstd::seq_lib::seq_to_set_is_finite(self.items@);
    }

    /// Creates an empty set.
    pub fn new() -> (r: Self)
        ensures
            r.wf(),
            r@ == Set::<T>::empty(),
    {
        let r = Members { items: Vec::new() };
        assert(r@ =~= Set::<T>::empty());
        r
    }

    fn position(&self, item: T) -> (r: Option<usize>)
        ensures
            match r {
                Some(i) => i < self.items@.len() && self.items@[i as int] == item,
                None => !self@.contains(item),
            },
    {
        for i in 0..self.items.len()
            invariant
                forall|j: int| 0 <= j < i ==> self.items@[j] != item,
        {
            if self.items[i].same(&item) {
                return Some(i);
            }
        }
        None
    }

    /// Whether a value is in the set.
    pub fn contains(&self, item: T) -> (r: bool)
        requires
            self.wf(),
        ensures
            r == self@.contains(item),
    {
        self.position(item).is_some()
    }

    /// Adds a value. Returns true if it was not there.
    pub fn insert(&mut self, item: T) -> (r: bool)
        requires
            old(self).wf(),
        ensures
            final(self).wf(),
            final(self)@ == old(self)@.insert(item),
            r == !old(self)@.contains(item),
    {
        if self.position(item).is_some() {
            assert(self@ =~= self@.insert(item));
            return false;
        }
        let ghost before = self.items@;
        self.items.push(item);
        proof {
            assert forall|x: T| self@.contains(x) == old(self)@.insert(item).contains(x) by {
                lemma_push_contains(before, item, x);
            }
            assert(self@ =~= old(self)@.insert(item));
        }
        true
    }

    /// Removes a value. Returns true if it was there.
    pub fn remove(&mut self, item: T) -> (r: bool)
        requires
            old(self).wf(),
        ensures
            final(self).wf(),
            final(self)@ == old(self)@.remove(item),
            r == old(self)@.contains(item),
    {
        match self.position(item) {
            Some(i) => {
                let ghost before = self.items@;
                self.items.swap_remove(i);
                proof {
                    let after = self.items@;
                    let last = before.len() - 1;
                    assert forall|x: T|
                        after.contains(x) == (before.contains(x) && x != item) by {
                        if after.contains(x) {
                            let j = after.index_of(x);
                            if j == i {
                                assert(before[last] == x);
                            } else {
                                assert(before[j] == x);
                            }
                        }
                        if before.contains(x) && x != item {
                            let j = before.index_of(x);
                            if j == last {
                                assert(after[i as int] == x);
                            } else {
                                assert(after[j] == x);
                            }
                        }
                    }
                    assert(self@ =~= old(self)@.remove(item));
                    assert(before.contains(item));
                }
                true
            },
            None => {
                assert(self@ =~= self@.remove(item));
                false
            },
        }
    }

    /// The members in a list.
    pub fn list(&self) -> (r: Vec<T>)
        requires
            self.wf(),
        ensures
            r@.no_duplicates(),
            r@.to_set() == self@,
    {
        let mut r: Vec<T> = Vec::new();
        for i in 0..self.items.len()
            invariant
                r@ == self.items@.take(i as int),
        {
            r.push(self.items[i]);
            assert(r@ =~= self.items@.take(i + 1));
        }
        assert(r@ =~= self.items@);
        r
    }

    /// How many members there are.
    pub fn len(&self) -> (r: usize)
        requires
            self.wf(),
        ensures
            r == self@.len(),
    {
        proof {
            self.items@.unique_seq_to_set();
        }
        self.items.len()
    }

    /// Whether there is no member.
    pub fn is_empty(&self) -> (r: bool)
        requires
            self.wf(),
        ensures
            r == (self@ == Set::<T>::empty()),
    {
        proof {
            if self.items@.len() > 0 {
                assert(self@.contains(self.items@[0]));
            } else {
                assert(self@ =~= Set::<T>::empty());
            }
        }
        self.items.len() == 0
    }
}

/// A map.
#[derive(Debug)]
pub struct Table<K, V> {
    entries: Vec<(K, V)>,
}

impl<K, V> View for Table<K, V> {
    type V = Map<K, V>;

    closed spec fn view(&self) -> Map<K, V> {
        Map::new(
            |key: K| self.has(key),
            |key: K| self.entries@[self.place(key)].1,
        )
    }
}

impl<K, V> Table<K, V> {
    spec fn has(&self, key: K) -> bool {
        exists|i: int| 0 <= i < self.entries@.len() && (#[trigger] self.entries@[i]).0 == key
    }

    spec fn place(&self, key: K) -> int {
        choose|i: int| 0 <= i < self.entries@.len() && (#[trigger] self.entries@[i]).0 == key
    }
}

impl<K: Same + Copy, V: Copy> Table<K, V> {
    /// Every key stands once.
    pub closed spec fn wf(&self) -> bool {
        forall|i: int, j: int|
            0 <= i < j < self.entries@.len() ==> (#[trigger] self.entries@[i]).0 != (
            #[trigger] self.entries@[j]).0
    }

    proof fn lemma_at(&self, i: int)
        requires
            self.wf(),
            0 <= i < self.entries@.len(),
        ensures
            self@.contains_key(self.entries@[i].0),
            self@[self.entries@[i].0] == self.entries@[i].1,
    {
        let key = self.entries@[i].0;
        assert(self.has(key));
        let j = self.place(key);
        assert(0 <= j < self.entries@.len() && self.entries@[j].0 == key);
        assert(i == j);
    }

    /// Creates an empty map.
    pub fn new() -> (r: Self)
        ensures
            r.wf(),
            r@ == Map::<K, V>::empty(),
    {
        let r = Table { entries: Vec::new() };
        assert(r@ =~= Map::<K, V>::empty());
        r
    }

    fn position(&self, key: K) -> (r: Option<usize>)
        ensures
            match r {
                Some(i) => i < self.entries@.len() && self.entries@[i as int].0 == key,
                None => !self@.contains_key(key),
            },
    {
        for i in 0..self.entries.len()
            invariant
                forall|j: int| 0 <= j < i ==> (#[trigger] self.entries@[j]).0 != key,
        {
            if self.entries[i].0.same(&key) {
                return Some(i);
            }
        }
        None
    }

    /// Sets the value of a key.
    pub fn insert(&mut self, key: K, value: V)
        requires
            old(self).wf(),
        ensures
            final(self).wf(),
            final(self)@ == old(self)@.insert(key, value),
    {
        self.remove(key);
        let ghost mid = *self;
        self.entries.push((key, value));
        proof {
            let n = mid.entries@.len() as int;
            assert(forall|j: int| 0 <= j < n ==> self.entries@[j] == mid.entries@[j]);
            assert forall|j: int| 0 <= j < n implies (#[trigger] mid.entries@[j]).0 != key by {
                mid.lemma_at(j);
            }
            assert(self.wf());
            self.lemma_at(n);
            assert(self.entries@[n] == (key, value));
            assert forall|k: K|
                k != key implies #[trigger] self@.contains_key(k) == mid@.contains_key(k) && (
            self@.contains_key(k) ==> self@[k] == mid@[k]) by {
                if mid.has(k) {
                    let j = mid.place(k);
                    assert(self.entries@[j].0 == k);
                    self.lemma_at(j);
                    mid.lemma_at(j);
                }
                if self.has(k) {
                    let j = self.place(k);
                    assert(mid.entries@[j].0 == k);
                }
            }
            assert(self@ =~= old(self)@.insert(key, value));
        }
    }

    /// Removes a key.
    pub fn remove(&mut self, key: K)
        requires
            old(self).wf(),
        ensures
            final(self).wf(),
            final(self)@ == old(self)@.remove(key),
    {
        match self.position(key) {
            Some(i) => {
                self.entries.remove(i);
                proof {
                    let before = old(self);
                    let i = i as int;
                    assert(self.entries@ =~= before.entries@.remove(i));
                    assert forall|j: int| 0 <= j < self.entries@.len() implies
                        #[trigger] self.entries@[j] == before.entries@[if j < i {
                        j
                    } else {
                        j + 1
                    }] by {}
                    assert forall|k: K|
                        self@.contains_key(k) == before@.remove(key).contains_key(k) by {
                        if self.has(k) {
                            let j = self.place(k);
                            let p = if j < i { j } else { j + 1 };
                            assert(before.entries@[p].0 == k);
                            assert(k != key);
                        }
                        if before.has(k) && k != key {
                            let j = before.place(k);
                            let p = if j < i { j } else { j - 1 };
                            assert(self.entries@[p].0 == k);
                        }
                    }
                    assert forall|k: K| self@.contains_key(k) implies self@[k] == before@[k] by {
                        let j = self.place(k);
                        self.lemma_at(j);
                        before.lemma_at(if j < i { j } else { j + 1 });
                    }
                    assert(self@ =~= before@.remove(key));
                }
            },
            None => {
                assert(self@ =~= old(self)@.remove(key));
            },
        }
    }

    /// The keys and their values in a list.
    pub fn list(&self) -> (r: Vec<(K, V)>)
        requires
            self.wf(),
        ensures
            forall|i: int, j: int| 0 <= i < j < r@.len() ==> r@[i].0 != r@[j].0,
            forall|key: K, value: V| #[trigger]
                r@.contains((key, value)) <==> self@.contains_key(key) && self@[key] == value,
            r@.len() == self@.dom().len(),
    {
        let mut r: Vec<(K, V)> = Vec::new();
        for i in 0..self.entries.len()
            invariant
                r@ == self.entries@.take(i as int),
        {
            r.push(self.entries[i]);
            assert(r@ =~= self.entries@.take(i + 1));
        }
        proof {
            assert(r@ =~= self.entries@);
            assert forall|key: K, value: V| #[trigger]
                r@.contains((key, value)) <==> self@.contains_key(key) && self@[key] == value by {
                if r@.contains((key, value)) {
                    self.lemma_at(r@.index_of((key, value)));
                }
                if self@.contains_key(key) && self@[key] == value {
                    let j = self.place(key);
                    assert(r@[j] == (key, value));
                }
            }
            let keys = r@.map_values(|e: (K, V)| e.0);
            assert(keys.no_duplicates()) by {
                assert forall|i: int, j: int|
                    0 <= i < keys.len() && 0 <= j < keys.len() && i != j implies keys[i]
                    != keys[j] by {
                    assert(self.entries@[i].0 == keys[i] && self.entries@[j].0 == keys[j]);
                }
            }
            keys.unique_seq_to_set();
            assert forall|key: K| keys.to_set().contains(key) == self@.dom().contains(key) by {
                if keys.contains(key) {
                    let j = keys.index_of(key);
                    assert(self.entries@[j].0 == key);
                }
                if self.has(key) {
                    let j = self.place(key);
                    assert(keys[j] == key);
                }
            }
            assert(keys.to_set() =~= self@.dom());
        }
        r
    }

    /// How many keys there are.
    pub fn len(&self) -> (r: usize)
        requires
            self.wf(),
        ensures
            r == self@.dom().len(),
    {
        self.list().len()
    }
}

/// What is among the first elements of a sequence, with one more.
pub(crate) proof fn lemma_take_step<A>(s: Seq<A>, i: int)
    requires
        0 <= i < s.len(),
    ensures
        forall|x: A| #[trigger]
            s.take(i + 1).contains(x) <==> s.take(i).contains(x) || x == s[i],
{
    assert(s.take(i + 1) =~= s.take(i).push(s[i]));
    assert forall|x: A| #[trigger]
        s.take(i + 1).contains(x) <==> s.take(i).contains(x) || x == s[i] by {
        lemma_push_contains(s.take(i), s[i], x);
    }
}

/// What a sequence holds after an element was added.
pub(crate) proof fn lemma_push_contains<A>(s: Seq<A>, e: A, x: A)
    ensures
        s.push(e).contains(x) <==> s.contains(x) || x == e,
{
    if s.push(e).contains(x) {
        let j = s.push(e).index_of(x);
        if j < s.len() {
            assert(s[j] == x);
        }
    }
    if s.contains(x) {
        let j = s.index_of(x);
        assert(s.push(e)[j] == x);
    }
    if x == e {
        assert(s.push(e)[s.len() as int] == x);
    }
}

/// Where nothing occurs twice, an element is not among those before it.
pub(crate) proof fn lemma_fresh<A>(s: Seq<A>, i: int)
    requires
        0 <= i < s.len(),
        s.no_duplicates(),
    ensures
        !s.take(i).contains(s[i]),
{
    if s.take(i).contains(s[i]) {
        let j = s.take(i).index_of(s[i]);
        assert(s[j] == s[i]);
    }
}

} // verus!
