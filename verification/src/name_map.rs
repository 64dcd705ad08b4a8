//! A map from names to values that keeps the order in which names came.

use vstd::prelude::*;

verus! {

/// The position of `key` among `entries`, if it is there.
pub open spec fn position<T>(entries: Seq<(Seq<char>, T)>, key: Seq<char>) -> Option<int>
    decreases entries.len(),
{
    if entries.len() == 0 {
        None
    } else if entries.last().0 == key {
        Some(entries.len() - 1)
    } else {
        position(entries.drop_last(), key)
    }
}

/// The value that `entries` give to `key`, if any.
pub open spec fn value_of<T>(entries: Seq<(Seq<char>, T)>, key: Seq<char>) -> Option<T> {
    match position(entries, key) {
        Some(i) => Some(entries[i].1),
        None => None,
    }
}

/// `entries` with `key` set to `value`: a key that is there keeps its place
/// and takes the new value, a new key goes to the end.
pub open spec fn put<T>(entries: Seq<(Seq<char>, T)>, key: Seq<char>, value: T) -> Seq<
    (Seq<char>, T),
> {
    match position(entries, key) {
        Some(i) => entries.update(i, (key, value)),
        None => entries.push((key, value)),
    }
}

/// No key occurs twice in `entries`.
pub open spec fn distinct_keys<T>(entries: Seq<(Seq<char>, T)>) -> bool {
    forall|i: int, j: int|
        0 <= i < entries.len() && 0 <= j < entries.len() && i != j ==> (#[trigger] entries[i]).0
            != (#[trigger] entries[j]).0
}

/// Where `position` finds a key, the key stands; where it finds none, the
/// key is nowhere.
pub proof fn lemma_position<T>(entries: Seq<(Seq<char>, T)>, key: Seq<char>)
    ensures
        match position(entries, key) {
            Some(i) => 0 <= i < entries.len() && entries[i].0 == key,
            None => forall|i: int| 0 <= i < entries.len() ==> (#[trigger] entries[i]).0 != key,
        },
    decreases entries.len(),
{
    if entries.len() > 0 && entries.last().0 != key {
        lemma_position(entries.drop_last(), key);
        if position(entries, key) is None {
            assert forall|i: int| 0 <= i < entries.len() implies (#[trigger] entries[i]).0
                != key by {
                if i < entries.len() - 1 {
                    assert(entries.drop_last()[i] == entries[i]);
                }
            }
        }
    }
}

/// Setting a key keeps the keys distinct.
pub proof fn lemma_put_keeps_distinct<T>(entries: Seq<(Seq<char>, T)>, key: Seq<char>, value: T)
    requires
        distinct_keys(entries),
    ensures
        distinct_keys(put(entries, key, value)),
{
    lemma_position(entries, key);
    let after = put(entries, key, value);
    assert forall|i: int, j: int|
        0 <= i < after.len() && 0 <= j < after.len() && i != j implies (#[trigger] after[i]).0 != (
    #[trigger] after[j]).0 by {
        match position(entries, key) {
            Some(p) => {
                assert(after[i].0 == entries[i].0);
                assert(after[j].0 == entries[j].0);
            },
            None => {
                if i < entries.len() {
                    assert(after[i] == entries[i]);
                }
                if j < entries.len() {
                    assert(after[j] == entries[j]);
                }
            },
        }
    }
}

/// A map from names to values. Each name occurs once; the names keep the
/// order in which they were first set.
#[derive(Debug)]
pub struct NameMap<V: View> {
    keys: Vec<String>,
    values: Vec<V>,
}

impl<V: View> View for NameMap<V> {
    type V = Seq<(Seq<char>, V::V)>;

    closed spec fn view(&self) -> Seq<(Seq<char>, V::V)> {
        Seq::new(self.keys@.len(), |i: int| (self.keys@[i]@, self.values@[i]@))
    }
}

impl<V: View> NameMap<V> {
    #[verifier::type_invariant]
    spec fn inv(self) -> bool {
        &&& self.keys@.len() == self.values@.len()
        &&& distinct_keys(self@)
    }

    /// An empty map.
    pub fn new() -> (m: NameMap<V>)
        ensures
            m@ == Seq::<(Seq<char>, V::V)>::empty(),
    {
        let m = NameMap { keys: Vec::new(), values: Vec::new() };
        assert(m@ == Seq::<(Seq<char>, V::V)>::empty());
        m
    }

    /// The number of names, none of which occurs twice.
    pub fn len(&self) -> (n: usize)
        ensures
            n == self@.len(),
            distinct_keys(self@),
    {
        proof {
            use_type_invariant(self);
        }
        self.keys.len()
    }

    /// Whether the map holds no name.
    pub fn is_empty(&self) -> (r: bool)
        ensures
            r == (self@.len() == 0),
    {
        self.keys.len() == 0
    }

    /// Where `key` stands, if it is there.
    fn find(&self, key: &str) -> (r: Option<usize>)
        ensures
            match r {
                Some(i) => position(self@, key@) == Some(i as int) && i < self.keys@.len(),
                None => position(self@, key@) is None,
            },
    {
        proof {
            use_type_invariant(self);
        }
        let wanted = key.to_owned();
        let mut i: usize = 0;
        while i < self.keys.len()
            invariant
                i <= self.keys@.len(),
                self.keys@.len() == self@.len(),
                wanted@ == key@,
                distinct_keys(self@),
                forall|j: int| 0 <= j < i ==> (#[trigger] self@[j]).0 != key@,
            decreases self.keys.len() - i,
        {
            if self.keys[i] == wanted {
                proof {
                    assert(self@[i as int].0 == key@);
                    lemma_position(self@, key@);
                }
                return Some(i);
            }
            i += 1;
        }
        proof {
            lemma_position(self@, key@);
        }
        None
    }

    /// Whether `key` is there.
    pub fn contains_key(&self, key: &str) -> (r: bool)
        ensures
            r == (position(self@, key@) is Some),
    {
        self.find(key).is_some()
    }

    /// The value of `key`, if it is there.
    pub fn get(&self, key: &str) -> (r: Option<&V>)
        ensures
            match r {
                Some(v) => value_of(self@, key@) == Some(v@),
                None => value_of(self@, key@) is None,
            },
    {
        proof {
            use_type_invariant(self);
        }
        match self.find(key) {
            Some(i) => Some(&self.values[i]),
            None => None,
        }
    }

    /// Sets `key` to `value`. The last value set for a key is the one it has.
    pub fn insert(&mut self, key: &str, value: V)
        ensures
            final(self)@ == put(old(self)@, key@, value@),
    {
        let found = self.find(key);
        let mut taken: NameMap<V> = NameMap::new();
        std::mem::swap(self, &mut taken);
        proof {
            use_type_invariant(&taken);
            lemma_put_keeps_distinct(taken@, key@, value@);
        }
        let ghost before = taken@;
        let ghost new_value = value@;
        let NameMap { mut keys, mut values } = taken;
        assert(before == Seq::new(keys@.len(), |i: int| (keys@[i]@, values@[i]@)));
        match found {
            Some(i) => {
                proof {
                    lemma_position(before, key@);
                }
                values.set(i, value);
            },
            None => {
                keys.push(key.to_owned());
                values.push(value);
            },
        }
        let ghost after = Seq::new(keys@.len(), |i: int| (keys@[i]@, values@[i]@));
        assert(after =~= put(before, key@, new_value));
        *self = NameMap { keys, values };
    }

    /// The name at position `i`.
    pub fn key_at(&self, i: usize) -> (r: &String)
        requires
            i < self@.len(),
        ensures
            r@ == self@[i as int].0,
    {
        proof {
            use_type_invariant(self);
        }
        &self.keys[i]
    }

    /// The value at position `i`.
    pub fn value_at(&self, i: usize) -> (r: &V)
        requires
            i < self@.len(),
        ensures
            r@ == self@[i as int].1,
    {
        proof {
            use_type_invariant(self);
        }
        &self.values[i]
    }
}

} // verus!
