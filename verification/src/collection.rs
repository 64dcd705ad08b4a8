//! An ordered collection of dependencies. Several entries may share a name.

use vstd::prelude::*;
use crate::dependency::DepView;
use crate::dependency::Dependency;
use crate::name_map::distinct_keys;
use crate::name_map::lemma_position;
use crate::name_map::position;
use crate::name_map::put;
use crate::name_map::NameMap;
use crate::registry::Registry;
use crate::text::views;

verus! {

/// The first of `deps` that has the name `name`, if any.
pub open spec fn first_named(deps: Seq<DepView>, name: Seq<char>) -> Option<DepView>
    decreases deps.len(),
{
    if deps.len() == 0 {
        None
    } else if deps[0].name == name {
        Some(deps[0])
    } else {
        first_named(deps.drop_first(), name)
    }
}

/// Whether one of `deps` has the name `name`.
pub open spec fn has_name(deps: Seq<DepView>, name: Seq<char>) -> bool {
    exists|i: int| 0 <= i < deps.len() && (#[trigger] deps[i]).name == name
}

/// No name occurs twice in `deps`.
pub open spec fn distinct_names(deps: Seq<DepView>) -> bool {
    forall|i: int, j: int|
        0 <= i < deps.len() && 0 <= j < deps.len() && i != j ==> (#[trigger] deps[i]).name != (
        #[trigger] deps[j]).name
}

/// The name-to-version entries that `deps` give: each name once, at the
/// place of its first entry and with the version of its last.
pub open spec fn to_entries(deps: Seq<DepView>) -> Seq<(Seq<char>, Seq<char>)>
    decreases deps.len(),
{
    if deps.len() == 0 {
        Seq::empty()
    } else {
        put(to_entries(deps.drop_last()), deps.last().name, deps.last().version)
    }
}

/// The dependencies that name-to-version entries stand for, in their order.
pub open spec fn from_entries(entries: Seq<(Seq<char>, Seq<char>)>) -> Seq<DepView> {
    entries.map_values(|e: (Seq<char>, Seq<char>)| DepView { name: e.0, version: e.1 })
}

/// The name and version of each dependency, as a pair.
pub open spec fn as_pairs(deps: Seq<DepView>) -> Seq<(Seq<char>, Seq<char>)> {
    deps.map_values(|d: DepView| (d.name, d.version))
}

/// `first_named` finds a dependency of that name exactly where one exists.
pub proof fn lemma_first_named(deps: Seq<DepView>, name: Seq<char>)
    ensures
        match first_named(deps, name) {
            Some(d) => d.name == name && deps.contains(d),
            None => !has_name(deps, name),
        },
    decreases deps.len(),
{
    if deps.len() > 0 && deps[0].name != name {
        let rest = deps.drop_first();
        lemma_first_named(rest, name);
        match first_named(rest, name) {
            Some(d) => {
                let i = choose|i: int| 0 <= i < rest.len() && rest[i] == d;
                assert(deps[i + 1] == d);
            },
            None => {
                assert forall|i: int| 0 <= i < deps.len() implies (#[trigger] deps[i]).name
                    != name by {
                    if i > 0 {
                        assert(rest[i - 1] == deps[i]);
                    }
                }
            },
        }
    } else if deps.len() > 0 {
        assert(deps[0] == deps[0]);
    }
}

/// Where no name occurs twice, the entries are the dependencies' own names
/// and versions, in their order.
pub proof fn lemma_distinct_to_entries(deps: Seq<DepView>)
    requires
        distinct_names(deps),
    ensures
        to_entries(deps) == as_pairs(deps),
        distinct_keys(to_entries(deps)),
    decreases deps.len(),
{
    if deps.len() == 0 {
        assert(to_entries(deps) =~= as_pairs(deps));
    } else {
        let head = deps.drop_last();
        assert forall|i: int, j: int|
            0 <= i < head.len() && 0 <= j < head.len() && i != j implies (#[trigger] head[i]).name
            != (#[trigger] head[j]).name by {
            assert(head[i] == deps[i] && head[j] == deps[j]);
        }
        lemma_distinct_to_entries(head);
        let before = to_entries(head);
        lemma_position(before, deps.last().name);
        if position(before, deps.last().name) is Some {
            let p = position(before, deps.last().name)->0;
            assert(before[p].0 == head[p].name);
            assert(head[p] == deps[p]);
            assert(deps[p].name != deps[deps.len() - 1].name);
        }
        assert(to_entries(deps) =~= as_pairs(deps));
        assert forall|i: int, j: int|
            0 <= i < deps.len() && 0 <= j < deps.len() && i != j implies (#[trigger] as_pairs(
            deps,
        )[i]).0 != (#[trigger] as_pairs(deps)[j]).0 by {
            assert(as_pairs(deps)[i].0 == deps[i].name);
            assert(as_pairs(deps)[j].0 == deps[j].name);
        }
    }
}

/// Turning a collection without duplicate names into a map and back gives
/// the same names with the same versions, in the same order.
pub proof fn lemma_map_round_trip(deps: Seq<DepView>)
    requires
        distinct_names(deps),
    ensures
        from_entries(to_entries(deps)) == deps,
{
    lemma_distinct_to_entries(deps);
    assert(from_entries(as_pairs(deps)) =~= deps);
}

/// An ordered collection of dependencies. The same name may occur more
/// than once, with the same or with different versions.
#[derive(Debug)]
pub struct DependencyCollection {
    deps: Vec<Dependency>,
}

impl View for DependencyCollection {
    type V = Seq<DepView>;

    closed spec fn view(&self) -> Seq<DepView> {
        views(self.deps@)
    }
}

impl DependencyCollection {
    /// An empty collection.
    pub fn new() -> (c: DependencyCollection)
        ensures
            c@ == Seq::<DepView>::empty(),
    {
        let c = DependencyCollection { deps: Vec::new() };
        assert(c@ == Seq::<DepView>::empty());
        c
    }

    /// Adds `dep` at the end.
    pub fn add(&mut self, dep: Dependency)
        ensures
            final(self)@ == old(self)@.push(dep@),
    {
        self.deps.push(dep);
        assert(self@ == old(self)@.push(dep@));
    }

    /// Adds the entries of `other` at the end, in their order.
    pub fn extend(&mut self, other: &DependencyCollection)
        ensures
            final(self)@ == old(self)@ + other@,
    {
        let mut i: usize = 0;
        assert(old(self)@ + other@.take(0) == old(self)@);
        while i < other.deps.len()
            invariant
                i <= other.deps.len(),
                self@ == old(self)@ + other@.take(i as int),
            decreases other.deps.len() - i,
        {
            let dep = other.deps[i].clone();
            self.add(dep);
            assert(old(self)@ + other@.take(i as int + 1) == (old(self)@ + other@.take(
                i as int,
            )).push(other@[i as int]));
            i += 1;
        }
        assert(other@.take(i as int) == other@);
    }

    /// The number of entries.
    pub fn len(&self) -> (n: usize)
        ensures
            n == self@.len(),
    {
        self.deps.len()
    }

    /// Whether the collection has no entry.
    pub fn is_empty(&self) -> (r: bool)
        ensures
            r == (self@.len() == 0),
    {
        self.deps.len() == 0
    }

    /// The entries, in order.
    pub fn as_slice(&self) -> (r: &[Dependency])
        ensures
            views(r@) == self@,
    {
        self.deps.as_slice()
    }

    /// An iterator over the entries, in order.
    pub fn iter(&self) -> (it: std::slice::Iter<'_, Dependency>)
        ensures
            views(vstd::std_specs::slice::into_iter_elts(it)) == self@,
    {
        let it = self.deps.as_slice().iter();
        assert(vstd::std_specs::slice::into_iter_elts(it) == self.deps@);
        it
    }

    /// The first entry named `name`, if there is one.
    pub fn get(&self, name: &str) -> (r: Option<&Dependency>)
        ensures
            match r {
                Some(dep) => first_named(self@, name@) == Some(dep@),
                None => first_named(self@, name@) is None,
            },
    {
        let wanted = name.to_owned();
        let mut i: usize = 0;
        assert(self@.skip(0) == self@);
        while i < self.deps.len()
            invariant
                i <= self.deps.len(),
                wanted@ == name@,
                first_named(self@, name@) == first_named(self@.skip(i as int), name@),
            decreases self.deps.len() - i,
        {
            assert(self@.skip(i as int)[0] == self.deps[i as int]@);
            if self.deps[i].name == wanted {
                return Some(&self.deps[i]);
            }
            assert(self@.skip(i as int).drop_first() == self@.skip(i as int + 1));
            i += 1;
        }
        assert(self@.skip(i as int).len() == 0);
        None
    }

    /// The version of the first entry named `name`, if there is one.
    pub fn get_version(&self, name: &str) -> (r: Option<&String>)
        ensures
            match r {
                Some(version) => first_named(self@, name@) matches Some(dep) && dep.version
                    == version@,
                None => first_named(self@, name@) is None,
            },
    {
        match self.get(name) {
            Some(dep) => Some(&dep.version),
            None => None,
        }
    }

    /// Whether an entry is named `name`.
    pub fn contains_name(&self, name: &str) -> (r: bool)
        ensures
            r == has_name(self@, name@),
    {
        proof {
            lemma_first_named(self@, name@);
        }
        match self.get(name) {
            Some(dep) => {
                proof {
                    let i = choose|i: int| 0 <= i < self@.len() && self@[i] == dep@;
                    assert(self@[i].name == name@);
                }
                true
            },
            None => false,
        }
    }

    /// Whether an entry has the name `name` and the version `version`.
    pub fn contains(&self, name: &str, version: &str) -> (r: bool)
        ensures
            r == self@.contains(DepView { name: name@, version: version@ }),
    {
        let wanted = Dependency::new(name, version);
        let mut i: usize = 0;
        while i < self.deps.len()
            invariant
                i <= self.deps.len(),
                wanted@ == (DepView { name: name@, version: version@ }),
                forall|j: int| 0 <= j < i ==> self@[j] != wanted@,
            decreases self.deps.len() - i,
        {
            if self.deps[i].name == wanted.name && self.deps[i].version == wanted.version {
                assert(self@[i as int] == wanted@);
                return true;
            }
            assert(self@[i as int] != wanted@);
            i += 1;
        }
        false
    }

    /// The name-to-version map of this collection. Where a name occurs more
    /// than once, its last version is the one kept.
    pub fn to_map(&self) -> (m: NameMap<String>)
        ensures
            m@ == to_entries(self@),
    {
        let mut m: NameMap<String> = NameMap::new();
        let mut i: usize = 0;
        assert(self@.take(0) == Seq::<DepView>::empty());
        while i < self.deps.len()
            invariant
                i <= self.deps.len(),
                m@ == to_entries(self@.take(i as int)),
            decreases self.deps.len() - i,
        {
            let dep = &self.deps[i];
            assert(self@.take(i as int + 1).drop_last() == self@.take(i as int));
            assert(self@.take(i as int + 1).last() == dep@);
            m.insert(dep.name.as_str(), dep.version.clone());
            i += 1;
        }
        assert(self@.take(i as int) == self@);
        m
    }

    /// The collection that holds one dependency for each entry of `map`,
    /// in the map's order.
    pub fn from_map(map: &NameMap<String>) -> (c: DependencyCollection)
        ensures
            c@ == from_entries(map@),
            distinct_names(c@),
    {
        let mut c = DependencyCollection::new();
        let n = map.len();
        let mut i: usize = 0;
        while i < n
            invariant
                i <= n,
                n == map@.len(),
                c@ == from_entries(map@).take(i as int),
            decreases n - i,
        {
            let dep = Dependency::new(map.key_at(i).as_str(), map.value_at(i).as_str());
            c.add(dep);
            assert(c@ == from_entries(map@).take(i as int + 1));
            i += 1;
        }
        assert(from_entries(map@).take(n as int) == from_entries(map@));
        assert forall|i: int, j: int|
            0 <= i < c@.len() && 0 <= j < c@.len() && i != j implies (#[trigger] c@[i]).name != (
        #[trigger] c@[j]).name by {
            assert(c@[i].name == map@[i].0);
            assert(c@[j].name == map@[j].0);
        }
        c
    }

    /// The entries whose sources lie in `registry`, in their order.
    pub fn filter_available(&self, registry: &Registry) -> (c: DependencyCollection)
        ensures
            c@ == self@.filter(|d: DepView| registry.has(d.name, d.version)),
    {
        let ghost available = |d: DepView| registry.has(d.name, d.version);
        let mut c = DependencyCollection::new();
        let mut i: usize = 0;
        proof {
            reveal(Seq::filter);
            assert(self@.take(0) == Seq::<DepView>::empty());
        }
        while i < self.deps.len()
            invariant
                i <= self.deps.len(),
                available == |d: DepView| registry.has(d.name, d.version),
                c@ == self@.take(i as int).filter(available),
            decreases self.deps.len() - i,
        {
            let dep = &self.deps[i];
            proof {
                reveal(Seq::filter);
                assert(self@.take(i as int + 1).drop_last() == self@.take(i as int));
                assert(self@.take(i as int + 1).last() == dep@);
            }
            if dep.is_available_in_registry(registry) {
                c.add(dep.clone());
            }
            i += 1;
        }
        assert(self@.take(i as int) == self@);
        c
    }
}

impl Default for DependencyCollection {
    fn default() -> (c: DependencyCollection)
        ensures
            c@ == Seq::<DepView>::empty(),
    {
        DependencyCollection::new()
    }
}

} // verus!
