//! The registry: an append-only sequence of entries with a name index, and
//! what holds of its handles and lookups.

use vstd::hash_map::StringHashMap;
use vstd::prelude::*;

use crate::id::{round_trips, Id};
use crate::name::Name;

verus! {

/// What a registry holds: its entries in insertion order, each a value with
/// the name that it was stored under, if any. The position of an entry is the
/// index of its handle.
pub type Entries<V> = Seq<(Option<Name>, V)>;

/// Entry `at` of `entries` carries the name `name`.
pub open spec fn carries<V>(entries: Entries<V>, at: int, name: Seq<char>) -> bool {
    &&& 0 <= at < entries.len()
    &&& entries[at].0 matches Some(carried)
    &&& carried@ == name
}

/// Some entry of `entries` carries `name`.
pub open spec fn is_registered<V>(entries: Entries<V>, name: Seq<char>) -> bool {
    exists|at: int| carries(entries, at, name)
}

/// Entry `at` carries `name`, and no later entry does.
pub open spec fn is_last_carrier<V>(
    entries: Entries<V>,
    at: int,
    name: Seq<char>,
) -> bool {
    &&& carries(entries, at, name)
    &&& forall|later: int| at < later < entries.len() ==> !carries(entries, later, name)
}

/// The position of the last entry that carries `name`.
pub open spec fn position_of<V>(entries: Entries<V>, name: Seq<char>) -> int {
    choose|at: int| is_last_carrier(entries, at, name)
}

/// No two entries carry equal names.
pub open spec fn names_are_unique<V>(entries: Entries<V>) -> bool {
    forall|name: Seq<char>, first: int, second: int|
        carries(entries, first, name) && carries(entries, second, name) ==> first == second
}

/// The handle under which `name` is found: that of the last entry carrying
/// it, or none where no entry does.
pub open spec fn find_in<K: Id, V>(entries: Entries<V>, name: Seq<char>) -> Option<K> {
    if is_registered(entries, name) {
        Some(K::spec_from_index(position_of(entries, name) as usize))
    } else {
        None
    }
}

/// The name of the entry that `id` points at, if `id` points at an entry and
/// that entry has one.
pub open spec fn name_of<K: Id, V>(entries: Entries<V>, id: K) -> Option<Name> {
    if id.spec_to_index() < entries.len() {
        entries[id.spec_to_index() as int].0
    } else {
        None
    }
}

/// The value of the entry that `id` points at.
pub open spec fn value_of<K: Id, V>(entries: Entries<V>, id: K) -> V
    recommends
        id.spec_to_index() < entries.len(),
{
    entries[id.spec_to_index() as int].1
}

/// The name index that belongs to `entries`: every name that some entry
/// carries, mapped to the handle of the last entry carrying it.
pub open spec fn name_index<K: Id, V>(entries: Entries<V>) -> Map<Seq<char>, K> {
    Map::new(
        |name: Seq<char>| is_registered(entries, name),
        |name: Seq<char>| K::spec_from_index(position_of(entries, name) as usize),
    )
}

/// An append-only store of values, each with an optional name.
///
/// An entry's position is its handle's index. The view is the sequence of
/// entries in insertion order; every result of every method is a function of
/// it. Besides the entries the registry keeps a name index, which always
/// equals [`name_index`] of the entries.
#[verifier::reject_recursive_types(K)]
pub struct Registry<K: Id, V> {
    name_to_id: StringHashMap<K>,
    entries: Vec<(Option<Name>, V)>,
}

impl<K: Id, V> View for Registry<K, V> {
    type V = Entries<V>;

    /// The entries in insertion order.
    closed spec fn view(&self) -> Entries<V> {
        self.entries@
    }
}

impl<K: Id, V> Registry<K, V> {
    #[verifier::type_invariant]
    spec fn index_matches_entries(&self) -> bool {
        self.name_to_id@ == name_index::<K, V>(self.entries@)
    }

    /// An empty registry.
    pub fn new() -> (registry: Self)
        ensures
            registry@ == Entries::<V>::empty(),
    {
        let name_to_id = StringHashMap::new();
        let entries = Vec::new();
        assert(name_to_id@ =~= name_index::<K, V>(entries@));
        Registry { name_to_id, entries }
    }

    /// Builds a registry from entries that are already in order. The entry at
    /// position `i` gets the handle of index `i`.
    ///
    /// Names are not checked for uniqueness: where several entries carry the
    /// same name, the name finds the last of them, and the earlier ones are
    /// reachable by handle only.
    pub fn from_entries(entries: Vec<(Option<Name>, V)>) -> (registry: Self)
        ensures
            registry@ == entries@,
    {
        let name_to_id = Self::build_index(&entries);
        Registry { name_to_id, entries }
    }

    fn build_index(entries: &Vec<(Option<Name>, V)>) -> (name_to_id: StringHashMap<K>)
        ensures
            name_to_id@ == name_index::<K, V>(entries@),
    {
        let mut name_to_id = StringHashMap::new();
        let mut index: usize = 0;
        while index < entries.len()
            invariant
                index <= entries.len(),
                name_to_id@ == name_index::<K, V>(entries@.take(index as int)),
            decreases entries.len() - index,
        {
            proof {
                assert(entries@.take(index + 1) == entries@.take(index as int).push(
                    entries@[index as int],
                ));
                lemma_index_after_push::<K, V>(entries@.take(index as int), entries@[index as int]);
            }
            if let Some(name) = &entries[index].0 {
                name_to_id.insert(name.qualified().to_owned(), K::from_index(index));
            }
            index += 1;
        }
        assert(entries@.take(index as int) == entries@);
        name_to_id
    }

    /// Whether some entry carries `name`.
    pub fn contains(&self, name: &Name) -> (found: bool)
        ensures
            found == is_registered(self@, name@),
    {
        proof {
            use_type_invariant(self);
        }
        self.name_to_id.contains_key(name.qualified())
    }

    /// Stores `entry` under `name`, unless an entry with an equal name
    /// exists: then the registry stays as it is and the name comes back.
    pub fn add_named(&mut self, name: Name, entry: V) -> (result: Result<K, Name>)
        ensures
            match result {
                Ok(id) => {
                    &&& !is_registered(old(self)@, name@)
                    &&& id == K::spec_from_index(old(self)@.len() as usize)
                    &&& round_trips::<K>(old(self)@.len() as usize) ==> id.spec_to_index() == old(
                        self,
                    )@.len()
                    &&& final(self)@ == old(self)@.push((Some(name), entry))
                },
                Err(rejected) => {
                    &&& is_registered(old(self)@, name@)
                    &&& rejected == name
                    &&& final(self)@ == old(self)@
                },
            },
            names_are_unique(old(self)@) ==> names_are_unique(final(self)@),
    {
        let func = |_id: K| -> (value: V)
            ensures
                value == entry,
            { entry };
        self.add_named_with(name, func)
    }

    /// Like [`Registry::add_named`], with the value made by `func` from the
    /// handle that the entry will have. `func` is called once, before the
    /// entry can be found, and not at all where the name is rejected.
    pub fn add_named_with(&mut self, name: Name, func: impl FnOnce(K) -> V) -> (result: Result<
        K,
        Name,
    >)
        requires
            !is_registered(old(self)@, name@) ==> call_requires(
                func,
                (K::spec_from_index(old(self)@.len() as usize),),
            ),
        ensures
            match result {
                Ok(id) => {
                    &&& !is_registered(old(self)@, name@)
                    &&& id == K::spec_from_index(old(self)@.len() as usize)
                    &&& round_trips::<K>(old(self)@.len() as usize) ==> id.spec_to_index() == old(
                        self,
                    )@.len()
                    &&& call_ensures(func, (id,), final(self)@.last().1)
                    &&& final(self)@ == old(self)@.push((Some(name), final(self)@.last().1))
                },
                Err(rejected) => {
                    &&& is_registered(old(self)@, name@)
                    &&& rejected == name
                    &&& final(self)@ == old(self)@
                },
            },
            names_are_unique(old(self)@) ==> names_are_unique(final(self)@),
    {
        if self.contains(&name) {
            return Err(name);
        }
        let id = self.add_with(Some(name), func);
        proof {
            if names_are_unique(old(self)@) {
                lemma_new_name_keeps_names_unique(old(self)@, name, self@.last().1);
            }
        }
        Ok(id)
    }

    /// Stores `entry` without a name. The handle it returns stands for the
    /// number of entries there were before.
    pub fn add_anonymous(&mut self, entry: V) -> (id: K)
        ensures
            id == K::spec_from_index(old(self)@.len() as usize),
            round_trips::<K>(old(self)@.len() as usize) ==> id.spec_to_index() == old(self)@.len(),
            final(self)@ == old(self)@.push((None, entry)),
            names_are_unique(old(self)@) ==> names_are_unique(final(self)@),
    {
        let func = |_id: K| -> (value: V)
            ensures
                value == entry,
            { entry };
        self.add_anonymous_with(func)
    }

    /// Like [`Registry::add_anonymous`], with the value made by `func` from
    /// the handle that the entry will have. `func` is called once, before the
    /// entry is stored.
    pub fn add_anonymous_with(&mut self, func: impl FnOnce(K) -> V) -> (id: K)
        requires
            call_requires(func, (K::spec_from_index(old(self)@.len() as usize),)),
        ensures
            id == K::spec_from_index(old(self)@.len() as usize),
            round_trips::<K>(old(self)@.len() as usize) ==> id.spec_to_index() == old(self)@.len(),
            call_ensures(func, (id,), final(self)@.last().1),
            final(self)@ == old(self)@.push((None, final(self)@.last().1)),
            names_are_unique(old(self)@) ==> names_are_unique(final(self)@),
    {
        let id = self.add_with(None, func);
        proof {
            if names_are_unique(old(self)@) {
                lemma_anonymous_keeps_names_unique(old(self)@, self@.last().1);
            }
        }
        id
    }

    /// Appends one entry, with the value that `func` makes from the entry's
    /// handle, and enters its name, if it has one, in the name index.
    fn add_with(&mut self, name: Option<Name>, func: impl FnOnce(K) -> V) -> (id: K)
        requires
            call_requires(func, (K::spec_from_index(old(self)@.len() as usize),)),
        ensures
            id == K::spec_from_index(old(self)@.len() as usize),
            round_trips::<K>(old(self)@.len() as usize) ==> id.spec_to_index() == old(self)@.len(),
            call_ensures(func, (id,), final(self)@.last().1),
            final(self)@ == old(self)@.push((name, final(self)@.last().1)),
    {
        proof {
            use_type_invariant(&*self);
        }
        let id = K::from_index(self.entries.len());
        let value = func(id);
        // The index and the entries have to change together: take both out,
        // leaving an empty registry behind, and put both back.
        let mut taken = Registry::new();
        core::mem::swap(self, &mut taken);
        let Registry { mut name_to_id, mut entries } = taken;
        proof {
            lemma_index_after_push::<K, V>(entries@, (name, value));
        }
        if let Some(name) = &name {
            name_to_id.insert(name.qualified().to_owned(), id);
        }
        entries.push((name, value));
        *self = Registry { name_to_id, entries };
        id
    }

    /// The handle of the entry that carries `name`, if there is one.
    pub fn find(&self, name: &Name) -> (found: Option<K>)
        ensures
            found == find_in::<K, V>(self@, name@),
    {
        proof {
            use_type_invariant(self);
        }
        match self.name_to_id.get(name.qualified()) {
            Some(id) => Some(*id),
            None => None,
        }
    }

    /// The value of the entry that `id` points at. `id` must point at an
    /// entry of this registry.
    pub fn get(&self, id: K) -> (value: &V)
        requires
            id.spec_to_index() < self@.len(),
        ensures
            *value == value_of(self@, id),
    {
        &self.entries[id.to_index()].1
    }

    /// The value of the entry that `id` points at, or `None` where `id` points
    /// at no entry of this registry.
    pub fn try_get(&self, id: K) -> (value: Option<&V>)
        ensures
            match value {
                Some(value) => id.spec_to_index() < self@.len() && *value == value_of(self@, id),
                None => id.spec_to_index() >= self@.len(),
            },
    {
        if id.to_index() < self.entries.len() {
            Some(self.get(id))
        } else {
            None
        }
    }

    /// The name of the entry that `id` points at. `None` where that entry
    /// has no name, and where `id` points at no entry.
    pub fn get_name(&self, id: K) -> (name: Option<&Name>)
        ensures
            match name {
                Some(name) => name_of(self@, id) == Some(*name),
                None => name_of(self@, id) is None,
            },
    {
        let index = id.to_index();
        if index < self.entries.len() {
            self.entries[index].0.as_ref()
        } else {
            None
        }
    }

    /// All entries in insertion order, each with its handle.
    pub fn iter(&self) -> (items: Vec<(K, Option<&Name>, &V)>)
        ensures
            items@.len() == self@.len(),
            forall|at: int|
                0 <= at < self@.len() ==> {
                    &&& (#[trigger] items@[at]).0 == K::spec_from_index(at as usize)
                    &&& match items@[at].1 {
                        Some(name) => self@[at].0 == Some(*name),
                        None => self@[at].0 is None,
                    }
                    &&& *items@[at].2 == self@[at].1
                },
    {
        let mut items: Vec<(K, Option<&Name>, &V)> = Vec::new();
        let mut index: usize = 0;
        while index < self.entries.len()
            invariant
                index <= self.entries.len(),
                items@.len() == index,
                forall|at: int|
                    0 <= at < index ==> {
                        &&& (#[trigger] items@[at]).0 == K::spec_from_index(at as usize)
                        &&& match items@[at].1 {
                            Some(name) => self.entries@[at].0 == Some(*name),
                            None => self.entries@[at].0 is None,
                        }
                        &&& *items@[at].2 == self.entries@[at].1
                    },
            decreases self.entries.len() - index,
        {
            let entry = &self.entries[index];
            items.push((K::from_index(index), entry.0.as_ref(), &entry.1));
            index += 1;
        }
        items
    }

    /// The entries as they are stored.
    pub fn entries(&self) -> (entries: &Vec<(Option<Name>, V)>)
        ensures
            entries@ == self@,
    {
        &self.entries
    }

    /// A registry never holds more entries than a `usize` can count.
    pub proof fn lemma_len_fits(&self)
        ensures
            self@.len() <= usize::MAX,
    {
        assert(self.entries@.len() == self.entries.len());
    }
}

impl<K: Id, V> Default for Registry<K, V> {
    fn default() -> (registry: Self)
        ensures
            registry@ == Entries::<V>::empty(),
    {
        Registry::new()
    }
}

impl<K: Id, V: Clone> Clone for Registry<K, V> {
    /// A registry with the same names at the same positions, and with a
    /// clone of every value.
    fn clone(&self) -> (copy: Self)
        ensures
            copy@.len() == self@.len(),
            forall|at: int|
                0 <= at < self@.len() ==> {
                    &&& (#[trigger] copy@[at]).0 == self@[at].0
                    &&& cloned::<V>(self@[at].1, copy@[at].1)
                },
    {
        let mut entries: Vec<(Option<Name>, V)> = Vec::new();
        let mut index: usize = 0;
        while index < self.entries.len()
            invariant
                index <= self.entries.len(),
                entries@.len() == index,
                forall|at: int|
                    0 <= at < index ==> {
                        &&& (#[trigger] entries@[at]).0 == self.entries@[at].0
                        &&& cloned::<V>(self.entries@[at].1, entries@[at].1)
                    },
            decreases self.entries.len() - index,
        {
            let entry = &self.entries[index];
            let name = match &entry.0 {
                Some(name) => Some(name.clone()),
                None => None,
            };
            entries.push((name, entry.1.clone()));
            index += 1;
        }
        Registry::from_entries(entries)
    }
}

/// Handle stability, for the new entry: where `K` tells the next index apart,
/// the handle that an insertion returns has the index of the new entry, and
/// points at the name and the value that were inserted.
pub proof fn lemma_new_handle_points_at_new_entry<K: Id, V>(
    entries: Entries<V>,
    entry: (Option<Name>, V),
)
    requires
        entries.len() <= usize::MAX,
        round_trips::<K>(entries.len() as usize),
    ensures
        K::spec_from_index(entries.len() as usize).spec_to_index() == entries.len(),
        name_of(entries.push(entry), K::spec_from_index(entries.len() as usize)) == entry.0,
        value_of(entries.push(entry), K::spec_from_index(entries.len() as usize)) == entry.1,
{
}

/// Handle stability, for the entries that were there: an insertion changes
/// neither the name nor the value that a handle of an earlier entry points
/// at.
pub proof fn lemma_insertion_keeps_entries<K: Id, V>(
    entries: Entries<V>,
    entry: (Option<Name>, V),
    id: K,
)
    requires
        id.spec_to_index() < entries.len(),
    ensures
        name_of(entries.push(entry), id) == name_of(entries, id),
        value_of(entries.push(entry), id) == value_of(entries, id),
{
}

/// Lookup consistency: where `K` tells the position of a name's entry apart,
/// the handle that the name finds points back at that entry: at the name, and
/// at the value stored with it.
pub proof fn lemma_found_handle_points_at_name<K: Id, V>(
    entries: Entries<V>,
    name: Seq<char>,
)
    requires
        entries.len() <= usize::MAX,
        is_registered(entries, name) ==> round_trips::<K>(position_of(entries, name) as usize),
    ensures
        find_in::<K, V>(entries, name) matches Some(id) ==> {
            &&& id.spec_to_index() == position_of(entries, name)
            &&& carries(entries, id.spec_to_index() as int, name)
            &&& name_of(entries, id) matches Some(found) && found@ == name
            &&& value_of(entries, id) == entries[position_of(entries, name)].1
        },
{
    if is_registered(entries, name) {
        lemma_position_is_last_carrier(entries, name);
    }
}

/// Where names are unique, a name's position is that of the one entry
/// carrying it.
pub proof fn lemma_unique_name_has_one_position<V>(
    entries: Entries<V>,
    name: Seq<char>,
    at: int,
)
    requires
        names_are_unique(entries),
        carries(entries, at, name),
    ensures
        position_of(entries, name) == at,
{
    lemma_position_is_last_carrier(entries, name);
}

/// Appending an entry without a name keeps names unique.
pub proof fn lemma_anonymous_keeps_names_unique<V>(entries: Entries<V>, value: V)
    requires
        names_are_unique(entries),
    ensures
        names_are_unique(entries.push((None, value))),
{
    let after = entries.push((None, value));
    assert forall|name: Seq<char>, first: int, second: int|
        carries(after, first, name) && carries(after, second, name) implies first == second by {
        assert(carries(entries, first, name) && carries(entries, second, name));
    }
}

/// Appending an entry under a name that no entry carries keeps names unique.
pub proof fn lemma_new_name_keeps_names_unique<V>(
    entries: Entries<V>,
    name: Name,
    value: V,
)
    requires
        names_are_unique(entries),
        !is_registered(entries, name@),
    ensures
        names_are_unique(entries.push((Some(name), value))),
{
    let after = entries.push((Some(name), value));
    assert forall|other: Seq<char>, first: int, second: int|
        carries(after, first, other) && carries(after, second, other) implies first == second by {
        if first < entries.len() {
            assert(carries(entries, first, other));
        }
        if second < entries.len() {
            assert(carries(entries, second, other));
        }
    }
}

/// A registered name has a last carrier, and `position_of` is it.
pub proof fn lemma_position_is_last_carrier<V>(entries: Entries<V>, name: Seq<char>)
    requires
        is_registered(entries, name),
    ensures
        is_last_carrier(entries, position_of(entries, name), name),
{
    let at = lemma_last_carrier_below(entries, name, entries.len() as int);
    assert(is_last_carrier(entries, at, name));
}

/// A name has one last carrier at most.
pub proof fn lemma_last_carrier_is_unique<V>(
    entries: Entries<V>,
    name: Seq<char>,
    at: int,
)
    requires
        is_last_carrier(entries, at, name),
    ensures
        position_of(entries, name) == at,
{
}

/// Among the first `bound` entries, the last one that carries `name`.
proof fn lemma_last_carrier_below<V>(
    entries: Entries<V>,
    name: Seq<char>,
    bound: int,
) -> (at: int)
    requires
        0 <= bound <= entries.len(),
        exists|some: int| some < bound && carries(entries, some, name),
    ensures
        at < bound,
        carries(entries, at, name),
        forall|later: int| at < later < bound ==> !carries(entries, later, name),
    decreases bound,
{
    if carries(entries, bound - 1, name) {
        bound - 1
    } else {
        lemma_last_carrier_below(entries, name, bound - 1)
    }
}

/// What a new entry changes for `name`: where the entry carries `name`, it
/// becomes the name's last carrier; where it does not, nothing changes.
proof fn lemma_carriers_after_push<V>(
    entries: Entries<V>,
    entry: (Option<Name>, V),
    name: Seq<char>,
)
    ensures
        carries(entries.push(entry), entries.len() as int, name) ==> {
            &&& is_registered(entries.push(entry), name)
            &&& position_of(entries.push(entry), name) == entries.len()
        },
        !carries(entries.push(entry), entries.len() as int, name) ==> {
            &&& is_registered(entries.push(entry), name) == is_registered(entries, name)
            &&& is_registered(entries, name) ==> position_of(entries.push(entry), name)
                == position_of(entries, name)
        },
{
    let after = entries.push(entry);
    let end = entries.len() as int;
    assert forall|at: int| 0 <= at < end implies carries(after, at, name) == carries(
        entries,
        at,
        name,
    ) by {
        assert(after[at] == entries[at]);
    }
    if carries(after, end, name) {
        lemma_last_carrier_is_unique(after, name, end);
    } else if is_registered(entries, name) {
        lemma_position_is_last_carrier(entries, name);
        lemma_last_carrier_is_unique(after, name, position_of(entries, name));
    }
}

/// The name index after a new entry: one more mapping where the entry has a
/// name, the same index where it has none.
proof fn lemma_index_after_push<K: Id, V>(entries: Entries<V>, entry: (Option<Name>, V))
    ensures
        name_index::<K, V>(entries.push(entry)) == (match entry.0 {
            Some(name) => name_index::<K, V>(entries).insert(
                name@,
                K::spec_from_index(entries.len() as usize),
            ),
            None => name_index::<K, V>(entries),
        }),
{
    let after = entries.push(entry);
    let expected = match entry.0 {
        Some(name) => name_index::<K, V>(entries).insert(
            name@,
            K::spec_from_index(entries.len() as usize),
        ),
        None => name_index::<K, V>(entries),
    };
    assert forall|name: Seq<char>| #[trigger]
        name_index::<K, V>(after).dom().contains(name) == expected.dom().contains(name) by {
        lemma_carriers_after_push(entries, entry, name);
    }
    assert forall|name: Seq<char>| #[trigger]
        expected.dom().contains(name) implies name_index::<K, V>(after)[name] == expected[name] by {
        lemma_carriers_after_push(entries, entry, name);
    }
}

} // verus!
