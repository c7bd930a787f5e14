//! The catalog of fields: the name and the id of each, and which of them
//! are faceted, with what type of value.

use std::collections::HashMap;
use vstd::prelude::*;

verus! {

broadcast use vstd::std_specs::hash::group_hash_axioms;

/// The type of the values of a faceted field.
#[derive(Debug, Copy, Clone, PartialEq, Eq)]
pub enum FacetType {
    String,
    Float,
    Integer,
}

/// The texts of a sequence of strings.
pub open spec fn texts(strings: Seq<String>) -> Seq<Seq<char>> {
    strings.map_values(|s: String| s@)
}

/// The names among the first `upto` slots, in the order of their ids.
pub open spec fn names_upto(names: Seq<Option<String>>, upto: int) -> Seq<Seq<char>>
    decreases upto,
{
    if upto <= 0 {
        Seq::empty()
    } else {
        match names[upto - 1] {
            Some(name) => names_upto(names, upto - 1).push(name@),
            None => names_upto(names, upto - 1),
        }
    }
}

/// The names among the first `upto` slots whose id is faceted, in the
/// order of their ids.
pub open spec fn faceted_names_upto(
    names: Seq<Option<String>>,
    faceted: Map<u8, FacetType>,
    upto: int,
) -> Seq<Seq<char>>
    decreases upto,
{
    if upto <= 0 {
        Seq::empty()
    } else {
        match names[upto - 1] {
            Some(name) => if faceted.contains_key((upto - 1) as u8) {
                faceted_names_upto(names, faceted, upto - 1).push(name@)
            } else {
                faceted_names_upto(names, faceted, upto - 1)
            },
            None => faceted_names_upto(names, faceted, upto - 1),
        }
    }
}

/// The slots, with empty ones added at the end until there is one at
/// `place`.
pub open spec fn reaching(slots: Seq<Option<String>>, place: int) -> Seq<Option<String>> {
    if place < slots.len() {
        slots
    } else {
        slots + Seq::new((place + 1 - slots.len()) as nat, |i: int| None::<String>)
    }
}

/// The fields of an index: each has an id and a name, and no two have the
/// same id or the same name.
pub struct FieldsIdsMap {
    names: Vec<Option<String>>,
}

impl FieldsIdsMap {
    #[verifier::type_invariant]
    spec fn one_name_one_id(self) -> bool {
        &&& self.names@.len() <= 256
        &&& forall|i: int, j: int|
            #![trigger self.names@[i], self.names@[j]]
            0 <= i < j < self.names@.len() && self.names@[i] is Some && self.names@[j] is Some
                ==> self.names@[i]->0@ != self.names@[j]->0@
    }

    /// The slots of the map: at the place of an id, the name of its field.
    pub closed spec fn slots(&self) -> Seq<Option<String>> {
        self.names@
    }

    /// The name of the field with the given id, if there is one.
    pub open spec fn name_of(&self, id: u8) -> Option<Seq<char>> {
        if id < self.slots().len() {
            match self.slots()[id as int] {
                Some(name) => Some(name@),
                None => None,
            }
        } else {
            None
        }
    }

    /// The id of the field with the given name, if there is one.
    pub open spec fn id_of(&self, name: Seq<char>) -> Option<u8> {
        if exists|id: u8| self.name_of(id) == Some(name) {
            Some(choose|id: u8| self.name_of(id) == Some(name))
        } else {
            None
        }
    }

    /// The names of all fields, in the order of their ids.
    pub open spec fn all_names(&self) -> Seq<Seq<char>> {
        names_upto(self.slots(), self.slots().len() as int)
    }

    /// The names of the faceted fields, in the order of their ids.
    pub open spec fn faceted_names(&self, faceted: Map<u8, FacetType>) -> Seq<Seq<char>> {
        faceted_names_upto(self.slots(), faceted, self.slots().len() as int)
    }

    /// A map without fields.
    pub fn new() -> (map: FieldsIdsMap)
        ensures
            map.slots() == Seq::<Option<String>>::empty(),
    {
        FieldsIdsMap { names: Vec::new() }
    }

    /// The id of the field with the given name.
    pub fn id(&self, name: &String) -> (found: Option<u8>)
        ensures
            found == self.id_of(name@),
            found matches Some(id) ==> self.name_of(id) == Some(name@),
            found is None ==> forall|id: u8| self.name_of(id) != Some(name@),
    {
        proof {
            use_type_invariant(self);
        }
        let mut at: usize = 0;
        while at < self.names.len()
            invariant
                0 <= at <= self.names@.len() <= 256,
                self.one_name_one_id(),
                forall|id: u8| id < at ==> self.name_of(id) != Some(name@),
            decreases self.names@.len() - at,
        {
            let same = match &self.names[at] {
                Some(held) => *held == *name,
                None => false,
            };
            if same {
                let id: u8 = at as u8;
                assert(self.name_of(id) == Some(name@));
                assert forall|other: u8| self.name_of(other) == Some(name@) implies other == id by {
                    if other != id {
                        if other < id {
                            assert(self.names@[other as int]->0@ != self.names@[id as int]->0@);
                        } else {
                            assert(self.names@[id as int]->0@ != self.names@[other as int]->0@);
                        }
                    }
                }
                return Some(id);
            }
            at += 1;
        }
        None
    }

    /// The name of the field with the given id.
    pub fn name(&self, id: u8) -> (found: Option<&String>)
        ensures
            found is Some <==> self.name_of(id) is Some,
            found matches Some(name) ==> self.name_of(id) == Some(name@),
    {
        let at: usize = id as usize;
        if at < self.names.len() {
            match &self.names[at] {
                Some(name) => Some(name),
                None => None,
            }
        } else {
            None
        }
    }

    /// Adds a field. Nothing changes where the id or the name is taken.
    pub fn insert(&mut self, id: u8, name: String) -> (added: bool)
        ensures
            added <==> old(self).name_of(id) is None && old(self).id_of(name@) is None,
            !added ==> final(self).slots() == old(self).slots(),
            added ==> final(self).slots() == reaching(old(self).slots(), id as int).update(
                id as int,
                Some(name),
            ),
            added ==> final(self).name_of(id) == Some(name@),
            added ==> forall|other: u8|
                other != id ==> final(self).name_of(other) == old(self).name_of(other),
    {
        if self.name(id).is_some() || self.id(&name).is_some() {
            return false;
        }
        proof {
            use_type_invariant(&*self);
        }
        let ghost before = *self;
        let mut taken = FieldsIdsMap::new();
        core::mem::swap(self, &mut taken);
        let FieldsIdsMap { mut names } = taken;
        let at: usize = id as usize;
        while names.len() <= at
            invariant
                names@.len() <= 256,
                at < 256,
                before.slots().len() <= names@.len(),
                names@.len() == before.slots().len() || names@.len() <= at + 1,
                forall|i: int| 0 <= i < before.slots().len() ==> names@[i] == before.slots()[i],
                forall|i: int| before.slots().len() <= i < names@.len() ==> names@[i] is None,
            decreases at + 1 - names@.len(),
        {
            names.push(None);
        }
        proof {
            assert forall|i: int|
                0 <= i < names@.len() && i != id && names@[i] is Some implies names@[i]->0@
                != name@ by {
                assert(before.name_of(i as u8) == Some(names@[i]->0@));
            }
        }
        assert(names@ =~= reaching(before.slots(), id as int));
        names.set(at, Some(name));
        *self = FieldsIdsMap { names };
        proof {
            assert forall|other: u8| other != id implies self.name_of(other) == before.name_of(
                other,
            ) by {}
        }
        true
    }

    /// The names of all fields, in the order of their ids.
    pub fn names(&self) -> (listed: Vec<String>)
        ensures
            texts(listed@) == self.all_names(),
    {
        let mut listed: Vec<String> = Vec::new();
        let mut at: usize = 0;
        assert(texts(listed@) =~= names_upto(self.names@, 0));
        while at < self.names.len()
            invariant
                0 <= at <= self.names@.len(),
                texts(listed@) == names_upto(self.names@, at as int),
            decreases self.names@.len() - at,
        {
            let ghost before = listed@;
            match &self.names[at] {
                Some(name) => {
                    listed.push(name.clone());
                    assert(texts(listed@) =~= texts(before).push(name@));
                },
                None => {},
            }
            at += 1;
        }
        listed
    }

    /// The names of the faceted fields, in the order of their ids.
    pub fn names_of_faceted(&self, faceted: &HashMap<u8, FacetType>) -> (listed: Vec<String>)
        ensures
            texts(listed@) == self.faceted_names(faceted@),
    {
        let mut listed: Vec<String> = Vec::new();
        let mut at: usize = 0;
        proof {
            use_type_invariant(self);
        }
        assert(texts(listed@) =~= faceted_names_upto(self.names@, faceted@, 0));
        while at < self.names.len()
            invariant
                0 <= at <= self.names@.len() <= 256,
                texts(listed@) == faceted_names_upto(self.names@, faceted@, at as int),
            decreases self.names@.len() - at,
        {
            let ghost before = listed@;
            let id: u8 = at as u8;
            match &self.names[at] {
                Some(name) => {
                    if faceted.contains_key(&id) {
                        listed.push(name.clone());
                        assert(texts(listed@) =~= texts(before).push(name@));
                    }
                },
                None => {},
            }
            at += 1;
        }
        listed
    }
}

} // verus!
