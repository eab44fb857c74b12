//! The descriptor registry: the interned home of every type descriptor.
//! Each registered descriptor lives at one canonical index for the life of
//! the registry, so comparing indices is comparing descriptor identity.
//! A fresh registry holds the two built-in immediate descriptors, number
//! and boolean; further descriptors are registered explicitly, once,
//! before any value of theirs exists.

use vstd::prelude::*;
use crate::decimal::{decimal, push_decimal};
use crate::{Gender, GenderId, OBJECT_SIZE};

verus! {

/// Index of the built-in number descriptor in every registry.
pub const NUMBER: GenderId = 0;

/// Index of the built-in boolean descriptor in every registry.
pub const BOOLEAN: GenderId = 1;

/// The process-wide table of type descriptors, constructed once before
/// evaluation begins and then only appended to. Descriptors are never
/// mutated or removed: an index, once handed out, names the same
/// descriptor forever.
pub struct Registry {
    genders: Vec<Gender>,
}

impl Registry {
    /// How many descriptors are interned.
    pub closed spec fn len(self) -> nat {
        self.genders@.len()
    }

    /// Whether `id` names an interned descriptor.
    pub open spec fn valid(self, id: int) -> bool {
        0 <= id < self.len()
    }

    /// The descriptor interned at `id`.
    pub closed spec fn gender_at(self, id: int) -> Gender
        recommends
            self.valid(id),
    {
        self.genders@[id]
    }

    /// The built-in descriptors a fresh registry owes: number and boolean,
    /// both immediate (`size == 0`), both with empty method tables.
    pub open spec fn builtins_ok(self) -> bool {
        &&& self.valid(NUMBER as int)
        &&& self.valid(BOOLEAN as int)
        &&& self.gender_at(NUMBER as int).size == 0
        &&& self.gender_at(BOOLEAN as int).size == 0
        &&& self.gender_at(NUMBER as int).name@ == "number"@
        &&& self.gender_at(BOOLEAN as int).name@ == "boolean"@
        &&& self.gender_at(NUMBER as int).methods@.len() == 0
        &&& self.gender_at(BOOLEAN as int).methods@.len() == 0
    }

    /// A registry holding exactly the built-in descriptors.
    pub fn new() -> (r: Registry)
        ensures
            r.len() == 2,
            r.builtins_ok(),
    {
        let mut genders: Vec<Gender> = Vec::new();
        genders.push(Gender { size: 0, name: "number".to_owned(), methods: Vec::new() });
        genders.push(Gender { size: 0, name: "boolean".to_owned(), methods: Vec::new() });
        Registry { genders }
    }

    /// Intern one more descriptor and hand back its canonical index. Every
    /// registration gets a fresh index, so two registrations of
    /// structurally identical descriptors still yield distinct types.
    pub fn register(&mut self, gender: Gender) -> (id: GenderId)
        ensures
            id == old(self).len(),
            final(self).len() == old(self).len() + 1,
            final(self).gender_at(id as int) == gender,
            forall|j: int| old(self).valid(j) ==> final(self).gender_at(j) == old(self).gender_at(j),
    {
        let id = self.genders.len();
        self.genders.push(gender);
        id
    }

    /// Borrow the descriptor interned at `id`.
    pub fn get(&self, id: GenderId) -> (g: &Gender)
        requires
            self.valid(id as int),
        ensures
            *g == self.gender_at(id as int),
    {
        &self.genders[id]
    }
}

/// The diagnostic label of a fixed-length string descriptor.
pub open spec fn string_name(len: nat) -> Seq<char> {
    "string of length "@ + decimal(len)
}

/// A descriptor for a fixed-length string type: one owned byte of payload
/// per character, an empty method table, and a label naming the length.
/// Part of the registry's vocabulary as an extension point for compound
/// types; the evaluator itself never builds values of it.
pub fn string(len: usize) -> (g: Gender)
    ensures
        g.size == len,
        g.name@ == string_name(len as nat),
        g.methods@.len() == 0,
{
    let mut name: String = "string of length ".to_owned();
    push_decimal(&mut name, len);
    Gender { size: len, name, methods: Vec::new() }
}

/// The diagnostic label of a fixed-length vector descriptor.
pub open spec fn simple_vector_name(repeat: nat) -> Seq<char> {
    "simple vector of length "@ + decimal(repeat)
}

/// A descriptor for a fixed-length homogeneous vector type: payload room
/// for `repeat` values of the two-word representation, an empty method
/// table, and a label naming the repeat count. An extension point, like
/// [`string`]; the evaluator itself never builds values of it.
pub fn simple_vector(repeat: usize) -> (g: Gender)
    requires
        repeat * OBJECT_SIZE <= usize::MAX,
    ensures
        g.size == repeat * OBJECT_SIZE,
        g.name@ == simple_vector_name(repeat as nat),
        g.methods@.len() == 0,
{
    let size = repeat * OBJECT_SIZE;
    let mut name: String = "simple vector of length ".to_owned();
    push_decimal(&mut name, repeat);
    Gender { size, name, methods: Vec::new() }
}

} // verus!
