//! Handles: the numbers under which component types, resource types and
//! stages are known. A type is known by its name; its number is its place in
//! the order of declaration.

use vstd::prelude::*;
use vstd::string::*;
use crate::archetype::UNDECLARED;

verus! {
/// A type that can be declared: it has a name, under which it is declared.
/// Two types that are declared in one place must have different names.
pub trait Handle {
    /// The name of the type.
    fn name() -> &'static str;
}

/// A value that is stored as bytes.
pub trait Plain: Sized {
    /// The bytes that stand for the value.
    fn to_bytes(&self) -> Vec<u8>;

    /// The value that the bytes stand for.
    fn from_bytes(bytes: &Vec<u8>) -> Self;
}

/// A singleton value, fetched by its type.
pub trait Resource: Handle + Plain {
}

/// Plain data attached to an entity.
pub trait Component: Handle + Plain {
    /// Whether values of the type have a destructor.
    fn needs_drop() -> bool;
}

/// Whether the type can give the name: whether a call of `H::name` can return
/// a text that reads so.
pub open spec fn named<H: Handle>(name: Seq<char>) -> bool {
    exists|text: &'static str| text@ == name && #[trigger] call_ensures(H::name, (), text)
}

/// Whether the type can make the value of the bytes: whether a call of
/// `P::from_bytes` on bytes that read so can return the value.
pub open spec fn decoded<P: Plain>(bytes: Seq<u8>, value: P) -> bool {
    exists|stored: Vec<u8>|
        stored@ == bytes && #[trigger] call_ensures(P::from_bytes, (&stored,), value)
}

/// Whether the type can give the bytes for the value: whether a call of
/// `P::to_bytes` on the value can return bytes that read so.
pub open spec fn encoded<P: Plain>(value: P, bytes: Seq<u8>) -> bool {
    exists|made: Vec<u8>| made@ == bytes && #[trigger] call_ensures(P::to_bytes, (&value,), made)
}

/// Whether the type can say so of its destructor: whether a call of
/// `C::needs_drop` can return the flag.
pub open spec fn destructible<C: Component>(drop: bool) -> bool {
    call_ensures(C::needs_drop, (), drop)
}

/// The position of the first name at or after `from` that is `name`, or the
/// number of names when there is none.
pub open spec fn name_from(names: Seq<Seq<char>>, name: Seq<char>, from: int) -> int
    decreases names.len() - from,
{
    if from < 0 || from >= names.len() {
        names.len() as int
    } else if names[from] == name {
        from
    } else {
        name_from(names, name, from + 1)
    }
}

/// Where a name is found: at or after `from`, and not before its position.
pub proof fn lemma_name_from(names: Seq<Seq<char>>, name: Seq<char>, from: int)
    requires
        0 <= from <= names.len(),
    ensures
        from <= name_from(names, name, from) <= names.len(),
        name_from(names, name, from) < names.len() ==> names[name_from(names, name, from)] == name,
        forall|k: int| from <= k < name_from(names, name, from) ==> names[k] != name,
    decreases names.len() - from,
{
    if from < names.len() && names[from] != name {
        lemma_name_from(names, name, from + 1);
    }
}

/// The names that were declared, in the order of declaration: the number of a
/// name is its position.
pub struct Handles {
    names: Vec<String>,
}

impl View for Handles {
    type V = Seq<Seq<char>>;

    closed spec fn view(&self) -> Seq<Seq<char>> {
        Seq::new(self.names@.len(), |i: int| self.names@[i]@)
    }
}

impl Handles {
    /// The invariant: no name is declared twice, and every number is below
    /// the one that stands for "not declared".
    pub open spec fn wf(&self) -> bool {
        &&& self@.len() <= UNDECLARED
        &&& forall|i: int, j: int| 0 <= i < j < self@.len() ==> self@[i] != self@[j]
    }

    /// Whether the name is declared.
    pub open spec fn declares(&self, name: Seq<char>) -> bool {
        name_from(self@, name, 0) < self@.len()
    }

    /// The number of a name, or the number that stands for "not declared".
    pub open spec fn id(&self, name: Seq<char>) -> u16 {
        if self.declares(name) {
            name_from(self@, name, 0) as u16
        } else {
            UNDECLARED
        }
    }

    /// No names.
    pub fn new() -> (handles: Handles)
        ensures
            handles.wf(),
            handles@ == Seq::<Seq<char>>::empty(),
    {
        let handles = Handles { names: Vec::new() };
        handles
    }

    /// The number of declared names.
    pub fn len(&self) -> (len: usize)
        ensures
            len == self@.len(),
    {
        self.names.len()
    }

    /// The number of a name, or the number that stands for "not declared".
    pub fn id_of(&self, name: &str) -> (id: u16)
        requires
            self.wf(),
        ensures
            id == self.id(name@),
            self.declares(name@) <==> id != UNDECLARED,
            self.declares(name@) ==> id < self@.len() && self@[id as int] == name@,
    {
        proof {
            lemma_name_from(self@, name@, 0);
        }
        let wanted = String::from_str(name);
        let mut i: usize = 0;
        while i < self.names.len()
            invariant
                self.wf(),
                wanted@ == name@,
                i <= self@.len(),
                name_from(self@, name@, 0) == name_from(self@, name@, i as int),
            decreases self@.len() - i,
        {
            if self.names[i] == wanted {
                return i as u16;
            }
            i += 1;
        }
        UNDECLARED
    }

    /// Whether the name is declared.
    pub fn is_declared(&self, name: &str) -> (declared: bool)
        requires
            self.wf(),
        ensures
            declared == self.declares(name@),
    {
        self.id_of(name) != UNDECLARED
    }

    /// Declares a name, if it is not declared yet and a number is left, and
    /// gives it the next number. Returns the number, or else the number that
    /// stands for "not declared".
    pub fn try_declare(&mut self, name: &str) -> (id: u16)
        requires
            old(self).wf(),
        ensures
            final(self).wf(),
            if !old(self).declares(name@) && old(self)@.len() < UNDECLARED {
                &&& final(self)@ == old(self)@.push(name@)
                &&& id == old(self)@.len()
                &&& final(self).id(name@) == id
            } else {
                &&& final(self)@ == old(self)@
                &&& id == UNDECLARED
            },
    {
        if self.names.len() >= UNDECLARED as usize || self.is_declared(name) {
            return UNDECLARED;
        }
        self.declare(name)
    }

    /// Declares a name and gives it the next number.
    ///
    /// The name must not be declared already, and a number must be left.
    pub fn declare(&mut self, name: &str) -> (id: u16)
        requires
            old(self).wf(),
            !old(self).declares(name@),
            old(self)@.len() < UNDECLARED,
        ensures
            final(self).wf(),
            final(self)@ == old(self)@.push(name@),
            id == old(self)@.len(),
            final(self).id(name@) == id,
            forall|other: Seq<char>| old(self).declares(other) ==> final(self).id(other) == old(self).id(other),
    {
        let id = self.names.len() as u16;
        self.names.push(String::from_str(name));
        proof {
            assert(self@ =~= old(self)@.push(name@));
            lemma_name_from(old(self)@, name@, 0);
            lemma_name_from(self@, name@, 0);
            assert(self@[id as int] == name@);
            assert forall|other: Seq<char>| old(self).declares(other) implies self.id(other) == old(
                self,
            ).id(other) by {
                lemma_name_from(old(self)@, other, 0);
                lemma_name_from(self@, other, 0);
                let was = name_from(old(self)@, other, 0);
                assert(self@[was] == other);
            }
        }
        id
    }
}
} // verus!
