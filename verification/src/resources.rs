//! The resource store: singleton values, one for each declared resource type,
//! stored as bytes under the number of the type.

use vstd::prelude::*;
use vstd::string::*;
use crate::archetype::UNDECLARED;
use crate::error::Trace;
use crate::handle::{Handle, Handles, Resource, decoded, encoded, named};
use crate::params::{ResMut, ResRef};

verus! {
/// What the store holds, as plain values: the names of the declared resource
/// types, and the bytes of the value of each.
pub struct ResourcesView {
    pub names: Seq<Seq<char>>,
    pub values: Seq<Seq<u8>>,
}

/// The message of a fetch of a resource that was not declared.
pub open spec fn undeclared_resource_message(name: Seq<char>) -> Seq<char> {
    "Handle for resource "@ + name + " has not been initialized! Did you forget to declare it?"@
}

/// What a fetch of a resource type from the store gives, under a name that
/// the type can give: for a name that is declared, a value that the type can
/// make of the bytes stored under the name; for a name that is not declared,
/// the message that says so.
pub open spec fn resource_found<R: Resource>(store: Resources, found: Trace<R>) -> bool {
    exists|name: Seq<char>| #[trigger]
        named::<R>(name) && match found {
            Trace::Pass(value) => store.declares(name) && decoded::<R>(
                store@.values[store.id(name) as int],
                value,
            ),
            Trace::Fail(message) => !store.declares(name) && message@
                == undeclared_resource_message(name),
        }
}

/// What the declaration of a resource of a name and bytes does to the store:
/// a name that is not declared yet gets the next number, if one is left, and
/// the bytes are stored as its value; otherwise the store stays as it is, and
/// the number is the one that stands for "not declared".
pub open spec fn resource_declared_as(
    before: Resources,
    after: Resources,
    name: Seq<char>,
    bytes: Seq<u8>,
    id: u16,
) -> bool {
    if !before.declares(name) && before@.values.len() < UNDECLARED {
        &&& id == before@.values.len()
        &&& after.id(name) == id
        &&& after@ == (ResourcesView {
            names: before@.names.push(name),
            values: before@.values.push(bytes),
        })
    } else {
        id == UNDECLARED && after@ == before@
    }
}

/// The store of resources.
pub struct Resources {
    resources: Vec<Vec<u8>>,
    names: Handles,
}

impl View for Resources {
    type V = ResourcesView;

    closed spec fn view(&self) -> ResourcesView {
        ResourcesView {
            names: self.names@,
            values: Seq::new(self.resources@.len(), |i: int| self.resources@[i]@),
        }
    }
}

impl Resources {
    /// The store's invariant: every declared type has a value, and no type is
    /// declared twice.
    pub closed spec fn wf(&self) -> bool {
        &&& self.names.wf()
        &&& self.names@.len() == self.resources@.len()
    }

    /// Whether a resource type of the name is declared.
    pub closed spec fn declares(&self, name: Seq<char>) -> bool {
        self.names.declares(name)
    }

    /// The number of a resource type, or the number that stands for "not
    /// declared".
    pub closed spec fn id(&self, name: Seq<char>) -> u16 {
        self.names.id(name)
    }

    /// A store without resources.
    pub fn new() -> (resources: Resources)
        ensures
            resources.wf(),
            resources@.names.len() == 0,
            resources@.values.len() == 0,
    {
        Resources { resources: Vec::new(), names: Handles::new() }
    }

    /// The number of resources.
    pub fn len(&self) -> (len: usize)
        ensures
            len == self@.values.len(),
    {
        self.resources.len()
    }

    /// The number of a resource name, or the number that stands for "not
    /// declared".
    pub fn id_of_name(&self, name: &str) -> (id: u16)
        requires
            self.wf(),
        ensures
            id == self.id(name@),
            self.declares(name@) <==> id != UNDECLARED,
            self.declares(name@) ==> id < self@.values.len(),
    {
        self.names.id_of(name)
    }

    /// The bytes of the resource of a name, if it is declared.
    pub fn value_of(&self, name: &str) -> (value: Option<&Vec<u8>>)
        requires
            self.wf(),
        ensures
            match value {
                Some(bytes) => self.declares(name@) && bytes@ == self@.values[self.id(name@) as int],
                None => !self.declares(name@),
            },
    {
        let id = self.names.id_of(name);
        if id == UNDECLARED {
            None
        } else {
            Some(&self.resources[id as usize])
        }
    }

    /// Declares a resource name under the next number and stores bytes as
    /// its value.
    ///
    /// The name must not be declared already, and a number must be left.
    pub fn declare(&mut self, name: &str, bytes: Vec<u8>) -> (id: u16)
        requires
            old(self).wf(),
            !old(self).declares(name@),
            old(self)@.values.len() < UNDECLARED,
        ensures
            final(self).wf(),
            final(self)@ == (ResourcesView {
                names: old(self)@.names.push(name@),
                values: old(self)@.values.push(bytes@),
            }),
            id == old(self)@.values.len(),
            final(self).id(name@) == id,
    {
        let id = self.names.declare(name);
        self.resources.push(bytes);
        assert(self@.values =~= old(self)@.values.push(bytes@));
        id
    }

    /// Declares a resource name under the next number and stores bytes as
    /// its value, if the name is not declared yet and a number is left.
    /// Returns the number, or else the number that stands for "not declared".
    pub fn try_declare(&mut self, name: &str, bytes: Vec<u8>) -> (id: u16)
        requires
            old(self).wf(),
        ensures
            final(self).wf(),
            if !old(self).declares(name@) && old(self)@.values.len() < UNDECLARED {
                &&& id == old(self)@.values.len()
                &&& final(self).id(name@) == id
                &&& final(self)@ == (ResourcesView {
                    names: old(self)@.names.push(name@),
                    values: old(self)@.values.push(bytes@),
                })
            } else {
                &&& id == UNDECLARED
                &&& final(self)@ == old(self)@
            },
    {
        if self.resources.len() >= UNDECLARED as usize || self.names.is_declared(name) {
            return UNDECLARED;
        }
        self.declare(name, bytes)
    }

    /// Whether the resource type is declared.
    pub fn has<R: Resource>(&self) -> (declared: bool)
        requires
            self.wf(),
        ensures
            exists|name: Seq<char>| #[trigger] named::<R>(name) && declared == self.declares(name),
    {
        let name = R::name();
        assert(named::<R>(name@));
        self.names.is_declared(name)
    }

    /// The number of the resource type, or the number that stands for "not
    /// declared".
    pub fn id_of<R: Resource>(&self) -> (id: u16)
        requires
            self.wf(),
        ensures
            id == UNDECLARED || id < self@.values.len(),
            exists|name: Seq<char>| #[trigger] named::<R>(name) && id == self.id(name),
    {
        let name = R::name();
        assert(named::<R>(name@));
        self.id_of_name(name)
    }

    /// Declares a resource type under the next number and stores its value,
    /// as `try_declare` does with the name of the type and the bytes of the
    /// value. Returns the number. A type that is declared already is left as
    /// it is, as is every type when no number is left: the number that stands
    /// for "not declared" is returned then.
    pub fn add_resource<R: Resource>(&mut self, resource: R) -> (id: u16)
        requires
            old(self).wf(),
        ensures
            final(self).wf(),
            exists|name: Seq<char>, bytes: Seq<u8>|
                #![trigger named::<R>(name), encoded::<R>(resource, bytes)]
                named::<R>(name) && encoded::<R>(resource, bytes) && resource_declared_as(
                    *old(self),
                    *final(self),
                    name,
                    bytes,
                    id,
                ),
    {
        let name = R::name();
        assert(named::<R>(name@));
        let bytes = resource.to_bytes();
        assert(encoded::<R>(resource, bytes@));
        self.try_declare(name, bytes)
    }

    /// The value of a resource type, for reading: what the type makes of the
    /// bytes that `value_of` finds under its name. Fails if the type was not
    /// declared.
    pub fn get_resource_ref<R: Resource>(&self) -> (found: Trace<ResRef<R>>)
        requires
            self.wf(),
        ensures
            match found {
                Trace::Pass(resource) => resource_found::<R>(*self, Trace::Pass(resource.0)),
                Trace::Fail(message) => resource_found::<R>(*self, Trace::Fail(message)),
            },
    {
        let name = R::name();
        assert(named::<R>(name@));
        match self.value_of(name) {
            Some(bytes) => {
                let value = R::from_bytes(bytes);
                assert(decoded::<R>(self@.values[self.id(name@) as int], value));
                Trace::Pass(ResRef(value))
            },
            None => {
                Trace::Fail(undeclared_resource(name))
            },
        }
    }

    /// The value of a resource type, for writing: a copy of what
    /// `get_resource_ref` gives, which takes effect when it is stored. Fails
    /// if the type was not declared.
    pub fn get_resource_mut<R: Resource>(&self) -> (found: Trace<ResMut<R>>)
        requires
            self.wf(),
        ensures
            match found {
                Trace::Pass(resource) => resource_found::<R>(*self, Trace::Pass(resource.0)),
                Trace::Fail(message) => resource_found::<R>(*self, Trace::Fail(message)),
            },
    {
        let name = R::name();
        assert(named::<R>(name@));
        match self.value_of(name) {
            Some(bytes) => {
                let value = R::from_bytes(bytes);
                assert(decoded::<R>(self@.values[self.id(name@) as int], value));
                Trace::Pass(ResMut(value))
            },
            None => {
                Trace::Fail(undeclared_resource(name))
            },
        }
    }

    /// Stores bytes as the value of the resource with the given number.
    /// Without such a resource nothing changes, and `false` is returned.
    pub fn store(&mut self, id: u16, bytes: Vec<u8>) -> (stored: bool)
        requires
            old(self).wf(),
        ensures
            final(self).wf(),
            stored == (id < old(self)@.values.len()),
            final(self)@ == (if stored {
                ResourcesView { values: old(self)@.values.update(id as int, bytes@), ..old(self)@ }
            } else {
                old(self)@
            }),
    {
        if (id as usize) < self.resources.len() {
            self.resources[id as usize] = bytes;
            assert(self@.values =~= old(self)@.values.update(id as int, bytes@));
            true
        } else {
            false
        }
    }
}

/// Builds the message of a fetch of a resource that was not declared.
pub fn undeclared_resource(name: &str) -> (message: String)
    ensures
        message@ == undeclared_resource_message(name@),
{
    let mut message = String::from_str("Handle for resource ");
    message.append(name);
    message.append(" has not been initialized! Did you forget to declare it?");
    message
}
} // verus!
