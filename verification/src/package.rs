//! Packages: the components of one entity, bundled for insertion; and the
//! addresses of rows.

use vstd::prelude::*;
use crate::anon::{Anon, AnonView, erased_as};
use crate::archetype::{fingerprint, Archetype, Column, ComponentId, TableIndex};
use crate::handle::{Component, Handles, named};

verus! {
/// The views of a list of erased values, in order.
pub open spec fn anon_views(values: Seq<Anon>) -> Seq<AnonView> {
    Seq::new(values.len(), |i: int| values[i]@)
}

/// The component ids of a list of values, in order.
pub open spec fn ids_of(values: Seq<AnonView>) -> Seq<ComponentId> {
    Seq::new(values.len(), |i: int| values[i].id)
}

/// No component occurs twice.
pub open spec fn distinct_ids(values: Seq<AnonView>) -> bool {
    forall|i: int, j: int|
        0 <= i < j < values.len() ==> (#[trigger] values[i]).id != (#[trigger] values[j]).id
}

/// The position of the first value at or after `from` whose component is `id`,
/// or the number of values when there is none.
pub open spec fn find_from(values: Seq<AnonView>, id: ComponentId, from: int) -> int
    decreases values.len() - from,
{
    if from < 0 || from >= values.len() {
        values.len() as int
    } else if values[from].id == id {
        from
    } else {
        find_from(values, id, from + 1)
    }
}

/// The values without the first one of component `id`.
pub open spec fn without_id(values: Seq<AnonView>, id: ComponentId) -> Seq<AnonView> {
    let at = find_from(values, id, 0);
    if at < values.len() {
        values.remove(at)
    } else {
        values
    }
}

/// The values with `value` in the place of the first one of the same component,
/// or behind all others when its component is new.
pub open spec fn with_value(values: Seq<AnonView>, value: AnonView) -> Seq<AnonView> {
    let at = find_from(values, value.id, 0);
    if at < values.len() {
        values.update(at, value)
    } else {
        values.push(value)
    }
}

/// Where a component is found: at or after `from`; before it no value has the
/// component; and if the position is within the values, the value there has it.
pub proof fn lemma_find_from(values: Seq<AnonView>, id: ComponentId, from: int)
    requires
        0 <= from <= values.len(),
    ensures
        from <= find_from(values, id, from) <= values.len(),
        find_from(values, id, from) < values.len() ==> values[find_from(values, id, from)].id == id,
        forall|k: int| from <= k < find_from(values, id, from) ==> (#[trigger] values[k]).id != id,
    decreases values.len() - from,
{
    if from < values.len() && values[from].id != id {
        lemma_find_from(values, id, from + 1);
    }
}

/// The components of one entity, awaiting insertion. No component occurs twice.
pub struct Package {
    pub(crate) components: Vec<Anon>,
}

impl View for Package {
    type V = Seq<AnonView>;

    closed spec fn view(&self) -> Seq<AnonView> {
        anon_views(self.components@)
    }
}

impl Package {
    /// The package's invariant: no component occurs twice.
    pub open spec fn wf(&self) -> bool {
        distinct_ids(self@)
    }

    /// An empty package.
    pub fn new() -> (package: Package)
        ensures
            package@ == Seq::<AnonView>::empty(),
            package.wf(),
    {
        let package = Package { components: Vec::with_capacity(8) };
        package
    }

    /// The number of components.
    pub fn len(&self) -> (len: usize)
        ensures
            len == self@.len(),
    {
        self.components.len()
    }

    /// The component at position `i`.
    pub fn get(&self, i: usize) -> (anon: &Anon)
        requires
            i < self@.len(),
        ensures
            anon@ == self@[i as int],
    {
        &self.components[i]
    }

    /// The fingerprint of the package's components.
    pub fn archetype(&self) -> (archetype: Archetype)
        ensures
            archetype == fingerprint(ids_of(self@)),
    {
        let mut archetype = Archetype::new();
        let mut i: usize = 0;
        while i < self.components.len()
            invariant
                i <= self.components.len(),
                archetype == fingerprint(ids_of(self@).subrange(0, i as int)),
            decreases self.components.len() - i,
        {
            let id = self.components[i].id();
            proof {
                let next = ids_of(self@).subrange(0, i as int + 1);
                assert(next.drop_last() =~= ids_of(self@).subrange(0, i as int));
            }
            archetype = archetype.add(id as u64);
            i += 1;
        }
        assert(ids_of(self@).subrange(0, i as int) =~= ids_of(self@));
        archetype
    }

    /// The position of the first component with the given id, or the number
    /// of components when there is none.
    pub fn find(&self, id: ComponentId) -> (at: usize)
        ensures
            at == find_from(self@, id, 0),
            at <= self@.len(),
    {
        let mut i: usize = 0;
        while i < self.components.len()
            invariant
                i <= self.components.len(),
                find_from(self@, id, 0) == find_from(self@, id, i as int),
            decreases self.components.len() - i,
        {
            if self.components[i].id() == id {
                return i;
            }
            i += 1;
        }
        i
    }

    /// Whether the package holds a component with the given id.
    pub fn contains(&self, id: ComponentId) -> (found: bool)
        ensures
            found == ids_of(self@).contains(id),
    {
        let at = self.find(id);
        proof {
            lemma_find_from(self@, id, 0);
            if at < self@.len() {
                assert(ids_of(self@)[at as int] == id);
            }
        }
        at < self.components.len()
    }

    /// Takes the component with the given id out of the package, if it is
    /// there, and destroys it.
    pub fn remove(&mut self, id: ComponentId)
        ensures
            final(self)@ == without_id(old(self)@, id),
            old(self).wf() ==> final(self).wf(),
    {
        let at = self.find(id);
        if at < self.components.len() {
            let gone = self.components.remove(at);
            gone.clear();
        }
    }

    /// Puts a component into the package: in the place of the one with the same
    /// id, which is destroyed, or behind all others when its id is new.
    pub fn insert_anon(&mut self, anon: Anon)
        ensures
            final(self)@ == with_value(old(self)@, anon@),
            old(self).wf() ==> final(self).wf(),
    {
        let at = self.find(anon.id());
        proof {
            lemma_find_from(self@, anon@.id, 0);
        }
        if at < self.components.len() {
            let mut replaced = anon;
            std::mem::swap(&mut self.components[at], &mut replaced);
            replaced.clear();
        } else {
            self.components.push(anon);
        }
    }

    /// Takes the last component out of the package.
    pub fn pop(&mut self) -> (last: Option<Anon>)
        ensures
            match last {
                Some(anon) => old(self)@.len() > 0 && anon@ == old(self)@.last() && final(self)@
                    == old(self)@.drop_last(),
                None => old(self)@.len() == 0 && final(self)@ == old(self)@,
            },
            old(self).wf() ==> final(self).wf(),
    {
        let last = self.components.pop();
        proof {
            if last is Some {
                assert(self@ =~= old(self)@.drop_last());
            } else {
                assert(self@ =~= old(self)@);
            }
        }
        last
    }

    /// The package with a component value put in, as `insert_anon` puts it
    /// in, under the number that the component type was declared with, or
    /// under the number that stands for "not declared".
    pub fn with<C: Component>(self, components: &Handles, value: C) -> (package: Package)
        requires
            components.wf(),
        ensures
            exists|name: Seq<char>, anon: AnonView|
                #![trigger named::<C>(name), with_value(self@, anon)]
                named::<C>(name) && erased_as::<C>(components.id(name), value, anon) && package@
                    == with_value(self@, anon),
            self.wf() ==> package.wf(),
    {
        let mut package = self;
        let name = C::name();
        assert(named::<C>(name@));
        let anon = Anon::new::<C>(components.id_of(name), &value);
        package.insert_anon(anon);
        package
    }

    /// The finished package.
    pub fn build(self) -> (package: Package)
        ensures
            package == self,
    {
        self
    }
}

/// The address of one row: the table and the row's position in it. It is a
/// cursor, not an identity: removing a row moves the last row into its place.
#[derive(Copy, Clone, PartialEq, Eq, Structural, PartialOrd, Ord, Hash, Debug)]
pub struct PackageIndex {
    pub table: TableIndex,
    pub col: Column,
}

/// A cursor over the addresses of the rows of one table.
pub struct PackageIndexIter {
    pub table: TableIndex,
    pub col: usize,
    pub len: usize,
}

impl PackageIndexIter {
    /// The addresses that the cursor has yet to yield, in order.
    pub open spec fn remaining(&self) -> Seq<PackageIndex> {
        Seq::new(
            if self.col < self.len {
                (self.len - self.col) as nat
            } else {
                0
            },
            |k: int| PackageIndex { table: self.table, col: (self.col + k) as usize },
        )
    }

    /// The next address, or `None` when every row has been yielded.
    pub fn next(&mut self) -> (item: Option<PackageIndex>)
        ensures
            final(self).table == old(self).table,
            final(self).len == old(self).len,
            match item {
                Some(index) => {
                    &&& old(self).remaining().len() > 0
                    &&& index == old(self).remaining()[0]
                    &&& final(self).remaining() == old(self).remaining().drop_first()
                },
                None => old(self).remaining().len() == 0 && final(self).remaining().len() == 0,
            },
    {
        if self.col >= self.len {
            None
        } else {
            let index = PackageIndex { table: self.table, col: self.col };
            self.col = self.col + 1;
            Some(index)
        }
    }
}

/// The addresses that a stack of cursors yields: those of the last cursor first.
pub open spec fn index_chain_items(iters: Seq<PackageIndexIter>) -> Seq<PackageIndex>
    decreases iters.len(),
{
    if iters.len() == 0 {
        Seq::empty()
    } else {
        iters.last().remaining() + index_chain_items(iters.drop_last())
    }
}

/// The sum of the lengths of the cursors.
pub open spec fn index_chain_span(iters: Seq<PackageIndexIter>) -> nat
    decreases iters.len(),
{
    if iters.len() == 0 {
        0
    } else {
        index_chain_span(iters.drop_last()) + iters.last().len as nat
    }
}

/// The span of a prefix of a chain is at most the span of the chain.
pub proof fn lemma_index_chain_span_grows(iters: Seq<PackageIndexIter>, upto: int)
    requires
        0 <= upto <= iters.len(),
    ensures
        index_chain_span(iters.subrange(0, upto)) <= index_chain_span(iters),
    decreases iters.len(),
{
    if upto == iters.len() {
        assert(iters.subrange(0, upto) =~= iters);
    } else {
        lemma_index_chain_span_grows(iters.drop_last(), upto);
        assert(iters.drop_last().subrange(0, upto) =~= iters.subrange(0, upto));
    }
}

/// Cursors over the rows of several tables, yielded one table after another:
/// the table that was pushed last comes first.
pub struct PackageIndexChain {
    pub iters: Vec<PackageIndexIter>,
}

impl PackageIndexChain {
    /// The addresses that the chain has yet to yield, in order.
    pub open spec fn remaining(&self) -> Seq<PackageIndex> {
        index_chain_items(self.iters@)
    }

    /// Puts a cursor on top of the chain: its addresses are yielded before
    /// those of the cursors already there.
    pub fn push(&mut self, iter: PackageIndexIter)
        ensures
            final(self).iters@ == old(self).iters@.push(iter),
            final(self).remaining() == iter.remaining() + old(self).remaining(),
    {
        self.iters.push(iter);
        assert(self.iters@.drop_last() =~= old(self).iters@);
    }

    /// The sum of the lengths of the cursors in the chain.
    pub fn len(&self) -> (count: usize)
        requires
            index_chain_span(self.iters@) <= usize::MAX,
        ensures
            count == index_chain_span(self.iters@),
    {
        let mut count: usize = 0;
        let mut i: usize = 0;
        while i < self.iters.len()
            invariant
                i <= self.iters.len(),
                count == index_chain_span(self.iters@.subrange(0, i as int)),
                index_chain_span(self.iters@) <= usize::MAX,
            decreases self.iters.len() - i,
        {
            proof {
                lemma_index_chain_span_grows(self.iters@, i as int + 1);
                assert(self.iters@.subrange(0, i as int + 1).drop_last() =~= self.iters@.subrange(
                    0,
                    i as int,
                ));
            }
            count = count + self.iters[i].len;
            i += 1;
        }
        assert(self.iters@.subrange(0, i as int) =~= self.iters@);
        count
    }

    /// The next address of the chain, or `None` when every cursor is done.
    pub fn next(&mut self) -> (item: Option<PackageIndex>)
        ensures
            match item {
                Some(index) => {
                    &&& old(self).remaining().len() > 0
                    &&& index == old(self).remaining()[0]
                    &&& final(self).remaining() == old(self).remaining().drop_first()
                },
                None => old(self).remaining().len() == 0 && final(self).iters@.len() == 0,
            },
    {
        loop
            invariant
                self.remaining() == old(self).remaining(),
            decreases self.iters@.len(),
        {
            let n = self.iters.len();
            if n == 0 {
                return None;
            }
            let ghost stack = self.iters@;
            let item = self.iters[n - 1].next();
            assert(self.iters@.drop_last() =~= stack.drop_last());
            match item {
                Some(index) => {
                    assert(self.remaining() =~= old(self).remaining().drop_first());
                    if self.iters[n - 1].col >= self.iters[n - 1].len {
                        self.iters.pop();
                    }
                    return Some(index);
                },
                None => {
                    self.iters.pop();
                },
            }
        }
    }
}
} // verus!
