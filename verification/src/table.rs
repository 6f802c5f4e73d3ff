//! Tables: the columnar storage of one archetype. Every column of a table has
//! one row for each entity of the table.

use vstd::prelude::*;
use indexmap::IndexMap;
use crate::anon::{Anon, AnonIter, AnonVec, AnonView, ColumnView, column_items, swap_removed, tally};
use crate::archetype::{Column, ComponentId};
use crate::commands::{Modify, edited, with_all, without_all};
use crate::indexed::{slots_get, slots_insert, slots_new, slots_of};
use crate::parallel::sort_by_column;
use crate::package::{
    Package,
    PackageIndexIter,
    distinct_ids,
    find_from,
    ids_of,
    lemma_find_from,
};

verus! {
/// A destroy request with this flag frees the row without destroying its
/// values, which have moved elsewhere.
pub const NO_DROP: bool = false;

/// A destroy request with this flag destroys the values of the row.
pub const DO_DROP: bool = true;

/// What a table holds, as plain values: its columns in order, and the number
/// of rows.
pub struct TableView {
    pub columns: Seq<ColumnView>,
    pub len: nat,
}

/// The views of a list of columns, in order.
pub open spec fn column_views(columns: Seq<AnonVec>) -> Seq<ColumnView> {
    Seq::new(columns.len(), |i: int| columns[i]@)
}

/// The views of a list of packages, in order.
pub open spec fn package_views(packages: Seq<Package>) -> Seq<Seq<AnonView>> {
    Seq::new(packages.len(), |i: int| packages[i]@)
}

/// The component ids of a list of columns, in order.
pub open spec fn column_ids(columns: Seq<ColumnView>) -> Seq<ComponentId> {
    Seq::new(columns.len(), |i: int| columns[i].id)
}

/// What holds of the contents of every table: no component has two columns,
/// every column has as many rows as the table, and every row of a column has
/// the column's size.
pub open spec fn table_sound(view: TableView) -> bool {
    &&& forall|i: int, j: int|
        0 <= i < j < view.columns.len() ==> (#[trigger] view.columns[i]).id != (
        #[trigger] view.columns[j]).id
    &&& forall|i: int|
        0 <= i < view.columns.len() ==> (#[trigger] view.columns[i]).rows.len() == view.len
    &&& forall|i: int, r: int|
        0 <= i < view.columns.len() && 0 <= r < view.columns[i].rows.len() ==> (
        #[trigger] view.columns[i].rows[r]).len() == view.columns[i].size
}

/// The position of the first column at or after `from` that stores component
/// `id`, or the number of columns when there is none.
pub open spec fn column_from(columns: Seq<ColumnView>, id: ComponentId, from: int) -> int
    decreases columns.len() - from,
{
    if from < 0 || from >= columns.len() {
        columns.len() as int
    } else if columns[from].id == id {
        from
    } else {
        column_from(columns, id, from + 1)
    }
}

/// Where a column is found: at or after `from`; before it no column stores the
/// component; and if the position is within the columns, the column there does.
pub proof fn lemma_column_from(columns: Seq<ColumnView>, id: ComponentId, from: int)
    requires
        0 <= from <= columns.len(),
    ensures
        from <= column_from(columns, id, from) <= columns.len(),
        column_from(columns, id, from) < columns.len() ==> columns[column_from(
            columns,
            id,
            from,
        )].id == id,
        forall|k: int| from <= k < column_from(columns, id, from) ==> (#[trigger] columns[k]).id != id,
    decreases columns.len() - from,
{
    if from < columns.len() && columns[from].id != id {
        lemma_column_from(columns, id, from + 1);
    }
}

/// A package fits a list of columns when it holds no component twice, holds a
/// value of the column's size for every column, and holds nothing else.
pub open spec fn fits(package: Seq<AnonView>, columns: Seq<ColumnView>) -> bool {
    &&& distinct_ids(package)
    &&& forall|i: int|
        0 <= i < columns.len() ==> {
            let at = find_from(package, (#[trigger] columns[i]).id, 0);
            at < package.len() && package[at].bytes.len() == columns[i].size
        }
    &&& forall|k: int|
        0 <= k < package.len() ==> column_from(columns, (#[trigger] package[k]).id, 0)
            < columns.len()
}

/// The bytes of the package's value of component `id`.
pub open spec fn bytes_of(package: Seq<AnonView>, id: ComponentId) -> Seq<u8> {
    package[find_from(package, id, 0)].bytes
}

/// The rows that the packages add to the column of component `id`: one for
/// each package, the last package first.
pub open spec fn rows_from(packages: Seq<Seq<AnonView>>, id: ComponentId) -> Seq<Seq<u8>> {
    Seq::new(packages.len(), |r: int| bytes_of(packages[packages.len() - 1 - r], id))
}

/// The table after the packages are appended, the last package first.
pub open spec fn spawned(view: TableView, packages: Seq<Seq<AnonView>>) -> TableView {
    TableView {
        columns: Seq::new(
            view.columns.len(),
            |i: int|
                ColumnView {
                    rows: view.columns[i].rows + rows_from(packages, view.columns[i].id),
                    ..view.columns[i]
                },
        ),
        len: view.len + packages.len(),
    }
}

/// The empty table for the archetype of a package: one column for each of its
/// components, the last component first.
pub open spec fn skeleton(package: Seq<AnonView>) -> TableView {
    TableView {
        columns: Seq::new(
            package.len(),
            |i: int|
                {
                    let value = package[package.len() - 1 - i];
                    ColumnView {
                        id: value.id,
                        size: value.bytes.len(),
                        drop: value.drop,
                        rows: Seq::empty(),
                        dropped: 0,
                    }
                },
        ),
        len: 0,
    }
}

/// The table that is made of a list of packages: its columns are those of the
/// last package, and its rows are the packages, the last package first.
pub open spec fn fresh(packages: Seq<Seq<AnonView>>) -> TableView {
    spawned(skeleton(packages.last()), packages)
}

/// Appending one list of packages and then another is appending both at once.
pub proof fn lemma_spawned_twice(view: TableView, a: Seq<Seq<AnonView>>, b: Seq<Seq<AnonView>>)
    ensures
        spawned(spawned(view, b), a) == spawned(view, a + b),
{
    let left = spawned(spawned(view, b), a);
    let right = spawned(view, a + b);
    assert forall|i: int| 0 <= i < view.columns.len() implies left.columns[i] == right.columns[i] by {
        assert(left.columns[i].rows =~= right.columns[i].rows);
    }
    assert(left.columns =~= right.columns);
}

/// A component that is among the components of the columns has a column.
pub proof fn lemma_listed_has_column(columns: Seq<ColumnView>, id: ComponentId)
    requires
        column_ids(columns).contains(id),
    ensures
        column_from(columns, id, 0) < columns.len(),
{
    lemma_column_from(columns, id, 0);
}

/// In a package without repeated components, a component is found where it is.
pub proof fn lemma_find_own(package: Seq<AnonView>, k: int)
    requires
        distinct_ids(package),
        0 <= k < package.len(),
    ensures
        find_from(package, package[k].id, 0) == k,
{
    lemma_find_from(package, package[k].id, 0);
}

/// One archetype's storage: a column for each component of the archetype, and
/// the number of rows.
pub struct Table {
    rows: IndexMap<ComponentId, usize>,
    columns: Vec<AnonVec>,
    len: usize,
}

impl View for Table {
    type V = TableView;

    closed spec fn view(&self) -> TableView {
        TableView { columns: column_views(self.columns@), len: self.len as nat }
    }
}

impl Table {
    /// The index leads from every component of the table to its column, and
    /// every column is valid.
    pub closed spec fn indexed(&self) -> bool {
        &&& slots_of(self.rows).len() == self.columns@.len()
        &&& forall|i: int|
            0 <= i < self.columns@.len() ==> {
                &&& (#[trigger] slots_of(self.rows)[i]).0 == self.columns@[i]@.id
                &&& slots_of(self.rows)[i].1 == i
            }
        &&& forall|i: int| 0 <= i < self.columns@.len() ==> (#[trigger] self.columns@[i]).wf()
        &&& forall|i: int, j: int|
            0 <= i < j < self.columns@.len() ==> (#[trigger] self.columns@[i])@.id != (
            #[trigger] self.columns@[j])@.id
    }

    /// The table's invariant.
    pub open spec fn wf(&self) -> bool {
        &&& self.indexed()
        &&& table_sound(self@)
    }

    /// The column slot of a component, if the table stores it.
    fn slot(&self, id: ComponentId) -> (slot: Option<usize>)
        requires
            self.indexed(),
        ensures
            match slot {
                Some(at) => at == column_from(self@.columns, id, 0) && at < self@.columns.len()
                    && self@.columns[at as int].id == id,
                None => column_from(self@.columns, id, 0) == self@.columns.len(),
            },
    {
        let slot = slots_get(&self.rows, id);
        proof {
            lemma_column_from(self@.columns, id, 0);
            let first = column_from(self@.columns, id, 0);
            match slot {
                Some(at) => {
                    let i = choose|i: int|
                        0 <= i < slots_of(self.rows).len() && #[trigger] slots_of(self.rows)[i] == (
                            id,
                            at,
                        );
                    assert(self@.columns[i].id == id);
                },
                None => {
                    if first < self@.columns.len() {
                        assert(slots_of(self.rows)[first].0 == self.columns@[first]@.id);
                    }
                },
            }
        }
        slot
    }

    /// Appends the components of one package as a new last row.
    fn absorb(&mut self, package: Package)
        requires
            old(self).wf(),
            fits(package@, old(self)@.columns),
            old(self)@.len < usize::MAX,
        ensures
            final(self).wf(),
            final(self)@ == spawned(old(self)@, seq![package@]),
    {
        let ghost before = self@;
        let ghost all = package@;
        let mut package = package;
        while package.len() > 0
            invariant
                self.indexed(),
                package@.len() <= all.len(),
                package@ == all.subrange(0, package@.len() as int),
                fits(all, before.columns),
                table_sound(before),
                before.len < usize::MAX,
                self@.columns.len() == before.columns.len(),
                self.len == old(self).len,
                self@.len == before.len,
                forall|i: int|
                    0 <= i < before.columns.len() ==> (#[trigger] self@.columns[i]) == (if find_from(
                        all,
                        before.columns[i].id,
                        0,
                    ) >= package@.len() {
                        ColumnView {
                            rows: before.columns[i].rows.push(bytes_of(all, before.columns[i].id)),
                            ..before.columns[i]
                        }
                    } else {
                        before.columns[i]
                    }),
            decreases package@.len(),
        {
            let ghost k = package@.len() as int;
            let ghost held = self@.columns;
            let anon = package.pop().unwrap();
            proof {
                lemma_find_own(all, k - 1);
                assert(column_ids(self@.columns) =~= column_ids(before.columns));
                lemma_column_from_by_ids(self@.columns, before.columns, anon@.id, 0);
            }
            match self.slot(anon.id()) {
                Some(at) => {
                    self.columns[at].push(anon);
                    proof {
                        assert forall|i: int| 0 <= i < before.columns.len() implies (
                        #[trigger] self@.columns[i]) == (if find_from(all, before.columns[i].id, 0)
                            >= k - 1 {
                            ColumnView {
                                rows: before.columns[i].rows.push(
                                    bytes_of(all, before.columns[i].id),
                                ),
                                ..before.columns[i]
                            }
                        } else {
                            before.columns[i]
                        }) by {
                            if i != at {
                                assert(self@.columns[i] == held[i]);
                                assert(find_from(all, before.columns[i].id, 0) != k - 1) by {
                                    lemma_find_from(all, before.columns[i].id, 0);
                                }
                            }
                        }
                    }
                },
                None => {
                    assert(false);
                },
            }
        }
        self.len = self.len + 1;
        proof {
            let after = spawned(before, seq![all]);
            assert forall|i: int| 0 <= i < before.columns.len() implies self@.columns[i]
                == after.columns[i] by {
                lemma_find_from(all, before.columns[i].id, 0);
                assert(before.columns[i].rows.push(bytes_of(all, before.columns[i].id))
                    =~= before.columns[i].rows + rows_from(seq![all], before.columns[i].id));
            }
            assert(self@.columns =~= after.columns);
        }
    }

    /// Appends the packages as new rows, the last package first.
    ///
    /// Every package must hold exactly the components of the table.
    pub fn spawn(&mut self, packages: Vec<Package>)
        requires
            old(self).wf(),
            forall|p: int|
                0 <= p < packages@.len() ==> fits((#[trigger] packages@[p])@, old(self)@.columns),
            old(self)@.len + packages@.len() <= usize::MAX,
        ensures
            final(self).wf(),
            final(self)@ == spawned(old(self)@, package_views(packages@)),
    {
        let ghost before = self@;
        let ghost all = package_views(packages@);
        let mut packages = packages;
        proof {
            assert(all.subrange(all.len() as int, all.len() as int) =~= Seq::<Seq<AnonView>>::empty());
            lemma_spawned_nothing(before);
        }
        while packages.len() > 0
            invariant
                self.wf(),
                packages@.len() <= all.len(),
                package_views(packages@) == all.subrange(0, packages@.len() as int),
                self@ == spawned(before, all.subrange(packages@.len() as int, all.len() as int)),
                forall|p: int| 0 <= p < all.len() ==> fits(#[trigger] all[p], before.columns),
                before.len + all.len() <= usize::MAX,
            decreases packages@.len(),
        {
            let ghost k = packages@.len() as int;
            let ghost queue = package_views(packages@);
            let package = packages.pop().unwrap();
            proof {
                assert(package@ == queue[k - 1]);
                lemma_fits_by_shape(package@, before.columns, self@.columns);
            }
            self.absorb(package);
            proof {
                let done = all.subrange(k, all.len() as int);
                lemma_spawned_twice(before, seq![all[k - 1]], done);
                assert(seq![all[k - 1]] + done =~= all.subrange(k - 1, all.len() as int));
            }
        }
    }

    /// A table made of the packages: its columns are those of the last
    /// package, and its rows are the packages, the last package first.
    ///
    /// There must be a package, and every package must hold exactly the
    /// components of the last one.
    pub fn new(packages: Vec<Package>) -> (table: Table)
        requires
            packages@.len() > 0,
            forall|p: int|
                0 <= p < packages@.len() ==> fits(
                    (#[trigger] packages@[p])@,
                    skeleton(packages@.last()@).columns,
                ),
        ensures
            table.wf(),
            table@ == fresh(package_views(packages@)),
    {
        let ghost all = package_views(packages@);
        let total = packages.len();
        let mut packages = packages;
        let mut first = packages.pop().unwrap();
        let ghost last = first@;
        let ghost n = last.len() as int;
        assert(fits(last, skeleton(last).columns)) by {}
        let mut rows = slots_new();
        let mut columns: Vec<AnonVec> = Vec::new();
        while first.len() > 0
            invariant
                distinct_ids(last),
                n == last.len(),
                first@.len() <= n,
                first@ == last.subrange(0, first@.len() as int),
                columns@.len() == n - first@.len(),
                slots_of(rows).len() == columns@.len(),
                forall|j: int|
                    0 <= j < columns@.len() ==> {
                        &&& (#[trigger] columns@[j])@ == (ColumnView {
                            id: last[n - 1 - j].id,
                            size: last[n - 1 - j].bytes.len(),
                            drop: last[n - 1 - j].drop,
                            rows: seq![last[n - 1 - j].bytes],
                            dropped: 0,
                        })
                        &&& columns@[j].wf()
                    },
                forall|j: int|
                    0 <= j < columns@.len() ==> {
                        &&& (#[trigger] slots_of(rows)[j]).0 == last[n - 1 - j].id
                        &&& slots_of(rows)[j].1 == j
                    },
            decreases first@.len(),
        {
            let ghost index = slots_of(rows);
            let anon = first.pop().unwrap();
            let previous = slots_insert(&mut rows, anon.id(), columns.len());
            proof {
                if let Some(was) = previous {
                    let i = choose|i: int|
                        0 <= i < index.len() && #[trigger] index[i] == (anon@.id, was)
                            && slots_of(rows) == index.update(i, (anon@.id, columns.len()));
                    assert(false);
                }
            }
            columns.push(AnonVec::new(anon));
        }
        let mut table = Table { rows, columns, len: 1 };
        proof {
            let skel = skeleton(last);
            let one = spawned(skel, seq![last]);
            assert forall|i: int| 0 <= i < n implies table@.columns[i] == one.columns[i] by {
                lemma_find_own(last, n - 1 - i);
                assert(rows_from(seq![last], last[n - 1 - i].id) =~= seq![last[n - 1 - i].bytes]);
            }
            assert(table@.columns =~= one.columns);
            assert(package_views(packages@) =~= all.drop_last());
            assert forall|p: int| 0 <= p < packages@.len() implies fits(
                (#[trigger] packages@[p])@,
                table@.columns,
            ) by {
                lemma_fits_by_shape(packages@[p]@, skel.columns, table@.columns);
            }
        }
        table.spawn(packages);
        proof {
            lemma_spawned_twice(skeleton(last), all.drop_last(), seq![last]);
            assert(all.drop_last() + seq![last] =~= all);
        }
        table
    }

    /// Removes one row from every column.
    fn remove_row(&mut self, row: usize, drop: bool)
        requires
            old(self).wf(),
            row < old(self)@.len,
        ensures
            final(self).wf(),
            final(self)@ == row_removed(old(self)@, row as int, drop),
    {
        let ghost before = self@;
        let mut i: usize = 0;
        while i < self.columns.len()
            invariant
                self.indexed(),
                i <= self.columns@.len(),
                self@.columns.len() == before.columns.len(),
                self@.len == before.len,
                table_sound(before),
                row < before.len,
                forall|j: int|
                    0 <= j < i ==> (#[trigger] self@.columns[j]) == row_removed(
                        before,
                        row as int,
                        drop,
                    ).columns[j],
                forall|j: int| i <= j < before.columns.len() ==> (#[trigger] self@.columns[j])
                    == before.columns[j],
            decreases self.columns@.len() - i,
        {
            let ghost held = self@.columns;
            assert(self@.columns[i as int] == before.columns[i as int]);
            if drop {
                self.columns[i].destroy_swap(row);
            } else {
                self.columns[i].destroy_nodrop(row);
            }
            proof {
                assert forall|j: int| 0 <= j < self@.columns.len() && j != i implies (
                #[trigger] self@.columns[j]) == held[j] by {}
            }
            i += 1;
        }
        self.len = self.len - 1;
        proof {
            let after = row_removed(before, row as int, drop);
            assert(self@.columns =~= after.columns);
        }
    }

    /// Removes the rows that the requests name. Each named row is removed
    /// once, the highest row first, so that every removal finds its row where
    /// the request saw it; the last row of the table takes the place of a
    /// removed row. A row is destroyed with its values if any request for it
    /// says so.
    ///
    /// Every request must name a row of the table.
    pub fn destroy(&mut self, destroys: Vec<(Column, bool)>)
        requires
            old(self).wf(),
            forall|k: int| 0 <= k < destroys@.len() ==> (#[trigger] destroys@[k]).0 < old(self)@.len,
        ensures
            final(self).wf(),
            final(self)@ == destroyed(old(self)@, plan_upto(destroys@, old(self)@.len as int)),
    {
        let ghost before = self@;
        let ghost asked = destroys@;
        let mut sorted = destroys;
        sort_by_column(&mut sorted);
        let ghost all = sorted@;
        proof {
            broadcast use vstd::seq_lib::group_to_multiset_ensures;

            assert forall|x: (Column, bool)| all.contains(x) == asked.contains(x) by {
                assert(all.to_multiset().count(x) == asked.to_multiset().count(x));
            }
        }
        let mut plan: Vec<(Column, bool)> = Vec::new();
        let mut i: usize = 0;
        while i < sorted.len()
            invariant
                sorted@ == all,
                i <= all.len(),
                ascending(plan@),
                forall|a: int, b: int| 0 <= a < b < all.len() ==> (#[trigger] all[a]).0 <= (
                #[trigger] all[b]).0,
                plan@.len() > 0 ==> i > 0 && plan@.last().0 == all[i - 1].0,
                forall|k: int|
                    0 <= k < plan@.len() ==> exists|q: int|
                        0 <= q < i && (#[trigger] all[q]).0 == (#[trigger] plan@[k]).0,
                forall|q: int| 0 <= q < i ==> mentions(plan@, (#[trigger] all[q]).0 as int),
                forall|k: int|
                    0 <= k < plan@.len() ==> ((#[trigger] plan@[k]).1 <==> exists|q: int|
                        0 <= q < i && #[trigger] all[q] == (plan@[k].0, DO_DROP)),
            decreases all.len() - i,
        {
            let entry = sorted[i];
            let n = plan.len();
            let ghost held = plan@;
            if n > 0 && plan[n - 1].0 == entry.0 {
                if entry.1 {
                    plan[n - 1] = (entry.0, true);
                }
                proof {
                    assert forall|q: int| 0 <= q < i + 1 implies mentions(
                        plan@,
                        (#[trigger] all[q]).0 as int,
                    ) by {
                        if q < i {
                            let k = choose|k: int|
                                0 <= k < held.len() && (#[trigger] held[k]).0 == all[q].0;
                            assert(plan@[k].0 == all[q].0);
                        }
                    }
                }
            } else {
                plan.push(entry);
                proof {
                    assert forall|q: int| 0 <= q < i + 1 implies mentions(
                        plan@,
                        (#[trigger] all[q]).0 as int,
                    ) by {
                        if q < i {
                            let k = choose|k: int|
                                0 <= k < held.len() && (#[trigger] held[k]).0 == all[q].0;
                            assert(plan@[k].0 == all[q].0);
                        } else {
                            assert(plan@[n as int].0 == all[q].0);
                        }
                    }
                }
            }
            i += 1;
        }
        proof {
            let n = before.len as int;
            assert forall|k: int| 0 <= k < plan@.len() implies (#[trigger] plan@[k]).0 < n by {
                let q = choose|q: int| 0 <= q < all.len() && (#[trigger] all[q]).0 == plan@[k].0;
                assert(asked.contains(all[q]));
            }
            assert forall|row: int| 0 <= row < n implies (mentions(plan@, row) <==> mentions(
                asked,
                row,
            )) by {
                if mentions(plan@, row) {
                    let k = choose|k: int| 0 <= k < plan@.len() && (#[trigger] plan@[k]).0 == row;
                    let q = choose|q: int| 0 <= q < all.len() && (#[trigger] all[q]).0 == plan@[k].0;
                    assert(asked.contains(all[q]));
                    let a = choose|a: int| 0 <= a < asked.len() && asked[a] == all[q];
                }
                if mentions(asked, row) {
                    let a = choose|a: int| 0 <= a < asked.len() && (#[trigger] asked[a]).0 == row;
                    assert(asked.contains(asked[a]));
                }
            }
            lemma_plan_is_unique(plan@, asked, n);
        }
        let ghost full = plan@;
        while plan.len() > 0
            invariant
                self.wf(),
                ascending(plan@),
                plan@.len() > 0 ==> plan@.last().0 < self@.len,
                destroyed(self@, plan@) == destroyed(before, full),
            decreases plan@.len(),
        {
            let (row, drop) = plan.pop().unwrap();
            self.remove_row(row, drop);
        }
    }

    /// Whether the table stores every listed component.
    pub fn contains(&self, ids: &Vec<ComponentId>) -> (found: bool)
        requires
            self.wf(),
        ensures
            found == forall|k: int|
                0 <= k < ids@.len() ==> column_ids(self@.columns).contains(#[trigger] ids@[k]),
    {
        let mut k: usize = 0;
        while k < ids.len()
            invariant
                self.wf(),
                k <= ids@.len(),
                forall|q: int| 0 <= q < k ==> column_ids(self@.columns).contains(#[trigger] ids@[q]),
            decreases ids@.len() - k,
        {
            let slot = self.slot(ids[k]);
            proof {
                lemma_column_from(self@.columns, ids@[k as int], 0);
            }
            match slot {
                Some(at) => {
                    assert(column_ids(self@.columns)[at as int] == ids@[k as int]);
                },
                None => {
                    assert(!column_ids(self@.columns).contains(ids@[k as int])) by {}
                    return false;
                },
            }
            k += 1;
        }
        true
    }

    /// The number of rows.
    pub fn len(&self) -> (len: usize)
        ensures
            len == self@.len,
    {
        self.len
    }

    /// A table has no more rows than the machine can count.
    pub proof fn lemma_len_fits(&self)
        ensures
            self@.len <= usize::MAX,
    {
    }

    /// The column of a component, if the table stores it.
    pub fn column(&self, id: ComponentId) -> (column: Option<&AnonVec>)
        requires
            self.wf(),
        ensures
            match column {
                Some(found) => {
                    &&& column_from(self@.columns, id, 0) < self@.columns.len()
                    &&& found@ == self@.columns[column_from(self@.columns, id, 0)]
                    &&& found.wf()
                },
                None => column_from(self@.columns, id, 0) == self@.columns.len(),
            },
    {
        match self.slot(id) {
            Some(at) => Some(&self.columns[at]),
            None => None,
        }
    }

    /// Whether the package fits the table: it holds a value of the column's
    /// size for every column, and nothing else.
    pub fn accepts(&self, package: &Package) -> (ok: bool)
        requires
            self.wf(),
            package.wf(),
        ensures
            ok == fits(package@, self@.columns),
    {
        let mut i: usize = 0;
        while i < self.columns.len()
            invariant
                self.wf(),
                i <= self@.columns.len(),
                forall|j: int|
                    0 <= j < i ==> {
                        let at = find_from(package@, (#[trigger] self@.columns[j]).id, 0);
                        at < package@.len() && package@[at].bytes.len() == self@.columns[j].size
                    },
            decreases self@.columns.len() - i,
        {
            let at = package.find(self.columns[i].id());
            if at >= package.len() || package.get(at).size() != self.columns[i].size() {
                assert(!fits(package@, self@.columns)) by {
                    let j = i as int;
                    let at = find_from(package@, self@.columns[j].id, 0);
                }
                return false;
            }
            i += 1;
        }
        let mut k: usize = 0;
        while k < package.len()
            invariant
                self.wf(),
                k <= package@.len(),
                forall|q: int|
                    0 <= q < k ==> column_from(self@.columns, (#[trigger] package@[q]).id, 0)
                        < self@.columns.len(),
            decreases package@.len() - k,
        {
            if self.slot(package.get(k).id()).is_none() {
                return false;
            }
            k += 1;
        }
        true
    }

    /// Whether the table has a cell for the value: the row exists, and the
    /// table stores the value's component in cells of the value's size.
    pub fn holds(&self, col: Column, anon: &Anon) -> (found: bool)
        requires
            self.wf(),
        ensures
            found == cell_exists(self@, col as int, anon@),
    {
        if col >= self.len {
            return false;
        }
        match self.slot(anon.id()) {
            Some(at) => {
                self.columns[at].size() == anon.size()
            },
            None => false,
        }
    }

    /// Writes a value over the value of its component in a row.
    pub fn store(&mut self, col: Column, anon: &Anon)
        requires
            old(self).wf(),
            cell_exists(old(self)@, col as int, anon@),
        ensures
            final(self).wf(),
            final(self)@ == stored(old(self)@, col as int, anon@),
    {
        let ghost before = self@;
        match self.slot(anon.id()) {
            Some(at) => {
                self.columns[at].store(col, anon);
                proof {
                    assert(self@.columns =~= stored(before, col as int, anon@).columns);
                }
            },
            None => {
                assert(false);
            },
        }
    }

    /// A cursor over the values of a component, in row order; `None` when the
    /// table has no rows.
    ///
    /// A table with rows must store the component.
    pub fn collect<'a>(&'a self, id: ComponentId) -> (iter: Option<AnonIter<'a>>)
        requires
            self.wf(),
            self@.len > 0 ==> column_from(self@.columns, id, 0) < self@.columns.len(),
        ensures
            match iter {
                Some(found) => {
                    &&& self@.len > 0
                    &&& found.wf()
                    &&& found.remaining() == column_items(
                        self@.columns[column_from(self@.columns, id, 0)],
                    )
                    &&& found.span() == self@.len
                },
                None => self@.len == 0,
            },
    {
        if self.len == 0 {
            return None;
        }
        match self.slot(id) {
            Some(at) => {
                Some(self.columns[at].iter_as())
            },
            None => {
                assert(false);
                None
            },
        }
    }

    /// A cursor over the addresses of the rows, in row order; `None` when the
    /// table has no rows. `table` is the table's own index.
    pub fn collect_indices(&self, table: usize) -> (iter: Option<PackageIndexIter>)
        ensures
            match iter {
                Some(found) => {
                    &&& self@.len > 0
                    &&& found.table == table
                    &&& found.col == 0
                    &&& found.len == self@.len
                },
                None => self@.len == 0,
            },
    {
        if self.len == 0 {
            None
        } else {
            Some(PackageIndexIter { table, col: 0, len: self.len })
        }
    }

    /// The package that an edit makes of a row: the values of the row, without
    /// the components the edit takes out, with the components it puts in.
    pub fn extract(&self, modify: Modify, col: Column) -> (package: Package)
        requires
            self.wf(),
            col < self@.len,
        ensures
            package@ == edited(row_values(self@, col as int), modify@),
            package.wf(),
    {
        let mut modify = modify;
        let ghost edit = modify@;
        let ghost row = row_values(self@, col as int);
        let mut package = Package::new();
        let mut i: usize = 0;
        while i < self.columns.len()
            invariant
                self.wf(),
                col < self@.len,
                i <= self.columns@.len(),
                row == row_values(self@, col as int),
                package@ == row.subrange(0, i as int),
                package.wf(),
            decreases self.columns@.len() - i,
        {
            assert(self@.columns[i as int].rows.len() == self@.len);
            let anon = self.columns[i].index(col);
            proof {
                lemma_find_from(package@, anon@.id, 0);
            }
            package.insert_anon(anon);
            i += 1;
        }
        assert(row.subrange(0, i as int) =~= row);
        loop
            invariant
                modify@.insert == edit.insert,
                package.wf(),
                without_all(package@, modify@.remove) == without_all(row, edit.remove),
            ensures
                modify@.remove.len() == 0,
            decreases modify@.remove.len(),
        {
            match modify.pop_remove() {
                Some(id) => {
                    package.remove(id);
                },
                None => {
                    break ;
                },
            }
        }
        loop
            invariant
                package.wf(),
                with_all(package@, modify@.insert) == edited(row, edit),
            ensures
                modify@.insert.len() == 0,
            decreases modify@.insert.len(),
        {
            match modify.pop_insert() {
                Some(anon) => {
                    package.insert_anon(anon);
                },
                None => {
                    break ;
                },
            }
        }
        package
    }
}

/// Whether some request names the row.
pub open spec fn mentions(entries: Seq<(Column, bool)>, row: int) -> bool {
    exists|k: int| 0 <= k < entries.len() && (#[trigger] entries[k]).0 == row
}

/// The rows below `n` that the requests name, each once, in ascending order.
/// A row is destroyed with its values if any request for it says so.
pub open spec fn plan_upto(entries: Seq<(Column, bool)>, n: int) -> Seq<(Column, bool)>
    decreases n,
{
    if n <= 0 {
        Seq::empty()
    } else {
        let rest = plan_upto(entries, n - 1);
        if mentions(entries, n - 1) {
            rest.push(((n - 1) as usize, entries.contains(((n - 1) as usize, DO_DROP))))
        } else {
            rest
        }
    }
}

/// The table after one row is removed from every column: the last row takes
/// its place. Where the row is destroyed with its values, every column whose
/// values have a destructor counts one more destroyed row.
pub open spec fn row_removed(view: TableView, row: int, drop: bool) -> TableView {
    TableView {
        columns: Seq::new(
            view.columns.len(),
            |i: int|
                ColumnView {
                    rows: swap_removed(view.columns[i].rows, row),
                    dropped: if drop && view.columns[i].drop {
                        tally(view.columns[i].dropped, 1)
                    } else {
                        view.columns[i].dropped
                    },
                    ..view.columns[i]
                },
        ),
        len: (view.len - 1) as nat,
    }
}

/// The table after the planned rows are removed, the last planned row first.
pub open spec fn destroyed(view: TableView, plan: Seq<(Column, bool)>) -> TableView
    decreases plan.len(),
{
    if plan.len() == 0 {
        view
    } else {
        destroyed(row_removed(view, plan.last().0 as int, plan.last().1), plan.drop_last())
    }
}

/// The rows of a plan stand in strictly ascending order.
pub open spec fn ascending(plan: Seq<(Column, bool)>) -> bool {
    forall|i: int, j: int| 0 <= i < j < plan.len() ==> (#[trigger] plan[i]).0 < (#[trigger] plan[j]).0
}

/// There is one plan only: a list of rows below `n` in strictly ascending
/// order that names the rows the requests name, with the flags they ask for.
pub proof fn lemma_plan_is_unique(plan: Seq<(Column, bool)>, entries: Seq<(Column, bool)>, n: int)
    requires
        ascending(plan),
        forall|k: int| 0 <= k < plan.len() ==> (#[trigger] plan[k]).0 < n,
        forall|row: int| 0 <= row < n ==> (mentions(plan, row) <==> mentions(entries, row)),
        forall|k: int|
            0 <= k < plan.len() ==> (#[trigger] plan[k]).1 == entries.contains((plan[k].0, DO_DROP)),
    ensures
        plan == plan_upto(entries, n),
    decreases n,
{
    if n <= 0 {
        if plan.len() > 0 {
            assert(plan[0].0 < n);
        }
    } else if mentions(entries, n - 1) {
        let k = choose|k: int| 0 <= k < plan.len() && (#[trigger] plan[k]).0 == n - 1;
        if k < plan.len() - 1 {
            assert(plan[k].0 < plan[plan.len() - 1].0);
        }
        let rest = plan.drop_last();
        assert forall|row: int| 0 <= row < n - 1 implies (mentions(rest, row) <==> mentions(
            entries,
            row,
        )) by {
            if mentions(rest, row) {
                let q = choose|q: int| 0 <= q < rest.len() && (#[trigger] rest[q]).0 == row;
            }
            if mentions(entries, row) {
                let q = choose|q: int| 0 <= q < plan.len() && (#[trigger] plan[q]).0 == row;
                assert(rest[q].0 == row);
            }
        }
        assert forall|q: int| 0 <= q < rest.len() implies (#[trigger] rest[q]).0 < n - 1 by {}
        lemma_plan_is_unique(rest, entries, n - 1);
    } else {
        assert forall|q: int| 0 <= q < plan.len() implies (#[trigger] plan[q]).0 < n - 1 by {}
        lemma_plan_is_unique(plan, entries, n - 1);
    }
}

/// Whether the table has a cell for the value: the row exists, and the table
/// stores the value's component in cells of the value's size.
pub open spec fn cell_exists(view: TableView, row: int, value: AnonView) -> bool {
    let at = column_from(view.columns, value.id, 0);
    &&& 0 <= row < view.len
    &&& at < view.columns.len()
    &&& view.columns[at].size == value.bytes.len()
}

/// The table with the value written over the value of its component in a row.
pub open spec fn stored(view: TableView, row: int, value: AnonView) -> TableView {
    let at = column_from(view.columns, value.id, 0);
    TableView {
        columns: view.columns.update(
            at,
            ColumnView { rows: view.columns[at].rows.update(row, value.bytes), ..view.columns[at] },
        ),
        ..view
    }
}

/// The values of one row, one for each column, in column order.
pub open spec fn row_values(view: TableView, row: int) -> Seq<AnonView> {
    Seq::new(
        view.columns.len(),
        |i: int|
            AnonView {
                id: view.columns[i].id,
                drop: view.columns[i].drop,
                bytes: view.columns[i].rows[row],
            },
    )
}

/// The position of a component's column depends on the ids of the columns only.
pub proof fn lemma_column_from_by_ids(
    a: Seq<ColumnView>,
    b: Seq<ColumnView>,
    id: ComponentId,
    from: int,
)
    requires
        column_ids(a) == column_ids(b),
        0 <= from,
    ensures
        column_from(a, id, from) == column_from(b, id, from),
    decreases a.len() - from,
{
    assert(a.len() == column_ids(a).len());
    if from < a.len() {
        assert(a[from].id == column_ids(a)[from]);
        if a[from].id != id {
            lemma_column_from_by_ids(a, b, id, from + 1);
        }
    }
}

/// Whether a package fits depends on the ids and the sizes of the columns only.
pub proof fn lemma_fits_by_shape(package: Seq<AnonView>, a: Seq<ColumnView>, b: Seq<ColumnView>)
    requires
        fits(package, a),
        a.len() == b.len(),
        forall|i: int|
            0 <= i < a.len() ==> (#[trigger] a[i]).id == b[i].id && a[i].size == b[i].size,
    ensures
        fits(package, b),
{
    assert(column_ids(a) =~= column_ids(b));
    assert forall|i: int| 0 <= i < b.len() implies {
        let at = find_from(package, (#[trigger] b[i]).id, 0);
        at < package.len() && package[at].bytes.len() == b[i].size
    } by {
        assert(a[i].id == b[i].id);
    }
    assert forall|k: int| 0 <= k < package.len() implies column_from(
        b,
        (#[trigger] package[k]).id,
        0,
    ) < b.len() by {
        lemma_column_from_by_ids(a, b, package[k].id, 0);
    }
}

/// Appending no package changes nothing.
pub proof fn lemma_spawned_nothing(view: TableView)
    ensures
        spawned(view, Seq::empty()) == view,
{
    let after = spawned(view, Seq::empty());
    assert forall|i: int| 0 <= i < view.columns.len() implies after.columns[i] == view.columns[i] by {}
    assert(after.columns =~= view.columns);
}

/// What is spawned can be read back: after packages are appended to a table,
/// the row of each package holds, for every component of the package, the
/// bytes that the package held. The row of the package at position `p` is
/// counted from the end of the list: the last package gets the first new row.
pub proof fn lemma_spawned_row(view: TableView, packages: Seq<Seq<AnonView>>, p: int, k: int)
    requires
        table_sound(view),
        0 <= p < packages.len(),
        fits(packages[p], view.columns),
        0 <= k < packages[p].len(),
    ensures
        ({
            let after = spawned(view, packages);
            let column = column_from(view.columns, packages[p][k].id, 0);
            let row = view.len + packages.len() - 1 - p;
            &&& 0 <= column < after.columns.len()
            &&& after.columns[column].id == packages[p][k].id
            &&& 0 <= row < after.columns[column].rows.len()
            &&& after.columns[column].rows[row] == packages[p][k].bytes
        }),
{
    let id = packages[p][k].id;
    lemma_column_from(view.columns, id, 0);
    lemma_find_own(packages[p], k);
    let column = column_from(view.columns, id, 0);
}

/// Every column of a sound table is as long as the table.
pub proof fn lemma_columns_as_long_as_table(view: TableView, i: int)
    requires
        table_sound(view),
        0 <= i < view.columns.len(),
    ensures
        view.columns[i].rows.len() == view.len,
{
}

/// Destroying every row leaves a table without rows: if the requests name
/// every row of the table, every column is empty afterwards, and the columns
/// are those of before.
pub proof fn lemma_destroy_all(view: TableView, entries: Seq<(Column, bool)>)
    requires
        forall|i: int|
            0 <= i < view.columns.len() ==> (#[trigger] view.columns[i]).rows.len() == view.len,
        forall|row: int| 0 <= row < view.len ==> mentions(entries, row),
    ensures
        ({
            let after = destroyed(view, plan_upto(entries, view.len as int));
            &&& after.len == 0
            &&& after.columns.len() == view.columns.len()
            &&& forall|i: int|
                0 <= i < after.columns.len() ==> {
                    &&& (#[trigger] after.columns[i]).rows.len() == 0
                    &&& after.columns[i].id == view.columns[i].id
                    &&& after.columns[i].size == view.columns[i].size
                }
        }),
    decreases view.len,
{
    let n = view.len as int;
    if n > 0 {
        let plan = plan_upto(entries, n);
        let flag = entries.contains(((n - 1) as usize, DO_DROP));
        assert(plan.drop_last() =~= plan_upto(entries, n - 1));
        let next = row_removed(view, n - 1, flag);
        lemma_destroy_all(next, entries);
        let after = destroyed(view, plan);
    }
}

/// Destroying every row with its values counts every row once: if the
/// requests ask for every row of the table to be destroyed with its values,
/// in whatever order and however often, every column whose values have a
/// destructor has counted as many destroyed rows more as the table had rows.
pub proof fn lemma_destroy_all_counts(view: TableView, entries: Seq<(Column, bool)>)
    requires
        forall|row: Column| row < view.len ==> #[trigger] entries.contains((row, DO_DROP)),
        view.len <= usize::MAX,
        forall|i: int| 0 <= i < view.columns.len() ==> (#[trigger] view.columns[i]).dropped <= usize::MAX,
    ensures
        ({
            let after = destroyed(view, plan_upto(entries, view.len as int));
            &&& after.columns.len() == view.columns.len()
            &&& forall|i: int|
                0 <= i < after.columns.len() ==> (#[trigger] after.columns[i]).dropped == (
                if view.columns[i].drop {
                    tally(view.columns[i].dropped, view.len)
                } else {
                    view.columns[i].dropped
                })
        }),
    decreases view.len,
{
    let n = view.len as int;
    if n > 0 {
        let plan = plan_upto(entries, n);
        let wanted = ((n - 1) as usize, DO_DROP);
        assert(plan.drop_last() =~= plan_upto(entries, n - 1));
        let next = row_removed(view, n - 1, DO_DROP);
        lemma_destroy_all_counts(next, entries);
    } else {
    }
}

/// Spawning into a table without rows gives the rows of a fresh table: for
/// every component of the table, the column of the emptied table holds what
/// the column of that component holds in the table made of the packages.
pub proof fn lemma_respawn_is_fresh(view: TableView, packages: Seq<Seq<AnonView>>, i: int)
    requires
        view.len == 0,
        0 <= i < view.columns.len(),
        view.columns[i].rows.len() == 0,
        packages.len() > 0,
        fits(packages.last(), view.columns),
    ensures
        ({
            let again = spawned(view, packages);
            let made = fresh(packages);
            let column = column_from(made.columns, view.columns[i].id, 0);
            &&& again.len == made.len
            &&& 0 <= column < made.columns.len()
            &&& made.columns[column].id == view.columns[i].id
            &&& again.columns[i].rows == made.columns[column].rows
        }),
{
    let id = view.columns[i].id;
    let last = packages.last();
    let made = fresh(packages);
    lemma_find_from(last, id, 0);
    let k = find_from(last, id, 0);
    let n = last.len() as int;
    assert(column_ids(made.columns)[n - 1 - k] == id);
    lemma_column_from(made.columns, id, 0);
}

/// The columns of the empty table of a package store the components of the
/// package, the last first.
pub proof fn lemma_skeleton_column(package: Seq<AnonView>, id: ComponentId)
    ensures
        column_from(skeleton(package).columns, id, 0) < skeleton(package).columns.len()
            <==> ids_of(package).contains(id),
{
    let columns = skeleton(package).columns;
    let n = package.len() as int;
    lemma_column_from(columns, id, 0);
    let at = column_from(columns, id, 0);
    if at < columns.len() {
        assert(ids_of(package)[n - 1 - at] == id);
    }
    if ids_of(package).contains(id) {
        let k = choose|k: int| 0 <= k < ids_of(package).len() && ids_of(package)[k] == id;
        assert(columns[n - 1 - k].id == id);
    }
}

/// Whether a package fits the table that is made of another package: it
/// holds the same components, each in the same size.
pub fn alike(package: &Package, model: &Package) -> (ok: bool)
    requires
        package.wf(),
    ensures
        ok == fits(package@, skeleton(model@).columns),
{
    let ghost columns = skeleton(model@).columns;
    let n = model.len();
    let mut i: usize = 0;
    while i < n
        invariant
            package.wf(),
            columns == skeleton(model@).columns,
            n == model@.len(),
            i <= n,
            forall|j: int|
                n - i <= j < n ==> {
                    let at = find_from(package@, (#[trigger] columns[j]).id, 0);
                    at < package@.len() && package@[at].bytes.len() == columns[j].size
                },
        decreases n - i,
    {
        let value = model.get(i);
        let at = package.find(value.id());
        if at >= package.len() || package.get(at).size() != value.size() {
            assert(!fits(package@, columns)) by {
                let j = n - 1 - i;
                let at = find_from(package@, columns[j].id, 0);
            }
            return false;
        }
        i += 1;
    }
    let mut k: usize = 0;
    while k < package.len()
        invariant
            package.wf(),
            columns == skeleton(model@).columns,
            k <= package@.len(),
            forall|q: int|
                0 <= q < k ==> column_from(columns, (#[trigger] package@[q]).id, 0) < columns.len(),
        decreases package@.len() - k,
    {
        proof {
            lemma_skeleton_column(model@, package@[k as int].id);
        }
        if !model.contains(package.get(k).id()) {
            assert(!fits(package@, columns)) by {}
            return false;
        }
        k += 1;
    }
    true
}
} // verus!
