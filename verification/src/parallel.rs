//! The data-parallel operations of the `rayon` crate, as far as the storage
//! uses them. Verus does not read that crate: what each function here states
//! of it is taken from its documentation and believed without proof.

use vstd::prelude::*;
use std::cmp::Ordering;
use rayon::slice::ParallelSliceMut;
use rayon::iter::{IntoParallelRefMutIterator, ParallelIterator};
use crate::archetype::{Archetype, Column, TableIndex};
use crate::cache::{CachedQuery, announced};
use crate::table::{Table, column_ids};

verus! {
/// How two destroy requests compare: by the row they name, whatever their flag.
pub fn by_column(a: &(Column, bool), b: &(Column, bool)) -> (order: Ordering)
    ensures
        order == (if a.0 < b.0 {
            Ordering::Less
        } else if a.0 > b.0 {
            Ordering::Greater
        } else {
            Ordering::Equal
        }),
{
    if a.0 < b.0 {
        Ordering::Less
    } else if a.0 > b.0 {
        Ordering::Greater
    } else {
        Ordering::Equal
    }
}

/// The requests that name the given row, in the order in which they stand.
pub open spec fn requests_for(entries: Seq<(Column, bool)>, row: Column) -> Seq<(Column, bool)> {
    entries.filter(|e: (Column, bool)| e.0 == row)
}

/// `par_sort_by` on destroy requests, compared by row: afterwards the same
/// requests stand in ascending order of their rows, and requests for one row
/// keep the order they had.
#[verifier::external_body]
pub(crate) fn sort_by_column(entries: &mut Vec<(Column, bool)>)
    ensures
        final(entries)@.to_multiset() == old(entries)@.to_multiset(),
        forall|i: int, j: int|
            0 <= i < j < final(entries)@.len() ==> (#[trigger] final(entries)@[i]).0 <= (
            #[trigger] final(entries)@[j]).0,
        forall|row: Column| #[trigger]
            requests_for(final(entries)@, row) == requests_for(old(entries)@, row),
{
    entries.par_sort_by(|a, b| by_column(a, b));
}

/// `par_iter_mut` and `for_each` on the registered queries: every query takes
/// note of the table once, and the fingerprints stay as they are.
#[verifier::external_body]
pub(crate) fn update_each(entries: &mut Vec<(Archetype, CachedQuery)>, index: TableIndex, table: &Table)
    requires
        table.wf(),
    ensures
        final(entries)@.len() == old(entries)@.len(),
        forall|q: int|
            0 <= q < old(entries)@.len() ==> {
                &&& (#[trigger] final(entries)@[q]).0 == old(entries)@[q].0
                &&& final(entries)@[q].1@ == announced(
                    old(entries)@[q].1@,
                    index,
                    column_ids(table@.columns),
                )
            },
{
    entries.par_iter_mut().for_each(|entry| entry.1.accept(index, table));
}
} // verus!
