use archetype_ecs::anon::{Anon, AnonIterChain, AnonVec};
use archetype_ecs::archetype::{Archetype, UNDECLARED};
use archetype_ecs::commands::Modify;
use archetype_ecs::package::{Package, PackageIndex, PackageIndexChain, PackageIndexIter};
use archetype_ecs::table::{Table, DO_DROP, NO_DROP};

fn value(id: u16, bytes: &[u8]) -> Anon {
    Anon::from_bytes(id, false, bytes.to_vec())
}

fn droppable(id: u16, bytes: &[u8]) -> Anon {
    Anon::from_bytes(id, true, bytes.to_vec())
}

fn rows(column: &AnonVec) -> Vec<Vec<u8>> {
    (0..column.len())
        .map(|i| column.index(i).as_ptr().clone())
        .collect()
}

fn package(values: Vec<Anon>) -> Package {
    let mut package = Package::new();
    for anon in values {
        package.insert_anon(anon);
    }
    package
}

fn column_rows(table: &Table, id: u16) -> Vec<Vec<u8>> {
    rows(table.column(id).unwrap())
}

#[test]
fn fingerprint_of_nothing_is_the_seed() {
    assert_eq!(Archetype::new(), Archetype(1));
    assert_eq!(Package::new().archetype(), Archetype(1));
}

#[test]
fn fingerprint_folds_the_hash_of_each_id() {
    // id 0 contributes nothing: 0 * k = 0, shifted by 1 is 0.
    assert_eq!(Archetype::new().add(0), Archetype(1));
    // id 1: h = 123456789123456789, h % 32 = 21, so h is shifted by 22.
    let h: u64 = 123456789123456789;
    let expected = 1u64.wrapping_add(1u64.wrapping_add(h << 22));
    assert_eq!(Archetype::new().add(1), Archetype(expected));
    assert_eq!(Archetype::new().add(1).0, 15198298644190068738);
}

#[test]
fn fingerprint_does_not_depend_on_the_order() {
    let a = Archetype::new().add(3).add(7).add(11);
    let b = Archetype::new().add(11).add(3).add(7);
    assert_eq!(a, b);
    let one = package(vec![value(3, &[1]), value(7, &[2])]);
    let other = package(vec![value(7, &[2]), value(3, &[1])]);
    assert_eq!(one.archetype(), other.archetype());
    assert_ne!(one.archetype(), Package::new().archetype());
}

#[test]
fn undeclared_is_the_largest_id() {
    assert_eq!(UNDECLARED, u16::MAX);
}

#[test]
fn column_starts_with_one_row_and_room_for_one() {
    let column = AnonVec::new(value(4, &[1, 2]));
    assert_eq!(column.len(), 1);
    assert_eq!(column.room(), 1);
    assert_eq!(column.id(), 4);
    assert_eq!(column.size(), 2);
    assert_eq!(column.dropped(), 0);
    assert_eq!(rows(&column), vec![vec![1, 2]]);
}

#[test]
fn column_doubles_when_full() {
    let mut column = AnonVec::new(value(4, &[1, 2]));
    column.push(value(4, &[3, 4]));
    assert_eq!(column.room(), 2);
    column.push(value(4, &[5, 6]));
    assert_eq!(column.room(), 4);
    column.push(value(4, &[7, 8]));
    assert_eq!(column.room(), 4);
    column.push(value(4, &[9, 10]));
    assert_eq!(column.room(), 8);
    assert_eq!(
        rows(&column),
        vec![vec![1, 2], vec![3, 4], vec![5, 6], vec![7, 8], vec![9, 10]]
    );
}

#[test]
fn zero_sized_rows_are_counted_without_a_buffer() {
    let mut column = AnonVec::new(value(9, &[]));
    for _ in 0..99 {
        column.push(value(9, &[]));
    }
    assert_eq!(column.len(), 100);
    assert_eq!(column.room(), 1);
    let mut iter = column.iter_as();
    let mut seen = 0;
    while let Some(anon) = iter.next() {
        assert_eq!(anon.size(), 0);
        assert_eq!(anon.id(), 9);
        seen += 1;
    }
    assert_eq!(seen, 100);
}

#[test]
fn destroy_of_the_last_row_moves_nothing() {
    let mut column = AnonVec::new(droppable(1, &[10]));
    column.push(droppable(1, &[20]));
    column.push(droppable(1, &[30]));
    column.destroy_swap(2);
    assert_eq!(rows(&column), vec![vec![10], vec![20]]);
    assert_eq!(column.dropped(), 1);
}

#[test]
fn destroy_of_an_interior_row_swaps_the_last_row_in() {
    let mut column = AnonVec::new(droppable(1, &[10]));
    column.push(droppable(1, &[20]));
    column.push(droppable(1, &[30]));
    column.destroy_swap(0);
    assert_eq!(rows(&column), vec![vec![30], vec![20]]);
    assert_eq!(column.dropped(), 1);
}

#[test]
fn destroy_without_drop_counts_nothing() {
    let mut column = AnonVec::new(droppable(1, &[10]));
    column.push(droppable(1, &[20]));
    column.destroy_nodrop(0);
    assert_eq!(rows(&column), vec![vec![20]]);
    assert_eq!(column.dropped(), 0);
}

#[test]
fn plain_values_are_never_counted_as_dropped() {
    let mut column = AnonVec::new(value(1, &[10]));
    column.push(value(1, &[20]));
    column.destroy_swap(0);
    column.clear();
    assert_eq!(column.len(), 0);
    assert_eq!(column.dropped(), 0);
}

#[test]
fn clear_destroys_every_row() {
    let mut column = AnonVec::new(droppable(1, &[10]));
    column.push(droppable(1, &[20]));
    column.push(droppable(1, &[30]));
    column.clear();
    assert_eq!(column.len(), 0);
    assert_eq!(column.dropped(), 3);
    assert_eq!(column.room(), 4);
}

#[test]
fn store_overwrites_one_row() {
    let mut column = AnonVec::new(value(1, &[1, 1]));
    column.push(value(1, &[2, 2]));
    column.push(value(1, &[3, 3]));
    column.store(1, &value(1, &[9, 8]));
    assert_eq!(rows(&column), vec![vec![1, 1], vec![9, 8], vec![3, 3]]);
}

#[test]
fn uninit_is_four_zero_bytes_of_component_zero() {
    let anon = Anon::uninit();
    assert_eq!(anon.id(), 0);
    assert!(!anon.needs_drop());
    assert_eq!(anon.as_ptr(), &vec![0, 0, 0, 0]);
}

#[test]
fn chain_yields_the_last_cursor_first() {
    let mut a = AnonVec::new(value(1, &[1]));
    a.push(value(1, &[2]));
    let b = AnonVec::new(value(1, &[3]));
    let mut chain = AnonIterChain::new();
    assert!(chain.is_empty());
    chain.push(a.iter_as());
    chain.push(b.iter_as());
    assert!(!chain.is_empty());
    assert_eq!(chain.len(), 3);
    let mut seen = Vec::new();
    while let Some(anon) = chain.next() {
        seen.push(anon.as_ptr()[0]);
    }
    assert_eq!(seen, vec![3, 1, 2]);
    assert!(chain.is_empty());
    assert_eq!(AnonIterChain::with_capacity(7).len(), 0);
}

#[test]
fn index_cursor_yields_every_row_once() {
    let mut iter = PackageIndexIter {
        table: 5,
        col: 0,
        len: 3,
    };
    assert_eq!(iter.next(), Some(PackageIndex { table: 5, col: 0 }));
    assert_eq!(iter.next(), Some(PackageIndex { table: 5, col: 1 }));
    assert_eq!(iter.next(), Some(PackageIndex { table: 5, col: 2 }));
    assert_eq!(iter.next(), None);
    assert_eq!(iter.next(), None);
}

#[test]
fn index_chain_yields_the_last_cursor_first() {
    let mut chain = PackageIndexChain { iters: Vec::new() };
    chain.push(PackageIndexIter {
        table: 0,
        col: 0,
        len: 2,
    });
    chain.push(PackageIndexIter {
        table: 1,
        col: 0,
        len: 1,
    });
    assert_eq!(chain.len(), 3);
    let mut seen = Vec::new();
    while let Some(index) = chain.next() {
        seen.push((index.table, index.col));
    }
    assert_eq!(seen, vec![(1, 0), (0, 0), (0, 1)]);
}

#[test]
fn package_insert_replaces_the_value_of_its_component() {
    let mut package = package(vec![value(1, &[1]), value(2, &[2])]);
    package.insert_anon(value(1, &[9]));
    assert_eq!(package.len(), 2);
    assert_eq!(package.get(0).as_ptr(), &vec![9]);
    assert_eq!(package.get(1).as_ptr(), &vec![2]);
    package.insert_anon(value(3, &[3]));
    assert_eq!(package.len(), 3);
    assert_eq!(package.get(2).id(), 3);
    assert!(package.contains(3));
    assert!(!package.contains(4));
}

#[test]
fn package_remove_takes_the_component_out() {
    let mut package = package(vec![value(1, &[1]), value(2, &[2]), value(3, &[3])]);
    package.remove(2);
    assert_eq!(package.len(), 2);
    assert_eq!(package.get(0).id(), 1);
    assert_eq!(package.get(1).id(), 3);
    package.remove(7);
    assert_eq!(package.len(), 2);
    assert_eq!(package.pop().unwrap().id(), 3);
    assert_eq!(package.pop().unwrap().id(), 1);
    assert!(package.pop().is_none());
}

#[test]
fn add_then_remove_restores_the_package() {
    let mut package = package(vec![value(1, &[1]), value(2, &[2])]);
    let before = package.archetype();
    package.insert_anon(value(3, &[3]));
    assert_ne!(package.archetype(), before);
    package.remove(3);
    assert_eq!(package.archetype(), before);
    assert_eq!(package.len(), 2);
    assert_eq!(package.get(0).as_ptr(), &vec![1]);
    assert_eq!(package.get(1).as_ptr(), &vec![2]);
}

#[test]
fn table_columns_follow_the_last_package() {
    let table = Table::new(vec![
        package(vec![value(1, &[10]), value(2, &[11, 12])]),
        package(vec![value(2, &[21, 22]), value(1, &[20])]),
    ]);
    assert_eq!(table.len(), 2);
    // the last package comes first, and every column has a row for each package
    assert_eq!(column_rows(&table, 1), vec![vec![20], vec![10]]);
    assert_eq!(column_rows(&table, 2), vec![vec![21, 22], vec![11, 12]]);
    assert!(table.column(3).is_none());
    assert!(table.contains(&vec![1, 2]));
    assert!(table.contains(&vec![2]));
    assert!(table.contains(&vec![]));
    assert!(!table.contains(&vec![1, 3]));
}

#[test]
fn spawn_appends_the_last_package_first() {
    let mut table = Table::new(vec![package(vec![value(1, &[1]), value(2, &[2])])]);
    table.spawn(vec![
        package(vec![value(1, &[3]), value(2, &[4])]),
        package(vec![value(2, &[6]), value(1, &[5])]),
    ]);
    assert_eq!(table.len(), 3);
    assert_eq!(column_rows(&table, 1), vec![vec![1], vec![5], vec![3]]);
    assert_eq!(column_rows(&table, 2), vec![vec![2], vec![6], vec![4]]);
}

#[test]
fn destroy_sorts_and_removes_each_row_once() {
    let mut table = Table::new(vec![
        package(vec![value(1, &[4])]),
        package(vec![value(1, &[3])]),
        package(vec![value(1, &[2])]),
        package(vec![value(1, &[1])]),
        package(vec![value(1, &[0])]),
    ]);
    assert_eq!(
        column_rows(&table, 1),
        vec![vec![0], vec![1], vec![2], vec![3], vec![4]]
    );
    // rows 3 and 1, asked for out of order, and row 1 twice
    table.destroy(vec![(1, DO_DROP), (3, DO_DROP), (1, NO_DROP)]);
    assert_eq!(table.len(), 3);
    // row 3 goes first: row 4 takes its place; then row 1: the last row, which
    // now holds 4, takes its place
    assert_eq!(column_rows(&table, 1), vec![vec![0], vec![4], vec![2]]);
}

#[test]
fn drop_wins_when_a_row_is_asked_for_both_ways() {
    let mut table = Table::new(vec![
        package(vec![droppable(1, &[1])]),
        package(vec![droppable(1, &[0])]),
    ]);
    table.destroy(vec![(0, NO_DROP), (0, DO_DROP), (1, NO_DROP)]);
    assert_eq!(table.len(), 0);
    assert_eq!(table.column(1).unwrap().dropped(), 1);
}

#[test]
fn swap_remove_drop_count() {
    let packages: Vec<Package> = (0..100u8)
        .map(|i| package(vec![droppable(1, &[i])]))
        .collect();
    let mut table = Table::new(packages);
    assert_eq!(table.len(), 100);
    // every row once, in a scrambled order
    let entries: Vec<(usize, bool)> = (0..100usize).map(|i| ((i * 37) % 100, DO_DROP)).collect();
    table.destroy(entries);
    assert_eq!(table.len(), 0);
    assert_eq!(table.column(1).unwrap().len(), 0);
    assert_eq!(table.column(1).unwrap().dropped(), 100);
}

#[test]
fn destroy_all_then_spawn_is_a_fresh_spawn() {
    let make = || {
        vec![
            package(vec![value(1, &[1]), value(2, &[2])]),
            package(vec![value(1, &[3]), value(2, &[4])]),
        ]
    };
    let mut table = Table::new(vec![
        package(vec![value(1, &[7]), value(2, &[8])]),
        package(vec![value(1, &[9]), value(2, &[10])]),
        package(vec![value(1, &[11]), value(2, &[12])]),
    ]);
    table.destroy(vec![(0, DO_DROP), (1, DO_DROP), (2, DO_DROP)]);
    assert_eq!(table.len(), 0);
    table.spawn(make());
    let fresh = Table::new(make());
    assert_eq!(table.len(), fresh.len());
    assert_eq!(column_rows(&table, 1), column_rows(&fresh, 1));
    assert_eq!(column_rows(&table, 2), column_rows(&fresh, 2));
    assert_eq!(column_rows(&table, 1), vec![vec![3], vec![1]]);
}

#[test]
fn collect_is_empty_for_a_table_without_rows() {
    let mut table = Table::new(vec![package(vec![value(1, &[1])])]);
    assert!(table.collect(1).is_some());
    let indices = table.collect_indices(4).unwrap();
    assert_eq!((indices.table, indices.col, indices.len), (4, 0, 1));
    table.destroy(vec![(0, DO_DROP)]);
    assert!(table.collect(1).is_none());
    assert!(table.collect_indices(4).is_none());
}

#[test]
fn extract_applies_removes_then_inserts() {
    let table = Table::new(vec![
        package(vec![value(1, &[1]), value(2, &[2])]),
        package(vec![value(1, &[3]), value(2, &[4])]),
    ]);
    // the table's columns are those of the last package, its last component first
    let mut modify = Modify::new();
    modify.without_id(1);
    modify.with_anon(value(3, &[9]));
    modify.with_anon(value(2, &[8]));
    let package = table.extract(modify, 1);
    assert_eq!(package.len(), 2);
    assert_eq!(package.get(0).id(), 2);
    assert_eq!(package.get(0).as_ptr(), &vec![8]);
    assert_eq!(package.get(1).id(), 3);
    assert_eq!(package.get(1).as_ptr(), &vec![9]);
    // the row itself is untouched
    assert_eq!(column_rows(&table, 2), vec![vec![4], vec![2]]);
}

#[test]
fn of_two_inserts_of_one_component_the_first_stays() {
    let table = Table::new(vec![package(vec![value(1, &[1])])]);
    let mut modify = Modify::new();
    modify.with_anon(value(2, &[5]));
    modify.with_anon(value(2, &[6]));
    let package = table.extract(modify, 0);
    assert_eq!(package.len(), 2);
    assert_eq!(package.get(1).as_ptr(), &vec![5]);
}

#[test]
fn store_writes_one_cell() {
    let mut table = Table::new(vec![
        package(vec![value(1, &[1]), value(2, &[2])]),
        package(vec![value(1, &[3]), value(2, &[4])]),
    ]);
    assert!(table.holds(1, &value(2, &[0])));
    assert!(!table.holds(2, &value(2, &[0])));
    assert!(!table.holds(1, &value(5, &[0])));
    assert!(!table.holds(1, &value(2, &[0, 0])));
    table.store(1, &value(2, &[77]));
    assert_eq!(column_rows(&table, 2), vec![vec![4], vec![77]]);
    assert_eq!(column_rows(&table, 1), vec![vec![3], vec![1]]);
}
