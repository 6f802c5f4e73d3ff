//! Type-erased component values and the columns that store them: a column is
//! one contiguous buffer that holds the bytes of its rows back to back.

use vstd::prelude::*;
use crate::archetype::ComponentId;
use crate::handle::{Component, decoded, destructible, encoded};

verus! {

/// One component value with its type erased: the component's id, whether the
/// type has a destructor, and the value's bytes.
pub struct Anon {
    component: ComponentId,
    drop: bool,
    bytes: Vec<u8>,
}

/// What an erased value holds, as plain values.
pub struct AnonView {
    pub id: ComponentId,
    pub drop: bool,
    pub bytes: Seq<u8>,
}

impl View for Anon {
    type V = AnonView;

    closed spec fn view(&self) -> AnonView {
        AnonView { id: self.component, drop: self.drop, bytes: self.bytes@ }
    }
}

/// Whether the view is an erased form of the component value under the id:
/// it has the id, the flag that the type gives for its destructor, and bytes
/// that the type gives for the value.
pub open spec fn erased_as<T: Component>(id: ComponentId, value: T, anon: AnonView) -> bool {
    &&& anon.id == id
    &&& destructible::<T>(anon.drop)
    &&& encoded::<T>(value, anon.bytes)
}

impl Anon {
    /// An erased value of the given component, made of the given bytes.
    pub fn from_bytes(id: ComponentId, drop: bool, bytes: Vec<u8>) -> (anon: Anon)
        ensures
            anon@ == (AnonView { id, drop, bytes: bytes@ }),
    {
        Anon { component: id, drop, bytes }
    }

    /// The erased form of a component value, under the component's id: the
    /// type says which bytes stand for the value, and whether it has a
    /// destructor.
    pub fn new<T: Component>(id: ComponentId, val: &T) -> (anon: Anon)
        ensures
            erased_as::<T>(id, *val, anon@),
    {
        Anon { component: id, drop: T::needs_drop(), bytes: val.to_bytes() }
    }

    /// The value as a component of type `T`: the type says which value the
    /// bytes stand for.
    pub fn downcast<T: Component>(&self) -> (value: T)
        ensures
            decoded::<T>(self@.bytes, value),
    {
        T::from_bytes(&self.bytes)
    }

    /// A placeholder: component 0, no destructor, four zero bytes.
    pub fn uninit() -> (anon: Anon)
        ensures
            anon@ == (AnonView { id: 0, drop: false, bytes: seq![0u8, 0u8, 0u8, 0u8] }),
    {
        let mut bytes: Vec<u8> = Vec::new();
        bytes.push(0);
        bytes.push(0);
        bytes.push(0);
        bytes.push(0);
        assert(bytes@ =~= seq![0u8, 0u8, 0u8, 0u8]);
        Anon { component: 0, drop: false, bytes }
    }

    /// The id of the value's component.
    pub fn id(&self) -> (id: ComponentId)
        ensures
            id == self@.id,
    {
        self.component
    }

    /// Whether the value's type has a destructor.
    pub fn needs_drop(&self) -> (drop: bool)
        ensures
            drop == self@.drop,
    {
        self.drop
    }

    /// The size of the value in bytes.
    pub fn size(&self) -> (size: usize)
        ensures
            size == self@.bytes.len(),
    {
        self.bytes.len()
    }

    /// Destroys the value, and tells whether its type has a destructor to
    /// run.
    pub fn clear(self) -> (dropped: bool)
        ensures
            dropped == self@.drop,
    {
        self.drop
    }

    /// A reference to the value's bytes.
    pub fn as_ptr(&self) -> (bytes: &Vec<u8>)
        ensures
            bytes@ == self@.bytes,
    {
        &self.bytes
    }
}

/// What a column holds, as plain values: its component, the size of one row in
/// bytes, whether rows have a destructor, the rows in order, and how many rows
/// the column has destroyed.
pub struct ColumnView {
    pub id: ComponentId,
    pub size: nat,
    pub drop: bool,
    pub rows: Seq<Seq<u8>>,
    pub dropped: nat,
}

/// The rows after row `index` is removed by swapping the last row into its
/// place.
pub open spec fn swap_removed(rows: Seq<Seq<u8>>, index: int) -> Seq<Seq<u8>> {
    rows.update(index, rows.last()).drop_last()
}

/// A count of destroyed rows after `more` rows are destroyed. The count stops
/// at the largest number the machine holds.
pub open spec fn tally(dropped: nat, more: nat) -> nat {
    if dropped + more > usize::MAX {
        usize::MAX as nat
    } else {
        dropped + more
    }
}

/// Row `i` of a buffer whose rows are `size` bytes each.
pub open spec fn row_at(data: Seq<u8>, size: int, i: int) -> Seq<u8> {
    data.subrange(i * size, (i + 1) * size)
}

/// Row `i` of `n` rows lies within the first `n` rows of the buffer.
proof fn lemma_row_span(i: int, n: int, size: int)
    by (nonlinear_arith)
    requires
        0 <= i < n,
        0 <= size,
    ensures
        0 <= i * size,
        (i + 1) * size == i * size + size,
        (i + 1) * size <= n * size,
{
}

/// A buffer is never longer than the machine can count.
proof fn lemma_buffer_fits(data: &Vec<u8>)
    ensures
        data@.len() <= usize::MAX,
{
    assert(data@.len() == data.len());
}

/// A buffer of twice the rows has twice the bytes.
proof fn lemma_double(cap: int, size: int)
    by (nonlinear_arith)
    requires
        0 <= cap,
        1 <= size,
    ensures
        (2 * cap) * size == 2 * (cap * size),
        2 * cap <= 2 * (cap * size),
        1 * size == size,
        0 * size == 0,
{
}

/// A column: a growable buffer of the values of one component, one row for
/// each entity of the table.
pub struct AnonVec {
    data: Vec<u8>,
    size: usize,
    capacity: usize,
    len: usize,
    drop: bool,
    component: ComponentId,
    dropped: usize,
}

impl View for AnonVec {
    type V = ColumnView;

    closed spec fn view(&self) -> ColumnView {
        ColumnView {
            id: self.component,
            size: self.size as nat,
            drop: self.drop,
            rows: Seq::new(self.len as nat, |i: int| row_at(self.data@, self.size as int, i)),
            dropped: self.dropped as nat,
        }
    }
}

impl AnonVec {
    /// The number of rows the buffer has room for.
    pub closed spec fn capacity(&self) -> nat {
        self.capacity as nat
    }

    /// The number of bytes the buffer holds.
    pub closed spec fn buffer_len(&self) -> nat {
        self.data@.len()
    }

    /// The column's invariant: the buffer has room for exactly `capacity` rows,
    /// and the rows in use fit in it. A column of zero-sized rows has no buffer.
    pub closed spec fn wf(&self) -> bool {
        &&& self.data@.len() == self.capacity * self.size
        &&& self.size > 0 ==> self.len <= self.capacity
    }

    /// Every row in use lies within the buffer and has the column's row size.
    proof fn lemma_row_in_buffer(&self, i: int)
        requires
            self.wf(),
            0 <= i < self.len,
        ensures
            0 <= i * self.size,
            (i + 1) * self.size == i * self.size + self.size,
            (i + 1) * self.size <= self.len * self.size,
            self.len * self.size <= self.data@.len(),
            self.data@.len() <= usize::MAX,
            self@.rows[i].len() == self.size,
    {
        lemma_buffer_fits(&self.data);
        lemma_row_span(i, self.len as int, self.size as int);
        if self.size > 0 {
            lemma_row_span(self.len as int - 1, self.capacity as int, self.size as int);
        } else {
            assert(self.len * self.size == 0) by (nonlinear_arith)
                requires
                    self.size == 0,
            ;
        }
    }

    /// A column that holds the one given value, with room for exactly one row.
    pub fn new(anon: Anon) -> (column: AnonVec)
        ensures
            column.wf(),
            column@ == (ColumnView {
                id: anon@.id,
                size: anon@.bytes.len(),
                drop: anon@.drop,
                rows: seq![anon@.bytes],
                dropped: 0,
            }),
            column.capacity() == 1,
            column.buffer_len() == anon@.bytes.len(),
    {
        let size = anon.bytes.len();
        let column = AnonVec {
            data: anon.bytes,
            size,
            capacity: 1,
            len: 1,
            drop: anon.drop,
            component: anon.component,
            dropped: 0,
        };
        proof {
            lemma_double(1, if size == 0 { 1 } else { size as int });
            assert(1 * size == size) by (nonlinear_arith);
            assert(0 * size == 0) by (nonlinear_arith);
            assert(row_at(column.data@, size as int, 0) =~= anon@.bytes);
            assert(column@.rows =~= seq![anon@.bytes]);
        }
        column
    }

    /// The number of rows.
    pub fn len(&self) -> (len: usize)
        ensures
            len == self@.rows.len(),
    {
        self.len
    }

    /// The id of the column's component.
    pub fn id(&self) -> (id: ComponentId)
        ensures
            id == self@.id,
    {
        self.component
    }

    /// The size of one row in bytes.
    pub fn size(&self) -> (size: usize)
        ensures
            size == self@.size,
    {
        self.size
    }

    /// How many rows the column has destroyed.
    pub fn dropped(&self) -> (dropped: usize)
        ensures
            dropped == self@.dropped,
    {
        self.dropped
    }

    /// The number of rows the buffer has room for.
    pub fn room(&self) -> (capacity: usize)
        ensures
            capacity == self.capacity(),
    {
        self.capacity
    }

    /// Makes room for one more row: a full buffer doubles, an empty one gets
    /// room for one row, and a column of zero-sized rows never gets a buffer.
    fn grow_if_full(&mut self)
        requires
            old(self).wf(),
        ensures
            final(self).wf(),
            final(self)@ == old(self)@,
            final(self).size > 0 ==> final(self).len < final(self).capacity,
            final(self).capacity() == (if old(self)@.size == 0 || old(self)@.rows.len() < old(
                self,
            ).capacity() {
                old(self).capacity()
            } else if old(self).capacity() == 0 {
                1
            } else {
                2 * old(self).capacity()
            }),
            final(self).size == old(self).size,
            final(self).len == old(self).len,
            forall|k: int| 0 <= k < old(self).data@.len() ==> final(self).data@[k] == old(self).data@[k],
            old(self).data@.len() <= final(self).data@.len(),
    {
        if self.size != 0 && self.len == self.capacity {
            let ghost before = self.data@;
            let extra = if self.capacity == 0 {
                self.size
            } else {
                self.data.len()
            };
            let mut k: usize = 0;
            while k < extra
                invariant
                    k <= extra,
                    self.data@.len() == before.len() + k,
                    forall|q: int| 0 <= q < before.len() ==> self.data@[q] == before[q],
                    self.size == old(self).size,
                    self.len == old(self).len,
                    self.capacity == old(self).capacity,
                    self.drop == old(self).drop,
                    self.component == old(self).component,
                    self.dropped == old(self).dropped,
                decreases extra - k,
            {
                self.data.push(0);
                k += 1;
            }
            proof {
                lemma_double(self.capacity as int, self.size as int);
                lemma_buffer_fits(&self.data);
            }
            self.capacity = if self.capacity == 0 {
                1
            } else {
                self.capacity * 2
            };
            proof {
                assert(self@.rows =~= old(self)@.rows) by {
                    assert forall|i: int| 0 <= i < self.len implies row_at(
                        self.data@,
                        self.size as int,
                        i,
                    ) == row_at(before, self.size as int, i) by {
                        old(self).lemma_row_in_buffer(i);
                        assert(row_at(self.data@, self.size as int, i) =~= row_at(
                            before,
                            self.size as int,
                            i,
                        ));
                    }
                }
            }
        }
    }

    /// Appends a value as the last row.
    ///
    /// A column of zero-sized rows keeps no buffer however many rows it gets.
    pub fn push(&mut self, val: Anon)
        requires
            old(self).wf(),
            val@.id == old(self)@.id,
            val@.bytes.len() == old(self)@.size,
            old(self)@.size == 0 ==> old(self)@.rows.len() < usize::MAX,
        ensures
            final(self).wf(),
            final(self)@ == (ColumnView { rows: old(self)@.rows.push(val@.bytes), ..old(self)@ }),
            final(self).capacity() == (if old(self)@.size == 0 || old(self)@.rows.len() < old(
                self,
            ).capacity() {
                old(self).capacity()
            } else if old(self).capacity() == 0 {
                1
            } else {
                2 * old(self).capacity()
            }),
            old(self)@.size == 0 ==> final(self).buffer_len() == 0,
    {
        self.grow_if_full();
        let ghost grown = self.data@;
        let ghost rows = self@.rows;
        proof {
            lemma_buffer_fits(&self.data);
            lemma_row_span(self.len as int, self.len as int + 1, self.size as int);
            if self.size > 0 {
                lemma_row_span(self.len as int, self.capacity as int, self.size as int);
            } else {
                assert(self.len * self.size == 0) by (nonlinear_arith)
                    requires
                        self.size == 0,
                ;
                assert(self.capacity * self.size == 0) by (nonlinear_arith)
                    requires
                        self.size == 0,
                ;
            }
        }
        let start = self.len * self.size;
        let mut k: usize = 0;
        while k < self.size
            invariant
                k <= self.size,
                start == self.len * self.size,
                start + self.size <= self.data@.len(),
                self.data@.len() <= usize::MAX,
                self.data@.len() == grown.len(),
                val@.bytes.len() == self.size,
                forall|q: int| 0 <= q < start ==> self.data@[q] == grown[q],
                forall|q: int| start <= q < start + k ==> #[trigger] self.data@[q] == val@.bytes[q - start],
                self.size == old(self).size,
                self.len == old(self).len,
                self.drop == old(self).drop,
                self.component == old(self).component,
                self.dropped == old(self).dropped,
                self.capacity * self.size == grown.len(),
                self.size > 0 ==> self.len < self.capacity,
                self.capacity() == (if old(self)@.size == 0 || old(self)@.rows.len() < old(
                    self,
                ).capacity() {
                    old(self).capacity()
                } else if old(self).capacity() == 0 {
                    1
                } else {
                    2 * old(self).capacity()
                }),
            decreases self.size - k,
        {
            self.data[start + k] = val.bytes[k];
            k += 1;
        }
        self.len = self.len + 1;
        proof {
            let size = self.size as int;
            assert(self@.rows =~= rows.push(val@.bytes)) by {
                assert forall|i: int| 0 <= i < self.len implies row_at(self.data@, size, i) == rows.push(
                    val@.bytes,
                )[i] by {
                    lemma_row_span(i, self.len as int, size);
                    if i < self.len - 1 {
                        lemma_row_span(i, self.len as int - 1, size);
                        assert(row_at(self.data@, size, i) =~= row_at(grown, size, i));
                    } else {
                        assert(row_at(self.data@, size, i) =~= val@.bytes);
                    }
                }
            }
        }
    }

    /// A copy of the value at row `index`.
    pub fn index(&self, index: usize) -> (anon: Anon)
        requires
            self.wf(),
            index < self@.rows.len(),
        ensures
            anon@ == (AnonView { id: self@.id, drop: self@.drop, bytes: self@.rows[index as int] }),
    {
        proof {
            self.lemma_row_in_buffer(index as int);
        }
        let start = index * self.size;
        let mut bytes: Vec<u8> = Vec::new();
        let mut k: usize = 0;
        while k < self.size
            invariant
                k <= self.size,
                start == index * self.size,
                start + self.size <= self.data@.len(),
                self.data@.len() <= usize::MAX,
                bytes@ == self.data@.subrange(start as int, start + k),
            decreases self.size - k,
        {
            bytes.push(self.data[start + k]);
            assert(bytes@ =~= self.data@.subrange(start as int, start + k + 1));
            k += 1;
        }
        Anon { component: self.component, drop: self.drop, bytes }
    }

    /// The value at row `index`, as a component of type `T`.
    pub fn index_cast<T: Component>(&self, index: usize) -> (value: T)
        requires
            self.wf(),
            index < self@.rows.len(),
        ensures
            decoded::<T>(self@.rows[index as int], value),
    {
        self.index(index).downcast::<T>()
    }

    /// Writes a value over the value at row `index`.
    pub fn store(&mut self, index: usize, val: &Anon)
        requires
            old(self).wf(),
            index < old(self)@.rows.len(),
            val@.id == old(self)@.id,
            val@.bytes.len() == old(self)@.size,
        ensures
            final(self).wf(),
            final(self)@ == (ColumnView {
                rows: old(self)@.rows.update(index as int, val@.bytes),
                ..old(self)@
            }),
            final(self).capacity() == old(self).capacity(),
    {
        let ghost before = self.data@;
        let ghost rows = self@.rows;
        proof {
            self.lemma_row_in_buffer(index as int);
        }
        let start = index * self.size;
        let mut k: usize = 0;
        while k < self.size
            invariant
                k <= self.size,
                start == index * self.size,
                start + self.size <= self.data@.len(),
                self.data@.len() <= usize::MAX,
                self.data@.len() == before.len(),
                val@.bytes.len() == self.size,
                forall|q: int|
                    0 <= q < before.len() && !(start <= q < start + k) ==> self.data@[q] == before[q],
                forall|q: int| start <= q < start + k ==> #[trigger] self.data@[q] == val@.bytes[q - start],
                self.size == old(self).size,
                self.len == old(self).len,
                self.capacity == old(self).capacity,
                self.drop == old(self).drop,
                self.component == old(self).component,
                self.dropped == old(self).dropped,
            decreases self.size - k,
        {
            self.data[start + k] = val.bytes[k];
            k += 1;
        }
        proof {
            let size = self.size as int;
            assert(self@.rows =~= rows.update(index as int, val@.bytes)) by {
                assert forall|i: int| 0 <= i < self.len implies row_at(self.data@, size, i)
                    == rows.update(index as int, val@.bytes)[i] by {
                    old(self).lemma_row_in_buffer(i);
                    if i == index {
                        assert(row_at(self.data@, size, i) =~= val@.bytes);
                    } else {
                        if i < index {
                            lemma_row_span(i, index as int, size);
                        } else {
                            lemma_row_span(index as int, i, size);
                        }
                        assert(row_at(self.data@, size, i) =~= row_at(before, size, i));
                    }
                }
            }
        }
    }

    /// Overwrites row `index` with the last row and forgets the last row.
    fn retire(&mut self, index: usize)
        requires
            old(self).wf(),
            index < old(self)@.rows.len(),
        ensures
            final(self).wf(),
            final(self)@ == (ColumnView {
                rows: swap_removed(old(self)@.rows, index as int),
                ..old(self)@
            }),
            final(self).capacity() == old(self).capacity(),
            final(self).dropped == old(self).dropped,
    {
        let ghost before = self.data@;
        let ghost rows = self@.rows;
        let last = self.len - 1;
        proof {
            self.lemma_row_in_buffer(index as int);
            self.lemma_row_in_buffer(last as int);
        }
        if index != last {
            let src = last * self.size;
            let dst = index * self.size;
            proof {
                lemma_row_span(index as int, last as int, self.size as int);
            }
            let mut k: usize = 0;
            while k < self.size
                invariant
                    k <= self.size,
                    src == last * self.size,
                    dst == index * self.size,
                    dst + self.size <= src,
                    src + self.size <= self.data@.len(),
                    self.data@.len() <= usize::MAX,
                    self.data@.len() == before.len(),
                    forall|q: int|
                        0 <= q < before.len() && !(dst <= q < dst + k) ==> self.data@[q] == before[q],
                    forall|q: int| dst <= q < dst + k ==> #[trigger] self.data@[q] == before[q - dst + src],
                    self.size == old(self).size,
                    self.len == old(self).len,
                    self.capacity == old(self).capacity,
                    self.drop == old(self).drop,
                    self.component == old(self).component,
                    self.dropped == old(self).dropped,
                decreases self.size - k,
            {
                self.data[dst + k] = self.data[src + k];
                k += 1;
            }
        }
        self.len = last;
        proof {
            let size = self.size as int;
            assert(self@.rows =~= swap_removed(rows, index as int)) by {
                assert forall|i: int| 0 <= i < last implies row_at(self.data@, size, i)
                    == swap_removed(rows, index as int)[i] by {
                    old(self).lemma_row_in_buffer(i);
                    if i == index {
                        assert(row_at(self.data@, size, i) =~= row_at(before, size, last as int));
                    } else {
                        if i < index {
                            lemma_row_span(i, index as int, size);
                        } else {
                            lemma_row_span(index as int, i, size);
                        }
                        assert(row_at(self.data@, size, i) =~= row_at(before, size, i));
                    }
                }
            }
        }
    }

    /// Destroys the value at row `index`: the last row takes its place, and
    /// the column counts one more destroyed row if its rows have a destructor.
    /// When `index` is the last row, nothing is moved.
    pub fn destroy_swap(&mut self, index: usize)
        requires
            old(self).wf(),
            index < old(self)@.rows.len(),
        ensures
            final(self).wf(),
            final(self)@ == (ColumnView {
                rows: swap_removed(old(self)@.rows, index as int),
                dropped: if old(self)@.drop {
                    tally(old(self)@.dropped, 1)
                } else {
                    old(self)@.dropped
                },
                ..old(self)@
            }),
            index == old(self)@.rows.len() - 1 ==> final(self)@.rows == old(self)@.rows.drop_last(),
            final(self).capacity() == old(self).capacity(),
    {
        self.retire(index);
        if self.drop && self.dropped < usize::MAX {
            self.dropped = self.dropped + 1;
        }
        proof {
            if index == old(self)@.rows.len() - 1 {
                assert(swap_removed(old(self)@.rows, index as int) =~= old(self)@.rows.drop_last());
            }
        }
    }

    /// Frees row `index` without destroying its value, which has moved
    /// elsewhere: the last row takes its place.
    pub fn destroy_nodrop(&mut self, index: usize)
        requires
            old(self).wf(),
            index < old(self)@.rows.len(),
        ensures
            final(self).wf(),
            final(self)@ == (ColumnView {
                rows: swap_removed(old(self)@.rows, index as int),
                ..old(self)@
            }),
            final(self).capacity() == old(self).capacity(),
    {
        self.retire(index);
    }

    /// Destroys every row. The buffer keeps its size.
    pub fn clear(&mut self)
        requires
            old(self).wf(),
        ensures
            final(self).wf(),
            final(self)@ == (ColumnView {
                rows: Seq::empty(),
                dropped: if old(self)@.drop {
                    tally(old(self)@.dropped, old(self)@.rows.len())
                } else {
                    old(self)@.dropped
                },
                ..old(self)@
            }),
            final(self).capacity() == old(self).capacity(),
    {
        let len = self.len;
        self.len = 0;
        if self.drop {
            self.dropped = if len > usize::MAX - self.dropped {
                usize::MAX
            } else {
                self.dropped + len
            };
        }
        assert(self@.rows =~= Seq::<Seq<u8>>::empty());
    }
}

/// The values of a column, in row order.
pub open spec fn column_items(column: ColumnView) -> Seq<AnonView> {
    Seq::new(
        column.rows.len(),
        |i: int| AnonView { id: column.id, drop: column.drop, bytes: column.rows[i] },
    )
}

/// A cursor over the rows of one column, in row order.
pub struct AnonIter<'a> {
    column: &'a AnonVec,
    curr: usize,
    len: usize,
}

impl<'a> AnonIter<'a> {
    /// The cursor's invariant: it stands within the rows of a valid column.
    pub closed spec fn wf(&self) -> bool {
        &&& self.column.wf()
        &&& self.curr <= self.len <= self.column@.rows.len()
    }

    /// The values that the cursor has yet to yield, in order.
    pub closed spec fn remaining(&self) -> Seq<AnonView> {
        column_items(self.column@).subrange(self.curr as int, self.len as int)
    }

    /// The number of rows the cursor was made over.
    pub closed spec fn span(&self) -> nat {
        self.len as nat
    }

    /// The next value, or `None` when every row has been yielded.
    pub fn next(&mut self) -> (item: Option<Anon>)
        requires
            old(self).wf(),
        ensures
            final(self).wf(),
            final(self).span() == old(self).span(),
            match item {
                Some(anon) => {
                    &&& old(self).remaining().len() > 0
                    &&& anon@ == old(self).remaining()[0]
                    &&& final(self).remaining() == old(self).remaining().drop_first()
                },
                None => old(self).remaining().len() == 0 && final(self).remaining().len() == 0,
            },
    {
        if self.curr == self.len {
            None
        } else {
            let anon = self.column.index(self.curr);
            self.curr = self.curr + 1;
            assert(self.remaining() =~= old(self).remaining().drop_first());
            Some(anon)
        }
    }

    /// Whether every row has been yielded.
    pub fn is_done(&self) -> (done: bool)
        requires
            self.wf(),
        ensures
            done == (self.remaining().len() == 0),
    {
        self.curr == self.len
    }

    /// The number of rows the cursor was made over.
    pub fn len(&self) -> (len: usize)
        ensures
            len == self.span(),
    {
        self.len
    }
}

impl AnonVec {
    /// A cursor over all rows of the column.
    pub fn iter_as<'a>(&'a self) -> (iter: AnonIter<'a>)
        requires
            self.wf(),
        ensures
            iter.wf(),
            iter.remaining() == column_items(self@),
            iter.span() == self@.rows.len(),
    {
        let iter = AnonIter { column: self, curr: 0, len: self.len };
        assert(iter.remaining() =~= column_items(self@));
        iter
    }
}

/// The values that a stack of cursors yields: those of the last cursor first.
pub open spec fn chain_items(iters: Seq<AnonIter>) -> Seq<AnonView>
    decreases iters.len(),
{
    if iters.len() == 0 {
        Seq::empty()
    } else {
        iters.last().remaining() + chain_items(iters.drop_last())
    }
}

/// The sum of the spans of the cursors.
pub open spec fn chain_span(iters: Seq<AnonIter>) -> nat
    decreases iters.len(),
{
    if iters.len() == 0 {
        0
    } else {
        chain_span(iters.drop_last()) + iters.last().span()
    }
}

/// Cursors over the same component in several tables, yielded one table after
/// another: the table that was pushed last comes first.
pub struct AnonIterChain<'a> {
    pub iters: Vec<AnonIter<'a>>,
}

impl<'a> AnonIterChain<'a> {
    /// The chain's invariant: every cursor in it is valid.
    pub open spec fn wf(&self) -> bool {
        forall|i: int| 0 <= i < self.iters@.len() ==> (#[trigger] self.iters@[i]).wf()
    }

    /// The values that the chain has yet to yield, in order.
    pub open spec fn remaining(&self) -> Seq<AnonView> {
        chain_items(self.iters@)
    }

    /// Whether the chain holds no cursor.
    pub fn is_empty(&self) -> (empty: bool)
        ensures
            empty == (self.iters@.len() == 0),
    {
        self.iters.is_empty()
    }

    /// A chain without cursors.
    pub fn new() -> (chain: AnonIterChain<'a>)
        ensures
            chain.iters@.len() == 0,
            chain.wf(),
            chain.remaining().len() == 0,
    {
        AnonIterChain { iters: Vec::with_capacity(4) }
    }

    /// A chain without cursors, with room for `capacity` of them.
    pub fn with_capacity(capacity: usize) -> (chain: AnonIterChain<'a>)
        ensures
            chain.iters@.len() == 0,
            chain.wf(),
            chain.remaining().len() == 0,
    {
        AnonIterChain { iters: Vec::with_capacity(capacity) }
    }

    /// Puts a cursor on top of the chain: its values are yielded before those
    /// of the cursors already there.
    pub fn push(&mut self, iter: AnonIter<'a>)
        ensures
            final(self).iters@ == old(self).iters@.push(iter),
            final(self).remaining() == iter.remaining() + old(self).remaining(),
            old(self).wf() && iter.wf() ==> final(self).wf(),
    {
        self.iters.push(iter);
        assert(self.iters@.drop_last() =~= old(self).iters@);
    }

    /// The sum of the spans of the cursors in the chain.
    pub fn len(&self) -> (count: usize)
        requires
            chain_span(self.iters@) <= usize::MAX,
        ensures
            count == chain_span(self.iters@),
    {
        let mut count: usize = 0;
        let mut i: usize = 0;
        proof {
            lemma_chain_span_grows(self.iters@, 0);
            assert(self.iters@.subrange(0, 0) =~= Seq::<AnonIter>::empty());
        }
        while i < self.iters.len()
            invariant
                i <= self.iters.len(),
                count == chain_span(self.iters@.subrange(0, i as int)),
                chain_span(self.iters@) <= usize::MAX,
            decreases self.iters.len() - i,
        {
            proof {
                lemma_chain_span_grows(self.iters@, i as int + 1);
                assert(self.iters@.subrange(0, i as int + 1).drop_last() =~= self.iters@.subrange(
                    0,
                    i as int,
                ));
            }
            count = count + self.iters[i].len();
            i += 1;
        }
        assert(self.iters@.subrange(0, i as int) =~= self.iters@);
        count
    }

    /// The next value of the chain, or `None` when every cursor is done.
    pub fn next(&mut self) -> (item: Option<Anon>)
        requires
            old(self).wf(),
        ensures
            final(self).wf(),
            match item {
                Some(anon) => {
                    &&& old(self).remaining().len() > 0
                    &&& anon@ == old(self).remaining()[0]
                    &&& final(self).remaining() == old(self).remaining().drop_first()
                },
                None => old(self).remaining().len() == 0 && final(self).iters@.len() == 0,
            },
    {
        loop
            invariant
                self.wf(),
                self.remaining() == old(self).remaining(),
            decreases self.iters@.len(),
        {
            let n = self.iters.len();
            if n == 0 {
                return None;
            }
            let ghost stack = self.iters@;
            assert(stack.last().wf());
            if self.iters[n - 1].is_done() {
                self.iters.pop();
                assert(self.iters@ =~= stack.drop_last());
                assert(stack.last().remaining() + chain_items(stack.drop_last()) =~= chain_items(
                    stack.drop_last(),
                ));
            } else {
                let item = self.iters[n - 1].next();
                let ghost top = self.iters@[n - 1];
                assert(self.iters@.drop_last() =~= stack.drop_last());
                assert(self.remaining() =~= old(self).remaining().drop_first());
                if self.iters[n - 1].is_done() {
                    self.iters.pop();
                    assert(self.iters@ =~= stack.drop_last());
                    assert(self.remaining() =~= old(self).remaining().drop_first());
                }
                return item;
            }
        }
    }
}

/// The span of a prefix of a chain is at most the span of the chain.
pub proof fn lemma_chain_span_grows(iters: Seq<AnonIter>, upto: int)
    requires
        0 <= upto <= iters.len(),
    ensures
        chain_span(iters.subrange(0, upto)) <= chain_span(iters),
    decreases iters.len(),
{
    if upto == iters.len() {
        assert(iters.subrange(0, upto) =~= iters);
    } else {
        lemma_chain_span_grows(iters.drop_last(), upto);
        assert(iters.drop_last().subrange(0, upto) =~= iters.subrange(0, upto));
    }
}

} // verus!
