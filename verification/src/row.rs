//! A row of cells in the terminal grid, and how far into it cells may have
//! been written since the last reset.

use vstd::prelude::*;

verus! {

/// What the grid needs of a cell.  Implemented by the terminal's cell type.
pub trait GridCell: Sized {
    /// Whether the cell shows nothing.
    spec fn spec_is_empty(&self) -> bool;

    /// What a cell becomes when reset to `template`.
    spec fn spec_reset(template: Self) -> Self;

    /// Whether resetting to `other` changes what untouched cells look like:
    /// the part of the template that every blank cell carries.
    spec fn spec_same_discriminant(&self, other: &Self) -> bool;

    fn is_empty(&self) -> (empty: bool)
        ensures
            empty == self.spec_is_empty(),
    ;

    fn reset(&mut self, template: &Self)
        ensures
            *final(self) == Self::spec_reset(*template),
    ;

    fn same_discriminant(&self, other: &Self) -> (same: bool)
        ensures
            same == self.spec_same_discriminant(other),
    ;
}

/// A plain character cell: blank is a space, and a reset copies the
/// template.
impl GridCell for char {
    open spec fn spec_is_empty(&self) -> bool {
        *self == ' '
    }

    open spec fn spec_reset(template: Self) -> Self {
        template
    }

    open spec fn spec_same_discriminant(&self, other: &Self) -> bool {
        true
    }

    fn is_empty(&self) -> (empty: bool) {
        *self == ' '
    }

    fn reset(&mut self, template: &Self) {
        *self = *template;
    }

    fn same_discriminant(&self, other: &Self) -> (same: bool) {
        true
    }
}

/// A row in the grid.
pub struct Row<T> {
    inner: Vec<T>,
    /// Upper bound on the cells modified since the last reset: every cell at
    /// or past it is still as the reset left it.
    occ: usize,
    /// Whether any cell in the row may own heap storage.  Conservative: false
    /// means no cell owns anything.
    owns_storage: bool,
}

/// Where the last non-empty cell ends: the length of `cells` with its
/// trailing empty cells cut off.
pub open spec fn content_end<T: GridCell>(cells: Seq<T>) -> nat
    decreases cells.len(),
{
    if cells.len() == 0 {
        0
    } else if !cells.last().spec_is_empty() {
        cells.len()
    } else {
        content_end(cells.drop_last())
    }
}

proof fn lemma_content_end_bound<T: GridCell>(cells: Seq<T>)
    ensures
        content_end(cells) <= cells.len(),
    decreases cells.len(),
{
    if cells.len() > 0 && cells.last().spec_is_empty() {
        lemma_content_end_bound(cells.drop_last());
    }
}

impl<T> Row<T> {
    /// The cells, in column order.
    pub closed spec fn cells(&self) -> Seq<T> {
        self.inner@
    }

    pub closed spec fn occupied(&self) -> nat {
        self.occ as nat
    }

    pub closed spec fn may_own_storage(&self) -> bool {
        self.owns_storage
    }

    /// The occupied count is a `usize`.
    pub proof fn occupancy_fits(&self)
        ensures
            self.occupied() <= usize::MAX,
    {
    }

    /// Splitting off the front and putting it back restores the row: the
    /// cells come back in order, putting the front back is always allowed,
    /// and no occupied cell is forgotten.
    pub proof fn a_split_front_goes_back(&self, at: usize)
        requires
            at <= self.cells().len(),
        ensures
            ({
                let rest = if self.occupied() > at {
                    self.occupied() - at
                } else {
                    0
                };
                &&& rest + at <= usize::MAX
                &&& rest + at >= self.occupied()
                &&& self.cells().take(at as int) + self.cells().skip(at as int) == self.cells()
            }),
    {
        assert(self.cells().take(at as int) + self.cells().skip(at as int) =~= self.cells());
    }

    pub fn from_vec(vec: Vec<T>, occ: usize) -> (row: Row<T>)
        ensures
            row.cells() == vec@,
            row.occupied() == occ,
            row.may_own_storage(),
    {
        Row { inner: vec, occ, owns_storage: true }
    }

    /// Record that a cell in this row may own heap storage.  Anything that
    /// gives a cell storage has to call this, or the next reset could treat
    /// the row as plain text.
    pub fn mark_owns_storage(&mut self)
        ensures
            final(self).cells() == old(self).cells(),
            final(self).occupied() == old(self).occupied(),
            final(self).may_own_storage(),
    {
        self.owns_storage = true;
    }

    pub fn len(&self) -> (len: usize)
        ensures
            len == self.cells().len(),
    {
        self.inner.len()
    }

    /// How many leading cells may have been written since the last reset.
    pub fn occ(&self) -> (occ: usize)
        ensures
            occ == self.occupied(),
    {
        self.occ
    }

    pub fn last(&self) -> (last: Option<&T>)
        ensures
            self.cells().len() == 0 ==> last is None,
            self.cells().len() > 0 ==> last == Some(&self.cells().last()),
    {
        if self.inner.len() == 0 {
            None
        } else {
            Some(&self.inner[self.inner.len() - 1])
        }
    }

    /// The last cell, for writing: the whole row counts as occupied.
    pub fn last_mut(&mut self) -> (last: Option<&mut T>)
        ensures
            final(self).occupied() == old(self).cells().len(),
            final(self).may_own_storage() == old(self).may_own_storage(),
            old(self).cells().len() == 0 ==> last is None && final(self).cells() == old(
                self,
            ).cells(),
            old(self).cells().len() > 0 ==> (last matches Some(cell) && *cell == old(
                self,
            ).cells().last() && final(self).cells() == old(self).cells().update(
                old(self).cells().len() - 1,
                *final(cell),
            )),
    {
        self.occ = self.inner.len();
        let len = self.inner.len();
        if len == 0 {
            None
        } else {
            Some(&mut self.inner[len - 1])
        }
    }

    /// The cell at `column`.
    pub fn cell(&self, column: usize) -> (cell: &T)
        requires
            column < self.cells().len(),
        ensures
            *cell == self.cells()[column as int],
    {
        &self.inner[column]
    }

    /// The cell at `column`, for writing: everything up to it counts as
    /// occupied.
    pub fn cell_mut(&mut self, column: usize) -> (cell: &mut T)
        requires
            column < old(self).cells().len(),
        ensures
            *cell == old(self).cells()[column as int],
            final(self).cells() == old(self).cells().update(column as int, *final(cell)),
            final(self).occupied() == vstd::math::max(
                old(self).occupied() as int,
                column + 1,
            ),
            final(self).may_own_storage() == old(self).may_own_storage(),
    {
        let len = self.inner.len();
        if self.occ <= column {
            self.occ = column + 1;
        }
        &mut self.inner[column]
    }

    /// Cells arriving from another row bring whatever it owned with them.
    pub fn append(&mut self, vec: &mut Vec<T>)
        requires
            old(self).occupied() + old(vec).len() <= usize::MAX,
        ensures
            final(self).cells() == old(self).cells() + old(vec)@,
            final(vec)@.len() == 0,
            final(self).occupied() == old(self).occupied() + old(vec).len(),
            final(self).may_own_storage(),
    {
        self.occ = self.occ + vec.len();
        self.owns_storage = true;
        self.inner.append(vec);
    }

    pub fn append_front(&mut self, vec: Vec<T>)
        requires
            old(self).occupied() + vec.len() <= usize::MAX,
        ensures
            final(self).cells() == vec@ + old(self).cells(),
            final(self).occupied() == old(self).occupied() + vec.len(),
            final(self).may_own_storage(),
    {
        let mut vec = vec;
        self.occ = self.occ + vec.len();
        self.owns_storage = true;
        vec.append(&mut self.inner);
        self.inner = vec;
    }

    /// Split off the first `at` cells and return them; the row keeps the
    /// rest.
    pub fn front_split_off(&mut self, at: usize) -> (front: Vec<T>)
        requires
            at <= old(self).cells().len(),
        ensures
            front@ == old(self).cells().take(at as int),
            final(self).cells() == old(self).cells().skip(at as int),
            final(self).occupied() == (if old(self).occupied() > at {
                old(self).occupied() - at
            } else {
                0
            }),
            final(self).may_own_storage() == old(self).may_own_storage(),
    {
        self.occ = self.occ.saturating_sub(at);
        let mut split = self.inner.split_off(at);
        std::mem::swap(&mut split, &mut self.inner);
        assert(self.inner@ =~= old(self).cells().skip(at as int));
        split
    }
}

impl<T: Default> Row<T> {
    /// A terminal row of `columns` default cells, nothing occupied.
    pub fn new(columns: usize) -> (row: Row<T>)
        requires
            columns >= 1,
        ensures
            row.cells().len() == columns,
            forall|i: int| 0 <= i < columns ==> T::default.ensures((), #[trigger] row.cells()[i]),
            row.occupied() == 0,
            !row.may_own_storage(),
    {
        let mut inner: Vec<T> = Vec::with_capacity(columns);
        let mut i: usize = 0;
        while i < columns
            invariant
                i <= columns,
                inner.len() == i,
                forall|k: int| 0 <= k < i ==> T::default.ensures((), #[trigger] inner@[k]),
            decreases columns - i,
        {
            let cell = T::default();
            inner.push(cell);
            i += 1;
        }
        Row { inner, occ: 0, owns_storage: false }
    }

    /// Widen the row to `columns`, with default cells on the right.  A row
    /// already that wide is left alone.
    pub fn grow(&mut self, columns: usize)
        ensures
            final(self).cells().len() == vstd::math::max(
                old(self).cells().len() as int,
                columns as int,
            ),
            final(self).cells().take(old(self).cells().len() as int) == old(self).cells(),
            forall|i: int|
                old(self).cells().len() <= i < final(self).cells().len() ==> T::default.ensures(
                    (),
                    #[trigger] final(self).cells()[i],
                ),
            final(self).occupied() == old(self).occupied(),
            final(self).may_own_storage() == old(self).may_own_storage(),
    {
        if self.inner.len() >= columns {
            assert(self.inner@.take(self.inner.len() as int) =~= self.inner@);
            return;
        }
        let ghost before = self.inner@;
        while self.inner.len() < columns
            invariant
                before.len() <= self.inner.len() <= columns,
                self.inner@.take(before.len() as int) == before,
                forall|k: int|
                    before.len() <= k < self.inner.len() ==> T::default.ensures(
                        (),
                        #[trigger] self.inner@[k],
                    ),
                self.occ == old(self).occupied(),
                self.owns_storage == old(self).may_own_storage(),
            decreases columns - self.inner.len(),
        {
            let ghost prev = self.inner@;
            let cell = T::default();
            self.inner.push(cell);
            assert(self.inner@.take(before.len() as int) =~= prev.take(before.len() as int));
        }
    }
}

impl<T: GridCell> Row<T> {
    /// Whether every cell in the row is empty.
    pub fn is_clear(&self) -> (clear: bool)
        ensures
            clear == (forall|i: int| 0 <= i < self.cells().len() ==> #[trigger] self.cells()[i].spec_is_empty()),
    {
        let mut i: usize = 0;
        while i < self.inner.len()
            invariant
                i <= self.inner.len(),
                forall|k: int| 0 <= k < i ==> #[trigger] self.inner@[k].spec_is_empty(),
            decreases self.inner.len() - i,
        {
            if !self.inner[i].is_empty() {
                assert(!self.cells()[i as int].spec_is_empty());
                return false;
            }
            i += 1;
        }
        true
    }

    /// Narrow the row to `columns`.  Returns the cells cut off, up to the
    /// last non-empty one, or nothing when none of them shows anything.
    pub fn shrink(&mut self, columns: usize) -> (removed: Option<Vec<T>>)
        ensures
            old(self).cells().len() <= columns ==> removed is None && *final(self) == *old(self),
            old(self).cells().len() > columns ==> {
                let cut = old(self).cells().skip(columns as int);
                &&& final(self).cells() == old(self).cells().take(columns as int)
                &&& final(self).occupied() == vstd::math::min(
                    old(self).occupied() as int,
                    columns as int,
                )
                &&& final(self).may_own_storage() == old(self).may_own_storage()
                &&& content_end(cut) == 0 ==> removed is None
                &&& content_end(cut) > 0 ==> (removed matches Some(v) && v@ == cut.take(
                    content_end(cut) as int,
                ))
            },
    {
        if self.inner.len() <= columns {
            return None;
        }
        let mut new_row = self.inner.split_off(columns);
        assert(new_row@ =~= old(self).cells().skip(columns as int));
        let ghost cut = new_row@;
        let mut end = new_row.len();
        assert(cut.take(end as int) =~= cut);
        while end > 0 && new_row[end - 1].is_empty()
            invariant
                end <= new_row.len(),
                new_row@ == cut,
                content_end(cut) == content_end(cut.take(end as int)),
            decreases end,
        {
            assert(cut.take(end as int).drop_last() =~= cut.take(end - 1));
            end -= 1;
        }
        proof {
            if end > 0 {
                assert(cut.take(end as int).last() == cut[end - 1]);
            }
            assert(content_end(cut.take(end as int)) == end);
        }
        new_row.truncate(end);
        if self.occ > columns {
            self.occ = columns;
        }
        if new_row.len() == 0 {
            None
        } else {
            Some(new_row)
        }
    }

    /// Reset the occupied cells to `template`.  When the template's
    /// discriminant differs from the last cell's, every cell is taken as
    /// occupied first, so untouched cells change too.
    pub fn reset(&mut self, template: &T)
        requires
            old(self).cells().len() >= 1,
            old(self).occupied() <= old(self).cells().len() || !old(self).cells().last().spec_same_discriminant(template),
        ensures
            ({
                let len = old(self).cells().len();
                let occ = if old(self).cells().last().spec_same_discriminant(template) {
                    old(self).occupied()
                } else {
                    len
                };
                &&& final(self).cells().len() == len
                &&& forall|i: int| 0 <= i < occ ==> #[trigger] final(self).cells()[i] == T::spec_reset(*template)
                &&& forall|i: int| occ <= i < len ==> #[trigger] final(self).cells()[i] == old(self).cells()[i]
            }),
            final(self).occupied() == 0,
            !final(self).may_own_storage(),
    {
        let len = self.inner.len();
        if !self.inner[len - 1].same_discriminant(template) {
            self.occ = len;
        }
        let occ = self.occ;
        self.occ = 0;
        self.owns_storage = false;
        let ghost before = self.inner@;
        let mut i: usize = 0;
        while i < occ
            invariant
                i <= occ <= len,
                self.inner.len() == len,
                self.occ == 0,
                !self.owns_storage,
                before.len() == len,
                forall|k: int| 0 <= k < i ==> #[trigger] self.inner@[k] == T::spec_reset(*template),
                forall|k: int| i <= k < len ==> #[trigger] self.inner@[k] == before[k],
            decreases occ - i,
        {
            let cell = &mut self.inner[i];
            cell.reset(template);
            i += 1;
        }
    }
}

} // verus!
