use vstd::prelude::*;
use smallvec::SmallVec;

verus! {

/// An ordered list of grid cells, each a `(row, column)` pair, kept in a
/// `smallvec::SmallVec` with room for a whole grid's worth of cells before
/// it moves to the heap. What it holds is `cells_of`.
#[verifier::external_body]
pub struct CellList {
    inner: SmallVec<[(usize, usize); 16]>,
}

/// An ordered list of cell lists, kept in a `smallvec::SmallVec` with room
/// for eight lists before it moves to the heap. What it holds is `lines_of`.
#[verifier::external_body]
pub struct LineList {
    inner: SmallVec<[CellList; 8]>,
}

/// The cells that a list holds, in the order in which they were pushed.
pub uninterp spec fn cells_of(list: CellList) -> Seq<(usize, usize)>;

/// The cell lists that a list holds, each as the sequence of its cells, in
/// the order in which they were pushed.
pub uninterp spec fn lines_of(list: LineList) -> Seq<Seq<(usize, usize)>>;

/// `SmallVec::new`: trusted to make a list that holds nothing.
#[verifier::external_body]
pub(crate) fn cells_new() -> (list: CellList)
    ensures
        cells_of(list) == Seq::<(usize, usize)>::empty(),
{
    CellList { inner: SmallVec::new() }
}

/// `SmallVec::push`: trusted to append `cell` behind what the list held and
/// to leave the rest as it was. The call fails only where memory runs out.
#[verifier::external_body]
pub(crate) fn cells_push(list: &mut CellList, cell: (usize, usize))
    ensures
        cells_of(*final(list)) == cells_of(*old(list)).push(cell),
{
    list.inner.push(cell)
}

/// `SmallVec::len`: trusted to return the number of cells held.
#[verifier::external_body]
pub(crate) fn cells_len(list: &CellList) -> (n: usize)
    ensures
        n == cells_of(*list).len(),
{
    list.inner.len()
}

/// Indexing a `SmallVec` (its `Index` impl, which indexes the slice of the
/// items held): trusted to return the cell at position `k`. An index past
/// the end panics there, so it is left out.
#[verifier::external_body]
pub(crate) fn cells_get(list: &CellList, k: usize) -> (cell: (usize, usize))
    requires
        k < cells_of(*list).len(),
    ensures
        cell == cells_of(*list)[k as int],
{
    list.inner[k]
}

/// `SmallVec::new`: trusted to make a list that holds nothing.
#[verifier::external_body]
pub(crate) fn lines_new() -> (list: LineList)
    ensures
        lines_of(list) == Seq::<Seq<(usize, usize)>>::empty(),
{
    LineList { inner: SmallVec::new() }
}

/// `SmallVec::push`: trusted to append `line` behind what the list held and
/// to leave the rest as it was. The call fails only where memory runs out.
#[verifier::external_body]
pub(crate) fn lines_push(list: &mut LineList, line: CellList)
    ensures
        lines_of(*final(list)) == lines_of(*old(list)).push(cells_of(line)),
{
    list.inner.push(line)
}

/// `SmallVec::len`: trusted to return the number of cell lists held.
#[verifier::external_body]
pub(crate) fn lines_len(list: &LineList) -> (n: usize)
    ensures
        n == lines_of(*list).len(),
{
    list.inner.len()
}

/// Indexing a `SmallVec` (its `Index` impl, which indexes the slice of the
/// items held): trusted to return the cell list at position `m`. An index
/// past the end panics there, so it is left out.
#[verifier::external_body]
pub(crate) fn lines_get(list: &LineList, m: usize) -> (line: &CellList)
    requires
        m < lines_of(*list).len(),
    ensures
        cells_of(*line) == lines_of(*list)[m as int],
{
    &list.inner[m]
}

impl CellList {
    /// A list without a cell.
    pub fn new() -> (list: CellList)
        ensures
            cells_of(list) == Seq::<(usize, usize)>::empty(),
    {
        cells_new()
    }

    /// Appends a cell.
    pub fn push_cell(&mut self, cell: (usize, usize))
        ensures
            cells_of(*final(self)) == cells_of(*old(self)).push(cell),
    {
        cells_push(self, cell)
    }

    /// The number of cells in the list.
    pub fn len(&self) -> (n: usize)
        ensures
            n == cells_of(*self).len(),
    {
        cells_len(self)
    }

    /// The cell at position `k`.
    pub fn cell(&self, k: usize) -> (cell: (usize, usize))
        requires
            k < cells_of(*self).len(),
        ensures
            cell == cells_of(*self)[k as int],
    {
        cells_get(self, k)
    }

    /// The cell at position `k`, or `None` past the end.
    pub fn get(&self, k: usize) -> (cell: Option<(usize, usize)>)
        ensures
            cell == if k < cells_of(*self).len() {
                Some(cells_of(*self)[k as int])
            } else {
                None
            },
    {
        if k < cells_len(self) {
            Some(cells_get(self, k))
        } else {
            None
        }
    }
}

impl LineList {
    /// The number of cell lists in the list.
    pub fn len(&self) -> (n: usize)
        ensures
            n == lines_of(*self).len(),
    {
        lines_len(self)
    }

    /// The cell list at position `m`, or `None` past the end.
    pub fn get(&self, m: usize) -> (line: Option<&CellList>)
        ensures
            match line {
                Some(l) => m < lines_of(*self).len() && cells_of(*l) == lines_of(*self)[m as int],
                None => m >= lines_of(*self).len(),
            },
    {
        if m < lines_len(self) {
            Some(lines_get(self, m))
        } else {
            None
        }
    }
}

} // verus!
