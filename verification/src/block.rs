//! The genotype block: a dense two-dimensional array of genotype values,
//! rows indexed by individual and columns by marker.

use ndarray::Array2;
use vstd::prelude::*;

verus! {

/// The storage of a block, a two-dimensional `ndarray` array of `i8`.
#[verifier::external_body]
pub struct Cells {
    inner: Array2<i8>,
}

/// What an array holds, one sequence per row.
pub uninterp spec fn cells_of(c: Cells) -> Seq<Seq<i8>>;

/// Whether an array of `rows` by `cols` can be made: the product of those
/// of the two lengths that are not zero is at most `isize::MAX`. That is,
/// neither length is above `isize::MAX`, and neither is their product.
pub open spec fn block_fits(rows: int, cols: int) -> bool {
    &&& rows <= isize::MAX
    &&& cols <= isize::MAX
    &&& rows * cols <= isize::MAX
}

/// Calls `Array2::default` with the shape `(rows, cols)`, which builds an
/// array of that shape with every element `i8::default()`, that is zero. It
/// panics where the product of the lengths that are not zero overflows
/// `isize`: a length of zero does not make up for a length above
/// `isize::MAX` on the other axis.
#[verifier::external_body]
fn cells_zeros(rows: usize, cols: usize) -> (c: Cells)
    requires
        block_fits(rows as int, cols as int),
    ensures
        cells_of(c) == Seq::new(rows as nat, |i: int| Seq::new(cols as nat, |j: int| 0i8)),
{
    Cells { inner: Array2::<i8>::default((rows, cols)) }
}

/// Indexes the array with `[[i, j]]`, which yields the element in row `i`
/// and column `j` and panics outside the array's shape.
#[verifier::external_body]
fn cells_get(c: &Cells, i: usize, j: usize) -> (v: i8)
    requires
        i < cells_of(*c).len(),
        j < cells_of(*c)[i as int].len(),
    ensures
        v == cells_of(*c)[i as int][j as int],
{
    c.inner[[i, j]]
}

/// Assigns through the index `[[i, j]]`, which replaces the element in row
/// `i` and column `j`, leaves every other element as it was and panics
/// outside the array's shape.
#[verifier::external_body]
fn cells_set(c: &mut Cells, i: usize, j: usize, v: i8)
    requires
        i < cells_of(*old(c)).len(),
        j < cells_of(*old(c))[i as int].len(),
    ensures
        cells_of(*final(c)) == cells_of(*old(c)).update(
            i as int,
            cells_of(*old(c))[i as int].update(j as int, v),
        ),
{
    c.inner[[i, j]] = v;
}

/// A dense block of genotype values with a fixed number of rows
/// (individuals) and columns (markers).
pub struct GenoBlock {
    rows: usize,
    cols: usize,
    cells: Cells,
}

impl View for GenoBlock {
    type V = Seq<Seq<i8>>;

    /// The values of the block, one sequence per row.
    closed spec fn view(&self) -> Seq<Seq<i8>> {
        cells_of(self.cells)
    }
}

impl GenoBlock {
    /// The number of rows.
    pub closed spec fn spec_nrows(&self) -> nat {
        self.rows as nat
    }

    /// The number of columns.
    pub closed spec fn spec_ncols(&self) -> nat {
        self.cols as nat
    }

    /// The block is rectangular: it has `spec_nrows()` rows of
    /// `spec_ncols()` values each.
    pub open spec fn wf(&self) -> bool {
        &&& self@.len() == self.spec_nrows()
        &&& forall|i: int| 0 <= i < self.spec_nrows() ==> (#[trigger] self@[i]).len() == self.spec_ncols()
    }

    /// A block of `rows` by `cols` zeros, or `None` where a length or the
    /// number of cells is more than an array can hold.
    pub fn new(rows: usize, cols: usize) -> (r: Option<GenoBlock>)
        ensures
            r is Some <==> block_fits(rows as int, cols as int),
            r matches Some(b) ==> {
                &&& b.wf()
                &&& b.spec_nrows() == rows
                &&& b.spec_ncols() == cols
                &&& forall|i: int, j: int|
                    0 <= i < rows && 0 <= j < cols ==> (#[trigger] b@[i][j]) == 0
            },
    {
        let fits = rows <= isize::MAX as usize && cols <= isize::MAX as usize
            && match rows.checked_mul(cols) {
            Some(n) => n <= isize::MAX as usize,
            None => false,
        };
        if !fits {
            return None;
        }
        let cells = cells_zeros(rows, cols);
        Some(GenoBlock { rows, cols, cells })
    }

    /// The number of rows.
    pub fn nrows(&self) -> (n: usize)
        ensures
            n == self.spec_nrows(),
    {
        self.rows
    }

    /// The number of columns.
    pub fn ncols(&self) -> (n: usize)
        ensures
            n == self.spec_ncols(),
    {
        self.cols
    }

    /// The value in row `i` and column `j`.
    pub fn at(&self, i: usize, j: usize) -> (v: i8)
        requires
            self.wf(),
            i < self.spec_nrows(),
            j < self.spec_ncols(),
        ensures
            v == self@[i as int][j as int],
    {
        cells_get(&self.cells, i, j)
    }

    /// The value in row `i` and column `j`, or `None` outside the block.
    pub fn get(&self, i: usize, j: usize) -> (r: Option<i8>)
        requires
            self.wf(),
        ensures
            r is Some <==> i < self.spec_nrows() && j < self.spec_ncols(),
            r matches Some(v) ==> v == self@[i as int][j as int],
    {
        if i < self.rows && j < self.cols {
            Some(cells_get(&self.cells, i, j))
        } else {
            None
        }
    }

    /// Replaces the value in row `i` and column `j`.
    pub fn put(&mut self, i: usize, j: usize, v: i8)
        requires
            old(self).wf(),
            i < old(self).spec_nrows(),
            j < old(self).spec_ncols(),
        ensures
            final(self).wf(),
            final(self).spec_nrows() == old(self).spec_nrows(),
            final(self).spec_ncols() == old(self).spec_ncols(),
            final(self)@ == old(self)@.update(i as int, old(self)@[i as int].update(j as int, v)),
    {
        cells_set(&mut self.cells, i, j, v);
    }
}

} // verus!
