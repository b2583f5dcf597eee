//! Cell allocation in a square signed-distance-field atlas texture.
use vstd::prelude::*;

verus! {

/// The grid of an atlas texture `size` pixels square, cut into square cells of
/// `cell_size` pixels, with a flag per cell that says whether it is taken.
/// Cells are numbered row by row.
pub struct SdfAtlas {
    size: u32,
    cell_size: u32,
    cols: u32,
    rows: u32,
    occupied: Vec<bool>,
}

/// Pixel position of the top-left corner of cell `i` in a grid `cols` cells wide.
pub open spec fn cell_origin(i: int, cols: int, cell_size: int) -> (int, int) {
    ((i % cols) * cell_size, (i / cols) * cell_size)
}

/// `i` is the first free cell.
pub open spec fn is_first_free(occupied: Seq<bool>, i: int) -> bool {
    &&& 0 <= i < occupied.len()
    &&& !occupied[i]
    &&& forall|j: int| 0 <= j < i ==> #[trigger] occupied[j]
}

impl SdfAtlas {
    /// The grid matches the texture size and has a flag per cell.
    pub closed spec fn wf(self) -> bool {
        &&& self.cell_size > 0
        &&& self.cols == self.size / self.cell_size
        &&& self.rows == self.size / self.cell_size
        &&& self.cols * self.rows <= u32::MAX
        &&& self.occupied@.len() == self.cols * self.rows
    }

    pub closed spec fn spec_size(self) -> u32 {
        self.size
    }

    pub closed spec fn spec_cell_size(self) -> u32 {
        self.cell_size
    }

    /// Number of cells per row (and per column).
    pub closed spec fn spec_cols(self) -> u32 {
        self.cols
    }

    /// Which cells are taken, row by row.
    pub closed spec fn spec_occupied(self) -> Seq<bool> {
        self.occupied@
    }

    /// An atlas with every cell free.
    pub fn new(size: u32, cell_size: u32) -> (a: Self)
        requires
            cell_size > 0,
            (size / cell_size) * (size / cell_size) <= u32::MAX,
        ensures
            a.wf(),
            a.spec_size() == size,
            a.spec_cell_size() == cell_size,
            a.spec_cols() == size / cell_size,
            a.spec_occupied() == Seq::new(
                ((size / cell_size) * (size / cell_size)) as nat,
                |i: int| false,
            ),
    {
        let cols = size / cell_size;
        let rows = size / cell_size;
        let occupied = vec![false; (cols * rows) as usize];
        Self { size, cell_size, cols, rows, occupied }
    }

    /// Takes the first free cell and returns the pixel position of its top-left corner;
    /// `None`, with nothing changed, when every cell is taken.
    pub fn allocate(&mut self) -> (r: Option<(u32, u32)>)
        requires
            old(self).wf(),
        ensures
            final(self).wf(),
            final(self).spec_size() == old(self).spec_size(),
            final(self).spec_cell_size() == old(self).spec_cell_size(),
            final(self).spec_cols() == old(self).spec_cols(),
            r is None ==> final(self).spec_occupied() == old(self).spec_occupied()
                && forall|j: int|
                0 <= j < old(self).spec_occupied().len() ==> #[trigger] old(self).spec_occupied()[j],
            r is Some ==> exists|i: int|
                #[trigger] is_first_free(old(self).spec_occupied(), i)
                    && final(self).spec_occupied() == old(self).spec_occupied().update(i, true)
                    && (r.unwrap().0 as int, r.unwrap().1 as int) == cell_origin(
                    i,
                    old(self).spec_cols() as int,
                    old(self).spec_cell_size() as int,
                ),
    {
        let n = self.occupied.len();
        let mut i: usize = 0;
        while i < n
            invariant
                n == self.occupied@.len(),
                i <= n,
                self.wf(),
                self.size == old(self).size,
                self.cell_size == old(self).cell_size,
                self.cols == old(self).cols,
                self.occupied@ == old(self).occupied@,
                forall|j: int| 0 <= j < i ==> #[trigger] self.occupied@[j],
            decreases n - i,
        {
            if !self.occupied[i] {
                let ghost occ0 = self.occupied@;
                self.occupied.set(i, true);
                assert(is_first_free(occ0, i as int));
                proof {
                    assert(self.cols * self.cell_size <= self.size) by (nonlinear_arith)
                        requires
                            self.cols == self.size / self.cell_size,
                            self.cell_size > 0,
                    ;
                    assert((i as int) % (self.cols as int) < self.cols) by (nonlinear_arith)
                        requires
                            self.cols > 0,
                    ;
                    assert((i as int) / (self.cols as int) < self.rows) by (nonlinear_arith)
                        requires
                            self.cols > 0,
                            0 <= i < self.cols * self.rows,
                    ;
                    assert(((i as int) % (self.cols as int)) * self.cell_size <= self.size)
                        by (nonlinear_arith)
                        requires
                            (i as int) % (self.cols as int) < self.cols,
                            0 <= (i as int) % (self.cols as int),
                            self.cols * self.cell_size <= self.size,
                    ;
                    assert(((i as int) / (self.cols as int)) * self.cell_size <= self.size)
                        by (nonlinear_arith)
                        requires
                            (i as int) / (self.cols as int) < self.rows,
                            0 <= (i as int) / (self.cols as int),
                            self.rows == self.cols,
                            self.cols * self.cell_size <= self.size,
                    ;
                }
                let col = i as u32 % self.cols;
                let row = i as u32 / self.cols;
                let pos = (col * self.cell_size, row * self.cell_size);
                assert(is_first_free(old(self).spec_occupied(), i as int));
                assert((pos.0 as int, pos.1 as int) == cell_origin(
                    i as int,
                    old(self).spec_cols() as int,
                    old(self).spec_cell_size() as int,
                ));
                return Some(pos);
            }
            i = i + 1;
        }
        None
    }
}

impl SdfAtlas {
    /// The column and row of cell `cell_idx` (the index taken as a `u32`), for texture
    /// coordinates: the cell spans `col / cols .. (col + 1) / cols` across and
    /// `row / rows .. (row + 1) / rows` down.
    pub fn uv_cell(&self, cell_idx: usize) -> (r: (u32, u32))
        requires
            self.wf(),
            self.spec_cols() > 0,
        ensures
            r.0 == (cell_idx as u32) % self.spec_cols(),
            r.1 == (cell_idx as u32) / self.spec_cols(),
    {
        let idx = cell_idx as u32;
        (idx % self.cols, idx / self.cols)
    }

    /// Number of cells per row.
    pub fn cols(&self) -> (n: u32)
        ensures
            n == self.spec_cols(),
    {
        self.cols
    }

    /// Number of cell rows; the grid is square.
    pub fn rows(&self) -> (n: u32)
        requires
            self.wf(),
        ensures
            n == self.spec_cols(),
    {
        self.rows
    }
}

/// Distinct cells have distinct pixel positions.
pub proof fn lemma_cell_origins_distinct(i: int, j: int, cols: int, cell_size: int)
    requires
        0 <= i,
        0 <= j,
        i != j,
        cols > 0,
        cell_size > 0,
    ensures
        cell_origin(i, cols, cell_size) != cell_origin(j, cols, cell_size),
{
    if cell_origin(i, cols, cell_size) == cell_origin(j, cols, cell_size) {
        assert(i % cols == j % cols && i / cols == j / cols) by (nonlinear_arith)
            requires
                (i % cols) * cell_size == (j % cols) * cell_size,
                (i / cols) * cell_size == (j / cols) * cell_size,
                cell_size > 0,
        ;
        vstd::arithmetic::div_mod::lemma_fundamental_div_mod(i, cols);
        vstd::arithmetic::div_mod::lemma_fundamental_div_mod(j, cols);
    }
}

/// A taken cell is never handed out again: once `i` is taken, the next first free cell
/// comes after it.
pub proof fn lemma_allocate_moves_on(occupied: Seq<bool>, i: int, k: int)
    requires
        is_first_free(occupied, i),
        is_first_free(occupied.update(i, true), k),
    ensures
        k > i,
{
}

} // verus!
