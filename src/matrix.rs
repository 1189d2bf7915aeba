use vstd::prelude::*;

use crate::pos::Pos;

verus! {

/// The rows of a `width × height` grid whose every cell holds its own column.
pub open spec fn identity_rows(width: nat, height: nat) -> Seq<Seq<u32>> {
    Seq::new(height, |y: int| Seq::new(width, |x: int| x as u32))
}

/// Every row of `rows` holds exactly `width` cells.
pub open spec fn rows_of_width(rows: Seq<Seq<u32>>, width: nat) -> bool {
    forall|y: int| 0 <= y < rows.len() ==> #[trigger] rows[y].len() == width
}

/// Why a seam was refused.
#[derive(Clone, Copy, Debug, PartialEq, Eq, Structural)]
pub enum SeamError {
    /// The rows are a single cell wide (or empty): nothing can be removed.
    TooNarrow,
    /// The seam does not hold exactly one position per row.
    WrongLength,
    /// An entry of the seam names another row than its own, or a column
    /// outside the row.
    Misplaced,
}

/// Why `seam` cannot be removed from a grid of `height` rows of `width`
/// cells, if it cannot.
pub open spec fn seam_error(height: nat, width: nat, seam: Seq<Pos>) -> Option<SeamError> {
    if width <= 1 {
        Some(SeamError::TooNarrow)
    } else if seam.len() != height {
        Some(SeamError::WrongLength)
    } else if exists|i: int|
        0 <= i < seam.len() && ((#[trigger] seam[i]).1 != i || seam[i].0 >= width) {
        Some(SeamError::Misplaced)
    } else {
        None
    }
}

/// `rows` with, in each row `y`, the cell at column `seam[y].0` deleted and
/// the cells after it moved one place to the left.
pub open spec fn rows_without_seam(rows: Seq<Seq<u32>>, seam: Seq<Pos>) -> Seq<Seq<u32>> {
    Seq::new(rows.len(), |y: int| rows[y].remove(seam[y].0 as int))
}

/// The column, before the seam at `first` was removed, of what is column
/// `second` after it.
pub open spec fn column_before(first: u32, second: u32) -> int {
    if second >= first {
        second + 1
    } else {
        second as int
    }
}

/// The column, after the cell at `removed` was deleted, of what is column
/// `c` before it (`c` not being `removed`).
pub open spec fn column_after(removed: int, c: u32) -> int {
    if c > removed {
        c - 1
    } else {
        c as int
    }
}

/// Seam `second`, given in the columns left after removing `first`, written
/// in the columns before that removal.
pub open spec fn seam_before(first: Seq<Pos>, second: Seq<Pos>) -> Seq<Pos> {
    Seq::new(
        second.len(),
        |y: int| Pos(column_before(first[y].0, second[y].0) as u32, second[y].1),
    )
}

/// Seam `first` written in the columns left after removing `earlier`.
pub open spec fn seam_after(earlier: Seq<Pos>, first: Seq<Pos>) -> Seq<Pos> {
    Seq::new(
        first.len(),
        |y: int| Pos(column_after(earlier[y].0 as int, first[y].0) as u32, first[y].1),
    )
}

proof fn lemma_remove_index(s: Seq<u32>, i: int, j: int)
    requires
        0 <= i < s.len(),
        0 <= j < s.len() - 1,
    ensures
        s.remove(i)[j] == if j < i {
            s[j]
        } else {
            s[j + 1]
        },
{
}

/// Removing two seams does not depend on their order, once each is written
/// in the columns of the table it is removed from: removing `first` and then
/// `second` leaves the same table as removing `second` (in the columns
/// before `first` went) and then `first` (in the columns left after that).
/// Both seams stay valid in the other order.
pub proof fn lemma_seam_order(rows: Seq<Seq<u32>>, width: nat, first: Seq<Pos>, second: Seq<Pos>)
    requires
        width <= u32::MAX,
        rows_of_width(rows, width),
        seam_error(rows.len(), width, first) is None,
        seam_error(rows.len(), (width - 1) as nat, second) is None,
    ensures
        seam_error(rows.len(), width, seam_before(first, second)) is None,
        seam_error(
            rows.len(),
            (width - 1) as nat,
            seam_after(seam_before(first, second), first),
        ) is None,
        rows_without_seam(rows_without_seam(rows, first), second) == rows_without_seam(
            rows_without_seam(rows, seam_before(first, second)),
            seam_after(seam_before(first, second), first),
        ),
{
    let t2 = seam_before(first, second);
    let t1 = seam_after(t2, first);
    assert forall|i: int| 0 <= i < t2.len() implies (#[trigger] t2[i]).1 == i && t2[i].0
        < width by {
        assert(second[i].1 == i);
    }
    assert forall|i: int| 0 <= i < t1.len() implies (#[trigger] t1[i]).1 == i && t1[i].0 < width
        - 1 by {
        assert(first[i].1 == i);
        assert(t2[i].1 == i);
    }
    let lhs = rows_without_seam(rows_without_seam(rows, first), second);
    let rhs = rows_without_seam(rows_without_seam(rows, t2), t1);
    assert forall|y: int| 0 <= y < rows.len() implies #[trigger] lhs[y] =~= rhs[y] by {
        let r = rows[y];
        let a = first[y].0 as int;
        let b = second[y].0 as int;
        let b2 = t2[y].0 as int;
        let a2 = t1[y].0 as int;
        assert(r.len() == width);
        assert forall|j: int| 0 <= j < width - 2 implies lhs[y][j] == rhs[y][j] by {
            let p = r.remove(a);
            let q = r.remove(b2);
            lemma_remove_index(p, b, j);
            lemma_remove_index(q, a2, j);
            if j < b {
                lemma_remove_index(r, a, j);
            } else {
                lemma_remove_index(r, a, j + 1);
            }
            if j < a2 {
                lemma_remove_index(r, b2, j);
            } else {
                lemma_remove_index(r, b2, j + 1);
            }
        }
    }
    assert(lhs =~= rhs);
}

/// A dense grid of column indices, one row per image row.
///
/// Cell `(x, y)` says which column of the original image the virtual
/// column `x` of row `y` stands for. Rows can only shrink, all at once,
/// by one cell per removed seam; the height never changes.
pub struct Matrix {
    /// Distance between the starts of two consecutive rows in `cells`.
    stride: usize,
    /// Number of live cells in each row.
    width: usize,
    height: usize,
    cells: Vec<u32>,
}

proof fn lemma_cell_in_bounds(stride: int, height: int, x: int, y: int)
    requires
        0 <= x < stride,
        0 <= y < height,
    ensures
        0 <= y * stride + x < stride * height,
        y * stride + x + 1 <= stride * height,
{
    assert(y * stride + x < (y + 1) * stride) by (nonlinear_arith)
        requires 0 <= x < stride;
    assert((y + 1) * stride <= stride * height) by (nonlinear_arith)
        requires 0 <= y < height, 0 <= stride;
    assert(0 <= y * stride) by (nonlinear_arith)
        requires 0 <= y, 0 <= stride;
}

proof fn lemma_cells_distinct(stride: int, x1: int, y1: int, x2: int, y2: int)
    requires
        0 <= x1 < stride,
        0 <= x2 < stride,
        0 <= y1,
        0 <= y2,
        y1 != y2,
    ensures
        y1 * stride + x1 != y2 * stride + x2,
{
    if y1 < y2 {
        assert(y1 * stride + x1 < y2 * stride + x2) by (nonlinear_arith)
            requires 0 <= x1 < stride, 0 <= x2, y1 < y2;
    } else {
        assert(y2 * stride + x2 < y1 * stride + x1) by (nonlinear_arith)
            requires 0 <= x2 < stride, 0 <= x1, y2 < y1;
    }
}

impl Matrix {
    #[verifier::type_invariant]
    spec fn inv(&self) -> bool {
        &&& self.width <= self.stride
        &&& self.cells@.len() == self.stride * self.height
        &&& self.stride * self.height <= usize::MAX
    }

    spec fn cell(&self, x: int, y: int) -> u32 {
        self.cells@[y * self.stride + x]
    }

    /// The live cells, row by row.
    pub closed spec fn view(&self) -> Seq<Seq<u32>> {
        Seq::new(self.height as nat, |y: int| Seq::new(self.width as nat, |x: int| self.cell(x, y)))
    }

    /// The number of live cells in each row.
    pub closed spec fn cols(&self) -> nat {
        self.width as nat
    }

    /// Builds the identity matrix of the given size: cell `(x, y)` holds `x`.
    pub fn identity(width: u32, height: u32) -> (m: Matrix)
        requires
            width * height <= usize::MAX,
        ensures
            m@ == identity_rows(width as nat, height as nat),
            m.cols() == width,
    {
        let w = width as usize;
        let h = height as usize;
        let mut cells: Vec<u32> = Vec::new();
        let mut y: usize = 0;
        while y < h
            invariant
                y <= h,
                w == width,
                h == height,
                w * h <= usize::MAX,
                cells@.len() == y * w,
                forall|yy: int, xx: int|
                    0 <= yy < y && 0 <= xx < w ==> #[trigger] cells@[yy * w + xx] == xx as u32,
            decreases h - y,
        {
            let mut x: u32 = 0;
            while x < width
                invariant
                    y < h,
                    x <= width,
                    w == width,
                    w * h <= usize::MAX,
                    cells@.len() == y * w + x,
                    forall|yy: int, xx: int|
                        0 <= yy < y && 0 <= xx < w ==> #[trigger] cells@[yy * w + xx] == xx as u32,
                    forall|xx: int| 0 <= xx < x ==> #[trigger] cells@[y * w + xx] == xx as u32,
                decreases width - x,
            {
                proof {
                    lemma_cell_in_bounds(w as int, h as int, x as int, y as int);
                }
                let ghost prev = cells@;
                cells.push(x);
                proof {
                    assert forall|yy: int, xx: int|
                        0 <= yy < y && 0 <= xx < w implies #[trigger] cells@[yy * w + xx] == xx as u32 by {
                        lemma_cell_in_bounds(w as int, y as int, xx, yy);
                        assert(cells@[yy * w + xx] == prev[yy * w + xx]);
                    }
                }
                x = x + 1;
            }
            proof {
                assert((y + 1) * w == y * w + w) by (nonlinear_arith);
                assert forall|yy: int, xx: int|
                    0 <= yy < y + 1 && 0 <= xx < w implies #[trigger] cells@[yy * w + xx] == xx as u32 by {
                    if yy == y {
                    }
                }
            }
            y = y + 1;
        }
        assert(cells@.len() == w * h) by (nonlinear_arith)
            requires cells@.len() == y * w, y == h;
        let m = Matrix { stride: w, width: w, height: h, cells };
        assert forall|yy: int| 0 <= yy < h implies #[trigger] m@[yy] =~= identity_rows(
            width as nat,
            height as nat,
        )[yy] by {
            assert forall|xx: int| 0 <= xx < w implies #[trigger] m@[yy][xx] == xx as u32 by {
                assert(m@[yy][xx] == m.cells@[yy * w + xx]);
            }
        }
        assert(m@ =~= identity_rows(width as nat, height as nat));
        m
    }

    /// The column of the original image that the cell at `pos` stands for.
    pub fn lookup(&self, pos: Pos) -> (r: u32)
        requires
            (pos.1 as int) < self@.len(),
            (pos.0 as int) < self.cols(),
        ensures
            r == self@[pos.1 as int][pos.0 as int],
    {
        proof {
            use_type_invariant(self);
            lemma_cell_in_bounds(self.stride as int, self.height as int, pos.0 as int, pos.1 as int);
        }
        self.cells[pos.1 as usize * self.stride + pos.0 as usize]
    }

    /// The number of live cells in each row.
    pub fn width(&self) -> (r: usize)
        ensures
            r == self.cols(),
    {
        self.width
    }

    /// The number of rows.
    pub fn height(&self) -> (r: usize)
        ensures
            r == self@.len(),
    {
        self.height
    }

    /// Deletes one cell from every row: the one at `seam[y].0` in row `y`.
    ///
    /// The seam must hold one position per row, in row order, each inside its
    /// row, and the rows must be at least two cells wide. Otherwise the seam
    /// is refused and the matrix is left as it was. Only the cells of each
    /// row from the removed column on are moved.
    pub fn remove_seam(&mut self, seam: &[Pos]) -> (r: Result<(), SeamError>)
        ensures
            r == match seam_error(old(self)@.len(), old(self).cols(), seam@) {
                Some(e) => Err(e),
                None => Ok(()),
            },
            r.is_ok() ==> final(self)@ == rows_without_seam(old(self)@, seam@),
            r.is_ok() ==> final(self).cols() == old(self).cols() - 1,
            r.is_err() ==> *final(self) == *old(self),
    {
        proof {
            use_type_invariant(&*self);
        }
        if self.width <= 1 {
            return Err(SeamError::TooNarrow);
        }
        if seam.len() != self.height {
            return Err(SeamError::WrongLength);
        }
        let mut i: usize = 0;
        while i < seam.len()
            invariant
                i <= seam@.len(),
                seam@.len() == self@.len(),
                1 < self.width,
                forall|k: int| 0 <= k < i ==> (#[trigger] seam@[k]).1 == k && seam@[k].0 < self.width,
            decreases seam@.len() - i,
        {
            if seam[i].1 as usize != i || seam[i].0 as usize >= self.width {
                assert(seam@[i as int].1 != i || seam@[i as int].0 >= self.width);
                assert(seam_error(self@.len(), self.cols(), seam@) == Some(SeamError::Misplaced));
                return Err(SeamError::Misplaced);
            }
            i = i + 1;
        }
        assert forall|k: int| 0 <= k < self.height implies (#[trigger] seam@[k]).0 < self.width by {
        }
        let ghost old_rows = self@;
        let empty: Vec<u32> = Vec::new();
        assert(empty@.len() == 0 * 0);
        let mut taken = Matrix { stride: 0, width: 0, height: 0, cells: empty };
        std::mem::swap(self, &mut taken);
        let Matrix { stride, width, height, mut cells } = taken;
        let ghost old_cells = cells@;
        let mut y: usize = 0;
        while y < height
            invariant
                y <= height,
                width <= stride,
                2 <= width,
                cells@.len() == old_cells.len(),
                old_cells.len() == stride * height,
                stride * height <= usize::MAX,
                seam@.len() == height,
                forall|k: int| 0 <= k < height ==> (#[trigger] seam@[k]).0 < width,
                forall|yy: int, xx: int|
                    0 <= yy < y && 0 <= xx < width - 1 ==> #[trigger] cells@[yy * stride + xx]
                        == if xx < seam@[yy].0 {
                        old_cells[yy * stride + xx]
                    } else {
                        old_cells[yy * stride + xx + 1]
                    },
                forall|yy: int, xx: int|
                    y <= yy < height && 0 <= xx < width ==> #[trigger] cells@[yy * stride + xx]
                        == old_cells[yy * stride + xx],
            decreases height - y,
        {
            let c = seam[y].0 as usize;
            proof {
                lemma_cell_in_bounds(stride as int, height as int, 0, y as int);
            }
            let base = y * stride;
            let mut x = c;
            while x + 1 < width
                invariant
                    y < height,
                    width <= stride,
                    2 <= width,
                    c <= x < width,
                    c == seam@[y as int].0,
                    base == y * stride,
                    cells@.len() == old_cells.len(),
                    old_cells.len() == stride * height,
                    stride * height <= usize::MAX,
                    forall|yy: int, xx: int|
                        0 <= yy < y && 0 <= xx < width - 1 ==> #[trigger] cells@[yy * stride + xx]
                            == if xx < seam@[yy].0 {
                            old_cells[yy * stride + xx]
                        } else {
                            old_cells[yy * stride + xx + 1]
                        },
                    forall|yy: int, xx: int|
                        y < yy < height && 0 <= xx < width ==> #[trigger] cells@[yy * stride + xx]
                            == old_cells[yy * stride + xx],
                    forall|xx: int|
                        0 <= xx < width ==> #[trigger] cells@[y * stride + xx] == if xx < c {
                            old_cells[y * stride + xx]
                        } else if xx < x {
                            old_cells[y * stride + xx + 1]
                        } else {
                            old_cells[y * stride + xx]
                        },
                decreases width - x,
            {
                proof {
                    lemma_cell_in_bounds(stride as int, height as int, x as int + 1, y as int);
                }
                let v = cells[base + x + 1];
                assert(v == old_cells[y * stride + (x + 1)]);
                let ghost prev = cells@;
                cells.set(base + x, v);
                proof {
                    assert forall|yy: int, xx: int|
                        0 <= yy < height && yy != y && 0 <= xx < width implies #[trigger] cells@[yy
                        * stride + xx] == prev[yy * stride + xx] by {
                        lemma_cell_in_bounds(stride as int, height as int, xx, yy);
                        lemma_cells_distinct(stride as int, xx, yy, x as int, y as int);
                    }
                    assert forall|xx: int| 0 <= xx < width && xx != x implies #[trigger] cells@[y
                        * stride + xx] == prev[y * stride + xx] by {
                        lemma_cell_in_bounds(stride as int, height as int, xx, y as int);
                    }
                }
                x = x + 1;
            }
            y = y + 1;
        }
        *self = Matrix { stride, width: width - 1, height, cells };
        proof {
            assert forall|yy: int| 0 <= yy < height implies #[trigger] self@[yy]
                =~= rows_without_seam(old_rows, seam@)[yy] by {
                assert forall|xx: int| 0 <= xx < width - 1 implies #[trigger] self@[yy][xx]
                    == old_rows[yy].remove(seam@[yy].0 as int)[xx] by {
                    lemma_cell_in_bounds(stride as int, height as int, xx + 1, yy);
                    assert(self@[yy][xx] == self.cells@[yy * stride + xx]);
                    if xx < seam@[yy].0 {
                        assert(old_rows[yy][xx] == old_cells[yy * stride + xx]);
                    } else {
                        assert(old_rows[yy][xx + 1] == old_cells[yy * stride + xx + 1]);
                    }
                }
            }
            assert(self@ =~= rows_without_seam(old_rows, seam@));
        }
        Ok(())
    }
}

} // verus!
