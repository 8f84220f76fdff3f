use vstd::prelude::*;

use crate::layout::{lemma_index_in_range, lemma_index_injective};

verus! {

/// What a matrix holds, as mathematics: `rows[row][col]`.
pub struct MatrixView<T> {
    pub width: nat,
    pub height: nat,
    pub rows: Seq<Seq<T>>,
}

impl<T> MatrixView<T> {
    /// `height` rows of `width` elements each.
    pub open spec fn well_formed(self) -> bool {
        &&& self.rows.len() == self.height
        &&& forall|r: int| 0 <= r < self.height ==> (#[trigger] self.rows[r]).len() == self.width
    }

    /// The matrix with rows and columns swapped.
    pub open spec fn transposed(self) -> MatrixView<T> {
        MatrixView {
            width: self.height,
            height: self.width,
            rows: Seq::new(self.width, |r: int| Seq::new(self.height, |c: int| self.rows[c][r])),
        }
    }

    /// The matrix without row `row` and column `col`.
    pub open spec fn without(self, row: int, col: int) -> MatrixView<T> {
        MatrixView {
            width: (self.width - 1) as nat,
            height: (self.height - 1) as nat,
            rows: self.rows.remove(row).map_values(|r: Seq<T>| r.remove(col)),
        }
    }
}

/// A `width` by `height` grid of elements, each addressed by row and column,
/// counted from the top left.
#[derive(Debug, PartialEq)]
pub struct Matrix<T> {
    width: usize,
    height: usize,
    /// Row by row: element `(row, col)` sits at `row * width + col`.
    cells: Vec<T>,
}

impl<T> View for Matrix<T> {
    type V = MatrixView<T>;

    closed spec fn view(&self) -> MatrixView<T> {
        MatrixView {
            width: self.width as nat,
            height: self.height as nat,
            rows: Seq::new(
                self.height as nat,
                |r: int| Seq::new(self.width as nat, |c: int| self.cells@[r * self.width + c]),
            ),
        }
    }
}

/// A matrix of the given size whose every element is `e`.
pub open spec fn filled<T>(width: nat, height: nat, e: T) -> MatrixView<T> {
    MatrixView { width, height, rows: Seq::new(height, |r: int| Seq::new(width, |c: int| e)) }
}

/// The `n` by `n` matrix with `one` on the diagonal and `zero` elsewhere.
pub open spec fn identity_of<T>(n: nat, zero: T, one: T) -> MatrixView<T> {
    MatrixView {
        width: n,
        height: n,
        rows: Seq::new(n, |r: int| Seq::new(n, |c: int| if r == c { one } else { zero })),
    }
}

/// All rows are as long as the first, and there is a first.
pub open spec fn rectangular<T>(rows: Seq<Vec<T>>) -> bool {
    &&& rows.len() > 0
    &&& forall|r: int| 0 <= r < rows.len() ==> (#[trigger] rows[r])@.len() == rows[0]@.len()
}

impl<T> Matrix<T> {
    #[verifier::type_invariant]
    spec fn inv(&self) -> bool {
        self.cells@.len() == self.width * self.height
    }

    /// Every matrix has the shape its size gives.
    pub proof fn lemma_well_formed(&self)
        ensures
            self@.well_formed(),
    {
    }
}

impl<T: Copy> Clone for Matrix<T> {
    /// A copy with the same size and the same elements.
    fn clone(&self) -> (r: Self)
        ensures
            r@ == self@,
    {
        proof {
            use_type_invariant(self);
        }
        let mut cells: Vec<T> = Vec::with_capacity(self.cells.len());
        let mut i: usize = 0;
        while i < self.cells.len()
            invariant
                i <= self.cells@.len(),
                cells@ == self.cells@.take(i as int),
            decreases self.cells@.len() - i,
        {
            cells.push(self.cells[i]);
            i += 1;
            assert(cells@ =~= self.cells@.take(i as int));
        }
        assert(cells@ =~= self.cells@);
        Matrix { width: self.width, height: self.height, cells }
    }
}

impl<T: Copy> Matrix<T> {
    /// A `width` by `height` matrix with every element set to `fill`.
    pub fn new(width: usize, height: usize, fill: T) -> (m: Matrix<T>)
        requires
            width * height <= usize::MAX,
        ensures
            m@ == filled(width as nat, height as nat, fill),
    {
        let len: usize = width * height;
        let mut cells: Vec<T> = Vec::with_capacity(len);
        let mut i: usize = 0;
        while i < len
            invariant
                i <= len,
                cells@.len() == i,
                forall|k: int| 0 <= k < i ==> cells@[k] == fill,
            decreases len - i,
        {
            cells.push(fill);
            i += 1;
        }
        let m = Matrix { width, height, cells };
        proof {
            assert(height * width == width * height) by (nonlinear_arith);
            assert forall|r: int| 0 <= r < height implies #[trigger] m@.rows[r] =~= Seq::new(
                width as nat,
                |c: int| fill,
            ) by {
                assert forall|c: int| 0 <= c < width implies #[trigger] m@.rows[r][c] == fill by {
                    lemma_index_in_range(r, c, height as int, width as int);
                }
            }
            assert(m@.rows =~= filled(width as nat, height as nat, fill).rows);
        }
        m
    }

    /// The matrix whose rows are `elements`, which must all be as long as the first.
    pub fn from(elements: Vec<Vec<T>>) -> (m: Matrix<T>)
        requires
            rectangular(elements@),
            elements@.len() * elements@[0]@.len() <= usize::MAX,
        ensures
            m@.width == elements@[0]@.len(),
            m@.height == elements@.len(),
            m@.rows == elements@.map_values(|r: Vec<T>| r@),
    {
        let height = elements.len();
        let width = elements[0].len();
        let mut cells: Vec<T> = Vec::new();
        let mut r: usize = 0;
        while r < height
            invariant
                r <= height,
                height == elements@.len(),
                width == elements@[0]@.len(),
                rectangular(elements@),
                height * width <= usize::MAX,
                cells@.len() == r * width,
                forall|i: int, j: int|
                    0 <= i < r && 0 <= j < width ==> cells@[i * width + j] == #[trigger] elements@[i]@[j],
            decreases height - r,
        {
            let row = &elements[r];
            let mut c: usize = 0;
            proof {
                assert((r + 1) * width <= height * width) by (nonlinear_arith)
                    requires r + 1 <= height;
                assert((r + 1) * width == r * width + width) by (nonlinear_arith);
            }
            while c < width
                invariant
                    r < height,
                    c <= width,
                    height == elements@.len(),
                    width == elements@[0]@.len(),
                    row@ == elements@[r as int]@,
                    rectangular(elements@),
                    cells@.len() == r * width + c,
                    (r + 1) * width <= usize::MAX,
                    (r + 1) * width == r * width + width,
                    forall|i: int, j: int|
                        0 <= i < r && 0 <= j < width ==> cells@[i * width + j] == #[trigger] elements@[i]@[j],
                    forall|j: int| 0 <= j < c ==> cells@[r * width + j] == #[trigger] row@[j],
                decreases width - c,
            {
                cells.push(row[c]);
                proof {
                    assert forall|i: int, j: int|
                        0 <= i < r && 0 <= j < width implies cells@[i * width + j]
                        == #[trigger] elements@[i]@[j] by {
                        lemma_index_in_range(i, j, r as int, width as int);
                    }
                }
                c += 1;
            }
            proof {
                assert forall|i: int, j: int|
                    0 <= i < r + 1 && 0 <= j < width implies cells@[i * width + j]
                    == #[trigger] elements@[i]@[j] by {
                    if i == r {
                        assert(row@[j] == elements@[i]@[j]);
                    }
                }
            }
            r += 1;
        }
        assert(height * width == width * height) by (nonlinear_arith);
        let m = Matrix { width, height, cells };
        proof {
            assert forall|i: int| 0 <= i < height implies #[trigger] m@.rows[i] =~= elements@[i]@ by {
                assert forall|j: int| 0 <= j < width implies #[trigger] m@.rows[i][j]
                    == elements@[i]@[j] by {
                    assert(cells@[i * width + j] == elements@[i]@[j]);
                }
            }
            assert(m@.rows =~= elements@.map_values(|r: Vec<T>| r@));
        }
        m
    }

    /// The `s` by `s` identity: `one` on the diagonal, `zero` elsewhere.
    pub fn identity(s: usize, zero: T, one: T) -> (m: Matrix<T>)
        requires
            s * s <= usize::MAX,
        ensures
            m@ == identity_of(s as nat, zero, one),
    {
        let mut m = Matrix::new(s, s, zero);
        let mut i: usize = 0;
        while i < s
            invariant
                i <= s,
                m@.width == s,
                m@.height == s,
                m@.well_formed(),
                forall|r: int, c: int|
                    0 <= r < s && 0 <= c < s ==> #[trigger] m@.rows[r][c] == if r == c && r < i {
                        one
                    } else {
                        zero
                    },
            decreases s - i,
        {
            m.set(i, i, one);
            proof {
                m.lemma_well_formed();
            }
            i += 1;
        }
        proof {
            assert forall|r: int| 0 <= r < s implies #[trigger] m@.rows[r] =~= identity_of(
                s as nat,
                zero,
                one,
            ).rows[r] by {}
            assert(m@.rows =~= identity_of(s as nat, zero, one).rows);
        }
        m
    }

    /// Row `row` and column `col` lie inside the matrix.
    pub fn in_bounds(&self, row: usize, col: usize) -> (r: bool)
        ensures
            r == (row < self@.height && col < self@.width),
    {
        row < self.height && col < self.width
    }

    /// The element in row `row` and column `col`.
    pub fn get(&self, row: usize, col: usize) -> (e: T)
        requires
            row < self@.height,
            col < self@.width,
        ensures
            e == self@.rows[row as int][col as int],
    {
        proof {
            use_type_invariant(self);
            lemma_index_in_range(row as int, col as int, self.height as int, self.width as int);
            assert(self.cells@.len() == self.cells.len());
        }
        self.cells[row * self.width + col]
    }

    /// Sets the element in row `row` and column `col`; every other keeps its value.
    pub fn set(&mut self, row: usize, col: usize, element: T)
        requires
            row < old(self)@.height,
            col < old(self)@.width,
        ensures
            final(self)@ == (MatrixView {
                width: old(self)@.width,
                height: old(self)@.height,
                rows: old(self)@.rows.update(
                    row as int,
                    old(self)@.rows[row as int].update(col as int, element),
                ),
            }),
        no_unwind
    {
        proof {
            use_type_invariant(&*self);
            lemma_index_in_range(row as int, col as int, self.height as int, self.width as int);
            assert(self.cells@.len() == self.cells.len());
        }
        let ghost before = self@;
        let i: usize = row * self.width + col;
        self.cells[i] = element;
        proof {
            let after = MatrixView {
                width: before.width,
                height: before.height,
                rows: before.rows.update(row as int, before.rows[row as int].update(col as int, element)),
            };
            assert forall|r: int| 0 <= r < self.height implies #[trigger] self@.rows[r] =~= after.rows[r] by {
                assert forall|c: int| 0 <= c < self.width implies #[trigger] self@.rows[r][c]
                    == after.rows[r][c] by {
                    lemma_index_in_range(r, c, self.height as int, self.width as int);
                    if r * self.width + c == i {
                        lemma_index_injective(r, c, row as int, col as int, self.width as int);
                    }
                }
            }
            assert(self@.rows =~= after.rows);
        }
    }

    /// The matrix with rows and columns swapped.
    pub fn transpose(&self) -> (m: Matrix<T>)
        ensures
            m@ == self@.transposed(),
    {
        proof {
            use_type_invariant(self);
            self.lemma_well_formed();
            assert(self.cells@.len() == self.cells.len());
        }
        let width = self.width;
        let height = self.height;
        if width == 0 || height == 0 {
            assert(height * width == 0) by (nonlinear_arith)
                requires width == 0 || height == 0;
            let m = Matrix { width: height, height: width, cells: Vec::new() };
            assert forall|r: int| 0 <= r < width implies #[trigger] m@.rows[r] =~= self@.transposed().rows[r] by {}
            assert(m@.rows =~= self@.transposed().rows);
            return m;
        }
        assert(height * width == width * height) by (nonlinear_arith);
        let mut m = Matrix::new(height, width, self.get(0, 0));
        let mut i: usize = 0;
        while i < height
            invariant
                i <= height,
                width == self@.width,
                height == self@.height,
                self@.well_formed(),
                m@.width == height,
                m@.height == width,
                m@.well_formed(),
                forall|r: int, c: int|
                    0 <= r < width && 0 <= c < i ==> #[trigger] m@.rows[r][c] == self@.rows[c][r],
            decreases height - i,
        {
            let mut j: usize = 0;
            while j < width
                invariant
                    i < height,
                    j <= width,
                    width == self@.width,
                    height == self@.height,
                    self@.well_formed(),
                    m@.width == height,
                    m@.height == width,
                    m@.well_formed(),
                    forall|r: int, c: int|
                        0 <= r < width && 0 <= c < i ==> #[trigger] m@.rows[r][c] == self@.rows[c][r],
                    forall|r: int| 0 <= r < j ==> #[trigger] m@.rows[r][i as int] == self@.rows[i as int][r],
                decreases width - j,
            {
                m.set(j, i, self.get(i, j));
                proof {
                    m.lemma_well_formed();
                }
                j += 1;
            }
            i += 1;
        }
        proof {
            assert forall|r: int| 0 <= r < width implies #[trigger] m@.rows[r] =~= self@.transposed().rows[r] by {}
            assert(m@.rows =~= self@.transposed().rows);
        }
        m
    }

    /// The matrix without row `row` and column `col`.
    pub fn submatrix(&self, row: usize, col: usize) -> (m: Matrix<T>)
        requires
            row < self@.height,
            col < self@.width,
        ensures
            m@ == self@.without(row as int, col as int),
    {
        proof {
            use_type_invariant(self);
            self.lemma_well_formed();
            assert(self.cells@.len() == self.cells.len());
        }
        let width = self.width - 1;
        let height = self.height - 1;
        proof {
            assert(width * height <= self.width * self.height) by (nonlinear_arith)
                requires width <= self.width, height <= self.height;
        }
        let ghost target = self@.without(row as int, col as int);
        let mut m = Matrix::new(width, height, self.get(0, 0));
        let mut y_new: usize = 0;
        while y_new < height
            invariant
                y_new <= height,
                height == self@.height - 1,
                width == self@.width - 1,
                row < self@.height,
                col < self@.width,
                self@.well_formed(),
                target == self@.without(row as int, col as int),
                m@.width == width,
                m@.height == height,
                m@.well_formed(),
                forall|r: int, c: int|
                    0 <= r < y_new && 0 <= c < width ==> #[trigger] m@.rows[r][c] == target.rows[r][c],
            decreases height - y_new,
        {
            let y_old: usize = if y_new < row { y_new } else { y_new + 1 };
            let mut x_new: usize = 0;
            while x_new < width
                invariant
                    y_new < height,
                    x_new <= width,
                    height == self@.height - 1,
                    width == self@.width - 1,
                    row < self@.height,
                    col < self@.width,
                    y_old == if y_new < row { y_new } else { (y_new + 1) as usize },
                    self@.well_formed(),
                    target == self@.without(row as int, col as int),
                    m@.width == width,
                    m@.height == height,
                    m@.well_formed(),
                    forall|r: int, c: int|
                        0 <= r < y_new && 0 <= c < width ==> #[trigger] m@.rows[r][c] == target.rows[r][c],
                    forall|c: int| 0 <= c < x_new ==> #[trigger] m@.rows[y_new as int][c] == target.rows[y_new as int][c],
                decreases width - x_new,
            {
                let x_old: usize = if x_new < col { x_new } else { x_new + 1 };
                let element = self.get(y_old, x_old);
                proof {
                    let kept = self@.rows.remove(row as int);
                    assert(kept[y_new as int] == self@.rows[y_old as int]);
                    assert(target.rows[y_new as int] == kept[y_new as int].remove(col as int));
                    assert(target.rows[y_new as int][x_new as int] == element);
                }
                m.set(y_new, x_new, element);
                proof {
                    m.lemma_well_formed();
                }
                x_new += 1;
            }
            y_new += 1;
        }
        proof {
            assert forall|r: int| 0 <= r < height implies #[trigger] m@.rows[r] =~= target.rows[r] by {}
            assert(m@.rows =~= target.rows);
        }
        m
    }

    pub fn width(&self) -> (r: usize)
        ensures
            r == self@.width,
    {
        self.width
    }

    pub fn height(&self) -> (r: usize)
        ensures
            r == self@.height,
    {
        self.height
    }

    /// The side of a square matrix, or `None` for one that is not square.
    pub fn square_size(&self) -> (r: Option<usize>)
        ensures
            r == (if self@.width == self@.height {
                Some(self@.width as usize)
            } else {
                None
            }),
    {
        if self.width == self.height {
            Some(self.width)
        } else {
            None
        }
    }
}

/// Transposing twice gives back the matrix.
pub proof fn lemma_transpose_transpose<T>(m: MatrixView<T>)
    requires
        m.well_formed(),
    ensures
        m.transposed().transposed() == m,
{
    let t = m.transposed().transposed();
    assert forall|r: int| 0 <= r < m.height implies #[trigger] t.rows[r] =~= m.rows[r] by {}
    assert(t.rows =~= m.rows);
}

/// The identity is its own transpose.
pub proof fn lemma_transpose_identity<T>(n: nat, zero: T, one: T)
    ensures
        identity_of(n, zero, one).transposed() == identity_of(n, zero, one),
{
    let i = identity_of(n, zero, one);
    assert forall|r: int| 0 <= r < n implies #[trigger] i.transposed().rows[r] =~= i.rows[r] by {}
    assert(i.transposed().rows =~= i.rows);
}

} // verus!
