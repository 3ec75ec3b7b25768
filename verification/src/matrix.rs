//! Dense matrices stored row by row.
//!
//! Layout: `matrix[row][col]`, so `(row, col)` is `(y, x)`. The general
//! operations change or inspect a matrix, the operators combine matrices
//! (their element arithmetic is passed in as closures), and the
//! constructors build special matrices.
use vstd::prelude::*;
use crate::grid::{
    anti_diagonal, column, det_chain, det_terms, det_value, diagonal, dot_chain, dots_to,
    fold_chain, folds_to, flipped, identity_rows, is_product, is_rect, lemma_det_chain_intro,
    lemma_reversed_involution, lemma_rotated_shape, ncols, product_chain, reversed, rotated,
    rotated_ccw, rotated_cw,
};

verus! {

/// The rows of a `Vec` of rows, each taken as a sequence.
pub open spec fn rows_of<T>(v: Seq<Vec<T>>) -> Seq<Seq<T>> {
    v.map_values(|r: Vec<T>| r@)
}

/// Why a matrix has no shape.
#[derive(Debug, Clone, Copy, PartialEq, Eq)]
pub enum ShapeError {
    /// The matrix has no rows at all.
    NoRows,
    /// The row at this index differs in length from the first row (the
    /// first such row).
    JaggedRow(usize),
    /// All rows have the same length, and that length is zero.
    Empty,
}

/// A matrix of `T`, stored as a vector of rows.
#[derive(Debug, Clone, PartialEq)]
pub struct Matrix<T> {
    pub matrix: Vec<Vec<T>>,
}

/// `v` in reverse order, taking its elements by move.
pub fn reverse_vec<U>(v: Vec<U>) -> (r: Vec<U>)
    ensures
        r@ == reversed(v@),
{
    let ghost orig = v@;
    let mut v = v;
    let mut r: Vec<U> = Vec::new();
    while v.len() > 0
        invariant
            r.len() + v.len() == orig.len(),
            v@ == orig.subrange(0, v.len() as int),
            forall|k: int| 0 <= k < r.len() ==> #[trigger] r@[k] == orig[orig.len() - 1 - k],
        decreases v.len(),
    {
        match v.pop() {
            Some(x) => r.push(x),
            None => {},
        }
    }
    assert(r@ =~= reversed(orig));
    r
}

impl<T> View for Matrix<T> {
    type V = Seq<Seq<T>>;

    open spec fn view(&self) -> Seq<Seq<T>> {
        rows_of(self.matrix@)
    }
}

impl<T: Copy> Matrix<T> {
    /// Returns `[rows, columns]` of a rectangular, non-empty matrix.
    pub fn shape(&self) -> (s: [usize; 2])
        requires
            is_rect(self@),
        ensures
            s[0] == self@.len(),
            s[1] == ncols(self@),
    {
        let nrows = self.matrix.len();
        let ncols = self.matrix[0].len();
        [nrows, ncols]
    }

    /// Returns `[rows, columns]`, or says why the matrix has no shape: no
    /// rows, the first row whose length differs from the first row's, or
    /// rows of length zero.
    pub fn checked_shape(&self) -> (r: Result<[usize; 2], ShapeError>)
        ensures
            match r {
                Ok(s) => is_rect(self@) && s[0] == self@.len() && s[1] == ncols(self@),
                Err(ShapeError::NoRows) => self@.len() == 0,
                Err(ShapeError::JaggedRow(i)) => {
                    &&& 0 < i < self@.len()
                    &&& self@[i as int].len() != self@[0].len()
                    &&& forall|k: int| 0 <= k < i ==> #[trigger] self@[k].len() == self@[0].len()
                },
                Err(ShapeError::Empty) => {
                    &&& self@.len() > 0
                    &&& self@[0].len() == 0
                    &&& forall|k: int| 0 <= k < self@.len() ==> #[trigger] self@[k].len() == 0
                },
            },
    {
        let nrows = self.matrix.len();
        if nrows == 0 {
            return Err(ShapeError::NoRows);
        }
        let ncols = self.matrix[0].len();
        let mut i: usize = 1;
        while i < nrows
            invariant
                1 <= i <= nrows,
                nrows == self@.len(),
                ncols == self@[0].len(),
                forall|k: int| 0 <= k < i ==> #[trigger] self@[k].len() == ncols,
            decreases nrows - i,
        {
            if self.matrix[i].len() != ncols {
                return Err(ShapeError::JaggedRow(i));
            }
            i = i + 1;
        }
        if ncols == 0 {
            Err(ShapeError::Empty)
        } else {
            Ok([nrows, ncols])
        }
    }

    /// The rows themselves.
    pub fn m(&self) -> (rows: &Vec<Vec<T>>)
        ensures
            rows == &self.matrix,
    {
        &self.matrix
    }

    /// Adds `row` below the last row.
    pub fn push_row(&mut self, row: Vec<T>)
        requires
            is_rect(old(self)@),
            row@.len() == ncols(old(self)@),
        ensures
            final(self)@ == old(self)@.push(row@),
            is_rect(final(self)@),
    {
        self.matrix.push(row);
        assert(self@ =~= old(self)@.push(row@));
    }

    /// Adds `col` to the right of the last column: row `i` gets `col[i]`.
    pub fn push_col(&mut self, col: Vec<T>)
        requires
            is_rect(old(self)@),
            col@.len() == old(self)@.len(),
        ensures
            final(self)@.len() == old(self)@.len(),
            forall|i: int|
                0 <= i < old(self)@.len() ==> #[trigger] final(self)@[i] == old(self)@[i].push(
                    col@[i],
                ),
            is_rect(final(self)@),
    {
        let n = col.len();
        let mut i: usize = 0;
        while i < n
            invariant
                n == col@.len(),
                n == old(self)@.len(),
                0 <= i <= n,
                self@.len() == n,
                forall|k: int|
                    0 <= k < i ==> #[trigger] self.matrix@[k]@ == old(self).matrix@[k]@.push(
                        col@[k],
                    ),
                forall|k: int| i <= k < n ==> #[trigger] self.matrix@[k] == old(self).matrix@[k],
            decreases n - i,
        {
            let v = col[i];
            let ghost before = self.matrix@;
            self.matrix[i].push(v);
            assert forall|k: int| 0 <= k < n && k != i implies #[trigger] self.matrix@[k]
                == before[k] by {}
            i = i + 1;
        }
        assert forall|k: int| 0 <= k < n implies #[trigger] self@[k] == old(self)@[k].push(
            col@[k],
        ) by {
            assert(self@[k] == self.matrix@[k]@);
        }
        assert forall|k: int| 0 <= k < n implies #[trigger] self@[k].len() == self@[0].len() by {
            assert(old(self)@[k].len() == old(self)@[0].len());
        }
    }
}

impl<T: Copy> Matrix<T> {
    /// Inserts `row` so that it becomes row `place`, before an existing
    /// row: `place` is below the number of rows (`push_row` adds a row at
    /// the end).
    pub fn insert_row(&mut self, row: Vec<T>, place: usize)
        requires
            is_rect(old(self)@),
            row@.len() == ncols(old(self)@),
            place < old(self)@.len(),
        ensures
            final(self)@ == old(self)@.insert(place as int, row@),
            is_rect(final(self)@),
    {
        let width = self.shape()[1];
        self.matrix.insert(place, row);
        assert(self@ =~= old(self)@.insert(place as int, row@));
        assert forall|k: int| 0 <= k < self@.len() implies #[trigger] self@[k].len() == width by {
            if k < place {
                assert(self@[k] == old(self)@[k]);
            } else if k > place {
                assert(self@[k] == old(self)@[k - 1]);
            }
        }
    }

    /// Inserts `col` so that it becomes column `place`, before an existing
    /// column: row `i` gets `col[i]` at index `place`, and `place` is below
    /// the number of columns (`push_col` adds a column at the end).
    pub fn insert_col(&mut self, col: Vec<T>, place: usize)
        requires
            is_rect(old(self)@),
            col@.len() == old(self)@.len(),
            place < ncols(old(self)@),
        ensures
            final(self)@.len() == old(self)@.len(),
            forall|i: int|
                0 <= i < old(self)@.len() ==> #[trigger] final(self)@[i] == old(self)@[i].insert(
                    place as int,
                    col@[i],
                ),
            is_rect(final(self)@),
    {
        let n = col.len();
        let mut i: usize = 0;
        while i < n
            invariant
                n == col@.len(),
                n == old(self)@.len(),
                is_rect(old(self)@),
                place < ncols(old(self)@),
                0 <= i <= n,
                self@.len() == n,
                forall|k: int|
                    0 <= k < i ==> #[trigger] self.matrix@[k]@ == old(self).matrix@[k]@.insert(
                        place as int,
                        col@[k],
                    ),
                forall|k: int| i <= k < n ==> #[trigger] self.matrix@[k] == old(self).matrix@[k],
            decreases n - i,
        {
            let v = col[i];
            let ghost before = self.matrix@;
            assert(before[i as int]@.len() == old(self)@[i as int].len());
            assert(old(self)@[i as int].len() == old(self)@[0].len());
            self.matrix[i].insert(place, v);
            assert forall|k: int| 0 <= k < n && k != i implies #[trigger] self.matrix@[k]
                == before[k] by {}
            i = i + 1;
        }
        assert forall|k: int| 0 <= k < n implies #[trigger] self@[k] == old(self)@[k].insert(
            place as int,
            col@[k],
        ) by {
            assert(self@[k] == self.matrix@[k]@);
        }
        assert forall|k: int| 0 <= k < n implies #[trigger] self@[k].len() == self@[0].len() by {
            assert(old(self)@[k].len() == old(self)@[0].len());
        }
    }

    /// Turns the matrix half around: the rows in reverse order, each of them
    /// reversed. Any matrix, rectangular or not.
    pub fn flip(&mut self)
        ensures
            final(self)@ == flipped(old(self)@),
    {
        let mut rows: Vec<Vec<T>> = Vec::new();
        std::mem::swap(&mut rows, &mut self.matrix);
        let ghost orig = rows@;
        let n = rows.len();
        let mut mat: Vec<Vec<T>> = Vec::new();
        while rows.len() > 0
            invariant
                mat.len() + rows.len() == n,
                n == orig.len(),
                rows@ == orig.subrange(0, rows.len() as int),
                forall|k: int|
                    0 <= k < mat.len() ==> #[trigger] mat@[k]@ == reversed(orig[n - 1 - k]@),
            decreases rows.len(),
        {
            match rows.pop() {
                Some(row) => mat.push(reverse_vec(row)),
                None => {},
            }
        }
        self.matrix = mat;
        let ghost f = flipped(rows_of(orig));
        assert forall|k: int| 0 <= k < n implies #[trigger] self@[k] == f[k] by {
            assert(self@[k] =~= f[k]);
        }
        assert(self@ =~= f);
    }

    /// Column `col`, top to bottom.
    fn column_of(&self, col: usize) -> (c: Vec<T>)
        requires
            is_rect(self@),
            col < ncols(self@),
        ensures
            c@ == column(self@, col as int),
    {
        let n = self.matrix.len();
        let mut c: Vec<T> = Vec::new();
        let mut row: usize = 0;
        while row < n
            invariant
                n == self@.len(),
                is_rect(self@),
                col < ncols(self@),
                row <= n,
                c.len() == row,
                forall|k: int| 0 <= k < row ==> #[trigger] c@[k] == self@[k][col as int],
            decreases n - row,
        {
            assert(self@[row as int].len() == self@[0].len());
            c.push(self.matrix[row][col]);
            row = row + 1;
        }
        assert(c@ =~= column(self@, col as int));
        c
    }

    /// Turns the matrix `rots` quarter turns clockwise.
    pub fn rot90(&mut self, rots: u32)
        requires
            is_rect(old(self)@),
        ensures
            final(self)@ == rotated(old(self)@, rots as int),
            is_rect(final(self)@),
    {
        proof {
            lemma_rotated_shape(self@, rots as int);
        }
        let rotations = rots % 4;
        let shape = self.shape();
        let width = shape[1];
        let mut mat: Vec<Vec<T>> = Vec::new();
        if rotations == 1 {
            let mut col: usize = 0;
            while col < width
                invariant
                    width == ncols(self@),
                    is_rect(self@),
                    col <= width,
                    mat.len() == col,
                    forall|k: int|
                        0 <= k < col ==> #[trigger] mat@[k]@ == reversed(column(self@, k)),
                decreases width - col,
            {
                let newrow = self.column_of(col);
                mat.push(reverse_vec(newrow));
                col = col + 1;
            }
            let ghost r = rotated_cw(self@);
            assert forall|k: int| 0 <= k < width implies #[trigger] rows_of(mat@)[k] == r[k] by {
                assert(rows_of(mat@)[k] =~= r[k]);
            }
            assert(rows_of(mat@) =~= r);
            self.matrix = mat;
        } else if rotations == 2 {
            self.flip();
        } else if rotations == 3 {
            let mut col: usize = 0;
            while col < width
                invariant
                    width == ncols(self@),
                    is_rect(self@),
                    col <= width,
                    mat.len() == col,
                    forall|k: int| 0 <= k < col ==> #[trigger] mat@[k]@ == column(self@, k),
                decreases width - col,
            {
                let newrow = self.column_of(col);
                mat.push(newrow);
                col = col + 1;
            }
            let mat = reverse_vec(mat);
            let ghost r = rotated_ccw(self@);
            assert forall|k: int| 0 <= k < width implies #[trigger] rows_of(mat@)[k] == r[k] by {
                assert(rows_of(mat@)[k] =~= r[k]);
            }
            assert(rows_of(mat@) =~= r);
            self.matrix = mat;
        }
    }

    /// Builds a matrix from its rows; they must all have one length, which
    /// is not zero, and there must be at least one.
    pub fn new(matrix: Vec<Vec<T>>) -> (mat: Self)
        requires
            is_rect(rows_of(matrix@)),
        ensures
            mat.matrix == matrix,
            is_rect(mat@),
    {
        let mat = Matrix { matrix };
        let _ = mat.shape();
        mat
    }

    /// The `size` by `size` identity matrix, with `zero` off the diagonal and
    /// `one` on it.
    pub fn identity(size: usize, zero: T, one: T) -> (mat: Self)
        ensures
            mat@ == identity_rows(size as nat, zero, one),
            size > 0 ==> is_rect(mat@),
    {
        let mut matrix: Vec<Vec<T>> = Vec::new();
        let mut s: usize = 0;
        while s < size
            invariant
                s <= size,
                matrix.len() == s,
                forall|i: int| 0 <= i < s ==> #[trigger] matrix@[i]@.len() == size,
                forall|i: int, j: int|
                    0 <= i < s && 0 <= j < size ==> #[trigger] matrix@[i]@[j] == if i == j {
                        one
                    } else {
                        zero
                    },
            decreases size - s,
        {
            let mut row: Vec<T> = Vec::new();
            let mut j: usize = 0;
            while j < size
                invariant
                    j <= size,
                    s < size,
                    row.len() == j,
                    forall|k: int| 0 <= k < j ==> #[trigger] row@[k] == zero,
                decreases size - j,
            {
                row.push(zero);
                j = j + 1;
            }
            row.set(s, one);
            matrix.push(row);
            s = s + 1;
        }
        let mat = Matrix { matrix };
        let ghost id = identity_rows(size as nat, zero, one);
        assert forall|i: int| 0 <= i < size implies #[trigger] mat@[i] == id[i] by {
            assert(mat@[i] =~= id[i]);
        }
        assert(mat@ =~= id);
        mat
    }
}

/// The three element operations that a scalar can be combined with.
#[derive(Debug, Clone, Copy, PartialEq, Eq)]
#[allow(non_camel_case_types)]
pub enum ScalarOps {
    sadd,
    ssub,
    smul,
}

/// Every entry of `out` is what `f` can give for the same entry of `m`
/// and `rhs`, and `out` has the row lengths of `m`.
pub open spec fn maps_scalar<T, F: Fn(T, T) -> T>(
    f: F,
    m: Seq<Seq<T>>,
    rhs: T,
    out: Seq<Seq<T>>,
) -> bool {
    &&& out.len() == m.len()
    &&& forall|i: int| 0 <= i < m.len() ==> #[trigger] out[i].len() == m[i].len()
    &&& forall|i: int, j: int|
        0 <= i < m.len() && 0 <= j < m[i].len() ==> f.ensures((m[i][j], rhs), #[trigger] out[i][j])
}

/// `out` has the shape of `a`, and every entry is what `f` can give for the
/// same entries of `a` and `b`, in that order.
pub open spec fn zips_with<T, F: Fn(T, T) -> T>(
    f: F,
    a: Seq<Seq<T>>,
    b: Seq<Seq<T>>,
    out: Seq<Seq<T>>,
) -> bool {
    &&& out.len() == a.len()
    &&& forall|i: int| 0 <= i < a.len() ==> #[trigger] out[i].len() == a[i].len()
    &&& forall|i: int, j: int|
        0 <= i < a.len() && 0 <= j < a[i].len() ==> f.ensures((a[i][j], b[i][j]), #[trigger] out[i][j])
}

impl<T: Copy> Matrix<T> {
    /// An element-by-element copy.
    fn duplicate(&self) -> (mat: Self)
        ensures
            mat@ == self@,
    {
        let n = self.matrix.len();
        let mut matrix: Vec<Vec<T>> = Vec::new();
        let mut i: usize = 0;
        while i < n
            invariant
                n == self@.len(),
                i <= n,
                matrix.len() == i,
                forall|k: int| 0 <= k < i ==> #[trigger] matrix@[k]@ == self@[k],
            decreases n - i,
        {
            let src = &self.matrix[i];
            let len = src.len();
            let mut row: Vec<T> = Vec::new();
            let mut j: usize = 0;
            while j < len
                invariant
                    len == src@.len(),
                    j <= len,
                    row@ == src@.subrange(0, j as int),
                decreases len - j,
            {
                row.push(src[j]);
                j = j + 1;
                assert(row@ =~= src@.subrange(0, j as int));
            }
            assert(row@ =~= src@);
            matrix.push(row);
            i = i + 1;
        }
        let mat = Matrix { matrix };
        assert(mat@ =~= self@);
        mat
    }

    /// Applies `calc(entry, rhs)` to every entry. Any matrix, rectangular or
    /// not.
    fn map_scalar<F: Fn(T, T) -> T>(&self, rhs: T, calc: F) -> (mat: Self)
        requires
            forall|a: T, b: T| #[trigger] calc.requires((a, b)),
        ensures
            maps_scalar(calc, self@, rhs, mat@),
    {
        let n = self.matrix.len();
        let mut matrix: Vec<Vec<T>> = Vec::new();
        let mut i: usize = 0;
        while i < n
            invariant
                n == self@.len(),
                i <= n,
                matrix.len() == i,
                forall|a: T, b: T| #[trigger] calc.requires((a, b)),
                forall|k: int| 0 <= k < i ==> #[trigger] matrix@[k]@.len() == self@[k].len(),
                forall|k: int, j: int|
                    0 <= k < i && 0 <= j < self@[k].len() ==> calc.ensures(
                        (self@[k][j], rhs),
                        #[trigger] matrix@[k]@[j],
                    ),
            decreases n - i,
        {
            let src = &self.matrix[i];
            let len = src.len();
            let mut row: Vec<T> = Vec::new();
            let mut j: usize = 0;
            while j < len
                invariant
                    len == src@.len(),
                    j <= len,
                    row.len() == j,
                    forall|a: T, b: T| #[trigger] calc.requires((a, b)),
                    forall|t: int| 0 <= t < j ==> calc.ensures((src@[t], rhs), #[trigger] row@[t]),
                decreases len - j,
            {
                let v = calc(src[j], rhs);
                row.push(v);
                j = j + 1;
            }
            matrix.push(row);
            i = i + 1;
        }
        Matrix { matrix }
    }

    /// Applies `f(self entry, other entry)` to every pair of entries of two
    /// matrices of one shape.
    fn zip_with<F: Fn(T, T) -> T>(&self, other: &Self, f: &F) -> (mat: Self)
        requires
            is_rect(self@),
            is_rect(other@),
            self@.len() == other@.len(),
            ncols(self@) == ncols(other@),
            forall|a: T, b: T| #[trigger] f.requires((a, b)),
        ensures
            zips_with(*f, self@, other@, mat@),
            is_rect(mat@),
    {
        let n = self.matrix.len();
        let mut matrix: Vec<Vec<T>> = Vec::new();
        let mut i: usize = 0;
        while i < n
            invariant
                n == self@.len(),
                is_rect(self@),
                is_rect(other@),
                self@.len() == other@.len(),
                ncols(self@) == ncols(other@),
                i <= n,
                matrix.len() == i,
                forall|a: T, b: T| #[trigger] f.requires((a, b)),
                forall|k: int| 0 <= k < i ==> #[trigger] matrix@[k]@.len() == self@[k].len(),
                forall|k: int, j: int|
                    0 <= k < i && 0 <= j < self@[k].len() ==> f.ensures(
                        (self@[k][j], other@[k][j]),
                        #[trigger] matrix@[k]@[j],
                    ),
            decreases n - i,
        {
            let a = &self.matrix[i];
            let b = &other.matrix[i];
            assert(self@[i as int].len() == self@[0].len());
            assert(other@[i as int].len() == other@[0].len());
            let len = a.len();
            let mut row: Vec<T> = Vec::new();
            let mut j: usize = 0;
            while j < len
                invariant
                    len == a@.len(),
                    len == b@.len(),
                    j <= len,
                    row.len() == j,
                    forall|x: T, y: T| #[trigger] f.requires((x, y)),
                    forall|t: int| 0 <= t < j ==> f.ensures((a@[t], b@[t]), #[trigger] row@[t]),
                decreases len - j,
            {
                let v = f(a[j], b[j]);
                row.push(v);
                j = j + 1;
            }
            matrix.push(row);
            i = i + 1;
        }
        let mat = Matrix { matrix };
        assert forall|k: int| 0 <= k < n implies #[trigger] mat@[k].len() == mat@[0].len() by {
            assert(self@[k].len() == self@[0].len());
        }
        mat
    }

    /// Combines every entry with the scalar `rhs` by the operation that `op`
    /// names: `add_op`, `sub_op` or `mul_op`, each called as `(entry, rhs)`.
    pub fn _op_scalar<A: Fn(T, T) -> T, S: Fn(T, T) -> T, M: Fn(T, T) -> T>(
        &self,
        rhs: T,
        op: ScalarOps,
        add_op: A,
        sub_op: S,
        mul_op: M,
    ) -> (mat: Self)
        requires
            forall|a: T, b: T| #[trigger] add_op.requires((a, b)),
            forall|a: T, b: T| #[trigger] sub_op.requires((a, b)),
            forall|a: T, b: T| #[trigger] mul_op.requires((a, b)),
        ensures
            op == ScalarOps::sadd ==> maps_scalar(add_op, self@, rhs, mat@),
            op == ScalarOps::ssub ==> maps_scalar(sub_op, self@, rhs, mat@),
            op == ScalarOps::smul ==> maps_scalar(mul_op, self@, rhs, mat@),
    {
        match op {
            ScalarOps::sadd => self.map_scalar(rhs, add_op),
            ScalarOps::ssub => self.map_scalar(rhs, sub_op),
            ScalarOps::smul => self.map_scalar(rhs, mul_op),
        }
    }

    /// matrix + scalar: `add_op(entry, rhs)` for every entry.
    pub fn plus_scalar<F: Fn(T, T) -> T>(&self, rhs: T, add_op: F) -> (mat: Self)
        requires
            forall|a: T, b: T| #[trigger] add_op.requires((a, b)),
        ensures
            maps_scalar(add_op, self@, rhs, mat@),
    {
        self.map_scalar(rhs, add_op)
    }

    /// matrix - scalar: `sub_op(entry, rhs)` for every entry.
    pub fn minus_scalar<F: Fn(T, T) -> T>(&self, rhs: T, sub_op: F) -> (mat: Self)
        requires
            forall|a: T, b: T| #[trigger] sub_op.requires((a, b)),
        ensures
            maps_scalar(sub_op, self@, rhs, mat@),
    {
        self.map_scalar(rhs, sub_op)
    }

    /// matrix * scalar: `mul_op(entry, rhs)` for every entry.
    pub fn mul_scalar<F: Fn(T, T) -> T>(&self, rhs: T, mul_op: F) -> (mat: Self)
        requires
            forall|a: T, b: T| #[trigger] mul_op.requires((a, b)),
        ensures
            maps_scalar(mul_op, self@, rhs, mat@),
    {
        self.map_scalar(rhs, mul_op)
    }

    /// matrix + matrix of one shape: entry `(i, j)` is
    /// `add_op(rhs[i][j], self[i][j])`.
    pub fn plus_matrix<F: Fn(T, T) -> T>(&self, rhs: &Self, add_op: &F) -> (mat: Self)
        requires
            is_rect(self@),
            is_rect(rhs@),
            self@.len() == rhs@.len(),
            ncols(self@) == ncols(rhs@),
            forall|a: T, b: T| #[trigger] add_op.requires((a, b)),
        ensures
            zips_with(*add_op, rhs@, self@, mat@),
            is_rect(mat@),
    {
        rhs.zip_with(self, add_op)
    }

    /// matrix - matrix of one shape: entry `(i, j)` is
    /// `sub_op(self[i][j], rhs[i][j])`.
    pub fn minus_matrix<F: Fn(T, T) -> T>(&self, rhs: &Self, sub_op: &F) -> (mat: Self)
        requires
            is_rect(self@),
            is_rect(rhs@),
            self@.len() == rhs@.len(),
            ncols(self@) == ncols(rhs@),
            forall|a: T, b: T| #[trigger] sub_op.requires((a, b)),
        ensures
            zips_with(*sub_op, self@, rhs@, mat@),
            is_rect(mat@),
    {
        self.zip_with(rhs, sub_op)
    }

    /// Accumulates `fma(acc, left[n], right[len - 1 - n])` from `zero` for
    /// `n` counting up to the length of `right`.
    fn _dot<F: Fn(T, T, T) -> T>(left: &Vec<T>, right: &Vec<T>, zero: T, fma: &F) -> (out: T)
        requires
            left@.len() >= right@.len(),
            forall|a: T, b: T, c: T| #[trigger] fma.requires((a, b, c)),
        ensures
            dots_to(*fma, zero, left@.subrange(0, right@.len() as int), reversed(right@), out),
    {
        let vec_len = right.len();
        let ghost l = left@.subrange(0, vec_len as int);
        let ghost r = reversed(right@);
        let mut output = zero;
        let ghost mut accs: Seq<T> = seq![zero];
        let mut n: usize = 0;
        while n < vec_len
            invariant
                vec_len == right@.len(),
                left@.len() >= vec_len,
                l == left@.subrange(0, vec_len as int),
                r == reversed(right@),
                n <= vec_len,
                accs.len() == n + 1,
                accs[0] == zero,
                accs[n as int] == output,
                forall|a: T, b: T, c: T| #[trigger] fma.requires((a, b, c)),
                forall|k: int|
                    #![trigger l[k]]
                    0 <= k < n ==> fma.ensures((accs[k], l[k], r[k]), accs[k + 1]),
            decreases vec_len - n,
        {
            let next = fma(output, left[n], right[vec_len - n - 1]);
            proof {
                assert(l[n as int] == left@[n as int]);
                assert(r[n as int] == right@[vec_len - n - 1]);
                accs = accs.push(next);
            }
            output = next;
            n = n + 1;
        }
        assert(dot_chain(*fma, zero, l, r, accs));
        output
    }

    /// matrix * matrix: entry `(i, j)` accumulates `fma(acc, self[i][k],
    /// rhs[k][j])` from `zero` for `k` counting up. The number of columns of
    /// `self` must be the number of rows of `rhs`.
    pub fn mul_matrix<F: Fn(T, T, T) -> T>(&self, rhs: &Self, zero: T, fma: &F) -> (mat: Self)
        requires
            is_rect(self@),
            is_rect(rhs@),
            ncols(self@) == rhs@.len(),
            forall|a: T, b: T, c: T| #[trigger] fma.requires((a, b, c)),
        ensures
            is_product(*fma, zero, self@, rhs@, mat@),
            is_rect(mat@),
    {
        let _lhs_shape = self.shape();
        let _rhs_shape = rhs.shape();
        let mut rhs_aligned = rhs.duplicate();
        rhs_aligned.rot90(1);
        let ghost aligned = rhs_aligned@;
        assert(aligned == rotated_cw(rhs@));
        let n = self.matrix.len();
        let m = rhs_aligned.matrix.len();
        let mut matrix: Vec<Vec<T>> = Vec::new();
        let mut i: usize = 0;
        while i < n
            invariant
                n == self@.len(),
                m == aligned.len(),
                m == ncols(rhs@),
                aligned == rhs_aligned@,
                aligned == rotated_cw(rhs@),
                is_rect(self@),
                is_rect(rhs@),
                ncols(self@) == rhs@.len(),
                i <= n,
                matrix.len() == i,
                forall|a: T, b: T, c: T| #[trigger] fma.requires((a, b, c)),
                forall|k: int| 0 <= k < i ==> #[trigger] matrix@[k]@.len() == m,
                forall|k: int, j: int|
                    0 <= k < i && 0 <= j < m ==> dots_to(
                        *fma,
                        zero,
                        self@[k],
                        column(rhs@, j),
                        #[trigger] matrix@[k]@[j],
                    ),
            decreases n - i,
        {
            let row = &self.matrix[i];
            assert(self@[i as int].len() == self@[0].len());
            let mut new_row: Vec<T> = Vec::new();
            let mut j: usize = 0;
            while j < m
                invariant
                    m == aligned.len(),
                    m == ncols(rhs@),
                    aligned == rhs_aligned@,
                    aligned == rotated_cw(rhs@),
                    row@ == self@[i as int],
                    row@.len() == rhs@.len(),
                    j <= m,
                    new_row.len() == j,
                    forall|a: T, b: T, c: T| #[trigger] fma.requires((a, b, c)),
                    forall|t: int|
                        0 <= t < j ==> dots_to(
                            *fma,
                            zero,
                            row@,
                            column(rhs@, t),
                            #[trigger] new_row@[t],
                        ),
                decreases m - j,
            {
                let col = &rhs_aligned.matrix[j];
                proof {
                    assert(col@ == aligned[j as int]);
                    assert(col@ =~= reversed(column(rhs@, j as int)));
                    lemma_reversed_involution(column(rhs@, j as int));
                    assert(row@.subrange(0, col@.len() as int) =~= row@);
                }
                let v = Self::_dot(row, col, zero, fma);
                new_row.push(v);
                j = j + 1;
            }
            matrix.push(new_row);
            i = i + 1;
        }
        let mat = Matrix { matrix };
        assert forall|k: int| 0 <= k < n implies #[trigger] mat@[k].len() == m by {}
        mat
    }

    /// The sum over wrapped diagonals: for each starting column `c` (only
    /// the first one for a 2 by 2 matrix), the product of `diagonal(m, c)`
    /// is added and the product of `anti_diagonal(m, c)` subtracted, each
    /// product multiplied up from `one` with `mul_op`, the sum accumulated from
    /// `zero` with `add_op` and `sub_op`. For 2 by 2 and 3 by 3 matrices this is
    /// the determinant. The matrix must be square.
    pub fn det<M: Fn(T, T) -> T, A: Fn(T, T) -> T, S: Fn(T, T) -> T>(
        &self,
        zero: T,
        one: T,
        mul_op: M,
        add_op: A,
        sub_op: S,
    ) -> (out: T)
        requires
            is_rect(self@),
            self@.len() == ncols(self@),
            forall|a: T, b: T| #[trigger] mul_op.requires((a, b)),
            forall|a: T, b: T| #[trigger] add_op.requires((a, b)),
            forall|a: T, b: T| #[trigger] sub_op.requires((a, b)),
        ensures
            det_value(mul_op, add_op, sub_op, zero, one, self@, out),
    {
        let shape = self.shape();
        let width = shape[0];
        let unwrapped = self.m();
        let ghost mm = self@;
        let is_twotimestwo: usize = if width == 2 {
            1
        } else {
            0
        };
        let terms = width - is_twotimestwo;
        assert(terms == det_terms(mm.len()));
        let mut output = zero;
        let ghost mut outs: Seq<T> = seq![zero];
        let ghost mut mids: Seq<T> = seq![];
        let ghost mut poss: Seq<T> = seq![];
        let ghost mut negs: Seq<T> = seq![];
        let mut col: usize = 0;
        while col < terms
            invariant
                mm == self@,
                unwrapped == &self.matrix,
                is_rect(mm),
                width == mm.len(),
                width == ncols(mm),
                terms == det_terms(mm.len()),
                terms <= width,
                col <= terms,
                outs.len() == col + 1,
                mids.len() == col,
                poss.len() == col,
                negs.len() == col,
                outs[0] == zero,
                outs[col as int] == output,
                forall|a: T, b: T| #[trigger] mul_op.requires((a, b)),
                forall|a: T, b: T| #[trigger] add_op.requires((a, b)),
                forall|a: T, b: T| #[trigger] sub_op.requires((a, b)),
                forall|c: int|
                    #![trigger poss[c]]
                    0 <= c < col ==> {
                        &&& folds_to(mul_op, one, diagonal(mm, c), poss[c])
                        &&& folds_to(mul_op, one, anti_diagonal(mm, c), negs[c])
                        &&& add_op.ensures((outs[c], poss[c]), mids[c])
                        &&& sub_op.ensures((mids[c], negs[c]), outs[c + 1])
                    },
            decreases terms - col,
        {
            let ghost diag = diagonal(mm, col as int);
            let ghost anti = anti_diagonal(mm, col as int);
            let mut current = one;
            let mut current_opp = one;
            let ghost mut cur_accs: Seq<T> = seq![one];
            let ghost mut opp_accs: Seq<T> = seq![one];
            let mut row: usize = 0;
            while row < width
                invariant
                    mm == self@,
                    unwrapped == &self.matrix,
                    is_rect(mm),
                    width == mm.len(),
                    width == ncols(mm),
                    col < width,
                    diag == diagonal(mm, col as int),
                    anti == anti_diagonal(mm, col as int),
                    row <= width,
                    cur_accs.len() == row + 1,
                    opp_accs.len() == row + 1,
                    cur_accs[0] == one,
                    opp_accs[0] == one,
                    cur_accs[row as int] == current,
                    opp_accs[row as int] == current_opp,
                    forall|a: T, b: T| #[trigger] mul_op.requires((a, b)),
                    forall|k: int|
                        #![trigger diag[k]]
                        0 <= k < row ==> mul_op.ensures((cur_accs[k], diag[k]), cur_accs[k + 1]),
                    forall|k: int|
                        #![trigger anti[k]]
                        0 <= k < row ==> mul_op.ensures((opp_accs[k], anti[k]), opp_accs[k + 1]),
                decreases width - row,
            {
                let idx = if col >= width - row {
                    col - (width - row)
                } else {
                    col + row
                };
                assert(idx == (col + row) % (width as int)) by {
                    if col >= width - row {
                        assert((col + row) as int == (idx as int) + (width as int));
                        vstd::arithmetic::div_mod::lemma_mod_add_multiples_vanish(
                            idx as int,
                            width as int,
                        );
                        vstd::arithmetic::div_mod::lemma_small_mod(idx as nat, width as nat);
                    } else {
                        vstd::arithmetic::div_mod::lemma_small_mod(idx as nat, width as nat);
                    }
                }
                let opp_idx = width - 1 - idx;
                assert(mm[row as int].len() == mm[0].len());
                let x = unwrapped[row][idx];
                let y = unwrapped[row][opp_idx];
                assert(x == diag[row as int]);
                assert(y == anti[row as int]);
                let next = mul_op(current, x);
                let next_opp = mul_op(current_opp, y);
                proof {
                    cur_accs = cur_accs.push(next);
                    opp_accs = opp_accs.push(next_opp);
                }
                current = next;
                current_opp = next_opp;
                row = row + 1;
            }
            assert(fold_chain(mul_op, one, diag, cur_accs));
            assert(fold_chain(mul_op, one, anti, opp_accs));
            let mid = add_op(output, current);
            let next_output = sub_op(mid, current_opp);
            proof {
                let old_outs = outs;
                let old_mids = mids;
                let old_poss = poss;
                let old_negs = negs;
                outs = outs.push(next_output);
                mids = mids.push(mid);
                poss = poss.push(current);
                negs = negs.push(current_opp);
                assert forall|c: int|
                    #![trigger poss[c]]
                    0 <= c < col + 1 implies {
                        &&& folds_to(mul_op, one, diagonal(mm, c), poss[c])
                        &&& folds_to(mul_op, one, anti_diagonal(mm, c), negs[c])
                        &&& add_op.ensures((outs[c], poss[c]), mids[c])
                        &&& sub_op.ensures((mids[c], negs[c]), outs[c + 1])
                    } by {
                    if c == col {
                        assert(fold_chain(mul_op, one, diagonal(mm, c), cur_accs));
                        assert(cur_accs[cur_accs.len() - 1] == current);
                        assert(fold_chain(mul_op, one, anti_diagonal(mm, c), opp_accs));
                        assert(opp_accs[opp_accs.len() - 1] == current_opp);
                    } else {
                        assert(old_poss[c] == poss[c]);
                        assert(old_negs[c] == negs[c]);
                        assert(old_mids[c] == mids[c]);
                        assert(old_outs[c] == outs[c]);
                        assert(old_outs[c + 1] == outs[c + 1]);
                    }
                }
            }
            output = next_output;
            col = col + 1;
        }
        assert(col == terms);
        proof {
            lemma_det_chain_intro(
                mul_op,
                add_op,
                sub_op,
                zero,
                one,
                mm,
                outs,
                mids,
                poss,
                negs,
                col as nat,
            );
        }
        assert(det_chain(mul_op, add_op, sub_op, zero, one, mm, outs, mids, poss, negs));
        assert(outs[outs.len() - 1] == output);
        output
    }
}

/// The views of a list of matrices.
pub open spec fn views_of<T>(ms: Seq<Matrix<T>>) -> Seq<Seq<Seq<T>>> {
    ms.map_values(|m: Matrix<T>| m@)
}

/// The factors of `build_transformation` can be multiplied in turn onto the
/// `dim` by `dim` identity, from the last to the first: each is rectangular,
/// the last has `dim` rows, and each other one has as many rows as the one
/// after it has columns.
pub open spec fn chains_from<T>(dim: nat, ms: Seq<Seq<Seq<T>>>) -> bool {
    &&& forall|k: int| 0 <= k < ms.len() ==> is_rect(#[trigger] ms[k])
    &&& ms.len() > 0 ==> ms[ms.len() - 1].len() == dim
    &&& forall|i: int, j: int|
        #![trigger ms[i], ms[j]]
        0 <= i && j == i + 1 && j < ms.len() ==> ms[i].len() == ncols(ms[j])
}

impl<T: Copy> Matrix<T> {
    /// The 2 by 2 scaling by `x` along the first axis and `y` along the
    /// second: `[[x, zero], [zero, y]]`.
    pub fn dil_mat2d(x: T, y: T, zero: T) -> (mat: Self)
        ensures
            mat@ == seq![seq![x, zero], seq![zero, y]],
            is_rect(mat@),
    {
        let mat = Matrix::new(vec![vec![x, zero], vec![zero, y]]);
        assert(mat@ =~= seq![seq![x, zero], seq![zero, y]]);
        mat
    }

    /// The 2 by 2 shear by `x` and `y`: `[[one, x], [y, one]]`.
    pub fn shear_mat2d(x: T, y: T, one: T) -> (mat: Self)
        ensures
            mat@ == seq![seq![one, x], seq![y, one]],
            is_rect(mat@),
    {
        let mat = Matrix::new(vec![vec![one, x], vec![y, one]]);
        assert(mat@ =~= seq![seq![one, x], seq![y, one]]);
        mat
    }

    /// Multiplies the `dim` by `dim` identity on the right by the matrices
    /// from the last to the first, so that the first of them is applied last
    /// when the result multiplies a column vector.
    pub fn build_transformation<F: Fn(T, T, T) -> T>(
        dim: usize,
        matrices: Vec<Matrix<T>>,
        zero: T,
        one: T,
        fma: F,
    ) -> (mat: Self)
        requires
            chains_from(dim as nat, views_of(matrices@)),
            forall|a: T, b: T, c: T| #[trigger] fma.requires((a, b, c)),
        ensures
            exists|steps: Seq<Seq<Seq<T>>>|
                #[trigger] product_chain(
                    fma,
                    zero,
                    identity_rows(dim as nat, zero, one),
                    views_of(matrices@),
                    steps,
                ) && steps[steps.len() - 1] == mat@,
    {
        let ghost factors = views_of(matrices@);
        let ghost start = identity_rows(dim as nat, zero, one);
        let mut final_matrix = Matrix::identity(dim, zero, one);
        let len = matrices.len();
        let ghost mut steps: Seq<Seq<Seq<T>>> = seq![final_matrix@];
        let mut k: usize = 0;
        while k < len
            invariant
                len == matrices@.len(),
                factors == views_of(matrices@),
                start == identity_rows(dim as nat, zero, one),
                chains_from(dim as nat, factors),
                k <= len,
                steps.len() == k + 1,
                steps[0] == start,
                steps[k as int] == final_matrix@,
                k < len ==> is_rect(final_matrix@),
                k < len ==> ncols(final_matrix@) == factors[len - 1 - k].len(),
                forall|a: T, b: T, c: T| #[trigger] fma.requires((a, b, c)),
                forall|t: int|
                    #![trigger steps[t]]
                    0 <= t < k ==> is_product(fma, zero, steps[t], factors[len - 1 - t], steps[t + 1]),
            decreases len - k,
        {
            let m = &matrices[len - 1 - k];
            assert(m@ == factors[len - 1 - k]);
            assert(is_rect(factors[len - 1 - k]));
            let next = final_matrix.mul_matrix(m, zero, &fma);
            assert(is_product(fma, zero, steps[k as int], factors[len - 1 - k], next@));
            proof {
                let old_steps = steps;
                steps = steps.push(next@);
                assert forall|t: int|
                    #![trigger steps[t]]
                    0 <= t < k + 1 implies is_product(
                        fma,
                        zero,
                        steps[t],
                        factors[len - 1 - t],
                        steps[t + 1],
                    ) by {
                    if t < k {
                        assert(steps[t] == old_steps[t]);
                        assert(steps[t + 1] == old_steps[t + 1]);
                    }
                }
                if k + 1 < len {
                    let i = len - 1 - (k + 1);
                    let j = len - 1 - k;
                    assert(factors[i].len() == ncols(factors[j]));
                }
            }
            final_matrix = next;
            k = k + 1;
        }
        assert(product_chain(fma, zero, start, factors, steps));
        final_matrix
    }
}

/// What a printout keeps of a line of more than six items: the first three
/// and the last three; a shorter line is kept whole.
pub open spec fn kept<A>(s: Seq<A>) -> Seq<A> {
    if s.len() > 6 {
        s.subrange(0, 3) + s.subrange(s.len() - 3, s.len() as int)
    } else {
        s
    }
}

/// The largest of the first lengths of the rows, and the largest length of
/// all, for rows `0..n` (zero when there are none).
pub open spec fn widest_first(lengths: Seq<Seq<usize>>, n: int) -> int
    decreases n,
{
    if n <= 0 {
        0
    } else {
        let w = widest_first(lengths, n - 1);
        if lengths[n - 1][0] > w {
            lengths[n - 1][0] as int
        } else {
            w
        }
    }
}

/// The largest length among the first `k` cells of a row.
pub open spec fn widest_in_row(row: Seq<usize>, k: int) -> int
    decreases k,
{
    if k <= 0 {
        0
    } else {
        let w = widest_in_row(row, k - 1);
        if row[k - 1] > w {
            row[k - 1] as int
        } else {
            w
        }
    }
}

/// The largest length among all cells of rows `0..n`.
pub open spec fn widest_cell(lengths: Seq<Seq<usize>>, n: int) -> int
    decreases n,
{
    if n <= 0 {
        0
    } else {
        let w = widest_cell(lengths, n - 1);
        let r = widest_in_row(lengths[n - 1], lengths[n - 1].len() as int);
        if r > w {
            r
        } else {
            w
        }
    }
}

/// No first cell among rows `0..n` is longer than `widest_first`.
pub proof fn lemma_widest_first_bound(lengths: Seq<Seq<usize>>, n: int, y: int)
    requires
        0 <= y < n,
    ensures
        widest_first(lengths, n) >= lengths[y][0],
    decreases n,
{
    if y < n - 1 {
        lemma_widest_first_bound(lengths, n - 1, y);
    }
}

/// `widest_first` is the length of some first cell (or zero).
pub proof fn lemma_widest_first_attained(lengths: Seq<Seq<usize>>, n: int)
    ensures
        widest_first(lengths, n) == 0 || exists|y: int|
            0 <= y < n && widest_first(lengths, n) == #[trigger] lengths[y][0],
    decreases n,
{
    if n > 0 {
        lemma_widest_first_attained(lengths, n - 1);
        if lengths[n - 1][0] <= widest_first(lengths, n - 1) && widest_first(lengths, n - 1) != 0 {
            let y = choose|y: int|
                0 <= y < n - 1 && widest_first(lengths, n - 1) == #[trigger] lengths[y][0];
            assert(widest_first(lengths, n) == lengths[y][0]);
        } else if lengths[n - 1][0] > widest_first(lengths, n - 1) {
            assert(widest_first(lengths, n) == lengths[n - 1][0]);
        }
    }
}

/// `widest_in_row` is the length of some cell among the first `k` (or zero).
pub proof fn lemma_widest_in_row_attained(row: Seq<usize>, k: int)
    ensures
        widest_in_row(row, k) == 0 || exists|x: int|
            0 <= x < k && widest_in_row(row, k) == #[trigger] row[x],
    decreases k,
{
    if k > 0 {
        lemma_widest_in_row_attained(row, k - 1);
        if row[k - 1] <= widest_in_row(row, k - 1) && widest_in_row(row, k - 1) != 0 {
            let x = choose|x: int| 0 <= x < k - 1 && widest_in_row(row, k - 1) == #[trigger] row[x];
            assert(widest_in_row(row, k) == row[x]);
        } else if row[k - 1] > widest_in_row(row, k - 1) {
            assert(widest_in_row(row, k) == row[k - 1]);
        }
    }
}

/// `widest_cell` is the length of some cell of rows `0..n` (or zero).
pub proof fn lemma_widest_cell_attained(lengths: Seq<Seq<usize>>, n: int)
    ensures
        widest_cell(lengths, n) == 0 || exists|y: int, x: int|
            0 <= y < n && 0 <= x < lengths[y].len() && widest_cell(lengths, n)
                == #[trigger] lengths[y][x],
    decreases n,
{
    if n > 0 {
        lemma_widest_cell_attained(lengths, n - 1);
        let w = widest_cell(lengths, n - 1);
        let r = widest_in_row(lengths[n - 1], lengths[n - 1].len() as int);
        lemma_widest_in_row_attained(lengths[n - 1], lengths[n - 1].len() as int);
        if r > w {
            if r != 0 {
                let x = choose|x: int|
                    0 <= x < lengths[n - 1].len() && r == #[trigger] lengths[n - 1][x];
                assert(widest_cell(lengths, n) == lengths[n - 1][x]);
            }
        } else if w != 0 {
            let (y, x) = choose|y: int, x: int|
                0 <= y < n - 1 && 0 <= x < lengths[y].len() && w == #[trigger] lengths[y][x];
            assert(widest_cell(lengths, n) == lengths[y][x]);
        }
    }
}

/// No cell among the first `k` of a row is longer than `widest_in_row`.
pub proof fn lemma_widest_in_row_bound(row: Seq<usize>, k: int, x: int)
    requires
        0 <= x < k,
    ensures
        widest_in_row(row, k) >= row[x],
    decreases k,
{
    if x < k - 1 {
        lemma_widest_in_row_bound(row, k - 1, x);
    }
}

/// No cell of rows `0..n` is longer than `widest_cell`.
pub proof fn lemma_widest_cell_bound(lengths: Seq<Seq<usize>>, n: int, y: int, x: int)
    requires
        0 <= y < n,
        0 <= x < lengths[y].len(),
    ensures
        widest_cell(lengths, n) >= lengths[y][x],
    decreases n,
{
    if y < n - 1 {
        lemma_widest_cell_bound(lengths, n - 1, y, x);
    } else {
        lemma_widest_in_row_bound(lengths[y], lengths[y].len() as int, x);
    }
}

impl<T: Copy> Matrix<T> {
    /// The part of the matrix that a printout shows: with more than six rows
    /// only the first three and the last three, and likewise for columns.
    pub fn print_summary(&self) -> (mat: Self)
        requires
            is_rect(self@),
        ensures
            mat@ == kept(self@).map_values(|r: Seq<T>| kept(r)),
    {
        let shape = self.shape();
        let nrows = shape[0];
        let width = shape[1];
        let mut rows: Vec<usize> = Vec::new();
        let mut i: usize = 0;
        while i < nrows
            invariant
                nrows == self@.len(),
                i <= nrows,
                rows@ == Seq::new(
                    rows.len() as nat,
                    |k: int|
                        if nrows > 6 && k >= 3 {
                            (nrows - 6 + k) as usize
                        } else {
                            k as usize
                        },
                ),
                rows.len() == if nrows > 6 && i > 3 {
                    if i >= nrows - 3 {
                        i - (nrows - 6)
                    } else {
                        3
                    }
                } else {
                    i as int
                },
            decreases nrows - i,
        {
            if nrows <= 6 || i < 3 || i >= nrows - 3 {
                rows.push(i);
            }
            i = i + 1;
            assert(rows@ =~= Seq::new(
                rows.len() as nat,
                |k: int|
                    if nrows > 6 && k >= 3 {
                        (nrows - 6 + k) as usize
                    } else {
                        k as usize
                    },
            ));
        }
        let mut matrix: Vec<Vec<T>> = Vec::new();
        let nkept = rows.len();
        let ghost target = kept(self@).map_values(|r: Seq<T>| kept(r));
        let mut r: usize = 0;
        while r < nkept
            invariant
                nkept == rows.len(),
                nrows == self@.len(),
                width == ncols(self@),
                is_rect(self@),
                target == kept(self@).map_values(|r: Seq<T>| kept(r)),
                target.len() == nkept,
                rows@ == Seq::new(
                    nkept as nat,
                    |k: int|
                        if nrows > 6 && k >= 3 {
                            (nrows - 6 + k) as usize
                        } else {
                            k as usize
                        },
                ),
                r <= nkept,
                matrix.len() == r,
                forall|k: int| 0 <= k < r ==> #[trigger] matrix@[k]@ == target[k],
            decreases nkept - r,
        {
            let src = &self.matrix[rows[r]];
            assert(kept(self@)[r as int] == self@[rows@[r as int] as int]);
            assert(src@.len() == width) by {
                assert(self@[rows@[r as int] as int].len() == self@[0].len());
            }
            let mut row: Vec<T> = Vec::new();
            let mut j: usize = 0;
            while j < width
                invariant
                    width == src@.len(),
                    j <= width,
                    row@ == Seq::new(
                        row.len() as nat,
                        |k: int|
                            if width > 6 && k >= 3 {
                                src@[width - 6 + k]
                            } else {
                                src@[k]
                            },
                    ),
                    row.len() == if width > 6 && j > 3 {
                        if j >= width - 3 {
                            j - (width - 6)
                        } else {
                            3
                        }
                    } else {
                        j as int
                    },
                decreases width - j,
            {
                if width <= 6 || j < 3 || j >= width - 3 {
                    row.push(src[j]);
                }
                j = j + 1;
                assert(row@ =~= Seq::new(
                    row.len() as nat,
                    |k: int|
                        if width > 6 && k >= 3 {
                            src@[width - 6 + k]
                        } else {
                            src@[k]
                        },
                ));
            }
            assert(row@ =~= kept(src@));
            matrix.push(row);
            r = r + 1;
        }
        let mat = Matrix { matrix };
        assert(mat@ =~= target);
        mat
    }
}

/// The widths that a printout pads its cells to, from the lengths of the
/// printed cells: the widest first cell of a row, and the widest cell of
/// all. Every row must have a first cell.
pub fn print_widths(lengths: &Vec<Vec<usize>>) -> (w: (usize, usize))
    requires
        forall|i: int| 0 <= i < lengths@.len() ==> #[trigger] lengths@[i]@.len() > 0,
    ensures
        w.0 == widest_first(rows_of(lengths@), lengths@.len() as int),
        w.1 == widest_cell(rows_of(lengths@), lengths@.len() as int),
{
    let ghost ls = rows_of(lengths@);
    let n = lengths.len();
    let mut front_req_len: usize = 0;
    let mut req_len: usize = 0;
    let mut i: usize = 0;
    while i < n
        invariant
            n == lengths@.len(),
            ls == rows_of(lengths@),
            forall|k: int| 0 <= k < n ==> #[trigger] lengths@[k]@.len() > 0,
            i <= n,
            front_req_len == widest_first(ls, i as int),
            req_len == widest_cell(ls, i as int),
        decreases n - i,
    {
        let row = &lengths[i];
        assert(ls[i as int] == row@);
        let first_length = row[0];
        if first_length > front_req_len {
            front_req_len = first_length;
        }
        let mut row_len: usize = 0;
        let m = row.len();
        let mut j: usize = 0;
        while j < m
            invariant
                m == row@.len(),
                j <= m,
                row_len == widest_in_row(row@, j as int),
            decreases m - j,
        {
            if row[j] > row_len {
                row_len = row[j];
            }
            j = j + 1;
        }
        if row_len > req_len {
            req_len = row_len;
        }
        i = i + 1;
    }
    (front_req_len, req_len)
}

} // verus!
