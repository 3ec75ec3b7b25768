//! The mathematical model of a matrix: a sequence of rows, each a sequence
//! of elements, with the shape predicates, the rearrangements (flip and
//! quarter turns) and the laws that relate them.
use vstd::prelude::*;

verus! {

/// Every row has the length of the first one, and there is at least one row
/// and one column.
pub open spec fn is_rect<T>(m: Seq<Seq<T>>) -> bool {
    &&& m.len() > 0
    &&& m[0].len() > 0
    &&& forall|i: int| 0 <= i < m.len() ==> #[trigger] m[i].len() == m[0].len()
}

/// Number of columns: the length of the first row (zero without rows).
pub open spec fn ncols<T>(m: Seq<Seq<T>>) -> nat {
    if m.len() == 0 {
        0
    } else {
        m[0].len()
    }
}

/// Rows in reverse order, each row reversed (a half turn).
pub open spec fn flipped<T>(m: Seq<Seq<T>>) -> Seq<Seq<T>> {
    Seq::new(
        m.len(),
        |i: int|
            Seq::new(
                m[m.len() - 1 - i].len(),
                |j: int| m[m.len() - 1 - i][m[m.len() - 1 - i].len() - 1 - j],
            ),
    )
}

/// A quarter turn clockwise: row `i` of the result is column `i` read from
/// the bottom up.
pub open spec fn rotated_cw<T>(m: Seq<Seq<T>>) -> Seq<Seq<T>> {
    Seq::new(ncols(m), |i: int| Seq::new(m.len(), |j: int| m[m.len() - 1 - j][i]))
}

/// A quarter turn counter-clockwise: row `i` of the result is the column
/// `ncols - 1 - i`, read from the top down.
pub open spec fn rotated_ccw<T>(m: Seq<Seq<T>>) -> Seq<Seq<T>> {
    Seq::new(ncols(m), |i: int| Seq::new(m.len(), |j: int| m[j][ncols(m) - 1 - i]))
}

/// `turns` quarter turns clockwise.
pub open spec fn rotated<T>(m: Seq<Seq<T>>, turns: int) -> Seq<Seq<T>> {
    let k = turns % 4;
    if k == 1 {
        rotated_cw(m)
    } else if k == 2 {
        flipped(m)
    } else if k == 3 {
        rotated_ccw(m)
    } else {
        m
    }
}

/// The `n` by `n` identity: `one` on the diagonal, `zero` elsewhere.
pub open spec fn identity_rows<T>(n: nat, zero: T, one: T) -> Seq<Seq<T>> {
    Seq::new(
        n,
        |i: int|
            Seq::new(
                n,
                |j: int|
                    if i == j {
                        one
                    } else {
                        zero
                    },
            ),
    )
}

/// Column `j` of `m`, top to bottom.
pub open spec fn column<T>(m: Seq<Seq<T>>, j: int) -> Seq<T> {
    Seq::new(m.len(), |k: int| m[k][j])
}

/// `s` in reverse order.
pub open spec fn reversed<T>(s: Seq<T>) -> Seq<T> {
    Seq::new(s.len(), |k: int| s[s.len() - 1 - k])
}

/// Reversing twice gives the sequence back.
pub proof fn lemma_reversed_involution<T>(s: Seq<T>)
    ensures
        reversed(reversed(s)) == s,
{
    assert(reversed(reversed(s)) =~= s);
}

/// `accs` are the successive values of an accumulator that starts at `init`
/// and is replaced by `f(acc, left[k], right[k])` for `k` counting up.
pub open spec fn dot_chain<T, F: Fn(T, T, T) -> T>(
    f: F,
    init: T,
    left: Seq<T>,
    right: Seq<T>,
    accs: Seq<T>,
) -> bool {
    &&& accs.len() == left.len() + 1
    &&& accs[0] == init
    &&& forall|k: int|
        #![trigger left[k]]
        0 <= k < left.len() ==> f.ensures((accs[k], left[k], right[k]), accs[k + 1])
}

/// `out` is a value that the accumulation of `f` over the pairs
/// `(left[k], right[k])`, in order from `init`, can end with.
pub open spec fn dots_to<T, F: Fn(T, T, T) -> T>(
    f: F,
    init: T,
    left: Seq<T>,
    right: Seq<T>,
    out: T,
) -> bool {
    &&& left.len() == right.len()
    &&& exists|accs: Seq<T>|
        #[trigger] dot_chain(f, init, left, right, accs) && accs[accs.len() - 1] == out
}

/// `c` is a product of `a` and `b`: it has a row for each row of `a` and a
/// column for each column of `b`, and entry `(i, j)` accumulates `f` over
/// row `i` of `a` paired with column `j` of `b`, from `zero`.
pub open spec fn is_product<T, F: Fn(T, T, T) -> T>(
    f: F,
    zero: T,
    a: Seq<Seq<T>>,
    b: Seq<Seq<T>>,
    c: Seq<Seq<T>>,
) -> bool {
    &&& c.len() == a.len()
    &&& forall|i: int| 0 <= i < c.len() ==> #[trigger] c[i].len() == ncols(b)
    &&& forall|i: int, j: int|
        0 <= i < a.len() && 0 <= j < ncols(b) ==> dots_to(
            f,
            zero,
            a[i],
            column(b, j),
            #[trigger] c[i][j],
        )
}

/// `steps` multiplies `start` on the right by the `factors` taken from the
/// last to the first: `steps[k + 1]` is a product of `steps[k]` and
/// `factors[len - 1 - k]`.
pub open spec fn product_chain<T, F: Fn(T, T, T) -> T>(
    f: F,
    zero: T,
    start: Seq<Seq<T>>,
    factors: Seq<Seq<Seq<T>>>,
    steps: Seq<Seq<Seq<T>>>,
) -> bool {
    &&& steps.len() == factors.len() + 1
    &&& steps[0] == start
    &&& forall|k: int|
        #![trigger steps[k]]
        0 <= k < factors.len() ==> is_product(
            f,
            zero,
            steps[k],
            factors[factors.len() - 1 - k],
            steps[k + 1],
        )
}

/// `accs` are the successive values of an accumulator that starts at `init`
/// and is replaced by `f(acc, items[k])` for `k` counting up.
pub open spec fn fold_chain<T, F: Fn(T, T) -> T>(
    f: F,
    init: T,
    items: Seq<T>,
    accs: Seq<T>,
) -> bool {
    &&& accs.len() == items.len() + 1
    &&& accs[0] == init
    &&& forall|k: int|
        #![trigger items[k]]
        0 <= k < items.len() ==> f.ensures((accs[k], items[k]), accs[k + 1])
}

/// `out` is a value that the accumulation of `f` over `items`, in order from
/// `init`, can end with.
pub open spec fn folds_to<T, F: Fn(T, T) -> T>(f: F, init: T, items: Seq<T>, out: T) -> bool {
    exists|accs: Seq<T>| #[trigger] fold_chain(f, init, items, accs) && accs[accs.len() - 1] == out
}

/// The wrapped diagonal that starts at column `c` of the first row: row `r`
/// contributes the element in column `(c + r) mod n`.
pub open spec fn diagonal<T>(m: Seq<Seq<T>>, c: int) -> Seq<T> {
    Seq::new(m.len(), |r: int| m[r][(c + r) % (m.len() as int)])
}

/// The mirror image of `diagonal(m, c)`: row `r` contributes the element in
/// column `n - 1 - ((c + r) mod n)`.
pub open spec fn anti_diagonal<T>(m: Seq<Seq<T>>, c: int) -> Seq<T> {
    Seq::new(m.len(), |r: int| m[r][(m.len() - 1) - (c + r) % (m.len() as int)])
}

/// How many diagonal pairs the determinant of an `n` by `n` matrix sums: one
/// for a 2 by 2 matrix (whose two wrapped diagonals are the same pair
/// twice), `n` otherwise.
pub open spec fn det_terms(n: nat) -> nat {
    if n == 2 {
        1
    } else {
        n
    }
}

/// The successive values of the determinant's accumulation: `outs[c + 1]` is
/// `(outs[c] + pos[c]) - neg[c]`, where `pos[c]` is the product of
/// `diagonal(m, c)` and `neg[c]` that of `anti_diagonal(m, c)`, each
/// multiplied up from `one`.
pub open spec fn det_chain<T, M: Fn(T, T) -> T, A: Fn(T, T) -> T, S: Fn(T, T) -> T>(
    mul_op: M,
    add_op: A,
    sub_op: S,
    zero: T,
    one: T,
    m: Seq<Seq<T>>,
    outs: Seq<T>,
    mids: Seq<T>,
    pos: Seq<T>,
    neg: Seq<T>,
) -> bool {
    let n = det_terms(m.len());
    &&& outs.len() == n + 1
    &&& mids.len() == n
    &&& pos.len() == n
    &&& neg.len() == n
    &&& outs[0] == zero
    &&& forall|c: int|
        #![trigger pos[c]]
        0 <= c < n ==> {
            &&& folds_to(mul_op, one, diagonal(m, c), pos[c])
            &&& folds_to(mul_op, one, anti_diagonal(m, c), neg[c])
            &&& add_op.ensures((outs[c], pos[c]), mids[c])
            &&& sub_op.ensures((mids[c], neg[c]), outs[c + 1])
        }
}

/// Collects the facts that make up `det_chain`.
pub proof fn lemma_det_chain_intro<T, M: Fn(T, T) -> T, A: Fn(T, T) -> T, S: Fn(T, T) -> T>(
    mul_op: M,
    add_op: A,
    sub_op: S,
    zero: T,
    one: T,
    m: Seq<Seq<T>>,
    outs: Seq<T>,
    mids: Seq<T>,
    pos: Seq<T>,
    neg: Seq<T>,
    n: nat,
)
    requires
        n == det_terms(m.len()),
        outs.len() == n + 1,
        mids.len() == n,
        pos.len() == n,
        neg.len() == n,
        outs[0] == zero,
        forall|c: int|
            #![trigger pos[c]]
            0 <= c < n ==> {
                &&& folds_to(mul_op, one, diagonal(m, c), pos[c])
                &&& folds_to(mul_op, one, anti_diagonal(m, c), neg[c])
                &&& add_op.ensures((outs[c], pos[c]), mids[c])
                &&& sub_op.ensures((mids[c], neg[c]), outs[c + 1])
            },
    ensures
        det_chain(mul_op, add_op, sub_op, zero, one, m, outs, mids, pos, neg),
{
}

/// `out` is a value that the determinant's accumulation over `m` can end
/// with.
pub open spec fn det_value<T, M: Fn(T, T) -> T, A: Fn(T, T) -> T, S: Fn(T, T) -> T>(
    mul_op: M,
    add_op: A,
    sub_op: S,
    zero: T,
    one: T,
    m: Seq<Seq<T>>,
    out: T,
) -> bool {
    exists|outs: Seq<T>, mids: Seq<T>, pos: Seq<T>, neg: Seq<T>|
        #[trigger] det_chain(mul_op, add_op, sub_op, zero, one, m, outs, mids, pos, neg) && outs[outs.len()
            - 1] == out
}

/// Flipping twice gives the matrix back, whatever the lengths of its rows.
pub proof fn lemma_flip_involution<T>(m: Seq<Seq<T>>)
    ensures
        flipped(flipped(m)) == m,
{
    let f = flipped(m);
    assert forall|i: int| 0 <= i < m.len() implies #[trigger] flipped(f)[i] == m[i] by {
        assert(flipped(f)[i] =~= m[i]);
    }
    assert(flipped(f) =~= m);
}

/// A flip keeps a rectangular matrix rectangular, with the same shape.
pub proof fn lemma_flip_rect<T>(m: Seq<Seq<T>>)
    requires
        is_rect(m),
    ensures
        is_rect(flipped(m)),
        flipped(m).len() == m.len(),
        ncols(flipped(m)) == ncols(m),
{
    let f = flipped(m);
    assert(f[0].len() == m[m.len() - 1].len());
    assert forall|i: int| 0 <= i < f.len() implies #[trigger] f[i].len() == f[0].len() by {
        assert(f[i].len() == m[m.len() - 1 - i].len());
    }
}

/// A quarter turn of a rectangular matrix is rectangular, with rows and
/// columns swapped.
pub proof fn lemma_rotated_cw_rect<T>(m: Seq<Seq<T>>)
    requires
        is_rect(m),
    ensures
        is_rect(rotated_cw(m)),
        rotated_cw(m).len() == ncols(m),
        ncols(rotated_cw(m)) == m.len(),
{
}

/// A counter-clockwise quarter turn of a rectangular matrix is rectangular,
/// with rows and columns swapped.
pub proof fn lemma_rotated_ccw_rect<T>(m: Seq<Seq<T>>)
    requires
        is_rect(m),
    ensures
        is_rect(rotated_ccw(m)),
        rotated_ccw(m).len() == ncols(m),
        ncols(rotated_ccw(m)) == m.len(),
{
}

/// Any number of quarter turns keeps a matrix rectangular; an odd number
/// swaps its rows and columns, an even number keeps its shape.
pub proof fn lemma_rotated_shape<T>(m: Seq<Seq<T>>, turns: int)
    requires
        is_rect(m),
    ensures
        is_rect(rotated(m, turns)),
        turns % 2 == 0 ==> rotated(m, turns).len() == m.len() && ncols(rotated(m, turns))
            == ncols(m),
        turns % 2 != 0 ==> rotated(m, turns).len() == ncols(m) && ncols(rotated(m, turns))
            == m.len(),
{
    lemma_flip_rect(m);
    lemma_rotated_cw_rect(m);
    lemma_rotated_ccw_rect(m);
    assert(turns % 4 == 1 || turns % 4 == 3 <==> turns % 2 != 0);
}

proof fn lemma_cw_of_cw<T>(m: Seq<Seq<T>>)
    requires
        is_rect(m),
    ensures
        rotated_cw(rotated_cw(m)) == flipped(m),
{
    let a = rotated_cw(rotated_cw(m));
    let b = flipped(m);
    assert forall|i: int| 0 <= i < m.len() implies #[trigger] a[i] == b[i] by {
        assert(m[m.len() - 1 - i].len() == m[0].len());
        assert(a[i] =~= b[i]);
    }
    assert(a =~= b);
}

proof fn lemma_cw_of_flip<T>(m: Seq<Seq<T>>)
    requires
        is_rect(m),
    ensures
        rotated_cw(flipped(m)) == rotated_ccw(m),
{
    lemma_flip_rect(m);
    let a = rotated_cw(flipped(m));
    let b = rotated_ccw(m);
    assert forall|i: int| 0 <= i < ncols(m) implies #[trigger] a[i] == b[i] by {
        assert forall|j: int| 0 <= j < m.len() implies #[trigger] a[i][j] == b[i][j] by {
            assert(m[j].len() == m[0].len());
        }
        assert(a[i] =~= b[i]);
    }
    assert(a =~= b);
}

proof fn lemma_cw_of_ccw<T>(m: Seq<Seq<T>>)
    requires
        is_rect(m),
    ensures
        rotated_cw(rotated_ccw(m)) == m,
{
    lemma_rotated_ccw_rect(m);
    let a = rotated_cw(rotated_ccw(m));
    assert forall|i: int| 0 <= i < m.len() implies #[trigger] a[i] == m[i] by {
        assert(m[i].len() == m[0].len());
        assert(a[i] =~= m[i]);
    }
    assert(a =~= m);
}

/// One more quarter turn after `a` of them is `a + 1` quarter turns.
proof fn lemma_rotated_step<T>(m: Seq<Seq<T>>, a: int)
    requires
        is_rect(m),
    ensures
        rotated_cw(rotated(m, a)) == rotated(m, a + 1),
{
    assert((a + 1) % 4 == (a % 4 + 1) % 4);
    if a % 4 == 0 {
    } else if a % 4 == 1 {
        lemma_cw_of_cw(m);
    } else if a % 4 == 2 {
        lemma_cw_of_flip(m);
    } else {
        lemma_cw_of_ccw(m);
    }
}

/// Turning a rectangular matrix `a` quarter turns and then `b` more is
/// turning it `a + b` quarter turns.
pub proof fn lemma_rotated_compose<T>(m: Seq<Seq<T>>, a: int, b: int)
    requires
        is_rect(m),
        a >= 0,
        b >= 0,
    ensures
        rotated(rotated(m, a), b) == rotated(m, a + b),
    decreases b,
{
    if b == 0 {
    } else {
        lemma_rotated_compose(m, a, b - 1);
        lemma_rotated_shape(m, a);
        lemma_rotated_step(rotated(m, a), b - 1);
        lemma_rotated_step(m, a + b - 1);
    }
}

/// Four quarter turns give a rectangular matrix back.
pub proof fn lemma_four_turns<T>(m: Seq<Seq<T>>)
    requires
        is_rect(m),
    ensures
        rotated(rotated(rotated(rotated(m, 1), 1), 1), 1) == m,
{
    lemma_rotated_compose(m, 1, 1);
    lemma_rotated_shape(m, 2);
    lemma_rotated_compose(m, 2, 1);
    lemma_rotated_shape(m, 3);
    lemma_rotated_compose(m, 3, 1);
}

/// The laws of an accumulation step `fma(acc, x, y)` (meant as
/// `acc + x * y`) under which the identity is neutral: a `zero` factor on
/// either side leaves the accumulator as it is, and a `one` factor on
/// either side, from `zero`, gives the other factor.
pub open spec fn unit_laws<T, F: Fn(T, T, T) -> T>(f: F, zero: T, one: T) -> bool {
    &&& forall|acc: T, x: T, r: T| #[trigger] f.ensures((acc, zero, x), r) ==> r == acc
    &&& forall|acc: T, x: T, r: T| #[trigger] f.ensures((acc, x, zero), r) ==> r == acc
    &&& forall|x: T, r: T| #[trigger] f.ensures((zero, one, x), r) ==> r == x
    &&& forall|x: T, r: T| #[trigger] f.ensures((zero, x, one), r) ==> r == x
}

/// `one` at position `p` and `zero` elsewhere.
pub open spec fn one_hot<T>(n: nat, p: int, zero: T, one: T) -> Seq<T> {
    Seq::new(
        n,
        |k: int|
            if k == p {
                one
            } else {
                zero
            },
    )
}

/// Accumulating a one-hot row against `right` gives `right[p]`.
proof fn lemma_one_hot_left<T, F: Fn(T, T, T) -> T>(
    f: F,
    zero: T,
    one: T,
    right: Seq<T>,
    p: int,
    out: T,
)
    requires
        unit_laws(f, zero, one),
        0 <= p < right.len(),
        dots_to(f, zero, one_hot(right.len(), p, zero, one), right, out),
    ensures
        out == right[p],
{
    let left = one_hot(right.len(), p, zero, one);
    let accs = choose|accs: Seq<T>|
        #[trigger] dot_chain(f, zero, left, right, accs) && accs[accs.len() - 1] == out;
    assert forall|k: int| 0 <= k <= right.len() implies #[trigger] accs[k] == if k <= p {
        zero
    } else {
        right[p]
    } by {
        lemma_one_hot_left_prefix(f, zero, one, left, right, p, accs, k);
    }
    assert(accs[right.len() as int] == right[p]);
}

proof fn lemma_one_hot_left_prefix<T, F: Fn(T, T, T) -> T>(
    f: F,
    zero: T,
    one: T,
    left: Seq<T>,
    right: Seq<T>,
    p: int,
    accs: Seq<T>,
    k: int,
)
    requires
        unit_laws(f, zero, one),
        0 <= p < right.len(),
        left == one_hot(right.len(), p, zero, one),
        dot_chain(f, zero, left, right, accs),
        0 <= k <= right.len(),
    ensures
        accs[k] == if k <= p {
            zero
        } else {
            right[p]
        },
    decreases k,
{
    if k > 0 {
        lemma_one_hot_left_prefix(f, zero, one, left, right, p, accs, k - 1);
        assert(f.ensures((accs[k - 1], left[k - 1], right[k - 1]), accs[k]));
    }
}

/// Accumulating `left` against a one-hot column gives `left[p]`.
proof fn lemma_one_hot_right<T, F: Fn(T, T, T) -> T>(
    f: F,
    zero: T,
    one: T,
    left: Seq<T>,
    p: int,
    out: T,
)
    requires
        unit_laws(f, zero, one),
        0 <= p < left.len(),
        dots_to(f, zero, left, one_hot(left.len(), p, zero, one), out),
    ensures
        out == left[p],
{
    let right = one_hot(left.len(), p, zero, one);
    let accs = choose|accs: Seq<T>|
        #[trigger] dot_chain(f, zero, left, right, accs) && accs[accs.len() - 1] == out;
    assert forall|k: int| 0 <= k <= left.len() implies #[trigger] accs[k] == if k <= p {
        zero
    } else {
        left[p]
    } by {
        lemma_one_hot_right_prefix(f, zero, one, left, right, p, accs, k);
    }
    assert(accs[left.len() as int] == left[p]);
}

proof fn lemma_one_hot_right_prefix<T, F: Fn(T, T, T) -> T>(
    f: F,
    zero: T,
    one: T,
    left: Seq<T>,
    right: Seq<T>,
    p: int,
    accs: Seq<T>,
    k: int,
)
    requires
        unit_laws(f, zero, one),
        0 <= p < left.len(),
        right == one_hot(left.len(), p, zero, one),
        dot_chain(f, zero, left, right, accs),
        0 <= k <= left.len(),
    ensures
        accs[k] == if k <= p {
            zero
        } else {
            left[p]
        },
    decreases k,
{
    if k > 0 {
        lemma_one_hot_right_prefix(f, zero, one, left, right, p, accs, k - 1);
        assert(f.ensures((accs[k - 1], left[k - 1], right[k - 1]), accs[k]));
    }
}

/// The identity on the left is neutral: under the unit laws of the
/// accumulation step, a product of the identity and `a` is `a`.
pub proof fn lemma_identity_left<T, F: Fn(T, T, T) -> T>(
    f: F,
    zero: T,
    one: T,
    a: Seq<Seq<T>>,
    product: Seq<Seq<T>>,
)
    requires
        is_rect(a),
        unit_laws(f, zero, one),
        is_product(f, zero, identity_rows(a.len(), zero, one), a, product),
    ensures
        product == a,
{
    let n = a.len();
    let m = ncols(a);
    let id_n = identity_rows(n, zero, one);
    assert forall|i: int| 0 <= i < n implies #[trigger] product[i] == a[i] by {
        assert(a[i].len() == m);
        assert forall|j: int| 0 <= j < m implies #[trigger] product[i][j] == a[i][j] by {
            assert(id_n[i] =~= one_hot(n, i, zero, one));
            assert(dots_to(f, zero, id_n[i], column(a, j), product[i][j]));
            lemma_one_hot_left(f, zero, one, column(a, j), i, product[i][j]);
        }
        assert(product[i] =~= a[i]);
    }
    assert(product =~= a);
}

/// The identity on the right is neutral: under the unit laws of the
/// accumulation step, a product of `a` and the identity is `a`.
pub proof fn lemma_identity_right<T, F: Fn(T, T, T) -> T>(
    f: F,
    zero: T,
    one: T,
    a: Seq<Seq<T>>,
    product: Seq<Seq<T>>,
)
    requires
        is_rect(a),
        unit_laws(f, zero, one),
        is_product(f, zero, a, identity_rows(ncols(a), zero, one), product),
    ensures
        product == a,
{
    let n = a.len();
    let m = ncols(a);
    let id_m = identity_rows(m, zero, one);
    assert(ncols(id_m) == m);
    assert forall|i: int| 0 <= i < n implies #[trigger] product[i] == a[i] by {
        assert(a[i].len() == m);
        assert forall|j: int| 0 <= j < m implies #[trigger] product[i][j] == a[i][j] by {
            assert(column(id_m, j) =~= one_hot(m, j, zero, one));
            assert(dots_to(f, zero, a[i], column(id_m, j), product[i][j]));
            lemma_one_hot_right(f, zero, one, a[i], j, product[i][j]);
        }
        assert(product[i] =~= a[i]);
    }
    assert(product =~= a);
}

/// The identity is neutral for the product: under the unit laws of the
/// accumulation step, a product of the identity and `a`, or of `a` and the
/// identity, is `a`.
pub proof fn lemma_identity_neutral<T, F: Fn(T, T, T) -> T>(
    f: F,
    zero: T,
    one: T,
    a: Seq<Seq<T>>,
    left_product: Seq<Seq<T>>,
    right_product: Seq<Seq<T>>,
)
    requires
        is_rect(a),
        unit_laws(f, zero, one),
        is_product(f, zero, identity_rows(a.len(), zero, one), a, left_product),
        is_product(f, zero, a, identity_rows(ncols(a), zero, one), right_product),
    ensures
        left_product == a,
        right_product == a,
{
    lemma_identity_left(f, zero, one, a, left_product);
    lemma_identity_right(f, zero, one, a, right_product);
}

/// Composing a list whose first factor is `a`: the chain over the rest of
/// the list is the first part of it, and the last step multiplies `a` on
/// the right of the product of all the rest. So every factor is multiplied
/// in, the first one last.
pub proof fn lemma_product_chain_first_factor<T, F: Fn(T, T, T) -> T>(
    f: F,
    zero: T,
    start: Seq<Seq<T>>,
    a: Seq<Seq<T>>,
    rest: Seq<Seq<Seq<T>>>,
    steps: Seq<Seq<Seq<T>>>,
)
    requires
        product_chain(f, zero, start, seq![a] + rest, steps),
    ensures
        product_chain(f, zero, start, rest, steps.subrange(0, rest.len() as int + 1)),
        is_product(f, zero, steps[rest.len() as int], a, steps[rest.len() as int + 1]),
{
    let factors = seq![a] + rest;
    let r = rest.len() as int;
    let sub = steps.subrange(0, r + 1);
    assert forall|k: int|
        #![trigger sub[k]]
        0 <= k < r implies is_product(f, zero, sub[k], rest[r - 1 - k], sub[k + 1]) by {
        assert(steps[k] == sub[k]);
        assert(factors[factors.len() - 1 - k] == rest[r - 1 - k]);
        assert(is_product(f, zero, steps[k], factors[factors.len() - 1 - k], steps[k + 1]));
    }
    assert(steps[r] == steps[r]);
    assert(factors[factors.len() - 1 - r] == a);
}

/// Composing a single rectangular factor onto the identity of its height
/// gives the factor itself, under the unit laws of the accumulation step.
pub proof fn lemma_product_chain_single<T, F: Fn(T, T, T) -> T>(
    f: F,
    zero: T,
    one: T,
    a: Seq<Seq<T>>,
    steps: Seq<Seq<Seq<T>>>,
)
    requires
        is_rect(a),
        unit_laws(f, zero, one),
        product_chain(f, zero, identity_rows(a.len(), zero, one), seq![a], steps),
    ensures
        steps[1] == a,
{
    assert(steps[0] == identity_rows(a.len(), zero, one));
    assert(is_product(f, zero, steps[0], seq![a][0], steps[1]));
    lemma_identity_left(f, zero, one, a, steps[1]);
}

} // verus!
