//! The chaos game: a point moved again and again by maps chosen in turn.
//! The choice of maps (random in practice) is an argument, so the iteration
//! itself is proved for every sequence of choices.
use vstd::prelude::*;
use crate::grid::{is_product, is_rect, ncols};
use crate::matrix::{zips_with, Matrix};

verus! {

/// A 2 by 1 column.
pub open spec fn is_column2<F>(m: Seq<Seq<F>>) -> bool {
    is_rect(m) && m.len() == 2 && ncols(m) == 1
}

/// A map of the system: a 2 by 2 matrix and a 2 by 1 translation.
pub open spec fn is_affine_map<F>(map: (Matrix<F>, Matrix<F>)) -> bool {
    &&& is_rect(map.0@)
    &&& map.0@.len() == 2
    &&& ncols(map.0@) == 2
    &&& is_column2(map.1@)
}

/// The position that step `k` starts from.
pub open spec fn previous<F>(start: Seq<Seq<F>>, ps: Seq<Seq<Seq<F>>>, k: int) -> Seq<Seq<F>> {
    if k == 0 {
        start
    } else {
        ps[k - 1]
    }
}

/// `next` is where the map `(a, b)` can take `prev`: a product of `a` and
/// `prev`, then `b` added entry by entry (`add(b entry, product entry)`).
pub open spec fn affine_step<F, G: Fn(F, F, F) -> F, A: Fn(F, F) -> F>(
    fma: G,
    add_op: A,
    zero: F,
    a: Seq<Seq<F>>,
    b: Seq<Seq<F>>,
    prev: Seq<Seq<F>>,
    next: Seq<Seq<F>>,
) -> bool {
    exists|prod: Seq<Seq<F>>|
        #[trigger] is_product(fma, zero, a, prev, prod) && zips_with(add_op, b, prod, next)
}

impl<F: Copy> Matrix<F> {
    /// Moves `start` by the maps `maps[choices[0]]`, `maps[choices[1]]`, ...
    /// in turn and returns every position reached: position `k` is where
    /// map `choices[k]` takes position `k - 1` (or `start`), that is its
    /// matrix times the position, plus its translation.
    pub fn chaos_positions<G: Fn(F, F, F) -> F, A: Fn(F, F) -> F>(
        maps: &Vec<(Matrix<F>, Matrix<F>)>,
        choices: &Vec<usize>,
        start: &Matrix<F>,
        zero: F,
        fma: &G,
        add_op: &A,
    ) -> (ps: Vec<Matrix<F>>)
        requires
            forall|i: int| 0 <= i < maps@.len() ==> is_affine_map(#[trigger] maps@[i]),
            forall|k: int| 0 <= k < choices@.len() ==> #[trigger] choices@[k] < maps@.len(),
            is_column2(start@),
            forall|a: F, b: F, c: F| #[trigger] fma.requires((a, b, c)),
            forall|a: F, b: F| #[trigger] add_op.requires((a, b)),
        ensures
            ps@.len() == choices@.len(),
            forall|k: int|
                #![trigger ps@[k]]
                0 <= k < choices@.len() ==> affine_step(
                    *fma,
                    *add_op,
                    zero,
                    maps@[choices@[k] as int].0@,
                    maps@[choices@[k] as int].1@,
                    previous(start@, ps@.map_values(|p: Matrix<F>| p@), k),
                    ps@[k]@,
                ),
            choices@.len() > 0 ==> affine_step(
                *fma,
                *add_op,
                zero,
                maps@[choices@[0] as int].0@,
                maps@[choices@[0] as int].1@,
                start@,
                ps@[0]@,
            ),
            forall|k: int|
                #![trigger ps@[k]]
                0 < k < choices@.len() ==> affine_step(
                    *fma,
                    *add_op,
                    zero,
                    maps@[choices@[k] as int].0@,
                    maps@[choices@[k] as int].1@,
                    ps@[k - 1]@,
                    ps@[k]@,
                ),
    {
        let n = choices.len();
        let mut ps: Vec<Matrix<F>> = Vec::new();
        let mut k: usize = 0;
        while k < n
            invariant
                n == choices@.len(),
                k <= n,
                ps@.len() == k,
                forall|i: int| 0 <= i < maps@.len() ==> is_affine_map(#[trigger] maps@[i]),
                forall|t: int| 0 <= t < choices@.len() ==> #[trigger] choices@[t] < maps@.len(),
                is_column2(start@),
                forall|a: F, b: F, c: F| #[trigger] fma.requires((a, b, c)),
                forall|a: F, b: F| #[trigger] add_op.requires((a, b)),
                forall|t: int| 0 <= t < k ==> is_column2(#[trigger] ps@[t]@),
                forall|t: int|
                    #![trigger ps@[t]]
                    0 <= t < k ==> affine_step(
                        *fma,
                        *add_op,
                        zero,
                        maps@[choices@[t] as int].0@,
                        maps@[choices@[t] as int].1@,
                        previous(start@, ps@.map_values(|p: Matrix<F>| p@), t),
                        ps@[t]@,
                    ),
            decreases n - k,
        {
            let map = &maps[choices[k]];
            assert(is_affine_map(maps@[choices@[k as int] as int]));
            let next = {
                let prev = if k == 0 {
                    start
                } else {
                    &ps[k - 1]
                };
                let prod = map.0.mul_matrix(prev, zero, fma);
                let next = prod.plus_matrix(&map.1, add_op);
                assert(affine_step(*fma, *add_op, zero, map.0@, map.1@, prev@, next@));
                next
            };
            let ghost old_ps = ps@;
            ps.push(next);
            proof {
                let views = ps@.map_values(|p: Matrix<F>| p@);
                let old_views = old_ps.map_values(|p: Matrix<F>| p@);
                assert forall|t: int|
                    #![trigger ps@[t]]
                    0 <= t < k + 1 implies affine_step(
                        *fma,
                        *add_op,
                        zero,
                        maps@[choices@[t] as int].0@,
                        maps@[choices@[t] as int].1@,
                        previous(start@, views, t),
                        ps@[t]@,
                    ) by {
                    if t > 0 {
                        assert(views[t - 1] == ps@[t - 1]@);
                    }
                    if t < k {
                        assert(ps@[t] == old_ps[t]);
                        if t > 0 {
                            assert(old_views[t - 1] == old_ps[t - 1]@);
                        }
                        assert(previous(start@, views, t) == previous(start@, old_views, t));
                    }
                }
            }
            k = k + 1;
        }
        proof {
            lemma_chaos_chain(maps@, choices@, start@, zero, *fma, *add_op, ps@);
        }
        ps
    }
}

/// The chaos game moves one point: position 0 is the first chosen map
/// applied to the start, and every later position is its chosen map applied
/// to the position just before it (a product with the map's matrix, then
/// its translation added).
pub proof fn lemma_chaos_chain<F, G: Fn(F, F, F) -> F, A: Fn(F, F) -> F>(
    maps: Seq<(Matrix<F>, Matrix<F>)>,
    choices: Seq<usize>,
    start: Seq<Seq<F>>,
    zero: F,
    fma: G,
    add_op: A,
    ps: Seq<Matrix<F>>,
)
    requires
        ps.len() == choices.len(),
        forall|k: int|
            #![trigger ps[k]]
            0 <= k < choices.len() ==> affine_step(
                fma,
                add_op,
                zero,
                maps[choices[k] as int].0@,
                maps[choices[k] as int].1@,
                previous(start, ps.map_values(|p: Matrix<F>| p@), k),
                ps[k]@,
            ),
    ensures
        choices.len() > 0 ==> exists|prod: Seq<Seq<F>>|
            #[trigger] is_product(fma, zero, maps[choices[0] as int].0@, start, prod) && zips_with(
                add_op,
                maps[choices[0] as int].1@,
                prod,
                ps[0]@,
            ),
        forall|k: int|
            #![trigger ps[k]]
            0 < k < choices.len() ==> affine_step(
                fma,
                add_op,
                zero,
                maps[choices[k] as int].0@,
                maps[choices[k] as int].1@,
                ps[k - 1]@,
                ps[k]@,
            ),
{
    let views = ps.map_values(|p: Matrix<F>| p@);
    if choices.len() > 0 {
        assert(previous(start, views, 0) == start);
        assert(affine_step(
            fma,
            add_op,
            zero,
            maps[choices[0] as int].0@,
            maps[choices[0] as int].1@,
            previous(start, views, 0),
            ps[0]@,
        ));
    }
    assert forall|k: int|
        #![trigger ps[k]]
        0 < k < choices.len() implies affine_step(
            fma,
            add_op,
            zero,
            maps[choices[k] as int].0@,
            maps[choices[k] as int].1@,
            ps[k - 1]@,
            ps[k]@,
        ) by {
        assert(views[k - 1] == ps[k - 1]@);
        assert(previous(start, views, k) == ps[k - 1]@);
        assert(affine_step(
            fma,
            add_op,
            zero,
            maps[choices[k] as int].0@,
            maps[choices[k] as int].1@,
            previous(start, views, k),
            ps[k]@,
        ));
    }
}

} // verus!
