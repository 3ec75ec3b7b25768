//! One map of an iterated function system: a list of plane steps (dilation,
//! shear, rotation, reflection) applied in order, then a translation.
//!
//! Numbers are of a type `F` chosen by the caller; the matrices of
//! rotations and reflections, which need trigonometry, are computed by
//! closures that the caller hands in.
use vstd::prelude::*;
use vstd::string::StringExecFns;
use crate::grid::{identity_rows, is_product, is_rect, lemma_identity_right, ncols, unit_laws};
use crate::matrix::Matrix;

verus! {

/// One step of a transformation.
#[derive(Debug, Clone, Copy, PartialEq)]
pub enum TransformationType<F> {
    /// Scale by `[x, y]`.
    Dilation([F; 2]),
    /// Shear by `[x, y]`.
    Shear([F; 2]),
    /// Rotate by an angle.
    Rotation(F),
    /// Reflect in the line through the origin at an angle.
    Reflection(F),
}

/// The steps of one map, its translation, and whether its angles are in
/// radians (else in degrees).
#[derive(Debug, Clone)]
pub struct Transformation<F> {
    pub actions: Vec<TransformationType<F>>,
    pub translation: [F; 2],
    pub using_rad: bool,
}

/// The decimal digit for `d` (0 to 9).
pub open spec fn digit_char(d: nat) -> char {
    ('0' as nat + d) as char
}

/// The decimal digits of `n`, without leading zeros.
pub open spec fn decimal_text(n: nat) -> Seq<char>
    decreases n,
{
    if n < 10 {
        seq![digit_char(n)]
    } else {
        decimal_text(n / 10) + seq![digit_char(n % 10)]
    }
}

/// std's `ToString` on `usize` (its `Display`): the decimal digits of `n`
/// with no sign, padding or leading zeros.
#[verifier::external_body]
fn usize_text(n: usize) -> (s: String)
    ensures
        s@ == decimal_text(n as nat),
{
    n.to_string()
}

/// What an index error of `remove_action` says.
pub open spec fn remove_error_text(target_index: nat, len: nat) -> Seq<char> {
    "remove_action: target_index is too large! "@ + decimal_text(target_index) + " >= "@
        + decimal_text(len)
}

/// What an index error of `move_to` says.
pub open spec fn move_error_text(target_index: nat, new_index: nat, len: nat) -> Seq<char> {
    "move_to: index is too large! ("@ + decimal_text(target_index) + ", "@ + decimal_text(
        new_index,
    ) + ") >= "@ + decimal_text(len)
}

/// The message of an index error of `remove_action`.
fn remove_error_message(target_index: usize, len: usize) -> (msg: String)
    ensures
        msg@ == remove_error_text(target_index as nat, len as nat),
{
    let mut msg = String::from_str("remove_action: target_index is too large! ");
    msg.append(usize_text(target_index).as_str());
    msg.append(" >= ");
    msg.append(usize_text(len).as_str());
    msg
}

/// The message of an index error of `move_to`.
fn move_error_message(target_index: usize, new_index: usize, len: usize) -> (msg: String)
    ensures
        msg@ == move_error_text(target_index as nat, new_index as nat, len as nat),
{
    let mut msg = String::from_str("move_to: index is too large! (");
    msg.append(usize_text(target_index).as_str());
    msg.append(", ");
    msg.append(usize_text(new_index).as_str());
    msg.append(") >= ");
    msg.append(usize_text(len).as_str());
    msg
}

/// `s` with the item at `from` taken out and put back so that it stands at
/// `to`.
pub open spec fn moved<A>(s: Seq<A>, from: int, to: int) -> Seq<A> {
    s.remove(from).insert(to, s[from])
}

/// Moving an item from `a` to `b` and then from `b` back to `a` gives the
/// sequence back.
pub proof fn lemma_move_round_trip<A>(s: Seq<A>, a: int, b: int)
    requires
        0 <= a < s.len(),
        0 <= b < s.len(),
    ensures
        moved(moved(s, a, b), b, a) == s,
{
    let t = moved(s, a, b);
    assert(t[b] == s[a]);
    assert(t.remove(b) =~= s.remove(a));
    assert(moved(t, b, a) =~= s);
}

/// Adding a step and then removing the last step gives the steps back.
pub proof fn lemma_push_then_remove_last<A>(s: Seq<A>, x: A)
    ensures
        s.push(x).remove(s.len() as int) == s,
{
    assert(s.push(x).remove(s.len() as int) =~= s);
}

/// 2 by 2 and rectangular.
pub open spec fn is_2x2<F>(m: Seq<Seq<F>>) -> bool {
    is_rect(m) && m.len() == 2 && ncols(m) == 2
}

/// `mat` is a matrix that the step `step` can stand for: the exact
/// dilation or shear matrix, or a result of `rot` or `refl` for the angle.
pub open spec fn step_matrix<F, R: Fn(F, bool) -> Matrix<F>, Q: Fn(F, bool) -> Matrix<F>>(
    step: TransformationType<F>,
    using_rad: bool,
    zero: F,
    one: F,
    rot: R,
    refl: Q,
    mat: Seq<Seq<F>>,
) -> bool {
    match step {
        TransformationType::Dilation(d) => mat == seq![seq![d[0], zero], seq![zero, d[1]]],
        TransformationType::Shear(s) => mat == seq![seq![one, s[0]], seq![s[1], one]],
        TransformationType::Rotation(a) => exists|m: Matrix<F>|
            #[trigger] rot.ensures((a, using_rad), m) && m@ == mat,
        TransformationType::Reflection(a) => exists|m: Matrix<F>|
            #[trigger] refl.ensures((a, using_rad), m) && m@ == mat,
    }
}

/// `steps[k + 1]` is a product of `mats[k]` (the matrix of step `k`) and
/// `steps[k]`, starting from the 2 by 2 identity.
pub open spec fn build_chain<
    F,
    G: Fn(F, F, F) -> F,
    R: Fn(F, bool) -> Matrix<F>,
    Q: Fn(F, bool) -> Matrix<F>,
>(
    actions: Seq<TransformationType<F>>,
    using_rad: bool,
    zero: F,
    one: F,
    fma: G,
    rot: R,
    refl: Q,
    mats: Seq<Seq<Seq<F>>>,
    steps: Seq<Seq<Seq<F>>>,
) -> bool {
    &&& mats.len() == actions.len()
    &&& steps.len() == actions.len() + 1
    &&& steps[0] == identity_rows(2, zero, one)
    &&& forall|k: int|
        #![trigger mats[k]]
        0 <= k < actions.len() ==> {
            &&& step_matrix(actions[k], using_rad, zero, one, rot, refl, mats[k])
            &&& is_product(fma, zero, mats[k], steps[k], steps[k + 1])
        }
}

impl<F: Copy> Transformation<F> {
    /// No steps and no translation (`[zero, zero]`).
    pub fn new(using_rad: bool, zero: F) -> (t: Self)
        ensures
            t.actions@ == Seq::<TransformationType<F>>::empty(),
            t.translation@ == seq![zero, zero],
            t.using_rad == using_rad,
    {
        let t = Transformation { actions: Vec::new(), translation: [zero, zero], using_rad };
        assert(t.translation@ =~= seq![zero, zero]);
        t
    }

    /// Sets the translation.
    pub fn translate(&mut self, translation: [F; 2])
        ensures
            final(self).translation == translation,
            final(self).actions == old(self).actions,
            final(self).using_rad == old(self).using_rad,
    {
        self.translation = translation;
    }

    /// Sets one coordinate of the translation.
    pub fn set_translation(&mut self, t_index: usize, value: F)
        requires
            t_index < 2,
        ensures
            final(self).translation@ == old(self).translation@.update(t_index as int, value),
            final(self).actions == old(self).actions,
            final(self).using_rad == old(self).using_rad,
    {
        let t = if t_index == 0 {
            [value, self.translation[1]]
        } else {
            [self.translation[0], value]
        };
        self.translation = t;
        assert(self.translation@ =~= old(self).translation@.update(t_index as int, value));
    }

    /// Chooses radians (`true`) or degrees for the angles.
    pub fn set_using_rad(&mut self, using_rad: bool)
        ensures
            final(self).using_rad == using_rad,
            final(self).actions == old(self).actions,
            final(self).translation == old(self).translation,
    {
        self.using_rad = using_rad;
    }

    /// Appends a step.
    fn push_action(&mut self, step: TransformationType<F>)
        ensures
            final(self).actions@ == old(self).actions@.push(step),
            final(self).translation == old(self).translation,
            final(self).using_rad == old(self).using_rad,
    {
        self.actions.push(step);
    }

    /// Appends a dilation by `dilation`.
    pub fn dilate(&mut self, dilation: [F; 2])
        ensures
            final(self).actions@ == old(self).actions@.push(TransformationType::Dilation(dilation)),
            final(self).translation == old(self).translation,
            final(self).using_rad == old(self).using_rad,
    {
        self.push_action(TransformationType::Dilation(dilation));
    }

    /// Appends a shear by `shear`.
    pub fn shear(&mut self, shear: [F; 2])
        ensures
            final(self).actions@ == old(self).actions@.push(TransformationType::Shear(shear)),
            final(self).translation == old(self).translation,
            final(self).using_rad == old(self).using_rad,
    {
        self.push_action(TransformationType::Shear(shear));
    }

    /// Appends a rotation by `rotation`.
    pub fn rotate(&mut self, rotation: F)
        ensures
            final(self).actions@ == old(self).actions@.push(TransformationType::Rotation(rotation)),
            final(self).translation == old(self).translation,
            final(self).using_rad == old(self).using_rad,
    {
        self.push_action(TransformationType::Rotation(rotation));
    }

    /// Appends a reflection at the angle `reflection`.
    pub fn reflect(&mut self, reflection: F)
        ensures
            final(self).actions@ == old(self).actions@.push(
                TransformationType::Reflection(reflection),
            ),
            final(self).translation == old(self).translation,
            final(self).using_rad == old(self).using_rad,
    {
        self.push_action(TransformationType::Reflection(reflection));
    }

    /// Appends a fresh step of the kind of `kind`: a dilation by
    /// `[one, one]`, a shear by `[zero, zero]`, or a rotation or reflection
    /// by `zero`. The values that `kind` holds are not used.
    pub fn add_step(&mut self, kind: &TransformationType<F>, zero: F, one: F)
        ensures
            final(self).actions@ == old(self).actions@.push(
                match *kind {
                    TransformationType::Dilation(_) => TransformationType::Dilation([one, one]),
                    TransformationType::Shear(_) => TransformationType::Shear([zero, zero]),
                    TransformationType::Rotation(_) => TransformationType::Rotation(zero),
                    TransformationType::Reflection(_) => TransformationType::Reflection(zero),
                },
            ),
            final(self).translation == old(self).translation,
            final(self).using_rad == old(self).using_rad,
    {
        match kind {
            TransformationType::Dilation(_) => self.dilate([one, one]),
            TransformationType::Shear(_) => self.shear([zero, zero]),
            TransformationType::Reflection(_) => self.reflect(zero),
            TransformationType::Rotation(_) => self.rotate(zero),
        }
    }

    /// Moves the step at `target_index` so that it stands at `new_index`,
    /// the others keeping their order. Both indices must be below the
    /// number of steps; otherwise nothing changes and the error says so.
    pub fn move_to(&mut self, target_index: usize, new_index: usize) -> (r: Result<(), String>)
        ensures
            final(self).translation == old(self).translation,
            final(self).using_rad == old(self).using_rad,
            r is Ok <==> target_index < old(self).actions@.len() && new_index < old(
                self,
            ).actions@.len(),
            r is Ok ==> final(self).actions@ == moved(
                old(self).actions@,
                target_index as int,
                new_index as int,
            ),
            r matches Err(msg) ==> msg@ == move_error_text(
                target_index as nat,
                new_index as nat,
                old(self).actions@.len(),
            ) && final(self).actions@ == old(self).actions@,
    {
        let len = self.actions.len();
        if target_index >= len || new_index >= len {
            Err(move_error_message(target_index, new_index, len))
        } else {
            let step = self.actions.remove(target_index);
            self.actions.insert(new_index, step);
            Ok(())
        }
    }

    /// Deletes the step at `target_index`, or says that the index is too
    /// large and changes nothing.
    pub fn remove_action(&mut self, target_index: usize) -> (r: Result<(), String>)
        ensures
            final(self).translation == old(self).translation,
            final(self).using_rad == old(self).using_rad,
            r is Ok <==> target_index < old(self).actions@.len(),
            r is Ok ==> final(self).actions@ == old(self).actions@.remove(target_index as int),
            r matches Err(msg) ==> msg@ == remove_error_text(
                target_index as nat,
                old(self).actions@.len(),
            ) && final(self).actions@ == old(self).actions@,
    {
        if target_index >= self.actions.len() {
            Err(remove_error_message(target_index, self.actions.len()))
        } else {
            self.actions.remove(target_index);
            Ok(())
        }
    }

    /// Replaces the angle of the rotation or reflection at `s_index`,
    /// keeping its kind.
    pub fn set_one_var_step(&mut self, s_index: usize, value: F)
        requires
            s_index < old(self).actions@.len(),
            old(self).actions@[s_index as int] is Rotation || old(
                self,
            ).actions@[s_index as int] is Reflection,
        ensures
            final(self).actions@ == old(self).actions@.update(
                s_index as int,
                match old(self).actions@[s_index as int] {
                    TransformationType::Rotation(_) => TransformationType::Rotation(value),
                    _ => TransformationType::Reflection(value),
                },
            ),
            final(self).translation == old(self).translation,
            final(self).using_rad == old(self).using_rad,
    {
        let step = match self.actions[s_index] {
            TransformationType::Rotation(_) => TransformationType::Rotation(value),
            _ => TransformationType::Reflection(value),
        };
        self.actions.set(s_index, step);
    }

    /// Replaces coordinate `t_index` of the dilation or shear at `s_index`,
    /// keeping its kind and its other coordinate.
    pub fn set_two_var_step(&mut self, s_index: usize, t_index: usize, value: F)
        requires
            s_index < old(self).actions@.len(),
            t_index < 2,
            old(self).actions@[s_index as int] is Dilation || old(
                self,
            ).actions@[s_index as int] is Shear,
        ensures
            final(self).actions@ == old(self).actions@.update(
                s_index as int,
                match old(self).actions@[s_index as int] {
                    TransformationType::Dilation(d) => TransformationType::Dilation(
                        if t_index == 0 {
                            [value, d[1]]
                        } else {
                            [d[0], value]
                        },
                    ),
                    TransformationType::Shear(d) => TransformationType::Shear(
                        if t_index == 0 {
                            [value, d[1]]
                        } else {
                            [d[0], value]
                        },
                    ),
                    other => other,
                },
            ),
            final(self).translation == old(self).translation,
            final(self).using_rad == old(self).using_rad,
    {
        let step = match self.actions[s_index] {
            TransformationType::Dilation(d) => TransformationType::Dilation(
                if t_index == 0 {
                    [value, d[1]]
                } else {
                    [d[0], value]
                },
            ),
            TransformationType::Shear(d) => TransformationType::Shear(
                if t_index == 0 {
                    [value, d[1]]
                } else {
                    [d[0], value]
                },
            ),
            other => other,
        };
        self.actions.set(s_index, step);
    }

    /// The matrices of the map: the product of the steps' matrices, each new
    /// step multiplied on the left of the product so far (so the first step
    /// acts first on a column vector), starting from the 2 by 2 identity;
    /// and the translation as a 2 by 1 column. Dilations and shears get
    /// their exact matrices; rotations and reflections get what `rot` and
    /// `refl` return for their angle and `using_rad`.
    pub fn build<
        G: Fn(F, F, F) -> F,
        R: Fn(F, bool) -> Matrix<F>,
        Q: Fn(F, bool) -> Matrix<F>,
    >(&self, zero: F, one: F, fma: &G, rot: &R, refl: &Q) -> (r: (Matrix<F>, Matrix<F>))
        requires
            forall|a: F, b: F, c: F| #[trigger] fma.requires((a, b, c)),
            forall|a: F, b: bool| #[trigger] rot.requires((a, b)),
            forall|a: F, b: bool| #[trigger] refl.requires((a, b)),
            forall|a: F, b: bool, m: Matrix<F>| #[trigger] rot.ensures((a, b), m) ==> is_2x2(m@),
            forall|a: F, b: bool, m: Matrix<F>| #[trigger] refl.ensures((a, b), m) ==> is_2x2(m@),
        ensures
            exists|mats: Seq<Seq<Seq<F>>>, steps: Seq<Seq<Seq<F>>>|
                #[trigger] build_chain(
                    self.actions@,
                    self.using_rad,
                    zero,
                    one,
                    *fma,
                    *rot,
                    *refl,
                    mats,
                    steps,
                ) && steps[steps.len() - 1] == r.0@,
            is_2x2(r.0@),
            r.1@ == seq![seq![self.translation[0]], seq![self.translation[1]]],
            is_rect(r.1@),
    {
        let mut transf_matr = Matrix::identity(2, zero, one);
        let n = self.actions.len();
        let ghost mut mats: Seq<Seq<Seq<F>>> = seq![];
        let ghost mut steps: Seq<Seq<Seq<F>>> = seq![transf_matr@];
        let mut k: usize = 0;
        while k < n
            invariant
                n == self.actions@.len(),
                k <= n,
                mats.len() == k,
                steps.len() == k + 1,
                steps[0] == identity_rows(2, zero, one),
                steps[k as int] == transf_matr@,
                is_2x2(transf_matr@),
                forall|a: F, b: F, c: F| #[trigger] fma.requires((a, b, c)),
                forall|a: F, b: bool| #[trigger] rot.requires((a, b)),
                forall|a: F, b: bool| #[trigger] refl.requires((a, b)),
                forall|a: F, b: bool, m: Matrix<F>| #[trigger] rot.ensures((a, b), m) ==> is_2x2(m@),
                forall|a: F, b: bool, m: Matrix<F>| #[trigger] refl.ensures((a, b), m) ==> is_2x2(m@),
                forall|t: int|
                    #![trigger mats[t]]
                    0 <= t < k ==> {
                        &&& step_matrix(
                            self.actions@[t],
                            self.using_rad,
                            zero,
                            one,
                            *rot,
                            *refl,
                            mats[t],
                        )
                        &&& is_product(*fma, zero, mats[t], steps[t], steps[t + 1])
                    },
            decreases n - k,
        {
            let step = self.actions[k];
            let new_matr = match step {
                TransformationType::Dilation(d) => Matrix::dil_mat2d(d[0], d[1], zero),
                TransformationType::Shear(s) => Matrix::shear_mat2d(s[0], s[1], one),
                TransformationType::Reflection(angle) => refl(angle, self.using_rad),
                TransformationType::Rotation(angle) => rot(angle, self.using_rad),
            };
            assert(step_matrix(step, self.using_rad, zero, one, *rot, *refl, new_matr@));
            let next = new_matr.mul_matrix(&transf_matr, zero, fma);
            proof {
                let old_mats = mats;
                let old_steps = steps;
                mats = mats.push(new_matr@);
                steps = steps.push(next@);
                assert forall|t: int|
                    #![trigger mats[t]]
                    0 <= t < k + 1 implies {
                        &&& step_matrix(
                            self.actions@[t],
                            self.using_rad,
                            zero,
                            one,
                            *rot,
                            *refl,
                            mats[t],
                        )
                        &&& is_product(*fma, zero, mats[t], steps[t], steps[t + 1])
                    } by {
                    if t < k {
                        assert(mats[t] == old_mats[t]);
                        assert(steps[t] == old_steps[t]);
                        assert(steps[t + 1] == old_steps[t + 1]);
                    }
                }
            }
            transf_matr = next;
            k = k + 1;
        }
        proof {
            lemma_build_chain_intro(
                self.actions@,
                self.using_rad,
                zero,
                one,
                *fma,
                *rot,
                *refl,
                mats,
                steps,
            );
        }
        let transl_matr = Matrix::new(vec![vec![self.translation[0]], vec![self.translation[1]]]);
        assert(transl_matr@[0] =~= seq![self.translation[0]]);
        assert(transl_matr@[1] =~= seq![self.translation[1]]);
        assert(transl_matr@ =~= seq![seq![self.translation[0]], seq![self.translation[1]]]);
        (transf_matr, transl_matr)
    }
}

/// Collects the facts that make up `build_chain`.
proof fn lemma_build_chain_intro<
    F,
    G: Fn(F, F, F) -> F,
    R: Fn(F, bool) -> Matrix<F>,
    Q: Fn(F, bool) -> Matrix<F>,
>(
    actions: Seq<TransformationType<F>>,
    using_rad: bool,
    zero: F,
    one: F,
    fma: G,
    rot: R,
    refl: Q,
    mats: Seq<Seq<Seq<F>>>,
    steps: Seq<Seq<Seq<F>>>,
)
    requires
        mats.len() == actions.len(),
        steps.len() == actions.len() + 1,
        steps[0] == identity_rows(2, zero, one),
        forall|k: int|
            #![trigger mats[k]]
            0 <= k < actions.len() ==> {
                &&& step_matrix(actions[k], using_rad, zero, one, rot, refl, mats[k])
                &&& is_product(fma, zero, mats[k], steps[k], steps[k + 1])
            },
    ensures
        build_chain(actions, using_rad, zero, one, fma, rot, refl, mats, steps),
{
}

/// What each step of a built transformation contributes: step `k`'s matrix
/// multiplies the product so far on the left; a dilation or shear uses its
/// exact matrix, and a rotation or reflection uses a result of `rot` or
/// `refl` for its angle and the transformation's own `using_rad` flag.
pub proof fn lemma_build_steps<
    F,
    G: Fn(F, F, F) -> F,
    R: Fn(F, bool) -> Matrix<F>,
    Q: Fn(F, bool) -> Matrix<F>,
>(
    actions: Seq<TransformationType<F>>,
    using_rad: bool,
    zero: F,
    one: F,
    fma: G,
    rot: R,
    refl: Q,
    mats: Seq<Seq<Seq<F>>>,
    steps: Seq<Seq<Seq<F>>>,
    k: int,
)
    requires
        build_chain(actions, using_rad, zero, one, fma, rot, refl, mats, steps),
        0 <= k < actions.len(),
    ensures
        steps.len() == actions.len() + 1,
        steps[0] == identity_rows(2, zero, one),
        is_product(fma, zero, mats[k], steps[k], steps[k + 1]),
        actions[k] matches TransformationType::Dilation(d) ==> mats[k] == seq![
            seq![d[0], zero],
            seq![zero, d[1]],
        ],
        actions[k] matches TransformationType::Shear(d) ==> mats[k] == seq![
            seq![one, d[0]],
            seq![d[1], one],
        ],
        actions[k] matches TransformationType::Rotation(a) ==> exists|m: Matrix<F>|
            #[trigger] rot.ensures((a, using_rad), m) && m@ == mats[k],
        actions[k] matches TransformationType::Reflection(a) ==> exists|m: Matrix<F>|
            #[trigger] refl.ensures((a, using_rad), m) && m@ == mats[k],
{
    assert(step_matrix(actions[k], using_rad, zero, one, rot, refl, mats[k]));
}

/// A transformation of a single rotation by `a` builds to a rotation
/// matrix that `rot` gives for `a` and the transformation's `using_rad`
/// flag, when the accumulation step has the unit laws.
pub proof fn lemma_build_single_rotation<
    F,
    G: Fn(F, F, F) -> F,
    R: Fn(F, bool) -> Matrix<F>,
    Q: Fn(F, bool) -> Matrix<F>,
>(
    a: F,
    using_rad: bool,
    zero: F,
    one: F,
    fma: G,
    rot: R,
    refl: Q,
    mats: Seq<Seq<Seq<F>>>,
    steps: Seq<Seq<Seq<F>>>,
)
    requires
        build_chain(
            seq![TransformationType::Rotation(a)],
            using_rad,
            zero,
            one,
            fma,
            rot,
            refl,
            mats,
            steps,
        ),
        unit_laws(fma, zero, one),
        forall|x: F, b: bool, m: Matrix<F>| #[trigger] rot.ensures((x, b), m) ==> is_2x2(m@),
    ensures
        exists|m: Matrix<F>| #[trigger] rot.ensures((a, using_rad), m) && steps[1] == m@,
{
    let actions = seq![TransformationType::Rotation(a)];
    lemma_build_steps(actions, using_rad, zero, one, fma, rot, refl, mats, steps, 0);
    let m = choose|m: Matrix<F>| #[trigger] rot.ensures((a, using_rad), m) && m@ == mats[0];
    assert(is_2x2(m@));
    assert(ncols(mats[0]) == 2);
    lemma_identity_right(fma, zero, one, mats[0], steps[1]);
}

} // verus!
