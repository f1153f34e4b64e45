use vstd::prelude::*;

verus! {

/// The scalar arithmetic that MART needs, as closures.
///
/// * `mul_add(acc, a, x)` is `acc + a * x`, one term of a predicted measurement;
/// * `skips(p)` holds of a predicted measurement `p` on which a ray is skipped
///   (`p <= 0`);
/// * `weighted(a)` holds of a matrix weight `a` that marks a voxel as crossed
///   by the ray (`a > 0`);
/// * `factor(y, p)` is the relaxed correction `(y / p) ^ λ`;
/// * `scale(x, f)` is the corrected voxel `x * f`.
pub struct MartOps<T, D, K, W, F, S> {
    pub zero: T,
    pub one: T,
    pub mul_add: D,
    pub skips: K,
    pub weighted: W,
    pub factor: F,
    pub scale: S,
}

impl<T, D, K, W, F, S> MartOps<T, D, K, W, F, S> where
    D: Fn(T, T, T) -> T,
    K: Fn(T) -> bool,
    W: Fn(T) -> bool,
    F: Fn(T, T) -> T,
    S: Fn(T, T) -> T,
 {
    /// Every operation may be called on any arguments.
    pub open spec fn callable(&self) -> bool {
        &&& forall|a: T, b: T, c: T| #[trigger] self.mul_add.requires((a, b, c))
        &&& forall|a: T| #[trigger] self.skips.requires((a,))
        &&& forall|a: T| #[trigger] self.weighted.requires((a,))
        &&& forall|a: T, b: T| #[trigger] self.factor.requires((a, b))
        &&& forall|a: T, b: T| #[trigger] self.scale.requires((a, b))
    }

    /// `s` is the running sum of `mul_add` over `row` and `x`, from `zero`.
    pub open spec fn dot_trace(&self, row: Seq<T>, x: Seq<T>, s: Seq<T>) -> bool {
        &&& s.len() == row.len() + 1
        &&& s[0] == self.zero
        &&& forall|k: int|
            0 <= k < row.len() ==> #[trigger] self.mul_add.ensures((s[k], row[k], x[k]), s[k + 1])
    }

    /// `p` is the predicted measurement of `row` on the volume `x`.
    pub open spec fn predicts(&self, row: Seq<T>, x: Seq<T>, p: T) -> bool {
        exists|s: Seq<T>| #[trigger] self.dot_trace(row, x, s) && s.last() == p
    }

    /// One voxel under a correction `f`: it is scaled where its weight marks it
    /// as crossed by the ray, and kept where it does not.
    pub open spec fn voxel_update(&self, w: T, f: T, before: T, after: T) -> bool {
        ||| self.weighted.ensures((w,), true) && self.scale.ensures((before, f), after)
        ||| self.weighted.ensures((w,), false) && after == before
    }

    /// `after` is `before` with the correction `f` applied along `row`.
    pub open spec fn corrected(&self, row: Seq<T>, f: T, before: Seq<T>, after: Seq<T>) -> bool {
        &&& after.len() == before.len()
        &&& forall|j: int|
            0 <= j < before.len() ==> #[trigger] self.voxel_update(row[j], f, before[j], after[j])
    }

    /// One ray's update of the volume, once the prediction `p` is known:
    /// skipped where `p` is, else every crossed voxel is scaled by the
    /// correction for the measurement `y`.
    pub open spec fn ray_update_from(&self, row: Seq<T>, y: T, p: T, before: Seq<T>, after: Seq<T>) -> bool {
        ||| self.skips.ensures((p,), true) && after == before
        ||| self.skips.ensures((p,), false) && exists|f: T|
            #[trigger] self.factor.ensures((y, p), f) && self.corrected(row, f, before, after)
    }

    /// One ray's update of the volume: `before` becomes `after` under the ray
    /// with weights `row` and measurement `y`.
    pub open spec fn ray_update(&self, row: Seq<T>, y: T, before: Seq<T>, after: Seq<T>) -> bool {
        exists|p: T| #[trigger] self.predicts(row, before, p) && self.ray_update_from(row, y, p, before, after)
    }
}

/// Applies the update of one ray, with weights `row` and measurement
/// `measured`, to the volume `x` in place.
pub fn update_ray<T: Copy, D, K, W, F, S>(
    ops: &MartOps<T, D, K, W, F, S>,
    row: &Vec<T>,
    measured: T,
    x: &mut Vec<T>,
) where
    D: Fn(T, T, T) -> T,
    K: Fn(T) -> bool,
    W: Fn(T) -> bool,
    F: Fn(T, T) -> T,
    S: Fn(T, T) -> T,

    requires
        ops.callable(),
        row@.len() == old(x)@.len(),
    ensures
        ops.ray_update(row@, measured, old(x)@, final(x)@),
{
    let n = x.len();
    let mut acc = ops.zero;
    let mut j: usize = 0;
    let ghost mut sums: Seq<T> = seq![ops.zero];
    while j < n
        invariant
            n == x@.len() == row@.len(),
            j <= n,
            sums.len() == j + 1,
            sums[0] == ops.zero,
            sums.last() == acc,
            ops.callable(),
            forall|k: int|
                0 <= k < j ==> #[trigger] ops.mul_add.ensures((sums[k], row@[k], x@[k]), sums[k + 1]),
        decreases n - j,
    {
        let next = (ops.mul_add)(acc, row[j], x[j]);
        proof {
            sums = sums.push(next);
        }
        acc = next;
        j += 1;
    }
    assert(ops.dot_trace(row@, x@, sums));
    assert(ops.predicts(row@, x@, acc));
    let skip = (ops.skips)(acc);
    if skip {
        assert(ops.ray_update_from(row@, measured, acc, x@, x@));
        return;
    }
    let f = (ops.factor)(measured, acc);
    let ghost before = x@;
    assert(ops.predicts(row@, before, acc));
    let mut j: usize = 0;
    while j < n
        invariant
            n == x@.len() == row@.len() == before.len(),
            j <= n,
            ops.callable(),
            forall|k: int| j <= k < n ==> x@[k] == before[k],
            forall|k: int| 0 <= k < j ==> #[trigger] ops.voxel_update(row@[k], f, before[k], x@[k]),
        decreases n - j,
    {
        let w = row[j];
        if (ops.weighted)(w) {
            let v = (ops.scale)(x[j], f);
            x.set(j, v);
        }
        j += 1;
    }
    assert(ops.corrected(row@, f, before, x@));
    assert(ops.ray_update_from(row@, measured, acc, before, x@));
}

/// A ray's update keeps the number of voxels.
pub proof fn lemma_ray_update_len<T, D, K, W, F, S>(
    ops: &MartOps<T, D, K, W, F, S>,
    row: Seq<T>,
    y: T,
    before: Seq<T>,
    after: Seq<T>,
) where
    D: Fn(T, T, T) -> T,
    K: Fn(T) -> bool,
    W: Fn(T) -> bool,
    F: Fn(T, T) -> T,
    S: Fn(T, T) -> T,

    requires
        ops.ray_update(row, y, before, after),
    ensures
        after.len() == before.len(),
{
    let p = choose|p: T| #[trigger] ops.predicts(row, before, p) && ops.ray_update_from(row, y, p, before, after);
    if !ops.skips.ensures((p,), true) || after != before {
        let f = choose|f: T| #[trigger] ops.factor.ensures((y, p), f) && ops.corrected(row, f, before, after);
    }
}

/// A voxel whose weight does not mark it as crossed by the ray keeps its
/// value under that ray's update, whatever happens to the other voxels.
pub proof fn lemma_unweighted_voxel_kept<T, D, K, W, F, S>(
    ops: &MartOps<T, D, K, W, F, S>,
    row: Seq<T>,
    y: T,
    before: Seq<T>,
    after: Seq<T>,
    j: int,
) where
    D: Fn(T, T, T) -> T,
    K: Fn(T) -> bool,
    W: Fn(T) -> bool,
    F: Fn(T, T) -> T,
    S: Fn(T, T) -> T,

    requires
        ops.ray_update(row, y, before, after),
        0 <= j < before.len(),
        !ops.weighted.ensures((row[j],), true),
    ensures
        after.len() == before.len(),
        after[j] == before[j],
{
    let p = choose|p: T| #[trigger] ops.predicts(row, before, p) && ops.ray_update_from(row, y, p, before, after);
    if !ops.skips.ensures((p,), true) || after != before {
        let f = choose|f: T| #[trigger] ops.factor.ensures((y, p), f) && ops.corrected(row, f, before, after);
        assert(ops.voxel_update(row[j], f, before[j], after[j]));
    }
}

/// A ray none of whose weights marks a voxel as crossed (such as a row of
/// zeros) leaves the volume as it is, whatever the correction.
pub proof fn lemma_unweighted_ray_kept<T, D, K, W, F, S>(
    ops: &MartOps<T, D, K, W, F, S>,
    row: Seq<T>,
    y: T,
    before: Seq<T>,
    after: Seq<T>,
) where
    D: Fn(T, T, T) -> T,
    K: Fn(T) -> bool,
    W: Fn(T) -> bool,
    F: Fn(T, T) -> T,
    S: Fn(T, T) -> T,

    requires
        ops.ray_update(row, y, before, after),
        forall|j: int| 0 <= j < row.len() ==> !ops.weighted.ensures((#[trigger] row[j],), true),
        row.len() == before.len(),
    ensures
        after == before,
{
    assert forall|j: int| 0 <= j < before.len() implies after[j] == before[j] by {
        lemma_unweighted_voxel_kept(ops, row, y, before, after, j);
    }
    lemma_ray_update_len(ops, row, y, before, after);
    assert(after =~= before);
}

/// A ray whose predicted measurement is one on which rays are skipped (a
/// prediction of zero or below) leaves the volume as it is.
pub proof fn lemma_skipped_ray_kept<T, D, K, W, F, S>(
    ops: &MartOps<T, D, K, W, F, S>,
    row: Seq<T>,
    y: T,
    before: Seq<T>,
    after: Seq<T>,
) where
    D: Fn(T, T, T) -> T,
    K: Fn(T) -> bool,
    W: Fn(T) -> bool,
    F: Fn(T, T) -> T,
    S: Fn(T, T) -> T,

    requires
        ops.ray_update(row, y, before, after),
        forall|p: T| #[trigger] ops.predicts(row, before, p) ==> !ops.skips.ensures((p,), false),
    ensures
        after == before,
{
    let p = choose|p: T| #[trigger] ops.predicts(row, before, p) && ops.ray_update_from(row, y, p, before, after);
}

} // verus!
