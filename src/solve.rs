use vstd::prelude::*;

use crate::matrix::DenseMatrix;
use crate::ray::{MartOps, lemma_unweighted_voxel_kept, update_ray};

verus! {

/// Why a reconstruction was refused before any update.
#[derive(Debug, Clone, Copy, PartialEq, Eq, Structural)]
pub enum ReconError {
    /// The forward matrix has `rows` rows but there are `measurements`
    /// measurements.
    DimensionMismatch { measurements: usize, rows: usize },
}

/// The uniform starting volume: `n` voxels equal to `one`.
pub open spec fn uniform<T>(n: nat, one: T) -> Seq<T> {
    Seq::new(n, |j: int| one)
}

impl<T, D, K, W, F, S> MartOps<T, D, K, W, F, S> where
    D: Fn(T, T, T) -> T,
    K: Fn(T) -> bool,
    W: Fn(T) -> bool,
    F: Fn(T, T) -> T,
    S: Fn(T, T) -> T,
 {
    /// `states` runs through the rays of `a` in index order, each ray
    /// updating the state the previous one left.
    pub open spec fn pass_trace(&self, a: Seq<Seq<T>>, y: Seq<T>, states: Seq<Seq<T>>) -> bool {
        &&& states.len() == a.len() + 1
        &&& forall|i: int|
            0 <= i < a.len() ==> #[trigger] self.ray_update(a[i], y[i], states[i], states[i + 1])
    }

    /// One pass over all rays turns `before` into `after`.
    pub open spec fn pass_update(&self, a: Seq<Seq<T>>, y: Seq<T>, before: Seq<T>, after: Seq<T>) -> bool {
        exists|states: Seq<Seq<T>>|
            #[trigger] self.pass_trace(a, y, states) && states[0] == before && states.last() == after
    }

    /// `volumes` holds the volume after each of `n_iters` passes, starting
    /// from the uniform volume of `n` voxels.
    pub open spec fn solve_trace(&self, a: Seq<Seq<T>>, y: Seq<T>, n: nat, n_iters: nat, volumes: Seq<Seq<T>>) -> bool {
        &&& volumes.len() == n_iters + 1
        &&& volumes[0] == uniform(n, self.one)
        &&& forall|p: int|
            0 <= p < n_iters ==> #[trigger] self.pass_update(a, y, volumes[p], volumes[p + 1])
    }

    /// `x` is what `n_iters` passes make of the uniform volume of `n` voxels.
    pub open spec fn reconstructs(&self, a: Seq<Seq<T>>, y: Seq<T>, n: nat, n_iters: nat, x: Seq<T>) -> bool {
        exists|volumes: Seq<Seq<T>>|
            #[trigger] self.solve_trace(a, y, n, n_iters, volumes) && volumes.last() == x
    }

    /// No ray of `a` has a weight that marks voxel `j` as crossed.
    pub open spec fn crossed_by_none(&self, a: Seq<Seq<T>>, j: int) -> bool {
        forall|i: int| 0 <= i < a.len() ==> !self.weighted.ensures((#[trigger] a[i][j],), true)
    }

    /// Every correction that `factor` can give leaves every voxel as it is
    /// under `scale` (a relaxation of zero).
    pub open spec fn neutral_factors(&self) -> bool {
        forall|y: T, p: T, f: T, v: T, w: T|
            #[trigger] self.factor.ensures((y, p), f) && #[trigger] self.scale.ensures((v, f), w) ==> w == v
    }
}

/// One MART pass: the rays of `system_matrix` update `volume` in index
/// order, each seeing the volume that the previous ray left.
pub fn mart_step<T: Copy, D, K, W, F, S>(
    ops: &MartOps<T, D, K, W, F, S>,
    projections: &Vec<T>,
    system_matrix: &DenseMatrix<T>,
    volume: &mut Vec<T>,
) where
    D: Fn(T, T, T) -> T,
    K: Fn(T) -> bool,
    W: Fn(T) -> bool,
    F: Fn(T, T) -> T,
    S: Fn(T, T) -> T,

    requires
        ops.callable(),
        system_matrix.wf(),
        projections@.len() == system_matrix@.len(),
        old(volume)@.len() == system_matrix.spec_cols(),
    ensures
        ops.pass_update(system_matrix@, projections@, old(volume)@, final(volume)@),
        final(volume)@.len() == old(volume)@.len(),
        ops.neutral_factors() ==> final(volume)@ == old(volume)@,
        forall|j: int|
            0 <= j < old(volume)@.len() && #[trigger] ops.crossed_by_none(system_matrix@, j)
                ==> final(volume)@[j] == old(volume)@[j],
{
    let m = system_matrix.n_rows();
    let ghost start = volume@;
    let ghost mut states: Seq<Seq<T>> = seq![volume@];
    let mut i: usize = 0;
    while i < m
        invariant
            m == system_matrix@.len() == projections@.len(),
            system_matrix.wf(),
            ops.callable(),
            i <= m,
            volume@.len() == system_matrix.spec_cols() == start.len(),
            states.len() == i + 1,
            states[0] == start,
            states.last() == volume@,
            forall|k: int|
                0 <= k < i ==> #[trigger] ops.ray_update(
                    system_matrix@[k],
                    projections@[k],
                    states[k],
                    states[k + 1],
                ),
            ops.neutral_factors() ==> volume@ == start,
            forall|j: int|
                0 <= j < start.len() && #[trigger] ops.crossed_by_none(system_matrix@, j)
                    ==> volume@[j] == start[j],
        decreases m - i,
    {
        let row = system_matrix.row(i);
        let ghost before = volume@;
        update_ray(ops, row, projections[i], volume);
        proof {
            if ops.neutral_factors() {
                lemma_neutral_ray(ops, row@, projections@[i as int], before, volume@);
            }
            assert forall|j: int|
                0 <= j < start.len() && #[trigger] ops.crossed_by_none(system_matrix@, j)
                    implies volume@[j] == start[j] by {
                assert(system_matrix@[i as int][j] == row@[j]);
                lemma_unweighted_voxel_kept(ops, row@, projections@[i as int], before, volume@, j);
            }
            states = states.push(volume@);
        }
        i += 1;
    }
    assert(ops.pass_trace(system_matrix@, projections@, states));
}

/// Reconstructs a volume from `projections` and `system_matrix`: starts from
/// `ops.one` in every voxel and runs `n_iters` passes of [`mart_step`].
/// Fails, before any update, when the matrix has not one row per
/// measurement.
pub fn mart_reconstruct<T: Copy, D, K, W, F, S>(
    ops: &MartOps<T, D, K, W, F, S>,
    projections: &Vec<T>,
    system_matrix: &DenseMatrix<T>,
    n_iters: usize,
) -> (r: Result<Vec<T>, ReconError>) where
    D: Fn(T, T, T) -> T,
    K: Fn(T) -> bool,
    W: Fn(T) -> bool,
    F: Fn(T, T) -> T,
    S: Fn(T, T) -> T,

    requires
        ops.callable(),
        system_matrix.wf(),
    ensures
        r is Err <==> projections@.len() != system_matrix@.len(),
        match r {
            Ok(x) => {
                &&& x@.len() == system_matrix.spec_cols()
                &&& ops.reconstructs(
                    system_matrix@,
                    projections@,
                    system_matrix.spec_cols(),
                    n_iters as nat,
                    x@,
                )
                &&& n_iters == 0 ==> x@ == uniform(system_matrix.spec_cols(), ops.one)
                &&& ops.neutral_factors() ==> x@ == uniform(system_matrix.spec_cols(), ops.one)
                &&& forall|j: int|
                    0 <= j < x@.len() && #[trigger] ops.crossed_by_none(system_matrix@, j) ==> x@[j] == ops.one
            },
            Err(e) => e == ReconError::DimensionMismatch {
                measurements: projections@.len() as usize,
                rows: system_matrix@.len() as usize,
            },
        },
{
    let m = system_matrix.n_rows();
    if projections.len() != m {
        return Err(ReconError::DimensionMismatch { measurements: projections.len(), rows: m });
    }
    let n = system_matrix.n_cols();
    let mut volume: Vec<T> = Vec::new();
    let mut j: usize = 0;
    while j < n
        invariant
            j <= n,
            volume@ == uniform(j as nat, ops.one),
        decreases n - j,
    {
        volume.push(ops.one);
        j += 1;
        assert(volume@ =~= uniform(j as nat, ops.one));
    }
    let ghost init = volume@;
    let ghost mut volumes: Seq<Seq<T>> = seq![volume@];
    let mut p: usize = 0;
    while p < n_iters
        invariant
            m == system_matrix@.len() == projections@.len(),
            n == system_matrix.spec_cols(),
            system_matrix.wf(),
            ops.callable(),
            p <= n_iters,
            init == uniform(n as nat, ops.one),
            volume@.len() == n,
            volumes.len() == p + 1,
            volumes[0] == init,
            volumes.last() == volume@,
            forall|k: int|
                0 <= k < p ==> #[trigger] ops.pass_update(
                    system_matrix@,
                    projections@,
                    volumes[k],
                    volumes[k + 1],
                ),
            ops.neutral_factors() ==> volume@ == init,
            forall|j: int|
                0 <= j < n && #[trigger] ops.crossed_by_none(system_matrix@, j) ==> volume@[j] == ops.one,
        decreases n_iters - p,
    {
        mart_step(ops, projections, system_matrix, &mut volume);
        proof {
            volumes = volumes.push(volume@);
        }
        p += 1;
    }
    assert(ops.solve_trace(system_matrix@, projections@, n as nat, n_iters as nat, volumes));
    Ok(volume)
}

/// When every correction leaves voxels as they are, a ray leaves the whole
/// volume as it is.
pub proof fn lemma_neutral_ray<T, D, K, W, F, S>(
    ops: &MartOps<T, D, K, W, F, S>,
    row: Seq<T>,
    y: T,
    before: Seq<T>,
    after: Seq<T>,
) where
    D: Fn(T, T, T) -> T,
    K: Fn(T) -> bool,
    W: Fn(T) -> bool,
    F: Fn(T, T) -> T,
    S: Fn(T, T) -> T,

    requires
        ops.ray_update(row, y, before, after),
        ops.neutral_factors(),
    ensures
        after == before,
{
    let p = choose|p: T| #[trigger] ops.predicts(row, before, p) && ops.ray_update_from(row, y, p, before, after);
    if !ops.skips.ensures((p,), true) || after != before {
        let f = choose|f: T| #[trigger] ops.factor.ensures((y, p), f) && ops.corrected(row, f, before, after);
        assert forall|j: int| 0 <= j < before.len() implies after[j] == before[j] by {
            assert(ops.voxel_update(row[j], f, before[j], after[j]));
        }
        assert(after =~= before);
    }
}

} // verus!
