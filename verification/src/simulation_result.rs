//! The simulated price surface: an owned three-dimensional numeric surface
//! with logical shape `(num_paths, 2, num_points)`, stored as one flat buffer
//! with stride convention `(path, asset, time)`.

use vstd::prelude::*;
use crate::fixed::in_range;

verus! {

/// The fixed asset enumeration of the surface's second axis.
#[derive(Debug, Copy, Clone, PartialEq, Eq, Structural)]
pub enum TollingAssetIndex {
    Gas,
    Power,
}

impl TollingAssetIndex {
    /// Position of the asset on the surface's second axis.
    pub open spec fn spec_idx(self) -> int {
        match self {
            TollingAssetIndex::Gas => 0,
            TollingAssetIndex::Power => 1,
        }
    }

    pub fn idx(self) -> (r: usize)
        ensures
            r == self.spec_idx(),
            r < 2,
    {
        match self {
            TollingAssetIndex::Gas => 0,
            TollingAssetIndex::Power => 1,
        }
    }
}

/// Owns the simulation result and hands out its dimensions, single prices and
/// per-asset slices.
pub struct SimulationResult {
    data: Vec<i64>,
    num_paths: usize,
    num_points: usize,
}

impl SimulationResult {
    /// Shape consistency and representability: the flat buffer holds exactly
    /// `num_paths * 2 * num_points` values, the horizon covers whole days, and
    /// every price is in the fixed-point range.
    pub closed spec fn wf(&self) -> bool {
        &&& self.data@.len() == self.num_paths * 2 * self.num_points
        &&& self.num_points % 24 == 0
        &&& self.num_points >= 24
        &&& forall|i: int| 0 <= i < self.data@.len() ==> in_range(#[trigger] self.data@[i] as int)
    }

    pub closed spec fn spec_num_paths(&self) -> int {
        self.num_paths as int
    }

    pub closed spec fn spec_num_points(&self) -> int {
        self.num_points as int
    }

    /// The price of `asset` on `path` at time point `t`.
    pub closed spec fn price_spec(&self, path: int, asset: int, t: int) -> i64 {
        self.data@[path * 2 * self.num_points + asset * self.num_points + t]
    }

    /// One asset's path, as a sequence over time points.
    pub closed spec fn row(&self, path: int, asset: int) -> Seq<i64> {
        self.data@.subrange(
            path * 2 * self.num_points + asset * self.num_points,
            path * 2 * self.num_points + asset * self.num_points + self.num_points,
        )
    }

    /// The dimension facts a well-formed surface guarantees, for callers
    /// that cannot see the private fields.
    pub proof fn lemma_wf_dims(&self)
        requires
            self.wf(),
        ensures
            self.spec_num_points() % 24 == 0,
            24 <= self.spec_num_points() <= usize::MAX,
            0 <= self.spec_num_paths(),
            self.spec_num_paths() * 48 <= usize::MAX,
            forall|path: int, asset: int, t: int|
                0 <= path < self.spec_num_paths() && 0 <= asset < 2 && 0 <= t
                    < self.spec_num_points() ==> in_range(
                    #[trigger] self.price_spec(path, asset, t) as int,
                ),
    {
        vstd::std_specs::vec::axiom_spec_len(&self.data);
        assert(self.data@.len() <= usize::MAX);
        assert(self.spec_num_paths() * 48 <= self.spec_num_paths() * 2 * self.spec_num_points())
            by (nonlinear_arith)
            requires
                self.spec_num_points() >= 24,
                self.spec_num_paths() >= 0,
        ;
        assert(self.spec_num_paths() * 2 * self.spec_num_points() == self.data@.len())
            by (nonlinear_arith)
            requires
                self.data@.len() == (self.num_paths as int) * 2 * (self.num_points as int),
                self.spec_num_paths() == self.num_paths as int,
                self.spec_num_points() == self.num_points as int,
        ;
        assert forall|path: int, asset: int, t: int|
            0 <= path < self.spec_num_paths() && 0 <= asset < 2 && 0 <= t
                < self.spec_num_points() implies in_range(
            #[trigger] self.price_spec(path, asset, t) as int,
        ) by {
            lemma_flat_index_bounds(
                path,
                asset,
                t,
                self.num_paths as int,
                self.num_points as int,
            );
        };
    }

    pub proof fn lemma_row_index(&self, path: int, asset: int, t: int)
        requires
            0 <= path < self.spec_num_paths(),
            0 <= asset < 2,
            0 <= t < self.spec_num_points(),
            self.wf(),
        ensures
            self.row(path, asset)[t] == self.price_spec(path, asset, t),
    {
        lemma_flat_index_bounds(
            path,
            asset,
            t,
            self.num_paths as int,
            self.num_points as int,
        );
    }

    pub fn new(data: Vec<i64>, num_paths: usize, num_points: usize) -> (result: Self)
        requires
            data@.len() == num_paths * 2 * num_points,
            num_points % 24 == 0,
            num_points >= 24,
            forall|i: int| 0 <= i < data@.len() ==> in_range(#[trigger] data@[i] as int),
        ensures
            result.wf(),
            result.spec_num_paths() == num_paths,
            result.spec_num_points() == num_points,
            forall|path: int, asset: int, t: int|
                0 <= path < num_paths && 0 <= asset < 2 && 0 <= t < num_points
                    ==> #[trigger] result.price_spec(path, asset, t) == data@[
                    path * 2 * num_points + asset * num_points + t],
    {
        SimulationResult { data, num_paths, num_points }
    }

    pub fn num_paths(&self) -> (r: usize)
        ensures
            r == self.spec_num_paths(),
    {
        self.num_paths
    }

    pub fn num_points(&self) -> (r: usize)
        ensures
            r == self.spec_num_points(),
    {
        self.num_points
    }

    /// A single price of the surface.
    pub fn price(&self, path: usize, asset: usize, t: usize) -> (r: i64)
        requires
            self.wf(),
            path < self.spec_num_paths(),
            asset < 2,
            t < self.spec_num_points(),
        ensures
            r == self.price_spec(path as int, asset as int, t as int),
            in_range(r as int),
    {
        proof {
            vstd::std_specs::vec::axiom_spec_len(&self.data);
            lemma_flat_index_bounds(
                path as int,
                asset as int,
                t as int,
                self.num_paths as int,
                self.num_points as int,
            );
        }
        self.data[path * 2 * self.num_points + asset * self.num_points + t]
    }

    /// One asset's data across all paths, copied out flat and path-major:
    /// entry `p * num_points + t` is the price on path `p` at time `t`.
    pub fn get_asset_data(&self, asset: usize) -> (r: Vec<i64>)
        requires
            self.wf(),
            asset < 2,
        ensures
            r@.len() == self.spec_num_paths() * self.spec_num_points(),
            forall|p: int, t: int|
                0 <= p < self.spec_num_paths() && 0 <= t < self.spec_num_points()
                    ==> r@[p * self.spec_num_points() + t] == #[trigger] self.price_spec(
                    p,
                    asset as int,
                    t,
                ),
    {
        let mut out: Vec<i64> = Vec::new();
        let mut p: usize = 0;
        while p < self.num_paths
            invariant
                self.wf(),
                asset < 2,
                p <= self.num_paths,
                out@.len() == p * self.num_points,
                forall|q: int, t: int|
                    0 <= q < p && 0 <= t < self.spec_num_points()
                        ==> out@[q * self.spec_num_points() + t] == #[trigger] self.price_spec(
                        q,
                        asset as int,
                        t,
                    ),
            decreases self.num_paths - p,
        {
            let mut t: usize = 0;
            while t < self.num_points
                invariant
                    self.wf(),
                    asset < 2,
                    p < self.num_paths,
                    t <= self.num_points,
                    out@.len() == p * self.num_points + t,
                    forall|q: int, s: int|
                        0 <= q < p && 0 <= s < self.spec_num_points()
                            ==> out@[q * self.spec_num_points() + s] == #[trigger] self.price_spec(
                            q,
                            asset as int,
                            s,
                        ),
                    forall|s: int|
                        0 <= s < t ==> out@[p * self.spec_num_points() + s]
                            == #[trigger] self.price_spec(p as int, asset as int, s),
                decreases self.num_points - t,
            {
                let v = self.price(p, asset, t);
                out.push(v);
                t = t + 1;
                proof {
                    assert forall|q: int, s: int|
                        0 <= q < p && 0 <= s < self.spec_num_points() implies out@[
                        q * self.spec_num_points() + s] == self.price_spec(
                        q,
                        asset as int,
                        s,
                    ) by {
                        lemma_rowmajor_bound(q, s, p as int, self.spec_num_points());
                    };
                    assert forall|s: int| 0 <= s < t implies out@[p * self.spec_num_points() + s]
                        == self.price_spec(p as int, asset as int, s) by {
                        lemma_rowmajor_bound(p as int, s, p + 1, self.spec_num_points());
                    };
                }
            }
            p = p + 1;
            proof {
                assert(out@.len() == (p - 1) * self.num_points + self.num_points);
                assert((p - 1) * (self.num_points as int) + self.num_points
                    == p * self.num_points) by (nonlinear_arith);
            }
        }
        out
    }

    /// All simulated gas paths, path-major.
    pub fn gas_prices(&self) -> (r: Vec<i64>)
        requires
            self.wf(),
        ensures
            r@.len() == self.spec_num_paths() * self.spec_num_points(),
            forall|p: int, t: int|
                0 <= p < self.spec_num_paths() && 0 <= t < self.spec_num_points()
                    ==> r@[p * self.spec_num_points() + t] == #[trigger] self.price_spec(p, 0, t),
    {
        self.get_asset_data(TollingAssetIndex::Gas.idx())
    }

    /// All simulated power paths, path-major.
    pub fn power_prices(&self) -> (r: Vec<i64>)
        requires
            self.wf(),
        ensures
            r@.len() == self.spec_num_paths() * self.spec_num_points(),
            forall|p: int, t: int|
                0 <= p < self.spec_num_paths() && 0 <= t < self.spec_num_points()
                    ==> r@[p * self.spec_num_points() + t] == #[trigger] self.price_spec(p, 1, t),
    {
        self.get_asset_data(TollingAssetIndex::Power.idx())
    }
}

/// A path-major flat index stays below the rows that follow it.
proof fn lemma_rowmajor_bound(q: int, s: int, p: int, np: int)
    requires
        0 <= q < p,
        0 <= s < np,
    ensures
        0 <= q * np + s < p * np,
        q * np + s < q * np + np,
{
    assert(0 <= q * np + s && q * np + s < p * np) by (nonlinear_arith)
        requires
            0 <= q < p,
            0 <= s < np,
    ;
}

/// The flat index of `(path, asset, t)` stays inside the buffer.
proof fn lemma_flat_index_bounds(path: int, asset: int, t: int, num_paths: int, num_points: int)
    requires
        0 <= path < num_paths,
        0 <= asset < 2,
        0 <= t < num_points,
    ensures
        0 <= path * 2 * num_points + asset * num_points + t,
        path * 2 * num_points + asset * num_points + t + (num_points - t)
            <= num_paths * 2 * num_points,
        path * 2 <= path * 2 * num_points,
        0 <= path * 2 * num_points <= path * 2 * num_points + asset * num_points
            <= path * 2 * num_points + asset * num_points + t,
{
    assert(0 <= path * 2 * num_points + asset * num_points + t
        && path * 2 * num_points + asset * num_points + num_points
            <= num_paths * 2 * num_points
        && path * 2 <= path * 2 * num_points
        && 0 <= path * 2 * num_points
        && path * 2 * num_points <= path * 2 * num_points + asset * num_points)
        by (nonlinear_arith)
        requires
            0 <= path < num_paths,
            0 <= asset < 2,
            0 <= t < num_points,
    ;
}

} // verus!
