//! A TSP instance: its size and the matrix of integer distances.

use crate::distance::{
    euc_2d, is_rounded_sqrt, lemma_rounded_sqrt_unique, lemma_squared_distance_symmetric,
    squared_distance,
};
use crate::matrix::{lemma_cell_in_bounds, lemma_cell_index_injective, Matrix};
use vstd::prelude::*;
use vstd::set_lib::{lemma_int_range, lemma_len_subset, set_int_range};

verus! {

pub type IntegerMatrix = Matrix<u32>;

/// An instance as read from a file: its header and its data.
pub struct FileData {
    pub metadata: Metadata,
    pub data: InstanceData,
}

/// `size` cities and the distance between each ordered pair of them; the
/// distance from a city to itself is `u32::MAX`.
pub struct InstanceData {
    pub size: usize,
    pub distances: IntegerMatrix,
}

/// How the cities of an instance file are described.
#[allow(non_camel_case_types)]
pub enum DataDescriptionType {
    NODE_COORD_SECTION,
}

/// How the distances of an instance file are computed from its cities.
#[allow(non_camel_case_types)]
pub enum EdgeWeightType {
    EUC_2D,
}

/// The header of an instance file.
#[derive(Default)]
pub struct Metadata {
    pub name: String,
    pub edge_weight_type: Option<EdgeWeightType>,
}

/// Why cities cannot make an instance.
#[derive(Debug, PartialEq, Eq, Structural)]
pub enum DataError {
    /// Fewer than two cities.
    TooFewCities,
    /// More cities than a matrix of all their distances can index.
    TooManyCities,
    /// Two cities are so far apart that their squared distance exceeds
    /// `i32::MAX`, or their distance `d` has `d * size > u32::MAX`, so that a
    /// tour could overflow the `u32` in which its length is kept.
    EdgeTooLong,
}

/// The square root of `d`, rounded to the nearest integer.
pub open spec fn rounded_sqrt(d: int) -> int {
    choose|r: int| is_rounded_sqrt(d, r)
}

/// The distance from the city at `nodes[y]` to the city at `nodes[x]` can
/// be computed and fits an instance of `nodes.len()` cities.
pub open spec fn edge_fits(nodes: Seq<(i32, i32)>, x: int, y: int) -> bool {
    let d = squared_distance(nodes[y], nodes[x]);
    d <= i32::MAX && rounded_sqrt(d) <= max_edge(nodes.len() as int)
}

/// Why the cities at `nodes` make no instance, if they do not.
pub open spec fn coordinates_error(nodes: Seq<(i32, i32)>) -> Option<DataError> {
    if nodes.len() < 2 {
        Some(DataError::TooFewCities)
    } else if nodes.len() * nodes.len() > usize::MAX {
        Some(DataError::TooManyCities)
    } else if exists|x: int, y: int|
        0 <= x < nodes.len() && 0 <= y < nodes.len() && x != y && !#[trigger] edge_fits(nodes, x, y) {
        Some(DataError::EdgeTooLong)
    } else {
        None
    }
}

/// The largest distance between two cities of an instance of `size` cities
/// for which every closed tour has a length that fits in a `u32`.
pub open spec fn max_edge(size: int) -> int {
    u32::MAX as int / size
}

/// The length of the path through the cities of `t` in order, with the
/// distance from `i` to `j` in cell `(i, j)` of `d`.
pub open spec fn path_length_in(d: IntegerMatrix, t: Seq<usize>) -> int
    decreases t.len(),
{
    if t.len() <= 1 {
        0
    } else {
        path_length_in(d, t.drop_last()) + d.at(t[t.len() - 2] as int, t.last() as int) as int
    }
}

/// The length of the closed tour through the cities of `t`: the path and the
/// edge from its last city back to its first.
pub open spec fn tour_length_in(d: IntegerMatrix, t: Seq<usize>) -> int {
    path_length_in(d, t) + d.at(t.last() as int, t[0] as int) as int
}

/// A path is no longer than any path that extends it.
pub proof fn lemma_path_prefix(d: IntegerMatrix, t: Seq<usize>, k: int)
    requires
        0 <= k <= t.len(),
    ensures
        path_length_in(d, t.take(k)) <= path_length_in(d, t),
    decreases t.len() - k,
{
    if k < t.len() {
        lemma_path_prefix(d, t, k + 1);
        let u = t.take(k + 1);
        if k >= 1 {
            assert(u.drop_last() =~= t.take(k));
        } else {
            assert(t.take(k).len() == 0);
            lemma_path_nonneg(d, u);
        }
    } else {
        assert(t.take(k) =~= t);
    }
}

proof fn lemma_path_nonneg(d: IntegerMatrix, t: Seq<usize>)
    ensures
        path_length_in(d, t) >= 0,
    decreases t.len(),
{
    if t.len() > 1 {
        lemma_path_nonneg(d, t.drop_last());
    }
}

/// The length of the closed tour through the cities of `tour`, the
/// distances being those of `distances`.
pub fn value_of_tour(distances: &IntegerMatrix, tour: &[usize]) -> (r: u32)
    requires
        distances.wf(),
        tour@.len() >= 1,
        forall|k: int| 0 <= k < tour@.len() ==> #[trigger] tour@[k] < distances.dim(),
        tour_length_in(*distances, tour@) <= u32::MAX,
    ensures
        r == tour_length_in(*distances, tour@),
{
    let ghost t = tour@;
    let n = tour.len();
    let mut length: u32 = 0;
    let mut k: usize = 1;
    proof {
        lemma_path_nonneg(*distances, t);
    }
    while k < n
        invariant
            distances.wf(),
            t == tour@,
            n == t.len() >= 1,
            1 <= k <= n,
            forall|m: int| 0 <= m < t.len() ==> #[trigger] t[m] < distances.dim(),
            length == path_length_in(*distances, t.take(k as int)),
            path_length_in(*distances, t) + distances.at(t.last() as int, t[0] as int) <= u32::MAX,
            path_length_in(*distances, t) >= 0,
        decreases n - k,
    {
        proof {
            lemma_path_prefix(*distances, t, k + 1);
            assert(t.take(k + 1).drop_last() =~= t.take(k as int));
        }
        length = length + distances[(tour[k - 1], tour[k])];
        k = k + 1;
    }
    proof {
        assert(t.take(n as int) =~= t);
    }
    length + distances[(tour[n - 1], tour[0])]
}

impl InstanceData {
    /// The distance from city `i` to city `j`, `distances[(i, j)]`.
    pub open spec fn dist(&self, i: int, j: int) -> int {
        self.distances.at(i, j) as int
    }

    /// At least two cities, `u32::MAX` on the diagonal, symmetric distances,
    /// and no distance between two cities above `max_edge(size)`.
    pub open spec fn wf(&self) -> bool {
        &&& self.distances.wf()
        &&& self.distances.dim() == self.size
        &&& self.size >= 2
        &&& forall|i: int| 0 <= i < self.size ==> #[trigger] self.dist(i, i) == u32::MAX
        &&& forall|i: int, j: int|
            0 <= i < self.size && 0 <= j < self.size ==> #[trigger] self.dist(i, j) == self.dist(
                j,
                i,
            )
        &&& forall|i: int, j: int|
            0 <= i < self.size && 0 <= j < self.size && i != j ==> #[trigger] self.dist(i, j)
                <= max_edge(self.size as int)
    }

    /// The length of the path through the cities of `t` in order.
    pub open spec fn path_length(&self, t: Seq<usize>) -> int {
        path_length_in(self.distances, t)
    }

    /// The length of the closed tour through the cities of `t`: the path and
    /// the edge from its last city back to its first.
    pub open spec fn tour_length(&self, t: Seq<usize>) -> int {
        tour_length_in(self.distances, t)
    }

    /// `t` visits distinct cities of the instance.
    pub open spec fn is_path(&self, t: Seq<usize>) -> bool {
        &&& t.no_duplicates()
        &&& forall|k: int| 0 <= k < t.len() ==> #[trigger] t[k] < self.size
    }

    /// `t` visits every city of the instance exactly once.
    pub open spec fn is_tour(&self, t: Seq<usize>) -> bool {
        self.is_path(t) && t.len() == self.size
    }

    /// The instance whose distances are the rounded Euclidean distances
    /// between the points of `nodes`, city `k` being `nodes[k]`.
    pub open spec fn is_euc_2d_of(&self, nodes: Seq<(i32, i32)>) -> bool {
        &&& self.size == nodes.len()
        &&& forall|x: int, y: int|
            0 <= x < nodes.len() && 0 <= y < nodes.len() && x != y ==> is_rounded_sqrt(
                squared_distance(nodes[y], nodes[x]),
                #[trigger] self.dist(x, y),
            )
    }

    /// Builds the instance of the cities at `nodes` with `EUC_2D` distances.
    pub fn from_coordinates(nodes: &Vec<(i32, i32)>) -> (r: Result<InstanceData, DataError>)
        ensures
            r is Err <==> coordinates_error(nodes@) is Some,
            r is Err ==> r->Err_0 == coordinates_error(nodes@)->Some_0,
            r is Ok ==> r->Ok_0.wf() && r->Ok_0.is_euc_2d_of(nodes@),
    {
        let n = nodes.len();
        if n < 2 {
            return Err(DataError::TooFewCities);
        }
        if n.checked_mul(n).is_none() {
            return Err(DataError::TooManyCities);
        }
        let bound: u32 = (u32::MAX as usize / n) as u32;
        let mut distances: IntegerMatrix = Matrix::with_capacity(n);
        let mut y: usize = 0;
        while y < n
            invariant
                n == nodes.len() >= 2,
                n * n <= usize::MAX,
                bound == max_edge(n as int),
                0 <= y <= n,
                distances.dim() == n,
                distances.cells().len() == y * n,
                forall|x: int, yy: int|
                    0 <= x < n && 0 <= yy < n && yy * n + x < distances.cells().len()
                        ==> cell_built(nodes@, x, yy, #[trigger] distances.cells()[yy * n + x]),
            decreases n - y,
        {
            let mut x: usize = 0;
            while x < n
                invariant
                    n == nodes.len() >= 2,
                    n * n <= usize::MAX,
                    bound == max_edge(n as int),
                    0 <= y < n,
                    0 <= x <= n,
                    distances.dim() == n,
                    distances.cells().len() == y * n + x,
                    forall|xx: int, yy: int|
                        0 <= xx < n && 0 <= yy < n && yy * n + xx < distances.cells().len()
                            ==> cell_built(nodes@, xx, yy, #[trigger] distances.cells()[yy * n + xx]),
                decreases n - x,
            {
                let v: u32 = if x == y {
                    u32::MAX
                } else {
                    let (p, q) = (nodes[y], nodes[x]);
                    let dx: i128 = p.0 as i128 - q.0 as i128;
                    let dy: i128 = p.1 as i128 - q.1 as i128;
                    proof {
                        assert(dx * dx <= 0x1_0000_0000_0000_0000 && dy * dy <= 0x1_0000_0000_0000_0000)
                            by (nonlinear_arith)
                            requires
                                -0x1_0000_0000 <= dx <= 0x1_0000_0000,
                                -0x1_0000_0000 <= dy <= 0x1_0000_0000,
                        ;
                        assert(dx * dx >= 0 && dy * dy >= 0) by (nonlinear_arith);
                    }
                    if dx * dx + dy * dy > i32::MAX as i128 {
                        assert(!edge_fits(nodes@, x as int, y as int));
                        return Err(DataError::EdgeTooLong);
                    }
                    let d = euc_2d(p, q);
                    proof {
                        lemma_rounded_sqrt_unique(squared_distance(p, q), d as int, rounded_sqrt(squared_distance(p, q)));
                    }
                    if d > bound {
                        assert(!edge_fits(nodes@, x as int, y as int));
                        return Err(DataError::EdgeTooLong);
                    }
                    d
                };
                proof {
                    lemma_cell_in_bounds(n as int, x as int, y as int);
                }
                let ghost before = distances.cells();
                distances.push(v);
                proof {
                    assert forall|xx: int, yy: int|
                        0 <= xx < n && 0 <= yy < n && yy * n + xx < distances.cells().len()
                            implies cell_built(nodes@, xx, yy, #[trigger] distances.cells()[yy * n + xx]) by {
                        if yy * n + xx == before.len() {
                            lemma_cell_index_injective(n as int, xx, yy, x as int, y as int);
                        }
                    }
                }
                x = x + 1;
            }
            proof {
                assert((y + 1) * n == y * n + n) by (nonlinear_arith);
            }
            y = y + 1;
        }
        let data = InstanceData { size: n, distances };
        proof {
            assert forall|x: int, yy: int| 0 <= x < n && 0 <= yy < n implies cell_built(nodes@, x, yy, #[trigger] data.dist(x, yy) as u32) by {
                lemma_cell_in_bounds(n as int, x, yy);
            }
            assert forall|i: int, j: int| 0 <= i < n && 0 <= j < n implies #[trigger] data.dist(i, j) == data.dist(j, i) by {
                if i != j {
                    lemma_cell_in_bounds(n as int, i, j);
                    lemma_cell_in_bounds(n as int, j, i);
                    lemma_squared_distance_symmetric(nodes@[i], nodes@[j]);
                    lemma_rounded_sqrt_unique(squared_distance(nodes@[j], nodes@[i]), data.dist(i, j), data.dist(j, i));
                }
            }
        }
        assert forall|x: int, yy: int|
            0 <= x < n && 0 <= yy < n && x != yy implies #[trigger] edge_fits(nodes@, x, yy) by {
            lemma_cell_in_bounds(n as int, x, yy);
            let d = squared_distance(nodes@[yy], nodes@[x]);
            lemma_rounded_sqrt_unique(d, data.dist(x, yy), rounded_sqrt(d));
        }
        Ok(data)
    }
}

/// A path of distinct cities holds at most `size` of them, and fewer
/// exactly when some city is missing from it.
pub proof fn lemma_path_cities(data: &InstanceData, t: Seq<usize>)
    requires
        data.is_path(t),
    ensures
        t.len() <= data.size,
        t.len() < data.size <==> exists|k: int| 0 <= k < data.size && !#[trigger] t.contains(k as usize),
{
    let si = t.map_values(|x: usize| x as int);
    let range = set_int_range(0, data.size as int);
    lemma_int_range(0, data.size as int);
    assert forall|a: int, b: int| 0 <= a < si.len() && 0 <= b < si.len() && a != b implies si[a]
        != si[b] by {
        assert(t[a] != t[b]);
    }
    assert(si.no_duplicates());
    si.unique_seq_to_set();
    assert(si.to_set().subset_of(range)) by {
        assert forall|v: int| si.to_set().contains(v) implies range.contains(v) by {
            let k = choose|k: int| 0 <= k < si.len() && si[k] == v;
            assert(t[k] < data.size);
        }
    }
    lemma_len_subset(si.to_set(), range);
    if forall|k: int| 0 <= k < data.size ==> #[trigger] t.contains(k as usize) {
        assert(range.subset_of(si.to_set())) by {
            assert forall|v: int| range.contains(v) implies si.to_set().contains(v) by {
                assert(t.contains(v as usize));
                let k = choose|k: int| 0 <= k < t.len() && t[k] == v as usize;
                assert(si[k] == v);
            }
        }
        lemma_len_subset(range, si.to_set());
    } else {
        let k = choose|k: int| 0 <= k < data.size && !#[trigger] t.contains(k as usize);
        if t.len() == data.size {
            assert(range.remove(k).len() == data.size - 1);
            assert(si.to_set().subset_of(range.remove(k))) by {
                assert forall|v: int| si.to_set().contains(v) implies range.remove(k).contains(v) by {
                    let i = choose|i: int| 0 <= i < si.len() && si[i] == v;
                    assert(t[i] < data.size);
                    assert(t[i] != k as usize);
                }
            }
            lemma_len_subset(si.to_set(), range.remove(k));
        }
    }
}

/// A path of distinct cities of a well-formed instance is no longer than
/// `max_edge(size)` for each of its edges.
pub proof fn lemma_path_length_bound(data: &InstanceData, t: Seq<usize>)
    requires
        data.wf(),
        data.is_path(t),
        t.len() >= 1,
    ensures
        0 <= data.path_length(t) <= (t.len() - 1) * max_edge(data.size as int),
    decreases t.len(),
{
    if t.len() > 1 {
        let s = t.drop_last();
        assert forall|a: int, b: int| 0 <= a < s.len() && 0 <= b < s.len() && a != b implies s[a]
            != s[b] by {
            assert(t[a] != t[b]);
        }
        assert(forall|k: int| 0 <= k < s.len() ==> #[trigger] s[k] == t[k]);
        lemma_path_length_bound(data, s);
        assert(t[t.len() - 2] != t[t.len() - 1]);
        assert(data.dist(t[t.len() - 2] as int, t.last() as int) <= max_edge(data.size as int));
        assert((t.len() - 2) * max_edge(data.size as int) + max_edge(data.size as int) == (t.len()
            - 1) * max_edge(data.size as int)) by (nonlinear_arith);
    }
}

/// `m <= n` edges of at most `max_edge(n)` fit in a `u32`.
pub proof fn lemma_edges_fit(n: int, m: int)
    requires
        1 <= n,
        0 <= m <= n,
    ensures
        0 <= m * max_edge(n) <= u32::MAX,
{
    let b = max_edge(n);
    vstd::arithmetic::div_mod::lemma_fundamental_div_mod(u32::MAX as int, n);
    vstd::arithmetic::div_mod::lemma_mod_pos_bound(u32::MAX as int, n);
    vstd::arithmetic::div_mod::lemma_div_pos_is_pos(u32::MAX as int, n);
    assert(0 <= m * b <= n * b) by (nonlinear_arith)
        requires
            0 <= m <= n,
            b >= 0,
    ;
}

/// Cell `(x, y)` of the distance matrix of the cities at `nodes`, with
/// every distance between two cities at most `max_edge(nodes.len())`.
spec fn cell_built(nodes: Seq<(i32, i32)>, x: int, y: int, v: u32) -> bool {
    if x == y {
        v == u32::MAX
    } else {
        &&& squared_distance(nodes[y], nodes[x]) <= i32::MAX
        &&& is_rounded_sqrt(squared_distance(nodes[y], nodes[x]), v as int)
        &&& v <= max_edge(nodes.len() as int)
    }
}

} // verus!
