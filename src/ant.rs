//! Ants: the tours they build, the nearest-neighbour tour, and random
//! starting cities.

use crate::city_set::{
    cities_in_order, city_at, city_count, city_order, contains_city, copy_city_set, insert_city,
    new_city_set,
};
use crate::instance_data::{
    lemma_edges_fit, lemma_path_cities, lemma_path_length_bound, max_edge, InstanceData,
};
use indexmap::IndexSet;
use rand::Rng;
use vstd::prelude::*;

verus! {

/// An ant and the tour it has built so far: the cities in the order it
/// visited them, the length travelled, and the city it stands on.
#[derive(Debug)]
pub struct Ant {
    pub tour: IndexSet<usize>,
    pub length: u32,
    pub curr_city: usize,
}

impl Clone for Ant {
    fn clone(&self) -> (r: Ant)
        ensures
            r.cities() == self.cities(),
            r.length == self.length,
            r.curr_city == self.curr_city,
    {
        Ant { tour: copy_city_set(&self.tour), length: self.length, curr_city: self.curr_city }
    }
}

impl Ant {
    /// The visited cities, in order.
    pub open spec fn cities(&self) -> Seq<usize> {
        city_order(self.tour)
    }

    /// The ant has walked a path of distinct cities of `data`, stands on its
    /// last city, and its length is the length of that path.
    pub open spec fn is_walk_of(&self, data: &InstanceData) -> bool {
        &&& self.cities().len() >= 1
        &&& data.is_path(self.cities())
        &&& self.curr_city == self.cities().last()
        &&& self.length == data.path_length(self.cities())
    }

    /// The ant has visited every city of `data` once, and its length is the
    /// length of the closed tour, back to its first city.
    pub open spec fn is_tour_of(&self, data: &InstanceData) -> bool {
        &&& data.is_tour(self.cities())
        &&& self.curr_city == self.cities().last()
        &&& self.length == data.tour_length(self.cities())
    }

    /// An ant that has visited nothing yet.
    pub fn new(data_size: usize) -> (r: Ant)
        ensures
            r.cities() == Seq::<usize>::empty(),
            r.length == 0,
            r.curr_city == 0,
    {
        Ant { tour: new_city_set(data_size), length: 0, curr_city: 0 }
    }

    /// An ant standing on `starting_city`, which it has visited.
    pub fn new_on_city(data_size: usize, starting_city: usize) -> (r: Ant)
        ensures
            r.cities() == seq![starting_city],
            r.length == 0,
            r.curr_city == starting_city,
    {
        let mut a = Self::new(data_size);
        a.insert(starting_city, 0);
        assert(a.cities() =~= seq![starting_city]);
        a
    }

    /// Moves the ant to `new_node` over an edge of `connection_length`;
    /// the city is added to the tour unless it is already there.
    pub fn insert(&mut self, new_node: usize, connection_length: u32)
        requires
            old(self).length + connection_length <= u32::MAX,
        ensures
            final(self).curr_city == new_node,
            final(self).cities() == if old(self).cities().contains(new_node) {
                old(self).cities()
            } else {
                old(self).cities().push(new_node)
            },
            final(self).length == old(self).length + connection_length,
    {
        self.curr_city = new_node;
        insert_city(&mut self.tour, new_node);
        self.length = self.length + connection_length;
    }

    /// The first city of the tour.
    pub fn get_first(&self) -> (r: usize)
        requires
            self.cities().len() >= 1,
        ensures
            r == self.cities()[0],
    {
        city_at(&self.tour, 0).unwrap()
    }

    /// The last city of the tour.
    pub fn get_last(&self) -> (r: usize)
        requires
            self.cities().len() >= 1,
        ensures
            r == self.cities().last(),
    {
        let n = city_count(&self.tour);
        city_at(&self.tour, n - 1).unwrap()
    }

    /// The last edge of the tour: its last two cities.
    pub fn get_last_arc(&self) -> (r: (usize, usize))
        requires
            self.cities().len() >= 2,
        ensures
            r == (self.cities()[self.cities().len() - 2], self.cities().last()),
    {
        let n = city_count(&self.tour);
        (city_at(&self.tour, n - 2).unwrap(), self.get_last())
    }

    /// The cities of the tour, in order.
    pub fn tour_cities(&self) -> (r: Vec<usize>)
        ensures
            r@ == self.cities(),
    {
        cities_in_order(&self.tour)
    }

    /// The cities of `data` that the ant has not visited, in increasing order.
    pub fn unvisited(&self, data: &InstanceData) -> (r: Vec<usize>)
        ensures
            forall|k: int| 0 <= k < r.len() ==> #[trigger] r[k] < data.size,
            forall|a: int, b: int| 0 <= a < b < r.len() ==> r[a] < r[b],
            forall|c: usize| c < data.size ==> (r@.contains(c) <==> !self.cities().contains(c)),
    {
        let mut r: Vec<usize> = Vec::new();
        let mut c: usize = 0;
        while c < data.size
            invariant
                c <= data.size,
                forall|k: int| 0 <= k < r.len() ==> #[trigger] r[k] < c,
                forall|a: int, b: int| 0 <= a < b < r.len() ==> r[a] < r[b],
                forall|d: usize| d < c ==> (r@.contains(d) <==> !self.cities().contains(d)),
            decreases data.size - c,
        {
            let ghost before = r@;
            if !contains_city(&self.tour, c) {
                r.push(c);
                assert forall|d: usize| d < c implies (r@.contains(d) <==> before.contains(d)) by {
                    if before.contains(d) {
                        let k = choose|k: int| 0 <= k < before.len() && before[k] == d;
                        assert(r@[k] == d);
                    }
                }
                assert(r@[r.len() - 1] == c);
            }
            c = c + 1;
        }
        r
    }
}

impl Ant {
    /// Moves the ant from its city to the unvisited `city` of `data`, adding
    /// the distance between them to its length.
    pub fn step_to(&mut self, data: &InstanceData, city: usize)
        requires
            data.wf(),
            old(self).is_walk_of(data),
            city < data.size,
            !old(self).cities().contains(city),
        ensures
            final(self).is_walk_of(data),
            final(self).cities() == old(self).cities().push(city),
            final(self).length == old(self).length + data.dist(old(self).curr_city as int, city as int),
    {
        let ghost t = self.cities();
        proof {
            lemma_path_cities(data, t);
            lemma_path_length_bound(data, t);
            lemma_edges_fit(data.size as int, t.len() as int);
            assert((t.len() - 1) * max_edge(data.size as int) + max_edge(data.size as int) == t.len()
                * max_edge(data.size as int)) by (nonlinear_arith);
        }
        assert(t[t.len() - 1] == self.curr_city);
        assert(self.curr_city != city);
        assert(t.len() < data.size) by {
            assert(!t.contains(city as int as usize));
        }
        assert(data.dist(self.curr_city as int, city as int) <= max_edge(data.size as int));
        let d = data.distances[(self.curr_city, city)];
        self.insert(city, d);
        proof {
            let u = self.cities();
            assert(u.drop_last() =~= t);
            assert(u[u.len() - 2] == t.last());
            assert forall|k: int| 0 <= k < u.len() implies #[trigger] u[k] < data.size by {
                if k < t.len() {
                    assert(u[k] == t[k]);
                }
            }
        }
    }

    /// Adds the edge from the last city back to the first to the length of
    /// an ant that has visited every city of `data`.
    pub fn close_tour(&mut self, data: &InstanceData)
        requires
            data.wf(),
            old(self).is_walk_of(data),
            old(self).cities().len() == data.size,
        ensures
            final(self).is_tour_of(data),
            final(self).cities() == old(self).cities(),
    {
        let ghost t = self.cities();
        proof {
            lemma_path_length_bound(data, t);
            lemma_edges_fit(data.size as int, t.len() as int);
            assert((t.len() - 1) * max_edge(data.size as int) + max_edge(data.size as int) == t.len()
                * max_edge(data.size as int)) by (nonlinear_arith);
            assert(t[0] != t.last());
        }
        let first = self.get_first();
        let last = self.get_last();
        assert(data.dist(last as int, first as int) <= max_edge(data.size as int));
        self.length = self.length + data.distances[(last, first)];
    }
}

/// Relies on `rand::thread_rng` and `Rng::gen_range` (rand 0.7): a value
/// drawn below `n`; `gen_range` panics on an empty range.
#[verifier::external_body]
fn random_city(n: usize) -> (r: usize)
    requires
        n > 0,
    ensures
        r < n,
{
    rand::thread_rng().gen_range(0, n)
}

/// `num_ants` ants, each standing on a city of `data_size` drawn at random,
/// with length 0.
pub fn create_ants(num_ants: usize, data_size: usize) -> (r: Vec<Ant>)
    requires
        data_size > 0,
    ensures
        r.len() == num_ants,
        forall|k: int|
            0 <= k < num_ants ==> {
                &&& (#[trigger] r[k]).cities().len() == 1
                &&& r[k].cities()[0] < data_size
                &&& r[k].curr_city == r[k].cities()[0]
                &&& r[k].length == 0
            },
{
    let mut v: Vec<Ant> = Vec::with_capacity(num_ants);
    let mut i: usize = 0;
    while i < num_ants
        invariant
            data_size > 0,
            i <= num_ants,
            v.len() == i,
            forall|k: int|
                0 <= k < i ==> {
                    &&& (#[trigger] v[k]).cities().len() == 1
                    &&& v[k].cities()[0] < data_size
                    &&& v[k].curr_city == v[k].cities()[0]
                    &&& v[k].length == 0
                },
        decreases num_ants - i,
    {
        let starting_city = random_city(data_size);
        v.push(Ant::new_on_city(data_size, starting_city));
        i = i + 1;
    }
    v
}

/// `j` is the city of `data` nearest to `c` among those not in `visited`,
/// the first one in index order among equally near ones.
pub open spec fn is_nearest_unvisited(data: &InstanceData, c: int, visited: Seq<usize>, j: int) -> bool {
    &&& 0 <= j < data.size
    &&& !visited.contains(j as usize)
    &&& forall|k: int|
        0 <= k < data.size && !visited.contains(k as usize) ==> data.dist(c, j) <= #[trigger] data.dist(
            c,
            k,
        ) && (k < j ==> data.dist(c, j) < data.dist(c, k))
}

/// `t` is the nearest-neighbour tour of `data` from `start`: it starts
/// there, visits every city, and moves each time to the nearest city that it
/// has not visited yet.
pub open spec fn is_nearest_neighbour_tour(data: &InstanceData, start: int, t: Seq<usize>) -> bool {
    &&& t.len() == data.size
    &&& t.len() >= 1
    &&& t[0] == start
    &&& forall|k: int|
        1 <= k < t.len() ==> is_nearest_unvisited(data, t[k - 1] as int, t.take(k), #[trigger] t[k] as int)
}

/// The first `i` cities hold an unvisited one, and `j` is the nearest to `c`
/// among them (the first on ties).
spec fn nearest_among_first(data: &InstanceData, c: int, visited: Seq<usize>, j: int, i: int) -> bool {
    &&& 0 <= j < i
    &&& !visited.contains(j as usize)
    &&& forall|k: int|
        0 <= k < i && !visited.contains(k as usize) ==> data.dist(c, j) <= #[trigger] data.dist(c, k)
            && (k < j ==> data.dist(c, j) < data.dist(c, k))
}

/// The length of the nearest-neighbour tour of `data` from `starting_city`.
pub fn nearest_neighbour_tour(data: &InstanceData, starting_city: usize) -> (r: u32)
    requires
        data.wf(),
        starting_city < data.size,
    ensures
        exists|t: Seq<usize>|
            #[trigger] is_nearest_neighbour_tour(data, starting_city as int, t) && data.is_tour(t)
                && r == data.tour_length(t),
{
    let n = data.size;
    let mut ant = Ant::new_on_city(n, starting_city);
    let mut next: usize = starting_city;
    let mut next_length: u32 = u32::MAX;
    while city_count(&ant.tour) != n
        invariant
            data.wf(),
            n == data.size,
            ant.is_walk_of(data),
            ant.cities()[0] == starting_city,
            forall|k: int|
                1 <= k < ant.cities().len() ==> is_nearest_unvisited(
                    data,
                    ant.cities()[k - 1] as int,
                    ant.cities().take(k),
                    #[trigger] ant.cities()[k] as int,
                ),
            next_length == u32::MAX,
        decreases n - ant.cities().len(),
    {
        let ghost t = ant.cities();
        let curr = ant.curr_city;
        proof {
            lemma_path_cities(data, t);
        }
        let mut i: usize = 0;
        while i < n
            invariant
                data.wf(),
                n == data.size,
                ant.cities() == t,
                curr == ant.curr_city,
                curr < n,
                t.contains(curr),
                i <= n,
                next_length == u32::MAX ==> forall|k: int| 0 <= k < i ==> #[trigger] t.contains(k as usize),
                next_length < u32::MAX ==> nearest_among_first(data, curr as int, t, next as int, i as int)
                    && next_length == data.dist(curr as int, next as int),
            decreases n - i,
        {
            let v = data.distances[(i, curr)];
            assert(data.dist(i as int, curr as int) == data.dist(curr as int, i as int));
            if !contains_city(&ant.tour, i) && v < next_length {
                next = i;
                next_length = v;
            }
            proof {
                if !t.contains(i) {
                    assert(i != curr);
                    assert(data.dist(curr as int, i as int) <= max_edge(n as int));
                    assert(max_edge(n as int) < u32::MAX) by {
                        vstd::arithmetic::div_mod::lemma_div_is_ordered_by_denominator(u32::MAX as int, 1, n as int);
                        vstd::arithmetic::div_mod::lemma_div_by_self(1);
                        vstd::arithmetic::div_mod::lemma_div_decreases(u32::MAX as int, n as int);
                    }
                }
            }
            i = i + 1;
        }
        assert(next_length < u32::MAX);
        ant.step_to(data, next);
        next_length = u32::MAX;
        proof {
            let u = ant.cities();
            assert forall|k: int| 1 <= k < u.len() implies is_nearest_unvisited(
                data,
                u[k - 1] as int,
                u.take(k),
                #[trigger] u[k] as int,
            ) by {
                if k < t.len() {
                    assert(u.take(k) =~= t.take(k));
                    assert(u[k] == t[k] && u[k - 1] == t[k - 1]);
                } else {
                    assert(u.take(k) =~= t);
                }
            }
        }
    }
    proof {
        lemma_path_cities(data, ant.cities());
    }
    ant.close_tour(data);
    assert(is_nearest_neighbour_tour(data, starting_city as int, ant.cities()));
    ant.length
}

/// The shortest of `results`: the first one among equally short ants.
pub fn find_best(results: &[Ant]) -> (r: &Ant)
    requires
        results@.len() > 0,
    ensures
        exists|i: int|
            0 <= i < results@.len() && *r == results@[i] && (forall|j: int|
                0 <= j < results@.len() ==> r.length <= #[trigger] results@[j].length) && (forall|
                j: int,
            |
                0 <= j < i ==> r.length < #[trigger] results@[j].length),
{
    let mut best: usize = 0;
    let mut k: usize = 1;
    while k < results.len()
        invariant
            results@.len() > 0,
            best < k <= results@.len(),
            forall|j: int| 0 <= j < k ==> results@[best as int].length <= #[trigger] results@[j].length,
            forall|j: int| 0 <= j < best ==> results@[best as int].length < #[trigger] results@[j].length,
        decreases results@.len() - k,
    {
        if results[k].length < results[best].length {
            best = k;
        }
        k = k + 1;
    }
    &results[best]
}

/// On an instance of two cities, a completed tour visits city 0 and city 1,
/// and its length is twice the distance between them.
pub proof fn lemma_two_city_tour(data: &InstanceData, ant: &Ant)
    requires
        data.wf(),
        data.size == 2,
        ant.is_tour_of(data),
    ensures
        ant.cities() == seq![0usize, 1usize] || ant.cities() == seq![1usize, 0usize],
        ant.length == 2 * data.dist(0, 1),
{
    let t = ant.cities();
    assert(t[0] < 2 && t[1] < 2 && t[0] != t[1]);
    if t[0] == 0 {
        assert(t =~= seq![0usize, 1usize]);
    } else {
        assert(t =~= seq![1usize, 0usize]);
    }
    assert(t.drop_last() =~= seq![t[0]]);
    assert(data.path_length(seq![t[0]]) == 0);
    assert(data.path_length(t) == data.dist(t[0] as int, t[1] as int));
    assert(data.dist(1, 0) == data.dist(0, 1));
}

} // verus!
