//! The insertion-ordered set of `indexmap` that holds an ant's tour, seen
//! through the sequence of its values.

use indexmap::IndexSet;
use vstd::prelude::*;

verus! {

#[verifier::external_type_specification]
#[verifier::external_body]
#[verifier::reject_recursive_types(T)]
#[verifier::reject_recursive_types(S)]
pub struct ExIndexSet<T, S>(IndexSet<T, S>);

/// The values of a set of cities, in the order in which they were inserted.
pub uninterp spec fn city_order(s: IndexSet<usize>) -> Seq<usize>;

/// Relies on `IndexSet::with_capacity`: a new set holds no value.
#[verifier::external_body]
pub(crate) fn new_city_set(capacity: usize) -> (r: IndexSet<usize>)
    ensures
        city_order(r) == Seq::<usize>::empty(),
{
    IndexSet::with_capacity(capacity)
}

/// Relies on `IndexSet::insert`: a value that is not present is appended
/// and `true` returned; a present one leaves the set as it was and `false`
/// is returned.
#[verifier::external_body]
pub(crate) fn insert_city(s: &mut IndexSet<usize>, city: usize) -> (r: bool)
    ensures
        r == !city_order(*old(s)).contains(city),
        city_order(*final(s)) == if r {
            city_order(*old(s)).push(city)
        } else {
            city_order(*old(s))
        },
{
    s.insert(city)
}

/// Relies on `IndexSet::contains`: whether the value is present.
#[verifier::external_body]
pub(crate) fn contains_city(s: &IndexSet<usize>, city: usize) -> (r: bool)
    ensures
        r == city_order(*s).contains(city),
{
    s.contains(&city)
}

/// Relies on `IndexSet::len`: the number of values.
#[verifier::external_body]
pub(crate) fn city_count(s: &IndexSet<usize>) -> (r: usize)
    ensures
        r == city_order(*s).len(),
{
    s.len()
}

/// Relies on `IndexSet::get_index`: the value inserted in position `i`, if
/// there are more than `i` values.
#[verifier::external_body]
pub(crate) fn city_at(s: &IndexSet<usize>, i: usize) -> (r: Option<usize>)
    ensures
        r == if i < city_order(*s).len() {
            Some(city_order(*s)[i as int])
        } else {
            None::<usize>
        },
{
    s.get_index(i).copied()
}

/// Relies on `Clone for IndexSet`: the copy holds the same values in the
/// same order.
#[verifier::external_body]
pub(crate) fn copy_city_set(s: &IndexSet<usize>) -> (r: IndexSet<usize>)
    ensures
        city_order(r) == city_order(*s),
{
    s.clone()
}

/// Relies on `IndexSet::iter`: the values in insertion order.
#[verifier::external_body]
pub(crate) fn cities_in_order(s: &IndexSet<usize>) -> (r: Vec<usize>)
    ensures
        r@ == city_order(*s),
{
    s.iter().copied().collect()
}

} // verus!
