//! Picking the nearest of several points, and comparing two points by how
//! near they are to a third.
use crate::geometry::{dist2, distance_squared, Point};
use std::cmp::Ordering;
use vstd::prelude::*;

verus! {

/// Whether `k` is the position of a point of `population` nearest to
/// `target`: none is nearer, and none before it is as near.
pub open spec fn nearest_at(population: Seq<Point>, target: Point, k: int) -> bool {
    &&& 0 <= k < population.len()
    &&& forall|j: int| 0 <= j < population.len() ==> dist2(target, population[k]) <= #[trigger] dist2(target, population[j])
    &&& forall|j: int| 0 <= j < k ==> dist2(target, population[k]) < #[trigger] dist2(target, population[j])
}

/// The position of the point nearest to `target`, the first of several at
/// the same distance; `None` for no points.
pub fn closest_index(target: Point, population: &Vec<Point>) -> (r: Option<usize>)
    ensures
        r is None <==> population@.len() == 0,
        r matches Some(k) ==> nearest_at(population@, target, k as int),
{
    if population.len() == 0 {
        return None;
    }
    let mut best: usize = 0;
    let mut best_d = distance_squared(&target, &population[0]);
    let mut i: usize = 1;
    while i < population.len()
        invariant
            1 <= i <= population@.len(),
            best < i,
            best_d == dist2(target, population@[best as int]),
            forall|j: int| 0 <= j < i ==> dist2(target, population@[best as int]) <= #[trigger] dist2(target, population@[j]),
            forall|j: int| 0 <= j < best ==> dist2(target, population@[best as int]) < #[trigger] dist2(target, population@[j]),
        decreases population@.len() - i,
    {
        let d = distance_squared(&target, &population[i]);
        if d < best_d {
            best = i;
            best_d = d;
        }
        i = i + 1;
    }
    Some(best)
}

/// The point nearest to `target`, the first of several at the same
/// distance; `None` for no points.
pub fn closest_point(target: Point, population: &Vec<Point>) -> (r: Option<Point>)
    ensures
        r is None <==> population@.len() == 0,
        r matches Some(p) ==> exists|k: int| #[trigger] nearest_at(population@, target, k) && population@[k] == p,
{
    match closest_index(target, population) {
        Some(k) => {
            proof {
                assert(nearest_at(population@, target, k as int));
            }
            Some(population[k])
        },
        None => None,
    }
}

/// How `p1` compares to `p2` by nearness to `anchor`: less when nearer.
pub open spec fn nearness_order(anchor: Point, p1: Point, p2: Point) -> Ordering {
    if dist2(anchor, p1) < dist2(anchor, p2) {
        Ordering::Less
    } else if dist2(anchor, p1) == dist2(anchor, p2) {
        Ordering::Equal
    } else {
        Ordering::Greater
    }
}

/// Compares `p1` and `p2` by their distance to `anchor`.
pub fn closeratest(anchor: Point, p1: Point, p2: Point) -> (o: Ordering)
    ensures
        o == nearness_order(anchor, p1, p2),
{
    let d1 = distance_squared(&anchor, &p1);
    let d2 = distance_squared(&anchor, &p2);
    if d1 < d2 {
        Ordering::Less
    } else if d1 == d2 {
        Ordering::Equal
    } else {
        Ordering::Greater
    }
}

} // verus!
