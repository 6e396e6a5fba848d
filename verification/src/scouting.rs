//! Where a scout goes: every expansion location out of sight.
use crate::geometry::Point;
use vstd::prelude::*;

verus! {

/// The locations, in order, of the expansions that are not in sight; each
/// expansion is its location and whether it is visible.
pub open spec fn unseen(expansions: Seq<(Point, bool)>) -> Seq<Point>
    decreases expansions.len(),
{
    if expansions.len() == 0 {
        Seq::empty()
    } else {
        let prev = unseen(expansions.drop_last());
        if expansions.last().1 {
            prev
        } else {
            prev.push(expansions.last().0)
        }
    }
}

/// The expansion locations a scout is sent to, in order: those not in sight.
pub fn scouting_targets(expansions: &Vec<(Point, bool)>) -> (t: Vec<Point>)
    ensures
        t@ == unseen(expansions@),
{
    let mut t: Vec<Point> = Vec::new();
    let mut i: usize = 0;
    while i < expansions.len()
        invariant
            i <= expansions@.len(),
            t@ == unseen(expansions@.subrange(0, i as int)),
        decreases expansions@.len() - i,
    {
        proof {
            assert(expansions@.subrange(0, i as int + 1).drop_last() =~= expansions@.subrange(0, i as int));
        }
        let (loc, visible) = expansions[i];
        if !visible {
            t.push(loc);
        }
        i = i + 1;
    }
    proof {
        assert(expansions@.subrange(0, expansions@.len() as int) =~= expansions@);
    }
    t
}

} // verus!
