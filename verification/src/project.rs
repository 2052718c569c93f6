use vstd::prelude::*;
use crate::geometry::{GeoPos, SegCandidate};
use crate::ids::Junction;

verus! {

/// A known stop accepted onto the route geometry: its ordering index (the
/// scan position of the accepted segment), its junction, and the
/// projected point.
#[derive(Clone, Copy, Debug, PartialEq, Eq, Structural)]
pub struct ProjectedStop {
    pub index: usize,
    pub junction: Junction,
    pub point: GeoPos,
}

/// The running minimum over the first `n` scanned candidates: the scan
/// index and candidate of the smallest measured distance, earlier
/// candidates winning ties.
pub open spec fn best_candidate(cands: Seq<Option<SegCandidate>>, n: int) -> Option<
    (int, SegCandidate),
>
    decreases n,
{
    if n <= 0 {
        None
    } else {
        let prev = best_candidate(cands, n - 1);
        match cands[n - 1] {
            Option::None => prev,
            Option::Some(c) => match prev {
                Option::None => Some((n - 1, c)),
                Option::Some(p) => if c.dist_mm < p.1.dist_mm {
                    Some((n - 1, c))
                } else {
                    Some(p)
                },
            },
        }
    }
}

/// What the projector accepts for one stop: the minimum-distance
/// candidate, and only under the tolerance.
pub open spec fn accept_spec(cands: Seq<Option<SegCandidate>>, tolerance_mm: u64) -> Option<
    (int, GeoPos),
> {
    match best_candidate(cands, cands.len() as int) {
        Option::None => None,
        Option::Some(b) => if b.1.dist_mm < tolerance_mm {
            Some((b.0, b.1.point))
        } else {
            None
        },
    }
}

/// Map each known stop to the nearest scanned point of the route
/// geometry, within a tolerance.
///
/// `cands` holds, for one stop, the closest point and measured distance
/// of every scanned line segment of every fragment, in fragment order
/// (`None` for a degenerate segment). The minimum-distance candidate is
/// tracked with a strict comparison, so the first encountered wins ties;
/// it is accepted only strictly under the tolerance, and the accepted
/// scan position becomes the stop's ordering index.
pub fn way_point(cands: &Vec<Option<SegCandidate>>, tolerance_mm: u64) -> (r: Option<
    (usize, GeoPos),
>)
    ensures
        match accept_spec(cands@, tolerance_mm) {
            Option::None => r is None,
            Option::Some(a) => {
                &&& r is Some
                &&& r->Some_0.0 == a.0
                &&& r->Some_0.1 == a.1
            },
        },
{
    match scan_best(cands) {
        Option::None => None,
        Option::Some((idx, c)) => {
            if c.dist_mm < tolerance_mm {
                Some((idx, c.point))
            } else {
                None
            }
        },
    }
}

/// The minimum-distance candidate of a scan, earlier candidates winning
/// ties.
pub(crate) fn scan_best(cands: &Vec<Option<SegCandidate>>) -> (r: Option<(usize, SegCandidate)>)
    ensures
        match best_candidate(cands@, cands@.len() as int) {
            Option::None => r is None,
            Option::Some(b) => {
                &&& r is Some
                &&& r->Some_0.0 == b.0
                &&& r->Some_0.1 == b.1
            },
        },
{
    let n = cands.len();
    let mut best: Option<(usize, SegCandidate)> = None;
    let mut i: usize = 0;
    while i < n
        invariant
            i <= n,
            n == cands@.len(),
            match best_candidate(cands@, i as int) {
                Option::None => best is None,
                Option::Some(b) => {
                    &&& best is Some
                    &&& best->Some_0.0 == b.0
                    &&& best->Some_0.1 == b.1
                },
            },
        decreases n - i,
    {
        match &cands[i] {
            Option::None => {},
            Option::Some(c) => {
                match &best {
                    Option::None => {
                        best = Some((i, *c));
                    },
                    Option::Some(p) => {
                        if c.dist_mm < p.1.dist_mm {
                            best = Some((i, *c));
                        }
                    },
                }
            },
        }
        i += 1;
    }
    best
}

/// Projection tolerance: a stop that lies exactly on some scanned
/// segment — its candidate there has distance zero — always yields an
/// accepted minimum of distance zero, whatever positive tolerance is in
/// force.
pub proof fn lemma_projection_tolerance(
    cands: Seq<Option<SegCandidate>>,
    j: int,
    tolerance_mm: u64,
)
    requires
        0 <= j < cands.len(),
        cands[j] is Some,
        cands[j]->Some_0.dist_mm == 0,
        tolerance_mm > 0,
    ensures
        accept_spec(cands, tolerance_mm) is Some,
        best_candidate(cands, cands.len() as int) is Some,
        best_candidate(cands, cands.len() as int)->Some_0.1.dist_mm == 0,
{
    lemma_zero_min(cands, j, cands.len() as int);
}

proof fn lemma_zero_min(cands: Seq<Option<SegCandidate>>, j: int, n: int)
    requires
        0 <= j < n <= cands.len(),
        cands[j] is Some,
        cands[j]->Some_0.dist_mm == 0,
    ensures
        best_candidate(cands, n) is Some,
        best_candidate(cands, n)->Some_0.1.dist_mm == 0,
    decreases n,
{
    if n == j + 1 {
    } else {
        lemma_zero_min(cands, j, n - 1);
    }
}

/// The projected stops are ordered by their indices along the route.
pub open spec fn sorted_by_index(s: Seq<ProjectedStop>) -> bool {
    forall|i: int, j: int| 0 <= i < j < s.len() ==> (#[trigger] s[i]).index <= (#[trigger] s[j]).index
}

/// Where a stop lands in an index-sorted sequence: after every stop of
/// smaller or equal index, scanning for the split point from position
/// `j` leftwards.
pub open spec fn insert_pos(s: Seq<ProjectedStop>, x: ProjectedStop, j: int) -> int
    decreases j,
{
    if j <= 0 {
        0
    } else if s[j - 1].index > x.index {
        insert_pos(s, x, j - 1)
    } else {
        j
    }
}

/// The stable insertion sort of the stops: each taken in turn and
/// inserted after any stops of equal index already placed.
pub open spec fn sort_fold(stops: Seq<ProjectedStop>, i: int, acc: Seq<ProjectedStop>) -> Seq<
    ProjectedStop,
>
    decreases stops.len() - i,
{
    if i < 0 || i >= stops.len() {
        acc
    } else {
        sort_fold(stops, i + 1, acc.insert(insert_pos(acc, stops[i], acc.len() as int), stops[i]))
    }
}

/// Sort accepted stops by their ordering index along the scanned
/// geometry: the stable insertion sort of the input, so the result holds
/// exactly the given stops and equal indices keep their relative order.
pub fn sort_projected_stops(stops: Vec<ProjectedStop>) -> (r: Vec<ProjectedStop>)
    ensures
        r@ == sort_fold(stops@, 0, Seq::empty()),
        sorted_by_index(r@),
        r@.to_multiset() == stops@.to_multiset(),
        r@.len() == stops@.len(),
{
    let mut r: Vec<ProjectedStop> = Vec::new();
    let mut i: usize = 0;
    proof {
        broadcast use vstd::seq_lib::group_to_multiset_ensures;

        assert(stops@.take(0) =~= Seq::<ProjectedStop>::empty());
        assert(r@.to_multiset() =~= stops@.take(0).to_multiset());
    }
    while i < stops.len()
        invariant
            i <= stops@.len(),
            sorted_by_index(r@),
            r@.len() == i,
            r@.to_multiset() == stops@.take(i as int).to_multiset(),
            sort_fold(stops@, i as int, r@) == sort_fold(stops@, 0, Seq::empty()),
        decreases stops@.len() - i,
    {
        let x = stops[i];
        insert_sorted(&mut r, x);
        proof {
            broadcast use vstd::seq_lib::group_to_multiset_ensures;

            assert(stops@.take(i as int + 1) =~= stops@.take(i as int).push(x));
        }
        i += 1;
    }
    proof {
        assert(stops@.take(stops@.len() as int) =~= stops@);
    }
    r
}

/// Insert one stop into an index-sorted vector, after any stops of equal
/// index already there.
fn insert_sorted(r: &mut Vec<ProjectedStop>, x: ProjectedStop)
    requires
        sorted_by_index(old(r)@),
    ensures
        final(r)@ == old(r)@.insert(insert_pos(old(r)@, x, old(r)@.len() as int), x),
        sorted_by_index(final(r)@),
        final(r)@.to_multiset() == old(r)@.to_multiset().insert(x),
        final(r)@.len() == old(r)@.len() + 1,
{
    let ghost r0 = r@;
    let mut j: usize = r.len();
    while j > 0 && r[j - 1].index > x.index
        invariant
            j <= r@.len(),
            r@ == r0,
            forall|k: int| j <= k < r@.len() ==> (#[trigger] r@[k]).index > x.index,
            insert_pos(r0, x, j as int) == insert_pos(r0, x, r0.len() as int),
        decreases j,
    {
        j -= 1;
    }
    proof {
        assert(insert_pos(r0, x, j as int) == j as int);
    }
    r.insert(j, x);
    proof {
        broadcast use vstd::seq_lib::group_to_multiset_ensures;

        assert(r@ == r0.insert(j as int, x));
        assert(r0.insert(j as int, x).to_multiset() =~= r0.to_multiset().insert(x));
        assert forall|a: int, b: int|
            0 <= a < b < r@.len() implies (#[trigger] r@[a]).index <= (#[trigger] r@[b]).index by {
            if a < j && b < j {
                assert(r@[a] == r0[a]);
                assert(r@[b] == r0[b]);
            } else if a < j && b == j {
            } else if a < j && b > j {
                assert(r@[b] == r0[b - 1]);
            } else if a == j {
                if b > j {
                    assert(r@[b] == r0[b - 1]);
                }
            } else {
                assert(r@[a] == r0[a - 1]);
                assert(r@[b] == r0[b - 1]);
            }
        }
    }
}

} // verus!
