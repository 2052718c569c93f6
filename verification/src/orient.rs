use vstd::prelude::*;
use crate::geometry::MAX_GEO_MM;
use crate::reconcile::{copied, lemma_views_push, reversed, views, LineInfo};
use crate::reconcile::Waypoint;

verus! {

/// Measured distances, in millimeters, from one chain's head and tail to
/// a route's conventional start ("from") and end ("to") reference stops,
/// where those references resolved at all.
#[derive(Clone, Copy, Debug)]
pub struct EndpointRefDists {
    pub head_to_from: Option<u64>,
    pub head_to_to: Option<u64>,
    pub tail_to_from: Option<u64>,
    pub tail_to_to: Option<u64>,
}

/// The distance, if measured, stays under the physical bound.
pub open spec fn bounded_dist(d: Option<u64>) -> bool {
    d is Some ==> d->Some_0 <= MAX_GEO_MM
}

impl EndpointRefDists {
    pub open spec fn bounded(self) -> bool {
        &&& bounded_dist(self.head_to_from)
        &&& bounded_dist(self.head_to_to)
        &&& bounded_dist(self.tail_to_from)
        &&& bounded_dist(self.tail_to_to)
    }
}

/// A chain is reversed when its head sits an order of magnitude farther
/// from the conventional start than its tail does, or, failing those
/// measurements, when its head sits an order of magnitude closer to the
/// conventional end than its tail does. With neither pair of
/// measurements resolved the orientation is left alone.
pub open spec fn should_reverse(d: EndpointRefDists) -> bool {
    if d.head_to_from is Some && d.tail_to_from is Some && d.head_to_from->Some_0 > 10
        * d.tail_to_from->Some_0 {
        true
    } else if d.head_to_to is Some && d.tail_to_to is Some && 10 * d.head_to_to->Some_0
        < d.tail_to_to->Some_0 {
        true
    } else {
        false
    }
}

impl LineInfo {
    /// Directional normalization: orient each chain by the measured
    /// distances of its endpoints to the route's reference stops,
    /// reversing it exactly when `should_reverse` says so.
    pub fn orient_ways(&mut self, dists: &Vec<EndpointRefDists>)
        requires
            dists@.len() == old(self).ways@.len(),
            forall|i: int| 0 <= i < dists@.len() ==> (#[trigger] dists@[i]).bounded(),
        ensures
            final(self).line == old(self).line,
            final(self).name == old(self).name,
            final(self).ways@.len() == old(self).ways@.len(),
            forall|i: int|
                0 <= i < final(self).ways@.len() ==> views(final(self).ways@)[i] == (
                if should_reverse(dists@[i]) {
                    views(old(self).ways@)[i].reverse()
                } else {
                    views(old(self).ways@)[i]
                }),
    {
        let ghost g = views(self.ways@);
        let n = self.ways.len();
        let mut out: Vec<Vec<Waypoint>> = Vec::new();
        let mut i: usize = 0;
        while i < n
            invariant
                i <= n,
                n == self.ways@.len(),
                g == views(self.ways@),
                dists@.len() == n,
                forall|k: int| 0 <= k < dists@.len() ==> (#[trigger] dists@[k]).bounded(),
                out@.len() == i,
                forall|k: int|
                    0 <= k < i ==> views(out@)[k] == (if should_reverse(dists@[k]) {
                        g[k].reverse()
                    } else {
                        g[k]
                    }),
            decreases n - i,
        {
            let d = dists[i];
            let mut rev = false;
            if d.head_to_from.is_some() && d.tail_to_from.is_some() && d.head_to_from.unwrap() > 10
                * d.tail_to_from.unwrap() {
                rev = true;
            } else if d.head_to_to.is_some() && d.tail_to_to.is_some() && 10
                * d.head_to_to.unwrap() < d.tail_to_to.unwrap() {
                rev = true;
            }
            proof {
                assert(rev == should_reverse(dists@[i as int]));
            }
            let w = if rev {
                reversed(&self.ways[i])
            } else {
                copied(&self.ways[i])
            };
            proof {
                lemma_views_push(out@, w);
            }
            out.push(w);
            i += 1;
        }
        self.ways = out;
    }
}

} // verus!
