use vstd::prelude::*;
use crate::ids::Id;

verus! {

/// Upper bound, in millimeters, on the geodesic distance between any two
/// points on the WGS84 ellipsoid (half the circumference is about
/// 20_004 km; this bound is deliberately generous). Callers that hand the
/// library measured distances keep them under this bound.
pub const MAX_GEO_MM: u64 = 30_000_000_000;

/// Latitudes are held in the range -90e6 ..= 90e6 microdegrees.
pub const MAX_LAT_UDEG: i64 = 90_000_000;

/// Longitudes are held in the range -180e6 ..= 180e6 microdegrees.
pub const MAX_LON_UDEG: i64 = 180_000_000;

/// A geographic position in integer microdegrees (1e-6 degrees).
#[derive(Clone, Copy, Debug, PartialEq, Eq, Structural, Hash)]
pub struct GeoPos {
    pub lat_udeg: i64,
    pub lon_udeg: i64,
}

impl GeoPos {
    /// The position lies in the legal latitude and longitude ranges.
    pub open spec fn valid(self) -> bool {
        &&& -MAX_LAT_UDEG <= self.lat_udeg <= MAX_LAT_UDEG
        &&& -MAX_LON_UDEG <= self.lon_udeg <= MAX_LON_UDEG
    }
}

/// The closest point of one scanned line segment to some fixed position,
/// together with the measured distance to it, in millimeters.
#[derive(Clone, Copy, Debug, PartialEq, Eq, Structural)]
pub struct SegCandidate {
    pub point: GeoPos,
    pub dist_mm: u64,
}

/// The value of the first entry of `entries` that joins `a` and `b`, in
/// either order, if any does.
pub open spec fn lookup_in(entries: Seq<(Id, Id, u64)>, a: Id, b: Id) -> Option<u64>
    decreases entries.len(),
{
    if entries.len() == 0 {
        None
    } else if (entries[0].0 == a && entries[0].1 == b)
        || (entries[0].0 == b && entries[0].1 == a) {
        Some(entries[0].2)
    } else {
        lookup_in(entries.skip(1), a, b)
    }
}

/// A symmetric table of measured distances, in millimeters, between
/// waypoints named by their stable identities.
pub struct DistTable {
    pub entries: Vec<(Id, Id, u64)>,
}

impl DistTable {
    /// The first entry that joins `a` and `b`, in either order.
    pub open spec fn lookup_spec(self, a: Id, b: Id) -> Option<u64> {
        lookup_in(self.entries@, a, b)
    }

    /// Every pair drawn from `ids` can be looked up.
    pub open spec fn covers(self, ids: Set<Id>) -> bool {
        forall|a: Id, b: Id| ids.contains(a) && ids.contains(b)
            ==> (#[trigger] self.lookup_spec(a, b)) is Some
    }

    pub fn lookup(&self, a: Id, b: Id) -> (r: Option<u64>)
        ensures
            r == self.lookup_spec(a, b),
    {
        let ghost all = self.entries@;
        proof {
            assert(all.skip(0) =~= all);
        }
        let mut i: usize = 0;
        while i < self.entries.len()
            invariant
                i <= all.len(),
                all == self.entries@,
                lookup_in(all, a, b) == lookup_in(all.skip(i as int), a, b),
            decreases all.len() - i,
        {
            let (ea, eb, d) = self.entries[i];
            proof {
                assert(all.skip(i as int)[0] == all[i as int]);
                assert(all.skip(i as int).skip(1) =~= all.skip(i as int + 1));
            }
            if (ea == a && eb == b) || (ea == b && eb == a) {
                return Some(d);
            }
            i += 1;
        }
        proof {
            assert(all.skip(all.len() as int) =~= Seq::<(Id, Id, u64)>::empty());
        }
        None
    }
}

} // verus!
