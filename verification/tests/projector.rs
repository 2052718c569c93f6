use geo::{Closest, ClosestPoint, Coord, Distance, Geodesic};
use runalyzer::geometry::{GeoPos, SegCandidate};
use runalyzer::ids::Junction;
use runalyzer::project::{sort_projected_stops, way_point, ProjectedStop};

fn gp(lat_udeg: i64, lon_udeg: i64) -> GeoPos {
    GeoPos { lat_udeg, lon_udeg }
}

fn to_point(p: GeoPos) -> geo::Point {
    geo::Point::new(p.lon_udeg as f64 * 1e-6, p.lat_udeg as f64 * 1e-6)
}

fn geodesic_mm(a: GeoPos, b: GeoPos) -> u64 {
    (Geodesic.distance(to_point(a), to_point(b)) * 1000.0).round() as u64
}

/// The per-segment closest-point candidates of `stop` against a
/// fragment's points, as the surrounding program computes them.
fn candidates(points: &[GeoPos], stop: GeoPos) -> Vec<Option<SegCandidate>> {
    let mut out = Vec::new();
    for pair in points.windows(2) {
        let line = geo::Line::new(
            Coord { x: pair[0].lon_udeg as f64 * 1e-6, y: pair[0].lat_udeg as f64 * 1e-6 },
            Coord { x: pair[1].lon_udeg as f64 * 1e-6, y: pair[1].lat_udeg as f64 * 1e-6 },
        );
        match line.closest_point(&to_point(stop)) {
            Closest::Intersection(c) | Closest::SinglePoint(c) => {
                let point = GeoPos {
                    lat_udeg: (c.y() * 1e6).round() as i64,
                    lon_udeg: (c.x() * 1e6).round() as i64,
                };
                out.push(Some(SegCandidate { point, dist_mm: geodesic_mm(stop, point) }));
            }
            Closest::Indeterminate => out.push(None),
        }
    }
    out
}

#[test]
fn a_stop_on_the_geometry_projects_with_distance_zero() {
    let points = [gp(0, 0), gp(0, 1_000_000), gp(0, 2_000_000)];
    // The stop sits exactly on the second vertex.
    let cands = candidates(&points, gp(0, 1_000_000));
    let best = cands.iter().flatten().map(|c| c.dist_mm).min().unwrap();
    assert_eq!(best, 0);
    // A zero-distance stop is accepted whatever the tolerance.
    let r = way_point(&cands, 1);
    assert!(r.is_some());
    assert_eq!(r.unwrap().1, gp(0, 1_000_000));
}

#[test]
fn a_distant_stop_is_dropped_by_the_tolerance() {
    let points = [gp(0, 0), gp(0, 1_000_000)];
    // Roughly one degree of latitude away: far beyond 30 m.
    let cands = candidates(&points, gp(1_000_000, 500_000));
    assert_eq!(way_point(&cands, 30_000), None);
}

#[test]
fn the_first_minimal_candidate_wins_ties() {
    let c = |d: u64, lon: i64| Some(SegCandidate { point: gp(0, lon), dist_mm: d });
    let cands = vec![c(5, 10), c(3, 20), c(3, 30), None, c(9, 40)];
    let r = way_point(&cands, 30_000).unwrap();
    assert_eq!(r.0, 1);
    assert_eq!(r.1, gp(0, 20));
}

#[test]
fn projected_stops_sort_by_their_scan_index() {
    let s = |index: usize, n: u32| ProjectedStop { index, junction: Junction(n), point: gp(0, 0) };
    let sorted = sort_projected_stops(vec![s(7, 1), s(0, 2), s(3, 3)]);
    let indices: Vec<usize> = sorted.iter().map(|p| p.index).collect();
    assert_eq!(indices, vec![0, 3, 7]);
    let junctions: Vec<u32> = sorted.iter().map(|p| p.junction.0).collect();
    assert_eq!(junctions, vec![2, 3, 1]);
}
