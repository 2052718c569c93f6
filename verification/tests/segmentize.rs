use geo::{Closest, ClosestPoint, Coord, Distance, Geodesic};
use runalyzer::aggregate::{Ratio, Segment};
use runalyzer::geometry::{GeoPos, SegCandidate};
use runalyzer::ids::{Id, Junction};
use runalyzer::reconcile::{reconcile_ways, Waypoint};
use runalyzer::segmentize::{
    segmentize, segmentize_fragment, split_fragment_head, split_fragment_tail, ResultSegment,
};
use runalyzer::project::way_point;

fn gp(lat_udeg: i64, lon_udeg: i64) -> GeoPos {
    GeoPos { lat_udeg, lon_udeg }
}

fn to_point(p: GeoPos) -> geo::Point {
    geo::Point::new(p.lon_udeg as f64 * 1e-6, p.lat_udeg as f64 * 1e-6)
}

fn geodesic_mm(a: GeoPos, b: GeoPos) -> u64 {
    (Geodesic.distance(to_point(a), to_point(b)) * 1000.0).round() as u64
}

fn candidates(points: &[GeoPos], stop: GeoPos) -> Vec<Option<SegCandidate>> {
    let mut out = Vec::new();
    for pair in points.windows(2) {
        let line = geo::Line::new(
            Coord { x: pair[0].lon_udeg as f64 * 1e-6, y: pair[0].lat_udeg as f64 * 1e-6 },
            Coord { x: pair[1].lon_udeg as f64 * 1e-6, y: pair[1].lat_udeg as f64 * 1e-6 },
        );
        match line.closest_point(&to_point(stop)) {
            Closest::Intersection(c) | Closest::SinglePoint(c) => {
                let point = GeoPos {
                    lat_udeg: (c.y() * 1e6).round() as i64,
                    lon_udeg: (c.x() * 1e6).round() as i64,
                };
                out.push(Some(SegCandidate { point, dist_mm: geodesic_mm(stop, point) }));
            }
            Closest::Indeterminate => out.push(None),
        }
    }
    out
}

fn piece_lengths(points: &[GeoPos]) -> Vec<u64> {
    points.windows(2).map(|w| geodesic_mm(w[0], w[1])).collect()
}

fn anchored(out: &[ResultSegment]) -> Vec<(Junction, GeoPos)> {
    out.iter()
        .filter_map(|r| match r {
            ResultSegment::Junction(j, p) => Some((*j, *p)),
            ResultSegment::Point(_) => None,
        })
        .collect()
}

#[test]
fn junctions_contained_in_the_geometry_are_each_anchored_once() {
    let points = vec![gp(0, 0), gp(0, 1_000_000), gp(0, 2_000_000)];
    let lengths = piece_lengths(&points);
    let juncs = vec![
        (Ratio { num: 1, den: 4 }, Junction(41)),
        (Ratio { num: 2, den: 4 }, Junction(42)),
        (Ratio { num: 3, den: 4 }, Junction(43)),
    ];
    let out = segmentize_fragment(&juncs, &points, &lengths);
    assert_eq!(anchored(&out).len(), 3);
    // Each piece's end point is emitted as a plain point.
    let plain = out
        .iter()
        .filter(|r| matches!(r, ResultSegment::Point(_)))
        .count();
    assert_eq!(plain, 2);
}

#[test]
fn a_junction_at_position_one_falls_on_the_geometry_end_and_is_not_anchored() {
    let points = vec![gp(0, 0), gp(0, 1_000_000)];
    let lengths = piece_lengths(&points);
    let juncs = vec![(Ratio { num: 1, den: 1 }, Junction(9))];
    let out = segmentize_fragment(&juncs, &points, &lengths);
    assert_eq!(anchored(&out).len(), 0);
}

#[test]
fn an_empty_canonical_segment_produces_no_output() {
    let points = vec![gp(0, 0), gp(0, 1_000_000)];
    let lengths = piece_lengths(&points);
    let segment = Segment {
        start: (Junction(1), gp(0, 0)),
        stop: (Junction(2), gp(0, 1_000_000)),
        junctions: Vec::new(),
    };
    let out = segmentize(&segment, &vec![(points, lengths)]);
    assert!(out.is_empty());
}

#[test]
fn two_fragments_reconcile_project_and_interpolate_end_to_end() {
    // Two fragments sharing one point reconcile into a single chain.
    let p = |n: u64, lon: i64| Waypoint { id: Id(n), pos: gp(0, lon) };
    let f1 = vec![p(1, 0), p(2, 1_000_000), p(3, 2_000_000)];
    let f2 = vec![p(3, 2_000_000), p(4, 3_000_000), p(5, 4_000_000)];
    let ways = reconcile_ways(vec![f1, f2]);
    assert_eq!(ways.len(), 1);
    let chain: Vec<u64> = ways[0].iter().map(|w| w.id.0).collect();
    assert_eq!(chain, vec![1, 2, 3, 4, 5]);

    // Known stops at the two ends project at index 0 and at the last
    // scanned segment.
    let points: Vec<GeoPos> = ways[0].iter().map(|w| w.pos).collect();
    let start_cands = candidates(&points, gp(0, 0));
    let stop_cands = candidates(&points, gp(0, 4_000_000));
    let start = way_point(&start_cands, 30_000).expect("start projects");
    let stop = way_point(&stop_cands, 30_000).expect("stop projects");
    assert_eq!(start.0, 0);
    assert_eq!(stop.0, 3);

    // Split at the two anchors; the anchors sit on the endpoints, so the
    // whole chain survives.
    let tail = split_fragment_tail(&points, &start_cands).expect("tail");
    let stop_cands_tail = candidates(&tail, gp(0, 4_000_000));
    let split = split_fragment_head(&tail, &stop_cands_tail).expect("head");
    assert_eq!(split, points);

    // One junction at relative position one half lands on the geometric
    // midpoint of the chain, which is the shared point.
    let lengths = piece_lengths(&split);
    let segment = Segment {
        start: (Junction(100), start.1),
        stop: (Junction(200), stop.1),
        junctions: vec![(Ratio { num: 1, den: 2 }, Junction(77))],
    };
    let out = segmentize(&segment, &vec![(split, lengths)]);
    assert_eq!(out.len(), 1);
    let anchors = anchored(&out[0]);
    assert_eq!(anchors.len(), 1);
    assert_eq!(anchors[0].0, Junction(77));
    assert_eq!(anchors[0].1, gp(0, 2_000_000));
}
