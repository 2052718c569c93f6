use runalyzer::aggregate::{
    aggregate_runs, build_known_stop_segments, count_new_junctions, substitute_min_durations,
    to_rational, PairDurMap, Ratio, Segment,
};
use runalyzer::geometry::GeoPos;
use runalyzer::ids::Junction;
use runalyzer::project::ProjectedStop;
use runalyzer::segments::{segment_run_by_known_stops, SegmentMap};

fn j(n: u32) -> Junction {
    Junction(n)
}

fn gp(lon_udeg: i64) -> GeoPos {
    GeoPos { lat_udeg: 0, lon_udeg }
}

#[test]
fn a_run_is_segmented_between_known_stops() {
    let known = vec![j(1), j(9)];
    let events = vec![(0u64, j(1)), (10, j(4)), (25, j(5)), (30, j(9))];
    let sm = segment_run_by_known_stops(&known, &events);
    assert_eq!(sm.entries.len(), 1);
    let (key, seg) = &sm.entries[0];
    assert_eq!(*key, (j(1), j(9)));
    // every intervening junction with its duration since the prior
    // event; the first element's duration is zero
    assert_eq!(seg.clone(), vec![(0, j(4)), (15, j(5)), (5, j(9))]);
}

#[test]
fn adjacent_duplicate_known_stops_close_trivial_segments() {
    let known = vec![j(1), j(2)];
    let events = vec![(0u64, j(1)), (5, j(2)), (7, j(2))];
    let sm = segment_run_by_known_stops(&known, &events);
    assert_eq!(sm.entries.len(), 2);
    assert_eq!(sm.entries[0].0, (j(1), j(2)));
    assert_eq!(sm.entries[0].1, vec![(0, j(2))]);
    assert_eq!(sm.entries[1].0, (j(2), j(2)));
    assert_eq!(sm.entries[1].1, vec![(0, j(2)), (2, j(2))]);
}

#[test]
fn aggregator_picks_longest_order_and_global_minimum_durations() {
    // Three runs observe the A->B sub-segment with junction counts
    // 2, 2, 3; the three-junction order becomes canonical and each
    // consecutive pair takes the minimum duration seen anywhere, the
    // canonical run's own duration standing in for pairs the short runs
    // never formed.
    let a = 1u32;
    let b = 9u32;
    let known = vec![j(a), j(b)];
    let run1 = vec![(0u64, j(a)), (10, j(4)), (30, j(b))];
    let run2 = vec![(0u64, j(a)), (5, j(4)), (40, j(b))];
    let run3 = vec![(0u64, j(a)), (20, j(4)), (25, j(5)), (45, j(b))];
    let runs = vec![run1, run2, run3];
    let (mins, longest) = aggregate_runs(&known, &runs);

    let canonical = longest.lookup((j(a), j(b))).expect("canonical order");
    assert_eq!(canonical.clone(), vec![(0, j(4)), (5, j(5)), (20, j(b))]);

    // (4 -> b) was seen in the two short runs with durations 20 and 35.
    assert_eq!(mins.lookup((j(4), j(9))), Some(20));
    // (4 -> 5) and (5 -> b) only exist in the canonical run itself.
    assert_eq!(mins.lookup((j(4), j(5))), Some(5));
    assert_eq!(mins.lookup((j(5), j(9))), Some(20));

    let substituted = substitute_min_durations(canonical, &mins);
    assert_eq!(substituted, vec![(0, j(4)), (5, j(5)), (20, j(b))]);

    let positions = to_rational(&substituted);
    assert_eq!(
        positions,
        vec![
            (Ratio { num: 0, den: 25 }, j(4)),
            (Ratio { num: 5, den: 25 }, j(5)),
            (Ratio { num: 25, den: 25 }, j(b)),
        ]
    );
}

#[test]
fn substitution_keeps_durations_with_no_recorded_minimum() {
    let mins = PairDurMap { entries: Vec::new() };
    let seg = vec![(0u64, j(4)), (7, j(5))];
    assert_eq!(substitute_min_durations(&seg, &mins), seg);
}

#[test]
fn relative_positions_are_monotone_and_end_at_one() {
    let seg = vec![(0u64, j(1)), (5, j(2)), (5, j(3)), (10, j(4))];
    let positions = to_rational(&seg);
    for w in positions.windows(2) {
        assert_eq!(w[0].0.den, w[1].0.den);
        assert!(w[0].0.num <= w[1].0.num);
    }
    let last = positions.last().unwrap().0;
    assert_eq!(last.num, last.den);
}

#[test]
fn zero_total_duration_sends_every_position_to_zero() {
    let seg = vec![(0u64, j(1)), (0, j(2))];
    let positions = to_rational(&seg);
    assert_eq!(
        positions,
        vec![(Ratio { num: 0, den: 1 }, j(1)), (Ratio { num: 0, den: 1 }, j(2))]
    );
}

#[test]
fn segments_are_built_per_consecutive_stop_pair_with_observations() {
    let stops = vec![
        ProjectedStop { index: 0, junction: j(1), point: gp(0) },
        ProjectedStop { index: 3, junction: j(9), point: gp(3_000_000) },
        ProjectedStop { index: 7, junction: j(20), point: gp(7_000_000) },
    ];
    let longest = SegmentMap {
        entries: vec![((j(1), j(9)), vec![(0u64, j(4)), (10, j(9))])],
    };
    let mins = PairDurMap { entries: Vec::new() };
    let segments = build_known_stop_segments(&stops, &longest, &mins);
    // Only the (1, 9) pair has observations; (9, 20) is skipped.
    assert_eq!(segments.len(), 1);
    let s = &segments[0];
    assert_eq!(s.start, (j(1), gp(0)));
    assert_eq!(s.stop, (j(9), gp(3_000_000)));
    assert_eq!(
        s.junctions,
        vec![(Ratio { num: 0, den: 10 }, j(4)), (Ratio { num: 10, den: 10 }, j(9))]
    );
}

#[test]
fn new_junction_count_excludes_the_anchors() {
    let seg = Segment {
        start: (j(1), gp(0)),
        stop: (j(9), gp(1_000_000)),
        junctions: vec![
            (Ratio { num: 0, den: 10 }, j(4)),
            (Ratio { num: 4, den: 10 }, j(5)),
            (Ratio { num: 10, den: 10 }, j(9)),
        ],
    };
    assert_eq!(count_new_junctions(&seg), 2);
}
