use runalyzer::geometry::{DistTable, GeoPos};
use runalyzer::ids::{Id, Line};
use runalyzer::orient::EndpointRefDists;
use runalyzer::reconcile::{reconcile_ways, LineInfo, Waypoint};

fn wp(id: u64, lon_udeg: i64) -> Waypoint {
    Waypoint { id: Id(id), pos: GeoPos { lat_udeg: 0, lon_udeg } }
}

fn ids(way: &Vec<Waypoint>) -> Vec<u64> {
    way.iter().map(|w| w.id.0).collect()
}

#[test]
fn two_fragments_sharing_an_endpoint_merge_into_one() {
    let f1 = vec![wp(1, 0), wp(2, 1_000_000), wp(3, 2_000_000)];
    let f2 = vec![wp(3, 2_000_000), wp(4, 3_000_000), wp(5, 4_000_000)];
    let out = reconcile_ways(vec![f1, f2]);
    assert_eq!(out.len(), 1);
    assert_eq!(ids(&out[0]), vec![1, 2, 3, 4, 5]);
}

#[test]
fn reconciliation_is_idempotent_on_its_own_output() {
    let f1 = vec![wp(1, 0), wp(2, 1_000_000)];
    let f2 = vec![wp(2, 1_000_000), wp(3, 2_000_000)];
    let f3 = vec![wp(9, 8_000_000), wp(8, 7_000_000)];
    let once = reconcile_ways(vec![f1, f2, f3]);
    let twice = reconcile_ways(once.clone());
    assert_eq!(once.len(), twice.len());
    for (a, b) in once.iter().zip(twice.iter()) {
        assert_eq!(ids(a), ids(b));
    }
}

#[test]
fn reconciliation_conserves_waypoints_up_to_spliced_duplicates() {
    let f1 = vec![wp(1, 0), wp(2, 1_000_000), wp(3, 2_000_000)];
    let f2 = vec![wp(3, 2_000_000), wp(4, 3_000_000)];
    let f3 = vec![wp(7, 9_000_000), wp(8, 9_500_000)];
    let input_points = 3 + 2 + 2;
    let input_fragments = 3;
    let out = reconcile_ways(vec![f1, f2, f3]);
    assert!(out.len() <= input_fragments);
    let output_points: usize = out.iter().map(|w| w.len()).sum();
    let splices = input_fragments - out.len();
    assert_eq!(output_points + splices, input_points);
}

#[test]
fn candidate_fragments_are_reversed_to_preserve_continuity() {
    // The candidate's head matches the chain's head, so it is spliced on
    // reversed.
    let f1 = vec![wp(3, 2_000_000), wp(4, 3_000_000)];
    let f2 = vec![wp(3, 2_000_000), wp(2, 1_000_000), wp(1, 0)];
    let out = reconcile_ways(vec![f1, f2]);
    assert_eq!(out.len(), 1);
    assert_eq!(ids(&out[0]), vec![1, 2, 3, 4]);
}

#[test]
fn detect_discontiguity_sees_a_break_between_adjacent_chains() {
    let contiguous = LineInfo {
        line: Line(1),
        name: "one".to_string(),
        ways: vec![
            vec![wp(1, 0), wp(2, 1_000_000)],
            vec![wp(2, 1_000_000), wp(3, 2_000_000)],
        ],
    };
    assert!(!contiguous.detect_discontiguity());
    let broken = LineInfo {
        line: Line(1),
        name: "one".to_string(),
        ways: vec![
            vec![wp(1, 0), wp(2, 1_000_000)],
            vec![wp(5, 5_000_000), wp(6, 6_000_000)],
        ],
    };
    assert!(broken.detect_discontiguity());
}

#[test]
fn gluing_joins_disconnected_fragments_by_nearest_endpoints() {
    // Two fragments with no shared identity; the gap 2->4 is the
    // smallest pairing, so the second fragment is appended forward.
    let f1 = vec![wp(1, 0), wp(2, 1_000_000)];
    let f2 = vec![wp(4, 1_100_000), wp(5, 2_000_000)];
    let mut info = LineInfo { line: Line(7), name: "seven".to_string(), ways: vec![f1, f2] };
    let entries = vec![
        (Id(1), Id(4), 8_000_000u64),
        (Id(1), Id(5), 15_000_000u64),
        (Id(2), Id(4), 1_000_000u64),
        (Id(2), Id(5), 7_000_000u64),
        (Id(1), Id(2), 6_000_000u64),
        (Id(4), Id(5), 6_500_000u64),
    ];
    let table = DistTable { entries };
    info.glue_ways(&table);
    assert_eq!(info.ways.len(), 1);
    assert_eq!(ids(&info.ways[0]), vec![1, 2, 4, 5]);
}

#[test]
fn orientation_reverses_a_chain_running_against_the_references() {
    let way = vec![wp(1, 0), wp(2, 1_000_000)];
    let mut info = LineInfo { line: Line(3), name: "three".to_string(), ways: vec![way] };
    // The head lies far from the conventional start, the tail close by:
    // the chain is reversed.
    let dists = vec![EndpointRefDists {
        head_to_from: Some(20_000_000),
        head_to_to: None,
        tail_to_from: Some(1_000_000),
        tail_to_to: None,
    }];
    info.orient_ways(&dists);
    assert_eq!(ids(&info.ways[0]), vec![2, 1]);

    // With no references resolved the orientation is left alone.
    let mut info2 = LineInfo {
        line: Line(3),
        name: "three".to_string(),
        ways: vec![vec![wp(1, 0), wp(2, 1_000_000)]],
    };
    let dists2 = vec![EndpointRefDists {
        head_to_from: None,
        head_to_to: None,
        tail_to_from: None,
        tail_to_to: None,
    }];
    info2.orient_ways(&dists2);
    assert_eq!(ids(&info2.ways[0]), vec![1, 2]);
}

#[test]
fn distance_table_lookup_is_symmetric() {
    let table = DistTable { entries: vec![(Id(1), Id(2), 42u64)] };
    assert_eq!(table.lookup(Id(1), Id(2)), Some(42));
    assert_eq!(table.lookup(Id(2), Id(1)), Some(42));
    assert_eq!(table.lookup(Id(1), Id(3)), None);
}

#[test]
fn a_route_with_zero_fragments_yields_an_empty_output() {
    let out = reconcile_ways(Vec::new());
    assert!(out.is_empty());
}

#[test]
fn no_two_output_chains_share_an_endpoint_identity() {
    let fragments = vec![
        vec![wp(1, 0), wp(2, 1_000_000)],
        vec![wp(3, 2_000_000), wp(2, 1_000_000)],
        vec![wp(10, 5_000_000), wp(11, 6_000_000)],
        vec![wp(12, 7_000_000), wp(11, 6_000_000)],
    ];
    let out = reconcile_ways(fragments);
    assert_eq!(out.len(), 2);
    for a in 0..out.len() {
        for b in 0..out.len() {
            if a != b {
                let ea = [out[a].first().unwrap().id, out[a].last().unwrap().id];
                let eb = [out[b].first().unwrap().id, out[b].last().unwrap().id];
                for x in ea {
                    assert!(!eb.contains(&x));
                }
            }
        }
    }
}

#[test]
fn reorder_ways_merges_a_route_in_place() {
    let mut info = LineInfo {
        line: Line(12),
        name: "twelve".to_string(),
        ways: vec![
            vec![wp(1, 0), wp(2, 1_000_000)],
            vec![wp(2, 1_000_000), wp(3, 2_000_000)],
        ],
    };
    info.reorder_ways();
    assert_eq!(info.ways.len(), 1);
    assert_eq!(ids(&info.ways[0]), vec![1, 2, 3]);
    assert_eq!(info.name, "twelve");
}
