use runalyzer::graph::{build_junction_graph, choose_junction, index_of_max, GraphRow};
use runalyzer::ids::{Direction, Junction, Line, LineRun, Run};
use runalyzer::runs::{group_telegrams, TelegramRow};

fn j(n: u32) -> Junction {
    Junction(n)
}

fn row(time: u64, line: u16, run: u16, junction: u32) -> TelegramRow {
    TelegramRow { time, line: Line(line), run: Run(run), junction: j(junction) }
}

#[test]
fn telegrams_group_by_run_and_collapse_consecutive_duplicates() {
    let rows = vec![
        row(0, 1, 1, 10),
        row(5, 1, 1, 10),
        row(10, 1, 1, 11),
        row(12, 2, 7, 50),
    ];
    let grouped = group_telegrams(&rows);
    assert_eq!(grouped.len(), 2);
    let lr = LineRun { line: Line(1), run: Run(1) };
    let entry = grouped.iter().find(|(k, _)| *k == lr).unwrap();
    assert_eq!(entry.1, vec![(0, j(10)), (10, j(11))]);
}

#[test]
fn a_silent_run_is_closed_after_the_maximum_gap() {
    let rows = vec![
        row(0, 1, 1, 10),
        // More than 1800 seconds later another run reports; the first
        // run expires and is closed with what it had.
        row(2000, 2, 2, 20),
        row(2100, 1, 1, 11),
    ];
    let grouped = group_telegrams(&rows);
    assert_eq!(grouped.len(), 3);
    // The expired run comes first, closed with its single event.
    assert_eq!(grouped[0].0, LineRun { line: Line(1), run: Run(1) });
    assert_eq!(grouped[0].1, vec![(0, j(10))]);
    // The re-appearing run opens afresh.
    let reopened = &grouped[2];
    assert_eq!(reopened.1, vec![(2100, j(11))]);
}

#[test]
fn index_of_max_returns_the_last_of_equal_maxima() {
    assert_eq!(index_of_max(&[]), None);
    assert_eq!(index_of_max(&[3, 9, 2]), Some(1));
    assert_eq!(index_of_max(&[5, 9, 9, 1]), Some(2));
}

#[test]
fn choose_junction_picks_the_most_frequent() {
    assert_eq!(choose_junction(vec![]), None);
    let votes = vec![j(4), j(7), j(4), j(9), j(4), j(7)];
    assert_eq!(choose_junction(votes), Some(j(4)));
}

#[test]
fn the_junction_graph_votes_on_look_ahead_observations() {
    // Twelve rows of one run; each row's window opens ten rows ahead.
    let mut rows: Vec<GraphRow> = (0..12)
        .map(|i| GraphRow {
            time: i as i64,
            line: Line(1),
            run: Run(1),
            direction: Direction(1),
            junction: Junction(100 + i),
        })
        .collect();
    // Let the first row see itself ahead once: self-votes are dropped.
    rows[10].junction = Junction(100);
    let edges = build_junction_graph(&rows);
    // Row 0 observes rows 10 and 11; its own junction is excluded, so
    // junction 111 wins. Row 1 observes row 11 alone.
    assert_eq!(edges[0], ((Junction(100), Direction(1)), Junction(111)));
    assert_eq!(edges[1], ((Junction(101), Direction(1)), Junction(111)));
    // Rows whose windows are empty contribute no edge.
    assert_eq!(edges.len(), 2);
}
