use runalyzer::ids::{Junction, Line, LineRun, Run};
use runalyzer::selector::{is_similar_sequence, select_matching_runs, RunJunctions};

fn j(n: u32) -> Junction {
    Junction(n)
}

#[test]
fn run_selection_exactness_accepts_the_matching_order() {
    let partial = vec![j(1), j(2), j(3)];
    let goal = vec![j(1), j(2), j(3)];
    assert!(is_similar_sequence(&partial, &goal));
}

#[test]
fn run_selection_exactness_rejects_a_swapped_order() {
    let partial = vec![j(1), j(2), j(3)];
    let goal = vec![j(1), j(3), j(2)];
    assert!(!is_similar_sequence(&partial, &goal));
}

#[test]
fn run_selection_exactness_rejects_a_shorter_ordering() {
    let partial = vec![j(1), j(2), j(3)];
    let goal = vec![j(1), j(2)];
    assert!(!is_similar_sequence(&partial, &goal));
}

#[test]
fn run_observing_a_subsequence_of_the_ordering_is_accepted() {
    // The route ordering filtered to the stops the run observed equals
    // the run's sequence exactly.
    let partial = vec![j(1), j(3)];
    let goal = vec![j(1), j(2), j(3)];
    assert!(is_similar_sequence(&partial, &goal));
}

fn run(line: u16, run_no: u16, known: Vec<Junction>, events: Vec<(u64, u32)>) -> RunJunctions {
    RunJunctions {
        line_run: LineRun { line: Line(line), run: Run(run_no) },
        known,
        events: events.into_iter().map(|(t, n)| (t, j(n))).collect(),
    }
}

#[test]
fn select_matching_runs_keeps_consistent_runs_of_the_line() {
    let goal = vec![j(1), j(2)];
    let runs = vec![
        // accepted: right line, two known stops, consistent
        run(5, 1, vec![j(1), j(2)], vec![(0, 1), (10, 7), (20, 2)]),
        // rejected: wrong line
        run(6, 1, vec![j(1), j(2)], vec![(0, 1), (20, 2)]),
        // rejected: only one known stop observed
        run(5, 2, vec![j(1)], vec![(0, 1)]),
        // rejected: stops out of order
        run(5, 3, vec![j(2), j(1)], vec![(0, 2), (20, 1)]),
    ];
    let selected = select_matching_runs(&runs, Line(5), &goal);
    assert_eq!(selected.len(), 1);
    assert_eq!(selected[0], vec![(0, j(1)), (10, j(7)), (20, j(2))]);
}
