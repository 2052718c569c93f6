use vstd::prelude::*;
use crate::ids::{Junction, Line, LineRun};

verus! {

/// `xs` filtered to the members of `set`, preserving order.
pub open spec fn filter_members(xs: Seq<Junction>, set: Seq<Junction>) -> Seq<Junction>
    decreases xs.len(),
{
    if xs.len() == 0 {
        Seq::empty()
    } else {
        let rest = filter_members(xs.drop_last(), set);
        if set.contains(xs.last()) {
            rest.push(xs.last())
        } else {
            rest
        }
    }
}

/// Whether `v` holds `x`.
pub(crate) fn contains_junction(v: &Vec<Junction>, x: Junction) -> (r: bool)
    ensures
        r == v@.contains(x),
{
    let mut i: usize = 0;
    while i < v.len()
        invariant
            i <= v@.len(),
            forall|k: int| 0 <= k < i ==> v@[k] != x,
        decreases v@.len() - i,
    {
        if v[i].0 == x.0 {
            proof {
                assert(v@[i as int] == x);
            }
            return true;
        }
        i += 1;
    }
    false
}

/// Whether two junction vectors hold the same sequence.
pub(crate) fn junctions_equal(a: &Vec<Junction>, b: &Vec<Junction>) -> (r: bool)
    ensures
        r == (a@ == b@),
{
    if a.len() != b.len() {
        return false;
    }
    let mut i: usize = 0;
    while i < a.len()
        invariant
            i <= a@.len(),
            a@.len() == b@.len(),
            forall|k: int| 0 <= k < i ==> a@[k] == b@[k],
        decreases a@.len() - i,
    {
        if a[i].0 != b[i].0 {
            return false;
        }
        proof {
            assert(a@[i as int] == b@[i as int]);
        }
        i += 1;
    }
    proof {
        assert(a@ =~= b@);
    }
    true
}

/// The run-consistency test: the route's stop ordering `goal`, filtered
/// to the known stops the run observed, must equal the run's observed
/// known-stop sequence `partial` exactly — same length, same order, same
/// values. A run that observed the stops in another order, or observed a
/// known stop foreign to the ordering, is rejected.
pub fn is_similar_sequence(partial: &Vec<Junction>, goal: &Vec<Junction>) -> (r: bool)
    ensures
        r == (filter_members(goal@, partial@) == partial@),
{
    let mut filtered: Vec<Junction> = Vec::new();
    let mut i: usize = 0;
    proof {
        assert(goal@.take(0) =~= Seq::<Junction>::empty());
    }
    while i < goal.len()
        invariant
            i <= goal@.len(),
            filtered@ == filter_members(goal@.take(i as int), partial@),
        decreases goal@.len() - i,
    {
        let g = goal[i];
        proof {
            assert(goal@.take(i as int + 1).drop_last() =~= goal@.take(i as int));
            assert(goal@.take(i as int + 1).last() == goal@[i as int]);
        }
        if contains_junction(partial, g) {
            filtered.push(g);
        }
        i += 1;
    }
    proof {
        assert(goal@.take(goal@.len() as int) =~= goal@);
    }
    junctions_equal(&filtered, partial)
}

/// One vehicle run as the selector sees it: its identity, its observed
/// known-stop sequence, and its full timestamped junction sequence.
#[derive(Clone, Debug)]
pub struct RunJunctions {
    pub line_run: LineRun,
    pub known: Vec<Junction>,
    pub events: Vec<(u64, Junction)>,
}

/// A run is kept for a route when it belongs to the route's line,
/// observed at least two known stops, and its known-stop sequence is
/// consistent with the route's stop ordering.
pub open spec fn run_accepted(run: RunJunctions, line: Line, goal: Seq<Junction>) -> bool {
    &&& run.line_run.line == line
    &&& run.known@.len() > 1
    &&& filter_members(goal, run.known@) == run.known@
}

/// The event sequences of the accepted runs, in input order.
pub open spec fn selected_events(runs: Seq<RunJunctions>, line: Line, goal: Seq<Junction>) -> Seq<
    Seq<(u64, Junction)>,
>
    decreases runs.len(),
{
    if runs.len() == 0 {
        Seq::empty()
    } else {
        let rest = selected_events(runs.drop_last(), line, goal);
        if run_accepted(runs.last(), line, goal) {
            rest.push(runs.last().events@)
        } else {
            rest
        }
    }
}

/// Keep, for one route, the runs consistent with its stop ordering.
///
/// Candidates are compared against one fixed ordering here, so the
/// longest-match-wins selection policy degenerates to keeping every
/// accepted run: all matches share the ordering's length.
pub fn select_matching_runs(runs: &Vec<RunJunctions>, line: Line, goal: &Vec<Junction>) -> (r: Vec<
    Vec<(u64, Junction)>,
>)
    ensures
        Seq::new(r@.len(), |i: int| r@[i]@) == selected_events(runs@, line, goal@),
{
    let mut r: Vec<Vec<(u64, Junction)>> = Vec::new();
    let mut i: usize = 0;
    proof {
        assert(runs@.take(0) =~= Seq::<RunJunctions>::empty());
        assert(Seq::new(r@.len(), |k: int| r@[k]@) =~= selected_events(
            runs@.take(0),
            line,
            goal@,
        ));
    }
    while i < runs.len()
        invariant
            i <= runs@.len(),
            Seq::new(r@.len(), |k: int| r@[k]@) == selected_events(runs@.take(i as int), line, goal@),
        decreases runs@.len() - i,
    {
        let run = &runs[i];
        proof {
            assert(runs@.take(i as int + 1).drop_last() =~= runs@.take(i as int));
            assert(runs@.take(i as int + 1).last() == runs@[i as int]);
        }
        let keep = run.line_run.line.0 == line.0 && run.known.len() > 1 && is_similar_sequence(
            &run.known,
            goal,
        );
        proof {
            assert(run.line_run.line == line <==> run.line_run.line.0 == line.0);
        }
        if keep {
            let events = copy_events(&run.events);
            r.push(events);
            proof {
                assert(Seq::new(r@.len(), |k: int| r@[k]@) =~= selected_events(
                    runs@.take(i as int + 1),
                    line,
                    goal@,
                ));
            }
        } else {
            proof {
                assert(Seq::new(r@.len(), |k: int| r@[k]@) =~= selected_events(
                    runs@.take(i as int + 1),
                    line,
                    goal@,
                ));
            }
        }
        i += 1;
    }
    proof {
        assert(runs@.take(runs@.len() as int) =~= runs@);
    }
    r
}

/// A plain copy of a timestamped event vector.
pub(crate) fn copy_events(v: &Vec<(u64, Junction)>) -> (r: Vec<(u64, Junction)>)
    ensures
        r@ == v@,
{
    let mut r: Vec<(u64, Junction)> = Vec::new();
    let mut i: usize = 0;
    while i < v.len()
        invariant
            i <= v@.len(),
            r@ == v@.take(i as int),
        decreases v@.len() - i,
    {
        r.push(v[i]);
        proof {
            assert(v@.take(i as int + 1) =~= v@.take(i as int).push(v@[i as int]));
        }
        i += 1;
    }
    proof {
        assert(v@.take(v@.len() as int) =~= v@);
    }
    r
}

} // verus!
