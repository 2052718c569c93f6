use vstd::prelude::*;
use vstd::pervasive::VecAdditionalExecFns;
use crate::ids::{Direction, Junction, Line, Run};
use crate::segments::find_key_from;

verus! {

/// The position of the largest of the first `n` values, the last one
/// when several tie.
pub open spec fn idx_of_max(values: Seq<u32>, n: int) -> Option<int>
    decreases n,
{
    if n <= 0 {
        None
    } else {
        match idx_of_max(values, n - 1) {
            Option::None => Some(n - 1),
            Option::Some(p) => if values[n - 1] >= values[p] {
                Some(n - 1)
            } else {
                Some(p)
            },
        }
    }
}

/// The index of the maximum value, or nothing for an empty slice; among
/// equal maxima the last wins.
pub fn index_of_max(values: &[u32]) -> (r: Option<usize>)
    ensures
        match idx_of_max(values@, values@.len() as int) {
            Option::None => r is None,
            Option::Some(i) => r is Some && r->Some_0 == i,
        },
{
    let n = values.len();
    let mut best: Option<usize> = None;
    let mut i: usize = 0;
    while i < n
        invariant
            i <= n,
            n == values@.len(),
            best is Some ==> best->Some_0 < i,
            match idx_of_max(values@, i as int) {
                Option::None => best is None,
                Option::Some(p) => best is Some && best->Some_0 == p,
            },
        decreases n - i,
    {
        match best {
            Option::None => {
                best = Some(i);
            },
            Option::Some(b) => {
                if values[i] >= values[b] {
                    best = Some(i);
                }
            },
        }
        i += 1;
    }
    best
}

/// Raise the count of `j`, first opening an entry for it at the end.
pub open spec fn bump_count(m: Seq<(Junction, u32)>, j: Junction) -> Seq<(Junction, u32)> {
    match find_key_from(m, j, 0) {
        Option::None => m.push((j, 1)),
        Option::Some(i) => m.update(i, (j, (m[i].1 + 1) as u32)),
    }
}

/// The occurrence counts of the junctions, keyed in first-seen order.
pub open spec fn counts_fold(s: Seq<Junction>, i: int, m: Seq<(Junction, u32)>) -> Seq<
    (Junction, u32),
>
    decreases s.len() - i,
{
    if i < 0 || i >= s.len() {
        m
    } else {
        counts_fold(s, i + 1, bump_count(m, s[i]))
    }
}

/// The values column of a count table.
pub open spec fn count_values(m: Seq<(Junction, u32)>) -> Seq<u32> {
    Seq::new(m.len(), |i: int| m[i].1)
}

/// The winning junction of a vote: the most frequent one, counts kept
/// in first-seen order, the latest-arriving count winning ties.
pub open spec fn vote(d: Seq<Junction>) -> Option<Junction> {
    let counts = counts_fold(d, 0, Seq::empty());
    match idx_of_max(count_values(counts), counts.len() as int) {
        Option::None => None,
        Option::Some(i) => Some(counts[i].0),
    }
}

/// The most frequently observed junction, or nothing for an empty list.
/// Counts are kept in first-seen order, and among equally frequent
/// junctions the one whose first observation came latest wins.
#[verifier::loop_isolation(false)]
pub fn choose_junction(vec: Vec<Junction>) -> (r: Option<Junction>)
    requires
        vec@.len() <= u32::MAX,
    ensures
        r == vote(vec@),
{
    let ghost gs = vec@;
    let mut occ: Vec<(Junction, u32)> = Vec::new();
    let mut i: usize = 0;
    proof {
        assert(counts_fold(gs, 0, occ@) == counts_fold(gs, 0, Seq::empty()));
    }
    while i < vec.len()
        invariant
            i <= gs.len(),
            counts_fold(gs, i as int, occ@) == counts_fold(gs, 0, Seq::empty()),
            forall|k: int| 0 <= k < occ@.len() ==> (#[trigger] occ@[k]).1 <= i,
        decreases gs.len() - i,
    {
        let j = vec[i];
        let ghost m0 = occ@;
        bump_count_exec(&mut occ, j);
        proof {
            assert forall|k: int| 0 <= k < occ@.len() implies (#[trigger] occ@[k]).1 <= i + 1 by {
                crate::segments::lemma_find_key_range(m0, j, 0);
                match find_key_from(m0, j, 0) {
                    Option::None => {
                        if k < m0.len() {
                            assert(occ@[k] == m0[k]);
                        } else {
                            assert(occ@[k] == (j, 1u32));
                        }
                    },
                    Option::Some(idx) => {
                        if k != idx {
                            assert(occ@[k] == m0[k]);
                        }
                    },
                }
            }
        }
        i += 1;
    }
    let ghost counts = counts_fold(gs, 0, Seq::empty());
    let mut values: Vec<u32> = Vec::new();
    let mut t: usize = 0;
    proof {
        assert(values@ =~= count_values(occ@).take(0));
    }
    while t < occ.len()
        invariant
            t <= occ@.len(),
            values@ == count_values(occ@).take(t as int),
        decreases occ@.len() - t,
    {
        values.push(occ[t].1);
        proof {
            assert(values@ =~= count_values(occ@).take(t as int + 1));
        }
        t += 1;
    }
    proof {
        assert(count_values(occ@).take(occ@.len() as int) =~= count_values(occ@));
        assert(occ@ == counts);
        lemma_idx_of_max_range(count_values(occ@), occ@.len() as int);
    }
    match index_of_max(values.as_slice()) {
        Option::None => None,
        Option::Some(idx) => Some(occ[idx].0),
    }
}

proof fn lemma_idx_of_max_range(values: Seq<u32>, n: int)
    requires
        n <= values.len(),
    ensures
        match idx_of_max(values, n) {
            Option::None => n <= 0,
            Option::Some(p) => 0 <= p < n,
        },
    decreases n,
{
    if n > 0 {
        lemma_idx_of_max_range(values, n - 1);
    }
}

/// Raise the count of one junction.
fn bump_count_exec(occ: &mut Vec<(Junction, u32)>, j: Junction)
    requires
        forall|k: int| 0 <= k < old(occ)@.len() ==> (#[trigger] old(occ)@[k]).1 < u32::MAX,
    ensures
        final(occ)@ == bump_count(old(occ)@, j),
{
    let ghost m = occ@;
    let mut i: usize = 0;
    while i < occ.len()
        invariant
            i <= occ@.len(),
            m == occ@,
            m == old(occ)@,
            forall|k: int| 0 <= k < m.len() ==> (#[trigger] m[k]).1 < u32::MAX,
            find_key_from(m, j, 0) == find_key_from(m, j, i as int),
        decreases occ@.len() - i,
    {
        let (k, c) = occ[i];
        if k.0 == j.0 {
            proof {
                assert(m[i as int].0 == j);
                assert(find_key_from(m, j, i as int) == Some(i as int));
            }
            occ.set(i, (j, c + 1));
            return ;
        }
        proof {
            assert(m[i as int].0 != j);
        }
        i += 1;
    }
    occ.push((j, 1));
}

/// One telegram row of the junction-graph tool: when, where, and the
/// requested direction.
#[derive(Clone, Copy, Debug, PartialEq, Eq, Structural)]
pub struct GraphRow {
    pub time: i64,
    pub line: Line,
    pub run: Run,
    pub direction: Direction,
    pub junction: Junction,
}

/// The entries with each observation list as a sequence.
pub open spec fn obs_views(s: Seq<((Junction, Direction), Vec<Junction>)>) -> Seq<
    ((Junction, Direction), Seq<Junction>),
> {
    Seq::new(s.len(), |i: int| (s[i].0, s[i].1@))
}

/// The junctions reported, within the look-ahead window of row `i`, by
/// later rows of the same line and run. The window opens ten rows ahead
/// and closes once the previously examined row lies 300 seconds past
/// row `i`.
pub open spec fn window_scan(
    rows: Seq<GraphRow>,
    i: int,
    it: int,
    time: int,
    acc: Seq<Junction>,
) -> Seq<Junction>
    decreases rows.len() - it,
{
    if it < 0 || it >= rows.len() || time >= rows[i].time + 300 {
        acc
    } else {
        let future = rows[it];
        let acc2 = if future.line == rows[i].line && future.run == rows[i].run {
            acc.push(future.junction)
        } else {
            acc
        };
        window_scan(rows, i, it + 1, future.time as int, acc2)
    }
}

/// Extend the observation list of `key` by `js`, opening the entry at
/// the end when it is new.
pub open spec fn extend_obs(
    m: Seq<((Junction, Direction), Seq<Junction>)>,
    key: (Junction, Direction),
    js: Seq<Junction>,
) -> Seq<((Junction, Direction), Seq<Junction>)> {
    match find_key_from(m, key, 0) {
        Option::None => m.push((key, js)),
        Option::Some(p) => m.update(p, (key, m[p].1 + js)),
    }
}

/// The observation table after scanning every row but the last.
pub open spec fn measured_fold(
    rows: Seq<GraphRow>,
    i: int,
    m: Seq<((Junction, Direction), Seq<Junction>)>,
) -> Seq<((Junction, Direction), Seq<Junction>)>
    decreases rows.len() - i,
{
    if i < 0 || i + 1 >= rows.len() {
        m
    } else {
        let js = window_scan(rows, i, i + 10, rows[i].time as int, Seq::empty());
        measured_fold(rows, i + 1, extend_obs(m, (rows[i].junction, rows[i].direction), js))
    }
}

/// The observations with the entry's own junction removed.
pub open spec fn drop_self(js: Seq<Junction>, own: Junction) -> Seq<Junction>
    decreases js.len(),
{
    if js.len() == 0 {
        Seq::empty()
    } else {
        let rest = drop_self(js.drop_last(), own);
        if js.last() != own {
            rest.push(js.last())
        } else {
            rest
        }
    }
}

/// The graph edges the observation table votes for, one per entry whose
/// filtered observations are countable and non-empty.
pub open spec fn edges_fold(
    m: Seq<((Junction, Direction), Seq<Junction>)>,
    k: int,
    acc: Seq<((Junction, Direction), Junction)>,
) -> Seq<((Junction, Direction), Junction)>
    decreases m.len() - k,
{
    if k < 0 || k >= m.len() {
        acc
    } else {
        let d = drop_self(m[k].1, m[k].0.0);
        let acc2 = if d.len() <= u32::MAX {
            match vote(d) {
                Option::None => acc,
                Option::Some(t) => acc.push((m[k].0, t)),
            }
        } else {
            acc
        };
        edges_fold(m, k + 1, acc2)
    }
}

/// Derive the most-likely-next-junction graph from directed telegram
/// rows: each row's look-ahead window contributes observations under the
/// row's (junction, direction) key, each key's observations then vote,
/// the key's own junction excluded.
#[verifier::loop_isolation(false)]
pub fn build_junction_graph(rows: &Vec<GraphRow>) -> (r: Vec<((Junction, Direction), Junction)>)
    requires
        rows@.len() + 10 <= usize::MAX,
        forall|t: int| 0 <= t < rows@.len() ==> (#[trigger] rows@[t]).time <= i64::MAX - 300,
    ensures
        r@ == edges_fold(measured_fold(rows@, 0, Seq::empty()), 0, Seq::empty()),
{
    let ghost grows = rows@;
    let mut measured: Vec<((Junction, Direction), Vec<Junction>)> = Vec::new();
    proof {
        assert(obs_views(measured@) =~= Seq::<((Junction, Direction), Seq<Junction>)>::empty());
    }
    let n = rows.len();
    let mut i: usize = 0;
    while i + 1 < n
        invariant
            i <= n,
            n == grows.len(),
            measured_fold(grows, i as int, obs_views(measured@)) == measured_fold(
                grows,
                0,
                Seq::empty(),
            ),
        decreases n - i,
    {
        let current = rows[i];
        let mut js: Vec<Junction> = Vec::new();
        let mut time = current.time;
        let mut it: usize = i + 10;
        proof {
            assert(js@ =~= Seq::<Junction>::empty());
        }
        while it < n && time < current.time + 300
            invariant
                i + 10 <= it,
                window_scan(grows, i as int, it as int, time as int, js@) == window_scan(
                    grows,
                    i as int,
                    i as int + 10,
                    grows[i as int].time as int,
                    Seq::empty(),
                ),
            decreases n - it,
        {
            let future = rows[it];
            time = future.time;
            if future.line.0 == current.line.0 && future.run.0 == current.run.0 {
                proof {
                    assert(grows[it as int].line == grows[i as int].line);
                    assert(grows[it as int].run == grows[i as int].run);
                }
                js.push(future.junction);
            } else {
                proof {
                    assert(!(grows[it as int].line == grows[i as int].line && grows[it as int].run
                        == grows[i as int].run));
                }
            }
            it += 1;
        }
        extend_obs_exec(&mut measured, (current.junction, current.direction), js);
        i += 1;
    }
    let ghost m_final = measured_fold(grows, 0, Seq::empty());
    proof {
        assert(obs_views(measured@) == m_final);
    }
    let mut edges: Vec<((Junction, Direction), Junction)> = Vec::new();
    let mut k: usize = 0;
    proof {
        assert(edges@ =~= Seq::<((Junction, Direction), Junction)>::empty());
    }
    while k < measured.len()
        invariant
            k <= measured@.len(),
            obs_views(measured@) == m_final,
            edges_fold(m_final, k as int, edges@) == edges_fold(m_final, 0, Seq::empty()),
        decreases measured@.len() - k,
    {
        let (key, obs) = &measured[k];
        let drained = drop_self_exec(obs, key.0);
        proof {
            assert(m_final[k as int].1 == obs@);
            assert(m_final[k as int].0 == *key);
        }
        if drained.len() as u64 <= u32::MAX as u64 {
            match choose_junction(drained) {
                Option::None => {},
                Option::Some(target) => {
                    edges.push((*key, target));
                },
            }
        }
        k += 1;
    }
    edges
}

/// Extend one key's observation list.
fn extend_obs_exec(
    measured: &mut Vec<((Junction, Direction), Vec<Junction>)>,
    key: (Junction, Direction),
    js: Vec<Junction>,
)
    ensures
        obs_views(final(measured)@) == extend_obs(obs_views(old(measured)@), key, js@),
{
    let ghost m = obs_views(measured@);
    let mut i: usize = 0;
    while i < measured.len()
        invariant
            i <= measured@.len(),
            m == obs_views(measured@),
            m == obs_views(old(measured)@),
            find_key_from(m, key, 0) == find_key_from(m, key, i as int),
        decreases measured@.len() - i,
    {
        let found = measured[i].0.0.0 == key.0.0 && measured[i].0.1.0 == key.1.0;
        if found {
            proof {
                assert(m[i as int].0 == key);
                assert(find_key_from(m, key, i as int) == Some(i as int));
            }
            let mut js_in = js;
            let entry = &mut measured[i];
            entry.1.append(&mut js_in);
            proof {
                assert(obs_views(measured@) =~= m.update(i as int, (key, m[i as int].1 + js@)));
            }
            return ;
        }
        proof {
            assert(m[i as int].0 != key);
        }
        i += 1;
    }
    measured.push((key, js));
    proof {
        assert(obs_views(measured@) =~= m.push((key, js@)));
    }
}

/// A copy of the observations with the entry's own junction removed.
fn drop_self_exec(js: &Vec<Junction>, own: Junction) -> (r: Vec<Junction>)
    ensures
        r@ == drop_self(js@, own),
{
    let mut r: Vec<Junction> = Vec::new();
    let mut i: usize = 0;
    proof {
        assert(js@.take(0) =~= Seq::<Junction>::empty());
    }
    while i < js.len()
        invariant
            i <= js@.len(),
            r@ == drop_self(js@.take(i as int), own),
        decreases js@.len() - i,
    {
        let j = js[i];
        proof {
            assert(js@.take(i as int + 1).drop_last() =~= js@.take(i as int));
            assert(js@.take(i as int + 1).last() == js@[i as int]);
        }
        if j.0 != own.0 {
            r.push(j);
        }
        i += 1;
    }
    proof {
        assert(js@.take(js@.len() as int) =~= js@);
    }
    r
}

} // verus!
