use vstd::prelude::*;
use vstd::pervasive::VecAdditionalExecFns;
use crate::ids::{Junction, LineRun};
use crate::selector::{contains_junction, copy_events, RunJunctions};

verus! {

/// The junctions of the timestamped events that belong to the known-stop
/// set, in observation order.
pub open spec fn known_of(events: Seq<(u64, Junction)>, set: Seq<Junction>) -> Seq<Junction>
    decreases events.len(),
{
    if events.len() == 0 {
        Seq::empty()
    } else {
        let rest = known_of(events.drop_last(), set);
        if set.contains(events.last().1) {
            rest.push(events.last().1)
        } else {
            rest
        }
    }
}

/// Pair each run with its observed known-stop sequence, keeping the full
/// event sequence beside it.
pub fn junctions_by_known_stops(
    known_stops: &Vec<Junction>,
    run_junctions: Vec<(LineRun, Vec<(u64, Junction)>)>,
) -> (r: Vec<RunJunctions>)
    ensures
        r@.len() == run_junctions@.len(),
        forall|i: int|
            0 <= i < r@.len() ==> {
                &&& (#[trigger] r@[i]).line_run == run_junctions@[i].0
                &&& r@[i].events@ == run_junctions@[i].1@
                &&& r@[i].known@ == known_of(run_junctions@[i].1@, known_stops@)
            },
{
    let mut r: Vec<RunJunctions> = Vec::new();
    let mut i: usize = 0;
    while i < run_junctions.len()
        invariant
            i <= run_junctions@.len(),
            r@.len() == i,
            forall|k: int|
                0 <= k < i ==> {
                    &&& (#[trigger] r@[k]).line_run == run_junctions@[k].0
                    &&& r@[k].events@ == run_junctions@[k].1@
                    &&& r@[k].known@ == known_of(run_junctions@[k].1@, known_stops@)
                },
        decreases run_junctions@.len() - i,
    {
        let (line_run, events) = &run_junctions[i];
        let known = filter_known(events, known_stops);
        r.push(RunJunctions { line_run: *line_run, known, events: copy_events(events) });
        i += 1;
    }
    r
}

/// The known-stop junctions of one event sequence, in order.
fn filter_known(events: &Vec<(u64, Junction)>, set: &Vec<Junction>) -> (r: Vec<Junction>)
    ensures
        r@ == known_of(events@, set@),
{
    let mut r: Vec<Junction> = Vec::new();
    let mut i: usize = 0;
    proof {
        assert(events@.take(0) =~= Seq::<(u64, Junction)>::empty());
    }
    while i < events.len()
        invariant
            i <= events@.len(),
            r@ == known_of(events@.take(i as int), set@),
        decreases events@.len() - i,
    {
        let e = events[i];
        proof {
            assert(events@.take(i as int + 1).drop_last() =~= events@.take(i as int));
            assert(events@.take(i as int + 1).last() == events@[i as int]);
        }
        if contains_junction(set, e.1) {
            r.push(e.1);
        }
        i += 1;
    }
    proof {
        assert(events@.take(events@.len() as int) =~= events@);
    }
    r
}

/// Timestamps never decrease along the sequence.
pub open spec fn times_sorted(events: Seq<(u64, Junction)>) -> bool {
    forall|a: int, b: int| 0 <= a <= b < events.len() ==> (#[trigger] events[a]).0 <= (
    #[trigger] events[b]).0
}

/// Replace each event's timestamp by its duration since the previous
/// event of the sub-segment; the first element's duration is zero.
pub open spec fn durations_of(current: Seq<(u64, Junction)>) -> Seq<(u64, Junction)> {
    Seq::new(
        current.len(),
        |i: int|
            if i == 0 {
                (0u64, current[0].1)
            } else {
                (((current[i].0 - current[i - 1].0) as u64), current[i].1)
            },
    )
}

/// Compute the duration list of one closed sub-segment.
fn to_durations(current: &Vec<(u64, Junction)>) -> (r: Vec<(u64, Junction)>)
    requires
        times_sorted(current@),
    ensures
        r@ == durations_of(current@),
{
    let mut r: Vec<(u64, Junction)> = Vec::new();
    let mut i: usize = 0;
    while i < current.len()
        invariant
            i <= current@.len(),
            times_sorted(current@),
            r@.len() == i,
            forall|k: int| 0 <= k < i ==> r@[k] == durations_of(current@)[k],
        decreases current@.len() - i,
    {
        let e = current[i];
        if i == 0 {
            r.push((0, e.1));
        } else {
            let prev = current[i - 1];
            r.push((e.0 - prev.0, e.1));
        }
        i += 1;
    }
    proof {
        assert(r@ =~= durations_of(current@));
    }
    r
}

/// The sub-segments of one run, keyed by their bounding known stops;
/// insertion order is kept and a re-used key replaces its entry.
pub struct SegmentMap {
    pub entries: Vec<((Junction, Junction), Vec<(u64, Junction)>)>,
}

/// The entries with each value as a sequence.
pub open spec fn entry_views(s: Seq<((Junction, Junction), Vec<(u64, Junction)>)>) -> Seq<
    ((Junction, Junction), Seq<(u64, Junction)>),
> {
    Seq::new(s.len(), |i: int| (s[i].0, s[i].1@))
}

/// The first position of `key` at or after `i`.
pub open spec fn find_key_from<K, V>(m: Seq<(K, V)>, key: K, i: int) -> Option<int>
    decreases m.len() - i,
{
    if i < 0 || i >= m.len() {
        None
    } else if m[i].0 == key {
        Some(i)
    } else {
        find_key_from(m, key, i + 1)
    }
}

/// A found key position is a real position at or after the start.
pub(crate) proof fn lemma_find_key_range<K, V>(m: Seq<(K, V)>, key: K, i: int)
    ensures
        match find_key_from(m, key, i) {
            Option::None => true,
            Option::Some(p) => 0 <= p < m.len() && i <= p && m[p].0 == key,
        },
    decreases m.len() - i,
{
    if 0 <= i < m.len() && m[i].0 != key {
        lemma_find_key_range(m, key, i + 1);
    }
}

/// Insert, or replace at the key's first position.
pub open spec fn upsert_spec<V>(
    m: Seq<((Junction, Junction), V)>,
    key: (Junction, Junction),
    val: V,
) -> Seq<((Junction, Junction), V)> {
    match find_key_from(m, key, 0) {
        Option::None => m.push((key, val)),
        Option::Some(i) => m.update(i, (key, val)),
    }
}

impl SegmentMap {
    /// Insert a sub-segment, replacing any earlier one with the same key.
    fn upsert(&mut self, key: (Junction, Junction), val: Vec<(u64, Junction)>)
        ensures
            entry_views(final(self).entries@) == upsert_spec(
                entry_views(old(self).entries@),
                key,
                val@,
            ),
    {
        let ghost m = entry_views(self.entries@);
        let mut i: usize = 0;
        while i < self.entries.len()
            invariant
                i <= self.entries@.len(),
                m == entry_views(self.entries@),
                m == entry_views(old(self).entries@),
                find_key_from(m, key, 0) == find_key_from(m, key, i as int),
            decreases self.entries@.len() - i,
        {
            let (k, _) = &self.entries[i];
            if k.0.0 == key.0.0 && k.1.0 == key.1.0 {
                proof {
                    assert(m[i as int].0 == key);
                    assert(find_key_from(m, key, i as int) == Some(i as int));
                }
                self.entries.set(i, (key, val));
                proof {
                    assert(entry_views(self.entries@) =~= m.update(i as int, (key, val@)));
                }
                return ;
            }
            proof {
                assert(m[i as int].0 != key);
            }
            i += 1;
        }
        self.entries.push((key, val));
        proof {
            assert(entry_views(self.entries@) =~= m.push((key, val@)));
        }
    }

    /// The value stored under `key`, if any.
    pub fn lookup(&self, key: (Junction, Junction)) -> (r: Option<&Vec<(u64, Junction)>>)
        ensures
            match find_key_from(entry_views(self.entries@), key, 0) {
                Option::None => r is None,
                Option::Some(i) => r is Some && r->Some_0@ == entry_views(self.entries@)[i].1,
            },
    {
        let ghost m = entry_views(self.entries@);
        let mut i: usize = 0;
        while i < self.entries.len()
            invariant
                i <= self.entries@.len(),
                m == entry_views(self.entries@),
                find_key_from(m, key, 0) == find_key_from(m, key, i as int),
            decreases self.entries@.len() - i,
        {
            let (k, _) = &self.entries[i];
            if k.0.0 == key.0.0 && k.1.0 == key.1.0 {
                proof {
                    assert(m[i as int].0 == key);
                }
                return Some(&self.entries[i].1);
            }
            proof {
                assert(m[i as int].0 != key);
            }
            i += 1;
        }
        None
    }
}

/// The segmentation state machine of one run, one event at a time: while
/// a known stop is open, intervening junctions accumulate; reaching a
/// known stop closes the open sub-segment — every intervening junction
/// with its duration since the prior event, the first element's duration
/// zero — stores it under the (previous stop, current stop) key, and
/// opens a new sub-segment at the current stop.
pub open spec fn segment_steps(
    events: Seq<(u64, Junction)>,
    set: Seq<Junction>,
    last_known: Option<Junction>,
    next: Seq<(u64, Junction)>,
    out: Seq<((Junction, Junction), Seq<(u64, Junction)>)>,
) -> Seq<((Junction, Junction), Seq<(u64, Junction)>)>
    decreases events.len(),
{
    if events.len() == 0 {
        out
    } else {
        let e = events[0];
        let next1 = if last_known is Some {
            next.push(e)
        } else {
            next
        };
        if set.contains(e.1) {
            if last_known is Some {
                let out1 = upsert_spec(out, (last_known->Some_0, e.1), durations_of(next1));
                segment_steps(events.skip(1), set, Some(e.1), seq![e], out1)
            } else {
                segment_steps(events.skip(1), set, Some(e.1), next1, out)
            }
        } else {
            segment_steps(events.skip(1), set, last_known, next1, out)
        }
    }
}

/// Walk one run's time-ordered junction sequence and close a sub-segment
/// at every known stop encountered after the first.
pub fn segment_run_by_known_stops(known_stops: &Vec<Junction>, events: &Vec<(u64, Junction)>) -> (r:
    SegmentMap)
    requires
        times_sorted(events@),
    ensures
        entry_views(r.entries@) == segment_steps(
            events@,
            known_stops@,
            None,
            Seq::empty(),
            Seq::empty(),
        ),
{
    let ghost g_events = events@;
    let mut last_known: Option<Junction> = None;
    let mut next: Vec<(u64, Junction)> = Vec::new();
    let mut out = SegmentMap { entries: Vec::new() };
    let mut i: usize = 0;
    proof {
        assert(g_events.skip(0) =~= g_events);
        assert(entry_views(out.entries@) =~= Seq::<
            ((Junction, Junction), Seq<(u64, Junction)>),
        >::empty());
    }
    while i < events.len()
        invariant
            i <= g_events.len(),
            g_events == events@,
            times_sorted(g_events),
            times_sorted(next@),
            i < g_events.len() && next@.len() > 0 ==> next@.last().0 <= g_events[i as int].0,
            segment_steps(
                g_events.skip(i as int),
                known_stops@,
                last_known,
                next@,
                entry_views(out.entries@),
            ) == segment_steps(g_events, known_stops@, None, Seq::empty(), Seq::empty()),
        decreases g_events.len() - i,
    {
        let e = events[i];
        proof {
            assert(g_events.skip(i as int)[0] == g_events[i as int]);
            assert(g_events.skip(i as int).skip(1) =~= g_events.skip(i as int + 1));
        }
        if last_known.is_some() {
            next.push(e);
        }
        let known = contains_junction(known_stops, e.1);
        if known {
            match last_known {
                Option::Some(lk) => {
                    let seg = to_durations(&next);
                    out.upsert((lk, e.1), seg);
                    let mut fresh: Vec<(u64, Junction)> = Vec::new();
                    fresh.push(e);
                    next = fresh;
                    proof {
                        assert(next@ =~= seq![e]);
                    }
                    last_known = Some(e.1);
                },
                Option::None => {
                    last_known = Some(e.1);
                },
            }
        }
        i += 1;
    }
    proof {
        assert(g_events.skip(g_events.len() as int) =~= Seq::<(u64, Junction)>::empty());
    }
    out
}

} // verus!
