use vstd::prelude::*;
use crate::ids::{Junction, Line, LineRun, Run};
use crate::segments::find_key_from;

verus! {

/// A vehicle run is closed once no telegram of it has arrived for this
/// many seconds.
pub const RUN_MAX_GAP_SECS: u64 = 1800;

/// One parsed telegram row: timestamp in seconds, line, run and junction.
#[derive(Clone, Copy, Debug, PartialEq, Eq, Structural)]
pub struct TelegramRow {
    pub time: u64,
    pub line: Line,
    pub run: Run,
    pub junction: Junction,
}

/// The entries with each event list as a sequence.
pub open spec fn run_views(s: Seq<(LineRun, Vec<(u64, Junction)>)>) -> Seq<
    (LineRun, Seq<(u64, Junction)>),
> {
    Seq::new(s.len(), |i: int| (s[i].0, s[i].1@))
}

/// Record one telegram against the open runs: a new run opens with this
/// event; a known run takes the event only when its junction differs
/// from the run's last event (consecutive duplicates collapse).
pub open spec fn note_event(
    open: Seq<(LineRun, Seq<(u64, Junction)>)>,
    lr: LineRun,
    e: (u64, Junction),
) -> Seq<(LineRun, Seq<(u64, Junction)>)> {
    match find_key_from(open, lr, 0) {
        Option::None => open.push((lr, seq![e])),
        Option::Some(i) => if open[i].1.len() > 0 && open[i].1.last().1 == e.1 {
            open
        } else {
            open.update(i, (lr, open[i].1.push(e)))
        },
    }
}

/// A run has expired at time `t` when its last event lies further back
/// than the maximum gap.
pub open spec fn run_expired(entry: (LineRun, Seq<(u64, Junction)>), t: u64) -> bool {
    entry.1.len() > 0 && entry.1.last().0 + RUN_MAX_GAP_SECS < t
}

/// Separate the open runs, in order, into those still live at `t` and
/// those that have expired.
pub open spec fn split_expired(open: Seq<(LineRun, Seq<(u64, Junction)>)>, t: u64) -> (
    Seq<(LineRun, Seq<(u64, Junction)>)>,
    Seq<(LineRun, Seq<(u64, Junction)>)>,
)
    decreases open.len(),
{
    if open.len() == 0 {
        (Seq::empty(), Seq::empty())
    } else {
        let rest = split_expired(open.skip(1), t);
        if run_expired(open[0], t) {
            (rest.0, seq![open[0]] + rest.1)
        } else {
            (seq![open[0]] + rest.0, rest.1)
        }
    }
}

/// The grouping state machine over the telegram rows: each row is noted
/// against its run, and any runs silent for longer than the gap are then
/// closed in order.
pub open spec fn group_steps(
    rows: Seq<TelegramRow>,
    open: Seq<(LineRun, Seq<(u64, Junction)>)>,
    done: Seq<(LineRun, Seq<(u64, Junction)>)>,
) -> (Seq<(LineRun, Seq<(u64, Junction)>)>, Seq<(LineRun, Seq<(u64, Junction)>)>)
    decreases rows.len(),
{
    if rows.len() == 0 {
        (open, done)
    } else {
        let row = rows[0];
        let lr = LineRun { line: row.line, run: row.run };
        let open1 = note_event(open, lr, (row.time, row.junction));
        let parts = split_expired(open1, row.time);
        group_steps(rows.skip(1), parts.0, done + parts.1)
    }
}

/// Group parsed telegrams into per-run, time-ordered junction sequences:
/// consecutive duplicate junctions collapse, and a run is closed once it
/// stays silent beyond the maximum gap. Closed runs come first, in the
/// order they expired, then the runs still open, in the order they
/// opened.
pub fn group_telegrams(rows: &Vec<TelegramRow>) -> (r: Vec<(LineRun, Vec<(u64, Junction)>)>)
    ensures
        ({
            let s = group_steps(rows@, Seq::empty(), Seq::empty());
            run_views(r@) == s.1 + s.0
        }),
{
    let ghost grows = rows@;
    let mut open: Vec<(LineRun, Vec<(u64, Junction)>)> = Vec::new();
    let mut done: Vec<(LineRun, Vec<(u64, Junction)>)> = Vec::new();
    proof {
        assert(grows.skip(0) =~= grows);
        assert(run_views(open@) =~= Seq::<(LineRun, Seq<(u64, Junction)>)>::empty());
        assert(run_views(done@) =~= Seq::<(LineRun, Seq<(u64, Junction)>)>::empty());
    }
    let mut i: usize = 0;
    while i < rows.len()
        invariant
            i <= grows.len(),
            grows == rows@,
            group_steps(grows.skip(i as int), run_views(open@), run_views(done@)) == group_steps(
                grows,
                Seq::empty(),
                Seq::empty(),
            ),
        decreases grows.len() - i,
    {
        let row = rows[i];
        let lr = LineRun { line: row.line, run: row.run };
        proof {
            assert(grows.skip(i as int)[0] == grows[i as int]);
            assert(grows.skip(i as int).skip(1) =~= grows.skip(i as int + 1));
        }
        note_event_exec(&mut open, lr, (row.time, row.junction));
        sweep_expired(&mut open, &mut done, row.time);
        i += 1;
    }
    proof {
        assert(grows.skip(grows.len() as int) =~= Seq::<TelegramRow>::empty());
    }
    let mut r = done;
    let mut j: usize = 0;
    let ghost rdone = run_views(r@);
    let ghost ropen = run_views(open@);
    proof {
        assert(run_views(r@) =~= rdone + run_views(open@).take(0));
    }
    while j < open.len()
        invariant
            j <= open@.len(),
            ropen == run_views(open@),
            run_views(r@) == rdone + ropen.take(j as int),
        decreases open@.len() - j,
    {
        let ghost r0 = run_views(r@);
        let (lr, ev) = &open[j];
        let entry = (*lr, crate::selector::copy_events(ev));
        proof {
            assert(entry.0 == open@[j as int].0);
            assert(entry.1@ == open@[j as int].1@);
        }
        r.push(entry);
        proof {
            assert(run_views(r@) =~= r0.push(ropen[j as int]));
            assert(ropen.take(j as int + 1) =~= ropen.take(j as int).push(ropen[j as int]));
            assert((rdone + ropen.take(j as int)).push(ropen[j as int]) =~= rdone + ropen.take(
                j as int + 1,
            ));
        }
        j += 1;
    }
    proof {
        assert(ropen.take(ropen.len() as int) =~= ropen);
    }
    r
}

/// Note one telegram against the open runs.
fn note_event_exec(
    open: &mut Vec<(LineRun, Vec<(u64, Junction)>)>,
    lr: LineRun,
    e: (u64, Junction),
)
    ensures
        run_views(final(open)@) == note_event(run_views(old(open)@), lr, e),
{
    let ghost m = run_views(open@);
    let mut i: usize = 0;
    while i < open.len()
        invariant
            i <= open@.len(),
            m == run_views(open@),
            m == run_views(old(open)@),
            find_key_from(m, lr, 0) == find_key_from(m, lr, i as int),
        decreases open@.len() - i,
    {
        let found = open[i].0.line.0 == lr.line.0 && open[i].0.run.0 == lr.run.0;
        if found {
            proof {
                assert(m[i as int].0 == lr);
                assert(find_key_from(m, lr, i as int) == Some(i as int));
            }
            let el = open[i].1.len();
            if el > 0 && open[i].1[el - 1].1.0 == e.1.0 {
                proof {
                    assert(m[i as int].1.last().1 == e.1);
                    assert(run_views(open@) =~= note_event(m, lr, e));
                }
                return ;
            }
            let entry = &mut open[i];
            entry.1.push(e);
            proof {
                assert(run_views(open@) =~= m.update(i as int, (lr, m[i as int].1.push(e))));
            }
            return ;
        }
        proof {
            assert(m[i as int].0 != lr);
        }
        i += 1;
    }
    let mut ev: Vec<(u64, Junction)> = Vec::new();
    ev.push(e);
    open.push((lr, ev));
    proof {
        assert(ev@ =~= seq![e]);
        assert(run_views(open@) =~= m.push((lr, seq![e])));
    }
}

/// Close, in order, every open run that has expired at `t`.
fn sweep_expired(
    open: &mut Vec<(LineRun, Vec<(u64, Junction)>)>,
    done: &mut Vec<(LineRun, Vec<(u64, Junction)>)>,
    t: u64,
)
    ensures
        run_views(final(open)@) == split_expired(run_views(old(open)@), t).0,
        run_views(final(done)@) == run_views(old(done)@) + split_expired(
            run_views(old(open)@),
            t,
        ).1,
{
    let ghost m = run_views(open@);
    let ghost d0 = run_views(done@);
    let mut keep: Vec<(LineRun, Vec<(u64, Junction)>)> = Vec::new();
    let mut i: usize = 0;
    proof {
        assert(m.skip(0) =~= m);
        assert(run_views(keep@) =~= Seq::<(LineRun, Seq<(u64, Junction)>)>::empty());
        assert(run_views(keep@) + split_expired(m, t).0 =~= split_expired(m, t).0);
        assert(run_views(done@) + split_expired(m, t).1 =~= d0 + split_expired(m, t).1);
    }
    while i < open.len()
        invariant
            i <= open@.len(),
            m == run_views(open@),
            m == run_views(old(open)@),
            d0 == run_views(old(done)@),
            run_views(keep@) + split_expired(m.skip(i as int), t).0 == split_expired(m, t).0,
            run_views(done@) + split_expired(m.skip(i as int), t).1 == d0 + split_expired(m, t).1,
        decreases open@.len() - i,
    {
        proof {
            assert(m.skip(i as int)[0] == m[i as int]);
            assert(m.skip(i as int).skip(1) =~= m.skip(i as int + 1));
        }
        let ghost keep0 = run_views(keep@);
        let ghost done0 = run_views(done@);
        let (lr, ev) = &open[i];
        let el = ev.len();
        let expired = el > 0 && ev[el - 1].0 <= u64::MAX - RUN_MAX_GAP_SECS && ev[el - 1].0
            + RUN_MAX_GAP_SECS < t;
        proof {
            assert(expired == run_expired(m[i as int], t));
        }
        let entry = (*lr, crate::selector::copy_events(ev));
        let ghost parts_i = split_expired(m.skip(i as int), t);
        let ghost parts_n = split_expired(m.skip(i as int + 1), t);
        if expired {
            done.push(entry);
            proof {
                assert(parts_i.1 =~= seq![m[i as int]] + parts_n.1);
                assert(run_views(done@) =~= done0 + seq![m[i as int]]);
                assert(run_views(done@) + parts_n.1 =~= done0 + parts_i.1);
            }
        } else {
            keep.push(entry);
            proof {
                assert(parts_i.0 =~= seq![m[i as int]] + parts_n.0);
                assert(run_views(keep@) =~= keep0 + seq![m[i as int]]);
                assert(run_views(keep@) + parts_n.0 =~= keep0 + parts_i.0);
            }
        }
        i += 1;
    }
    proof {
        assert(m.skip(m.len() as int) =~= Seq::<(LineRun, Seq<(u64, Junction)>)>::empty());
        assert(run_views(keep@) + Seq::<(LineRun, Seq<(u64, Junction)>)>::empty() =~= run_views(
            keep@,
        ));
        assert(run_views(done@) + Seq::<(LineRun, Seq<(u64, Junction)>)>::empty() =~= run_views(
            done@,
        ));
    }
    *open = keep;
}

} // verus!
