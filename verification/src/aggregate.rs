use vstd::prelude::*;
use vstd::pervasive::VecAdditionalExecFns;
use crate::geometry::GeoPos;
use crate::ids::Junction;
use crate::segments::{entry_views, find_key_from, segment_steps, times_sorted, SegmentMap};

verus! {

/// A table of the minimum observed duration for each ordered pair of
/// consecutively observed junctions; insertion order is kept.
pub struct PairDurMap {
    pub entries: Vec<((Junction, Junction), u64)>,
}

/// The value stored under `key`, if any.
pub open spec fn pair_lookup(m: Seq<((Junction, Junction), u64)>, key: (Junction, Junction)) -> Option<
    u64,
> {
    match find_key_from(m, key, 0) {
        Option::None => None,
        Option::Some(i) => Some(m[i].1),
    }
}

/// Record one observed duration: insert the pair if it is new, lower its
/// entry if this observation is strictly smaller.
pub open spec fn min_upsert(
    m: Seq<((Junction, Junction), u64)>,
    key: (Junction, Junction),
    d: u64,
) -> Seq<((Junction, Junction), u64)> {
    match find_key_from(m, key, 0) {
        Option::None => m.push((key, d)),
        Option::Some(i) => if d < m[i].1 {
            m.update(i, (key, d))
        } else {
            m
        },
    }
}

/// Fold the consecutive-junction durations of one sub-segment, from
/// position `i` on, into the minimum table.
pub open spec fn min_seg_from(
    m: Seq<((Junction, Junction), u64)>,
    seg: Seq<(u64, Junction)>,
    i: int,
) -> Seq<((Junction, Junction), u64)>
    decreases seg.len() - i,
{
    if i < 1 || i >= seg.len() {
        m
    } else {
        min_seg_from(min_upsert(m, (seg[i - 1].1, seg[i].1), seg[i].0), seg, i + 1)
    }
}

/// Fold every sub-segment of a run's keyed entry list into the table.
pub open spec fn min_entries(
    m: Seq<((Junction, Junction), u64)>,
    entries: Seq<((Junction, Junction), Seq<(u64, Junction)>)>,
) -> Seq<((Junction, Junction), u64)>
    decreases entries.len(),
{
    if entries.len() == 0 {
        m
    } else {
        min_entries(min_seg_from(m, entries[0].1, 1), entries.skip(1))
    }
}

/// Keep, per (start, stop) key, the longest observed sub-segment; the
/// first encountered wins ties.
pub open spec fn longest_upsert(
    m: Seq<((Junction, Junction), Seq<(u64, Junction)>)>,
    key: (Junction, Junction),
    seg: Seq<(u64, Junction)>,
) -> Seq<((Junction, Junction), Seq<(u64, Junction)>)> {
    match find_key_from(m, key, 0) {
        Option::None => m.push((key, seg)),
        Option::Some(i) => if m[i].1.len() < seg.len() {
            m.update(i, (key, seg))
        } else {
            m
        },
    }
}

/// Fold a run's keyed entry list into the longest-sub-segment table.
pub open spec fn longest_entries(
    m: Seq<((Junction, Junction), Seq<(u64, Junction)>)>,
    entries: Seq<((Junction, Junction), Seq<(u64, Junction)>)>,
) -> Seq<((Junction, Junction), Seq<(u64, Junction)>)>
    decreases entries.len(),
{
    if entries.len() == 0 {
        m
    } else {
        longest_entries(longest_upsert(m, entries[0].0, entries[0].1), entries.skip(1))
    }
}

/// The two aggregation tables after folding every selected run, in
/// order; each run contributes the keyed sub-segments of its own
/// segmentation.
pub open spec fn aggregate_fold(
    runs: Seq<Seq<(u64, Junction)>>,
    set: Seq<Junction>,
    mins: Seq<((Junction, Junction), u64)>,
    longest: Seq<((Junction, Junction), Seq<(u64, Junction)>)>,
) -> (Seq<((Junction, Junction), u64)>, Seq<((Junction, Junction), Seq<(u64, Junction)>)>)
    decreases runs.len(),
{
    if runs.len() == 0 {
        (mins, longest)
    } else {
        let entries = segment_steps(runs[0], set, None, Seq::empty(), Seq::empty());
        aggregate_fold(
            runs.skip(1),
            set,
            min_entries(mins, entries),
            longest_entries(longest, entries),
        )
    }
}

impl PairDurMap {
    fn record_min(&mut self, key: (Junction, Junction), d: u64)
        ensures
            final(self).entries@ == min_upsert(old(self).entries@, key, d),
    {
        let ghost m = self.entries@;
        let mut i: usize = 0;
        while i < self.entries.len()
            invariant
                i <= self.entries@.len(),
                m == self.entries@,
                m == old(self).entries@,
                find_key_from(m, key, 0) == find_key_from(m, key, i as int),
            decreases self.entries@.len() - i,
        {
            let (k, v) = self.entries[i];
            if k.0.0 == key.0.0 && k.1.0 == key.1.0 {
                proof {
                    assert(m[i as int].0 == key);
                    assert(find_key_from(m, key, i as int) == Some(i as int));
                }
                if d < v {
                    self.entries.set(i, (key, d));
                }
                return ;
            }
            proof {
                assert(m[i as int].0 != key);
            }
            i += 1;
        }
        self.entries.push((key, d));
    }

    /// The minimum observed duration for an ordered junction pair.
    pub fn lookup(&self, key: (Junction, Junction)) -> (r: Option<u64>)
        ensures
            r == pair_lookup(self.entries@, key),
    {
        let ghost m = self.entries@;
        let mut i: usize = 0;
        while i < self.entries.len()
            invariant
                i <= self.entries@.len(),
                m == self.entries@,
                find_key_from(m, key, 0) == find_key_from(m, key, i as int),
            decreases self.entries@.len() - i,
        {
            let (k, v) = self.entries[i];
            if k.0.0 == key.0.0 && k.1.0 == key.1.0 {
                proof {
                    assert(m[i as int].0 == key);
                }
                return Some(v);
            }
            proof {
                assert(m[i as int].0 != key);
            }
            i += 1;
        }
        None
    }
}

impl SegmentMap {
    fn keep_longest(&mut self, key: (Junction, Junction), seg: Vec<(u64, Junction)>)
        ensures
            entry_views(final(self).entries@) == longest_upsert(
                entry_views(old(self).entries@),
                key,
                seg@,
            ),
    {
        let ghost m = entry_views(self.entries@);
        let mut i: usize = 0;
        while i < self.entries.len()
            invariant
                i <= self.entries@.len(),
                m == entry_views(self.entries@),
                m == entry_views(old(self).entries@),
                find_key_from(m, key, 0) == find_key_from(m, key, i as int),
            decreases self.entries@.len() - i,
        {
            let (k, _) = &self.entries[i];
            if k.0.0 == key.0.0 && k.1.0 == key.1.0 {
                proof {
                    assert(m[i as int].0 == key);
                    assert(find_key_from(m, key, i as int) == Some(i as int));
                }
                if self.entries[i].1.len() < seg.len() {
                    self.entries.set(i, (key, seg));
                    proof {
                        assert(entry_views(self.entries@) =~= m.update(i as int, (key, seg@)));
                    }
                } else {
                    proof {
                        assert(entry_views(self.entries@) =~= m);
                    }
                }
                return ;
            }
            proof {
                assert(m[i as int].0 != key);
            }
            i += 1;
        }
        self.entries.push((key, seg));
        proof {
            assert(entry_views(self.entries@) =~= m.push((key, seg@)));
        }
    }
}

/// Aggregate the selected runs of one route: the global per-pair minimum
/// durations over every observed sub-segment, and per (start, stop) key
/// the longest observed sub-segment.
#[verifier::loop_isolation(false)]
pub fn aggregate_runs(known_stops: &Vec<Junction>, runs: &Vec<Vec<(u64, Junction)>>) -> (r: (
    PairDurMap,
    SegmentMap,
))
    requires
        forall|i: int| 0 <= i < runs@.len() ==> times_sorted((#[trigger] runs@[i])@),
    ensures
        ({
            let folded = aggregate_fold(
                Seq::new(runs@.len(), |i: int| runs@[i]@),
                known_stops@,
                Seq::empty(),
                Seq::empty(),
            );
            r.0.entries@ == folded.0 && entry_views(r.1.entries@) == folded.1
        }),
{
    let ghost gruns = Seq::new(runs@.len(), |i: int| runs@[i]@);
    let mut mins = PairDurMap { entries: Vec::new() };
    let mut longest = SegmentMap { entries: Vec::new() };
    proof {
        assert(gruns.skip(0) =~= gruns);
        assert(entry_views(longest.entries@) =~= Seq::<
            ((Junction, Junction), Seq<(u64, Junction)>),
        >::empty());
    }
    let mut i: usize = 0;
    while i < runs.len()
        invariant
            i <= runs@.len(),
            aggregate_fold(
                gruns.skip(i as int),
                known_stops@,
                mins.entries@,
                entry_views(longest.entries@),
            ) == aggregate_fold(gruns, known_stops@, Seq::empty(), Seq::empty()),
        decreases runs@.len() - i,
    {
        let sm = crate::segments::segment_run_by_known_stops(known_stops, &runs[i]);
        let ghost entries = entry_views(sm.entries@);
        proof {
            assert(gruns.skip(i as int)[0] == gruns[i as int]);
            assert(gruns[i as int] == runs@[i as int]@);
            assert(gruns.skip(i as int).skip(1) =~= gruns.skip(i as int + 1));
        }
        let ghost mins0 = mins.entries@;
        let ghost longest0 = entry_views(longest.entries@);
        proof {
            assert(entries.skip(0) =~= entries);
        }
        let mut j: usize = 0;
        while j < sm.entries.len()
            invariant
                j <= sm.entries@.len(),
                min_entries(mins.entries@, entries.skip(j as int)) == min_entries(mins0, entries),
                longest_entries(entry_views(longest.entries@), entries.skip(j as int))
                    == longest_entries(longest0, entries),
            decreases sm.entries@.len() - j,
        {
            let seg_len = sm.entries[j].1.len();
            proof {
                assert(entries.skip(j as int)[0] == entries[j as int]);
                assert(entries.skip(j as int).skip(1) =~= entries.skip(j as int + 1));
                assert(entries[j as int].1 == sm.entries@[j as int].1@);
            }
            let ghost mstart = mins.entries@;
            let mut p: usize = 1;
            while p < seg_len
                invariant
                    1 <= p,
                    p <= seg_len || p == 1,
                    min_seg_from(mins.entries@, entries[j as int].1, p as int) == min_seg_from(
                        mstart,
                        entries[j as int].1,
                        1,
                    ),
                decreases seg_len - p,
            {
                let prev = sm.entries[j].1[p - 1];
                let cur = sm.entries[j].1[p];
                proof {
                    assert(prev == entries[j as int].1[p as int - 1]);
                    assert(cur == entries[j as int].1[p as int]);
                }
                mins.record_min((prev.1, cur.1), cur.0);
                p += 1;
            }
            let seg_copy = crate::selector::copy_events(&sm.entries[j].1);
            let key = sm.entries[j].0;
            proof {
                assert(key == entries[j as int].0);
                assert(seg_copy@ == entries[j as int].1);
            }
            longest.keep_longest(key, seg_copy);
            j += 1;
        }
        proof {
            assert(entries.skip(sm.entries@.len() as int) =~= Seq::<
                ((Junction, Junction), Seq<(u64, Junction)>),
            >::empty());
        }
        i += 1;
    }
    proof {
        assert(gruns.skip(gruns.len() as int) =~= Seq::<Seq<(u64, Junction)>>::empty());
    }
    (mins, longest)
}

/// Rebuild a canonical order's duration list, replacing each
/// consecutive-junction duration by the global minimum for that exact
/// ordered pair where one was observed, and keeping the original
/// duration otherwise.
pub open spec fn substitute_spec(
    seg: Seq<(u64, Junction)>,
    m: Seq<((Junction, Junction), u64)>,
) -> Seq<(u64, Junction)> {
    Seq::new(
        seg.len(),
        |i: int|
            if i == 0 {
                seg[0]
            } else {
                match pair_lookup(m, (seg[i - 1].1, seg[i].1)) {
                    Option::Some(v) => (v, seg[i].1),
                    Option::None => seg[i],
                }
            },
    )
}

/// Apply the minimum-duration table to one canonical sub-segment.
pub fn substitute_min_durations(seg: &Vec<(u64, Junction)>, mins: &PairDurMap) -> (r: Vec<
    (u64, Junction),
>)
    ensures
        r@ == substitute_spec(seg@, mins.entries@),
{
    let mut r: Vec<(u64, Junction)> = Vec::new();
    let mut i: usize = 0;
    while i < seg.len()
        invariant
            i <= seg@.len(),
            r@.len() == i,
            forall|k: int| 0 <= k < i ==> r@[k] == substitute_spec(seg@, mins.entries@)[k],
        decreases seg@.len() - i,
    {
        let e = seg[i];
        if i == 0 {
            r.push(e);
        } else {
            let prev = seg[i - 1];
            match mins.lookup((prev.1, e.1)) {
                Option::Some(v) => {
                    r.push((v, e.1));
                },
                Option::None => {
                    r.push(e);
                },
            }
        }
        i += 1;
    }
    proof {
        assert(r@ =~= substitute_spec(seg@, mins.entries@));
    }
    r
}

/// A relative temporal position in [0, 1], held exactly as the fraction
/// `num / den`.
#[derive(Clone, Copy, Debug, PartialEq, Eq, Structural)]
pub struct Ratio {
    pub num: u64,
    pub den: u64,
}

/// The summed duration of a list.
pub open spec fn dur_total(s: Seq<(u64, Junction)>) -> int
    decreases s.len(),
{
    if s.len() == 0 {
        0
    } else {
        dur_total(s.drop_last()) + s.last().0
    }
}

proof fn lemma_total_nonneg(s: Seq<(u64, Junction)>)
    ensures
        dur_total(s) >= 0,
    decreases s.len(),
{
    if s.len() > 0 {
        lemma_total_nonneg(s.drop_last());
    }
}

proof fn lemma_take_total(s: Seq<(u64, Junction)>, i: int)
    requires
        0 <= i < s.len(),
    ensures
        dur_total(s.take(i + 1)) == dur_total(s.take(i)) + s[i].0,
{
    assert(s.take(i + 1).drop_last() =~= s.take(i));
    assert(s.take(i + 1).last() == s[i]);
}

/// Prefix sums never decrease.
proof fn lemma_prefix_mono(s: Seq<(u64, Junction)>, a: int, b: int)
    requires
        0 <= a <= b <= s.len(),
    ensures
        dur_total(s.take(a)) <= dur_total(s.take(b)),
    decreases b - a,
{
    if a < b {
        lemma_take_total(s, b - 1);
        lemma_prefix_mono(s, a, b - 1);
    }
}

/// Every prefix sum stays under the full total.
proof fn lemma_prefix_le(s: Seq<(u64, Junction)>, i: int)
    requires
        0 <= i <= s.len(),
    ensures
        dur_total(s.take(i)) <= dur_total(s),
{
    lemma_prefix_mono(s, i, s.len() as int);
    assert(s.take(s.len() as int) =~= s);
}

/// The relative-position list of a duration list: each junction at the
/// cumulative fraction of the total duration reached by its entry; a
/// zero total puts every junction at position zero.
pub open spec fn rational_of(s: Seq<(u64, Junction)>) -> Seq<(Ratio, Junction)> {
    let total = dur_total(s);
    Seq::new(
        s.len(),
        |i: int|
            (
                if total == 0 {
                    Ratio { num: 0, den: 1 }
                } else {
                    Ratio { num: dur_total(s.take(i + 1)) as u64, den: total as u64 }
                },
                s[i].1,
            ),
    )
}

/// Aggregation monotonicity: every relative-position list is
/// non-decreasing, each position lies in [0, 1], and the last position
/// equals one whenever the list is nonempty and the total duration is
/// positive.
pub proof fn lemma_aggregation_monotonicity(s: Seq<(u64, Junction)>)
    requires
        dur_total(s) <= u64::MAX,
    ensures
        forall|i: int, j: int|
            0 <= i <= j < s.len() ==> (#[trigger] rational_of(s)[i]).0.num <= (
            #[trigger] rational_of(s)[j]).0.num,
        forall|i: int|
            0 <= i < s.len() ==> (#[trigger] rational_of(s)[i]).0.num <= rational_of(s)[i].0.den
                && rational_of(s)[i].0.den >= 1,
        s.len() > 0 && dur_total(s) > 0 ==> rational_of(s).last().0.num
            == rational_of(s).last().0.den,
{
    lemma_total_nonneg(s);
    if dur_total(s) == 0 {
    } else {
        assert forall|i: int, j: int|
            0 <= i <= j < s.len() implies (#[trigger] rational_of(s)[i]).0.num <= (
        #[trigger] rational_of(s)[j]).0.num by {
            lemma_prefix_mono(s, i + 1, j + 1);
            lemma_prefix_le(s, i + 1);
            lemma_prefix_le(s, j + 1);
            lemma_total_nonneg(s.take(i + 1));
            lemma_total_nonneg(s.take(j + 1));
        }
        assert forall|i: int| 0 <= i < s.len() implies (#[trigger] rational_of(s)[i]).0.num
            <= rational_of(s)[i].0.den && rational_of(s)[i].0.den >= 1 by {
            lemma_prefix_le(s, i + 1);
            lemma_total_nonneg(s.take(i + 1));
        }
        if s.len() > 0 {
            assert(s.take(s.len() as int) =~= s);
        }
    }
}

/// Normalize a duration list to relative positions: cumulative fractions
/// of the total duration, with a zero total sending every position to
/// zero.
#[verifier::loop_isolation(false)]
pub fn to_rational(durations: &Vec<(u64, Junction)>) -> (r: Vec<(Ratio, Junction)>)
    requires
        dur_total(durations@) <= u64::MAX,
    ensures
        r@ == rational_of(durations@),
{
    let ghost g = durations@;
    proof {
        lemma_total_nonneg(g);
        assert(g.take(0) =~= Seq::<(u64, Junction)>::empty());
    }
    let mut total: u64 = 0;
    let mut i: usize = 0;
    while i < durations.len()
        invariant
            i <= g.len(),
            total == dur_total(g.take(i as int)),
        decreases g.len() - i,
    {
        proof {
            lemma_take_total(g, i as int);
            lemma_prefix_le(g, i as int + 1);
            lemma_total_nonneg(g.take(i as int));
        }
        total = total + durations[i].0;
        i += 1;
    }
    proof {
        assert(g.take(g.len() as int) =~= g);
    }
    let mut r: Vec<(Ratio, Junction)> = Vec::new();
    let mut k: usize = 0;
    let mut sum: u64 = 0;
    while k < durations.len()
        invariant
            k <= g.len(),
            total == dur_total(g),
            sum == dur_total(g.take(k as int)),
            r@.len() == k,
            forall|t: int| 0 <= t < k ==> r@[t] == rational_of(g)[t],
        decreases g.len() - k,
    {
        proof {
            lemma_take_total(g, k as int);
            lemma_prefix_le(g, k as int + 1);
            lemma_total_nonneg(g.take(k as int));
        }
        let e = durations[k];
        sum = sum + e.0;
        if total == 0 {
            r.push((Ratio { num: 0, den: 1 }, e.1));
        } else {
            r.push((Ratio { num: sum, den: total }, e.1));
        }
        k += 1;
    }
    proof {
        assert(r@ =~= rational_of(g));
    }
    r
}

/// One canonical segment: its two anchoring projected stops and the
/// ordered (relative position, junction) list between them.
#[derive(Debug)]
pub struct Segment {
    pub start: (Junction, GeoPos),
    pub stop: (Junction, GeoPos),
    pub junctions: Vec<(Ratio, Junction)>,
}

/// The mathematical value of a canonical segment.
pub struct SegmentV {
    pub start: (Junction, GeoPos),
    pub stop: (Junction, GeoPos),
    pub junctions: Seq<(Ratio, Junction)>,
}

impl View for Segment {
    type V = SegmentV;

    open spec fn view(&self) -> SegmentV {
        SegmentV { start: self.start, stop: self.stop, junctions: self.junctions@ }
    }
}

/// The total duration of a list, or nothing where it cannot be held in a
/// machine word.
fn checked_total(seg: &Vec<(u64, Junction)>) -> (r: Option<u64>)
    ensures
        match r {
            Option::Some(t) => t == dur_total(seg@) && dur_total(seg@) <= u64::MAX,
            Option::None => dur_total(seg@) > u64::MAX,
        },
{
    let ghost g = seg@;
    proof {
        assert(g.take(0) =~= Seq::<(u64, Junction)>::empty());
    }
    let mut total: u64 = 0;
    let mut i: usize = 0;
    while i < seg.len()
        invariant
            i <= g.len(),
            g == seg@,
            total == dur_total(g.take(i as int)),
        decreases g.len() - i,
    {
        let d = seg[i].0;
        proof {
            lemma_take_total(g, i as int);
        }
        if total > u64::MAX - d {
            proof {
                lemma_prefix_mono(g, i as int + 1, g.len() as int);
                assert(g.take(g.len() as int) =~= g);
            }
            return None;
        }
        total = total + d;
        i += 1;
    }
    proof {
        assert(g.take(g.len() as int) =~= g);
    }
    Some(total)
}

/// The canonical segments of consecutive projected-stop pairs: a pair
/// with a stored longest sub-segment yields one segment whose junctions
/// carry minimum durations normalized to relative positions; a pair
/// with no matching runs, or whose substituted durations cannot be
/// summed in a machine word, yields none.
pub open spec fn build_spec(
    stops: Seq<crate::project::ProjectedStop>,
    longest: Seq<((Junction, Junction), Seq<(u64, Junction)>)>,
    mins: Seq<((Junction, Junction), u64)>,
) -> Seq<SegmentV>
    decreases stops.len(),
{
    if stops.len() < 2 {
        Seq::empty()
    } else {
        let rest = build_spec(stops.drop_last(), longest, mins);
        let prev = stops[stops.len() - 2];
        let cur = stops.last();
        match find_key_from(longest, (prev.junction, cur.junction), 0) {
            Option::None => rest,
            Option::Some(k) => {
                let subst = substitute_spec(longest[k].1, mins);
                if dur_total(subst) <= u64::MAX {
                    rest.push(
                        SegmentV {
                            start: (prev.junction, prev.point),
                            stop: (cur.junction, cur.point),
                            junctions: rational_of(subst),
                        },
                    )
                } else {
                    rest
                }
            },
        }
    }
}

/// Chain the route's projected stops and build one canonical segment per
/// consecutive pair that has aggregated observations.
#[verifier::loop_isolation(false)]
pub fn build_known_stop_segments(
    stops: &Vec<crate::project::ProjectedStop>,
    longest: &SegmentMap,
    mins: &PairDurMap,
) -> (r: Vec<Segment>)
    ensures
        Seq::new(r@.len(), |i: int| r@[i]@) == build_spec(
            stops@,
            entry_views(longest.entries@),
            mins.entries@,
        ),
{
    let ghost gl = entry_views(longest.entries@);
    let ghost gm = mins.entries@;
    let mut r: Vec<Segment> = Vec::new();
    if stops.len() < 2 {
        proof {
            assert(Seq::new(r@.len(), |t: int| r@[t]@) =~= build_spec(stops@, gl, gm));
        }
        return r;
    }
    proof {
        assert(stops@.take(1).len() == 1);
        assert(Seq::new(r@.len(), |t: int| r@[t]@) =~= build_spec(stops@.take(1), gl, gm));
    }
    let mut i: usize = 1;
    while i < stops.len()
        invariant
            1 <= i,
            i <= stops@.len(),
            Seq::new(r@.len(), |t: int| r@[t]@) == build_spec(stops@.take(i as int), gl, gm),
        decreases stops@.len() - i,
    {
        let prev = stops[i - 1];
        let cur = stops[i];
        proof {
            assert(stops@.take(i as int + 1).drop_last() =~= stops@.take(i as int));
            assert(stops@.take(i as int + 1).last() == stops@[i as int]);
            assert(stops@.take(i as int + 1)[i as int - 1] == stops@[i as int - 1]);
        }
        match longest.lookup((prev.junction, cur.junction)) {
            Option::None => {},
            Option::Some(seg) => {
                let subst = substitute_min_durations(seg, mins);
                match checked_total(&subst) {
                    Option::None => {},
                    Option::Some(_total) => {
                        let junctions = to_rational(&subst);
                        let s = Segment {
                            start: (prev.junction, prev.point),
                            stop: (cur.junction, cur.point),
                            junctions,
                        };
                        r.push(s);
                    },
                }
            },
        }
        proof {
            assert(Seq::new(r@.len(), |t: int| r@[t]@) =~= build_spec(
                stops@.take(i as int + 1),
                gl,
                gm,
            ));
        }
        i += 1;
    }
    proof {
        assert(stops@.take(stops@.len() as int) =~= stops@);
    }
    r
}

/// How many of the junction entries are new: not equal to either
/// anchoring stop. The anchors themselves are excluded before counting.
pub open spec fn new_junction_count(
    juncs: Seq<(Ratio, Junction)>,
    start: Junction,
    stop: Junction,
) -> int
    decreases juncs.len(),
{
    if juncs.len() == 0 {
        0
    } else {
        new_junction_count(juncs.drop_last(), start, stop) + (
        if juncs.last().1 != start && juncs.last().1 != stop {
            1int
        } else {
            0int
        })
    }
}

/// Count a segment's junctions after excluding entries equal to either
/// anchor.
pub fn count_new_junctions(seg: &Segment) -> (r: usize)
    ensures
        r == new_junction_count(seg.junctions@, seg.start.0, seg.stop.0),
{
    let mut count: usize = 0;
    let mut i: usize = 0;
    proof {
        assert(seg.junctions@.take(0) =~= Seq::<(Ratio, Junction)>::empty());
    }
    while i < seg.junctions.len()
        invariant
            i <= seg.junctions@.len(),
            count == new_junction_count(seg.junctions@.take(i as int), seg.start.0, seg.stop.0),
            count <= i,
        decreases seg.junctions@.len() - i,
    {
        let e = seg.junctions[i];
        proof {
            assert(seg.junctions@.take(i as int + 1).drop_last() =~= seg.junctions@.take(i as int));
            assert(seg.junctions@.take(i as int + 1).last() == seg.junctions@[i as int]);
        }
        if e.1.0 != seg.start.0.0 && e.1.0 != seg.stop.0.0 {
            count += 1;
        }
        i += 1;
    }
    proof {
        assert(seg.junctions@.take(seg.junctions@.len() as int) =~= seg.junctions@);
    }
    count
}

} // verus!

