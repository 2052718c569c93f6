use vstd::prelude::*;
use crate::geometry::GeoPos;
use crate::ids::{Id, Line};

verus! {

/// An ordered point of imported route geometry, with a stable identity
/// used for joining fragments.
#[derive(Clone, Copy, Debug, PartialEq, Eq, Structural, Hash)]
pub struct Waypoint {
    pub id: Id,
    pub pos: GeoPos,
}

/// One route of a line: its display name and its geometry fragments.
#[derive(Clone, Debug)]
pub struct LineInfo {
    pub line: Line,
    pub name: String,
    pub ways: Vec<Vec<Waypoint>>,
}

/// The fragment sequences behind a vector of fragment vectors.
pub open spec fn views(ways: Seq<Vec<Waypoint>>) -> Seq<Seq<Waypoint>> {
    Seq::new(ways.len(), |i: int| ways[i]@)
}

/// Every fragment has at least one point.
pub open spec fn nonempty_ways(ways: Seq<Seq<Waypoint>>) -> bool {
    forall|i: int| 0 <= i < ways.len() ==> (#[trigger] ways[i]).len() > 0
}

/// The two fragments share an endpoint identity, in any combination.
pub open spec fn shares_endpoint(a: Seq<Waypoint>, b: Seq<Waypoint>) -> bool {
    ||| a.first().id == b.first().id
    ||| a.first().id == b.last().id
    ||| a.last().id == b.first().id
    ||| a.last().id == b.last().id
}

/// No two distinct fragments share an endpoint identity: nothing is left
/// to merge.
pub open spec fn separated(ways: Seq<Seq<Waypoint>>) -> bool {
    forall|i: int, j: int| 0 <= i < ways.len() && 0 <= j < ways.len() && i != j
        ==> !#[trigger] shares_endpoint(ways[i], ways[j])
}

/// The endpoint equation under which a candidate fragment attaches to the
/// chain: appended, prepended, or either with the candidate reversed.
pub open spec fn match_case(chain: Seq<Waypoint>, way: Seq<Waypoint>, c: int) -> bool {
    if c == 0 {
        way.first().id == chain.last().id
    } else if c == 1 {
        way.last().id == chain.first().id
    } else if c == 2 {
        way.first().id == chain.first().id
    } else {
        way.last().id == chain.last().id
    }
}

/// Splice a candidate fragment onto the chain. The candidate is reversed
/// as its attachment case demands, and the joined sequence keeps only one
/// copy of the shared junction point.
pub open spec fn join_spec(chain: Seq<Waypoint>, way: Seq<Waypoint>, c: int) -> Seq<Waypoint> {
    if c == 0 {
        chain + way.skip(1)
    } else if c == 1 {
        way + chain.skip(1)
    } else if c == 2 {
        way.reverse() + chain.skip(1)
    } else {
        chain + way.reverse().skip(1)
    }
}

/// The first remaining fragment, scanning from `i`, that attaches to
/// the chain, with its first applicable case.
pub open spec fn find_match_spec(
    chain: Seq<Waypoint>,
    ways: Seq<Seq<Waypoint>>,
    i: int,
) -> Option<(int, int)>
    decreases ways.len() - i,
{
    if i < 0 || i >= ways.len() {
        None
    } else if match_case(chain, ways[i], 0) {
        Some((i, 0int))
    } else if match_case(chain, ways[i], 1) {
        Some((i, 1int))
    } else if match_case(chain, ways[i], 2) {
        Some((i, 2int))
    } else if match_case(chain, ways[i], 3) {
        Some((i, 3int))
    } else {
        find_match_spec(chain, ways, i + 1)
    }
}

/// Splice matching fragments onto the chain until none attaches,
/// leaving the chain and whatever fragments remain.
pub open spec fn chain_fold(chain: Seq<Waypoint>, rest: Seq<Seq<Waypoint>>) -> (
    Seq<Waypoint>,
    Seq<Seq<Waypoint>>,
)
    decreases rest.len(),
{
    match find_match_spec(chain, rest, 0) {
        Option::None => (chain, rest),
        Option::Some((i, c)) => if 0 <= i < rest.len() {
            chain_fold(join_spec(chain, rest[i], c), rest.remove(i))
        } else {
            (chain, rest)
        },
    }
}

proof fn lemma_chain_fold_rest_len(chain: Seq<Waypoint>, rest: Seq<Seq<Waypoint>>)
    ensures
        chain_fold(chain, rest).1.len() <= rest.len(),
    decreases rest.len(),
{
    match find_match_spec(chain, rest, 0) {
        Option::None => {},
        Option::Some((i, c)) => {
            if 0 <= i < rest.len() {
                lemma_chain_fold_rest_len(join_spec(chain, rest[i], c), rest.remove(i));
            }
        },
    }
}

/// The reconciled chains: take each leading fragment in turn as the
/// current chain, fold every matching fragment onto it, and emit it.
pub open spec fn reconcile_spec(ways: Seq<Seq<Waypoint>>) -> Seq<Seq<Waypoint>>
    decreases ways.len()
    via reconcile_spec_decreases
{
    if ways.len() == 0 {
        Seq::empty()
    } else {
        let s = chain_fold(ways[0], ways.skip(1));
        seq![s.0] + reconcile_spec(s.1)
    }
}

#[via_fn]
proof fn reconcile_spec_decreases(ways: Seq<Seq<Waypoint>>) {
    if ways.len() > 0 {
        lemma_chain_fold_rest_len(ways[0], ways.skip(1));
    }
}

proof fn lemma_no_match_found(chain: Seq<Waypoint>, ways: Seq<Seq<Waypoint>>, k: int)
    requires
        0 <= k <= ways.len(),
        forall|j: int| 0 <= j < ways.len() ==> !shares_endpoint(chain, #[trigger] ways[j]),
    ensures
        find_match_spec(chain, ways, k) is None,
    decreases ways.len() - k,
{
    if k < ways.len() {
        lemma_no_match_found(chain, ways, k + 1);
    }
}

proof fn lemma_first_match_found(
    chain: Seq<Waypoint>,
    ways: Seq<Seq<Waypoint>>,
    k: int,
    i: int,
    c: int,
)
    requires
        0 <= k <= i < ways.len(),
        0 <= c <= 3,
        match_case(chain, ways[i], c),
        forall|j: int| 0 <= j < i ==> !shares_endpoint(chain, #[trigger] ways[j]),
        forall|c2: int| 0 <= c2 < c ==> !match_case(chain, ways[i], c2),
    ensures
        find_match_spec(chain, ways, k) == Some((i, c)),
    decreases i - k,
{
    if k < i {
        lemma_first_match_found(chain, ways, k + 1, i, c);
    }
}

/// The total number of waypoints over all fragments.
pub open spec fn total_points(ways: Seq<Seq<Waypoint>>) -> nat
    decreases ways.len(),
{
    if ways.len() == 0 {
        0
    } else {
        ways[0].len() + total_points(ways.skip(1))
    }
}

proof fn lemma_total_points_push(s: Seq<Seq<Waypoint>>, x: Seq<Waypoint>)
    ensures
        total_points(s.push(x)) == total_points(s) + x.len(),
    decreases s.len(),
{
    if s.len() == 0 {
        assert(s.push(x).skip(1) =~= Seq::<Seq<Waypoint>>::empty());
        assert(s.push(x)[0] == x);
        assert(total_points(Seq::<Seq<Waypoint>>::empty()) == 0);
    } else {
        assert(s.push(x).skip(1) =~= s.skip(1).push(x));
        lemma_total_points_push(s.skip(1), x);
    }
}

proof fn lemma_total_points_remove(s: Seq<Seq<Waypoint>>, i: int)
    requires
        0 <= i < s.len(),
    ensures
        total_points(s) == total_points(s.remove(i)) + s[i].len(),
    decreases i,
{
    if i == 0 {
        assert(s.remove(0) =~= s.skip(1));
    } else {
        assert(s.remove(i).skip(1) =~= s.skip(1).remove(i - 1));
        assert(s.remove(i)[0] == s[0]);
        lemma_total_points_remove(s.skip(1), i - 1);
    }
}

pub(crate) proof fn lemma_views_push(s: Seq<Vec<Waypoint>>, x: Vec<Waypoint>)
    ensures
        views(s.push(x)) == views(s).push(x@),
{
    assert(views(s.push(x)) =~= views(s).push(x@));
}

proof fn lemma_views_remove(s: Seq<Vec<Waypoint>>, i: int)
    requires
        0 <= i < s.len(),
    ensures
        views(s.remove(i)) == views(s).remove(i),
{
    s.remove_ensures(i);
    views(s).remove_ensures(i);
    assert(views(s.remove(i)) =~= views(s).remove(i));
}

/// The joined chain keeps its endpoints among the endpoints of its two
/// parts, loses exactly one point, and stays nonempty.
proof fn lemma_join_shape(chain: Seq<Waypoint>, way: Seq<Waypoint>, c: int)
    requires
        chain.len() > 0,
        way.len() > 0,
        0 <= c <= 3,
    ensures
        join_spec(chain, way, c).len() == chain.len() + way.len() - 1,
        (join_spec(chain, way, c).first() == chain.first()
            || join_spec(chain, way, c).first() == way.first()
            || join_spec(chain, way, c).first() == way.last()),
        (join_spec(chain, way, c).last() == chain.last()
            || join_spec(chain, way, c).last() == way.first()
            || join_spec(chain, way, c).last() == way.last()),
{
    let r = join_spec(chain, way, c);
    assert(way.reverse().len() == way.len());
    if c == 2 || c == 3 {
        assert(way.reverse().first() == way.last());
        assert(way.reverse().last() == way.first());
    }
    if c == 0 {
        if way.len() == 1 {
            assert(r =~= chain);
        } else {
            assert(r.last() == way.skip(1).last());
            assert(way.skip(1).last() == way.last());
        }
    } else if c == 1 {
        if chain.len() == 1 {
            assert(r =~= way);
        } else {
            assert(r.last() == chain.skip(1).last());
            assert(chain.skip(1).last() == chain.last());
        }
    } else if c == 2 {
        if chain.len() == 1 {
            assert(r =~= way.reverse());
        } else {
            assert(r.last() == chain.skip(1).last());
            assert(chain.skip(1).last() == chain.last());
        }
    } else {
        if way.len() == 1 {
            assert(way.reverse().skip(1) =~= Seq::<Waypoint>::empty());
            assert(r =~= chain);
        } else {
            assert(r.last() == way.reverse().skip(1).last());
            assert(way.reverse().skip(1).last() == way.reverse().last());
        }
    }
}

/// Adjacent fragments `i - 1` and `i` fail to connect in either
/// direction by endpoint identity.
pub open spec fn discontiguous_at(ways: Seq<Seq<Waypoint>>, i: int) -> bool {
    &&& ways[i - 1].len() > 0
    &&& ways[i].len() > 0
    &&& ways[i - 1].last().id != ways[i].first().id
    &&& ways[i].last().id != ways[i - 1].first().id
}

impl LineInfo {
    /// A route is discontiguous when some pair of adjacent chains does
    /// not share an endpoint identity in either orientation.
    pub fn detect_discontiguity(&self) -> (r: bool)
        ensures
            r == exists|i: int|
                1 <= i < self.ways@.len() && discontiguous_at(views(self.ways@), i),
    {
        if self.ways.len() < 2 {
            return false;
        }
        let mut found = false;
        let mut i: usize = 1;
        while i < self.ways.len()
            invariant
                1 <= i <= self.ways@.len(),
                found == exists|k: int|
                    1 <= k < i && discontiguous_at(views(self.ways@), k),
            decreases self.ways@.len() - i,
        {
            let prev = &self.ways[i - 1];
            let cur = &self.ways[i];
            proof {
                assert(prev@ == views(self.ways@)[i as int - 1]);
                assert(cur@ == views(self.ways@)[i as int]);
            }
            if prev.len() > 0 && cur.len() > 0 && prev[prev.len() - 1].id != cur[0].id
                && cur[cur.len() - 1].id != prev[0].id {
                proof {
                    assert(discontiguous_at(views(self.ways@), i as int));
                }
                found = true;
            } else {
                proof {
                    assert(!discontiguous_at(views(self.ways@), i as int));
                }
            }
            i += 1;
        }
        found
    }

    /// Merge this route's fragments in place into maximal chains joined
    /// by shared endpoint identities.
    pub fn reorder_ways(&mut self)
        requires
            nonempty_ways(views(old(self).ways@)),
        ensures
            final(self).line == old(self).line,
            final(self).name == old(self).name,
            nonempty_ways(views(final(self).ways@)),
            separated(views(final(self).ways@)),
            final(self).ways@.len() <= old(self).ways@.len(),
            total_points(views(final(self).ways@)) + old(self).ways@.len() == total_points(
                views(old(self).ways@),
            ) + final(self).ways@.len(),
            separated(views(old(self).ways@)) ==> views(final(self).ways@) == views(
                old(self).ways@,
            ),
    {
        let mut ways: Vec<Vec<Waypoint>> = Vec::new();
        std::mem::swap(&mut ways, &mut self.ways);
        self.ways = reconcile_ways(ways);
    }
}

/// A copy of `v` in reverse order.
pub(crate) fn reversed(v: &Vec<Waypoint>) -> (r: Vec<Waypoint>)
    ensures
        r@ == v@.reverse(),
{
    let mut r: Vec<Waypoint> = Vec::new();
    let mut i: usize = v.len();
    while i > 0
        invariant
            i <= v@.len(),
            r@.len() == v@.len() - i,
            forall|k: int| 0 <= k < r@.len() ==> r@[k] == v@[v@.len() - 1 - k],
        decreases i,
    {
        i -= 1;
        r.push(v[i]);
    }
    proof {
        assert(r@ =~= v@.reverse());
    }
    r
}

/// Append `src[from..]` to `dst`.
pub(crate) fn append_from(dst: &mut Vec<Waypoint>, src: &Vec<Waypoint>, from: usize)
    requires
        from <= src@.len(),
    ensures
        final(dst)@ == old(dst)@ + src@.skip(from as int),
{
    let ghost dst0 = dst@;
    proof {
        assert(dst@ =~= dst0 + src@.subrange(from as int, from as int));
    }
    let mut i = from;
    while i < src.len()
        invariant
            from <= i <= src@.len(),
            dst@ == dst0 + src@.subrange(from as int, i as int),
        decreases src@.len() - i,
    {
        dst.push(src[i]);
        proof {
            assert(src@.subrange(from as int, i + 1) =~= src@.subrange(from as int, i as int).push(
                src@[i as int],
            ));
            assert(dst@ =~= dst0 + src@.subrange(from as int, i + 1));
        }
        i += 1;
    }
    proof {
        assert(src@.subrange(from as int, src@.len() as int) =~= src@.skip(from as int));
    }
}

/// A plain copy of a waypoint vector.
pub(crate) fn copied(v: &Vec<Waypoint>) -> (r: Vec<Waypoint>)
    ensures
        r@ == v@,
{
    let mut r: Vec<Waypoint> = Vec::new();
    append_from(&mut r, v, 0);
    proof {
        assert(v@.skip(0) =~= v@);
    }
    r
}

/// Splice `way` onto `chain` according to the attachment case.
fn join_chain(chain: Vec<Waypoint>, way: Vec<Waypoint>, c: u8) -> (r: Vec<Waypoint>)
    requires
        chain@.len() > 0,
        way@.len() > 0,
        c <= 3,
    ensures
        r@ == join_spec(chain@, way@, c as int),
{
    if c == 0 {
        let mut r = chain;
        append_from(&mut r, &way, 1);
        r
    } else if c == 1 {
        let mut r = way;
        append_from(&mut r, &chain, 1);
        r
    } else if c == 2 {
        let mut r = reversed(&way);
        append_from(&mut r, &chain, 1);
        r
    } else {
        let mut r = chain;
        let rw = reversed(&way);
        append_from(&mut r, &rw, 1);
        r
    }
}

/// Scan the remaining fragments, in order, for the first one that shares
/// an endpoint identity with the chain, trying the four attachment cases
/// in order.
fn find_match(chain: &Vec<Waypoint>, ways: &Vec<Vec<Waypoint>>) -> (r: Option<(usize, u8)>)
    requires
        chain@.len() > 0,
        nonempty_ways(views(ways@)),
    ensures
        match r {
            Option::None => forall|i: int|
                0 <= i < ways@.len() ==> !shares_endpoint(chain@, #[trigger] views(ways@)[i]),
            Option::Some(ic) => {
                &&& (ic.0 as int) < ways@.len()
                &&& ic.1 <= 3
                &&& match_case(chain@, views(ways@)[ic.0 as int], ic.1 as int)
                &&& forall|j: int|
                    0 <= j < ic.0 as int ==> !shares_endpoint(chain@, #[trigger] views(ways@)[j])
                &&& forall|c2: int|
                    0 <= c2 < ic.1 as int ==> !match_case(chain@, views(ways@)[ic.0 as int], c2)
            },
        },
{
    let n = ways.len();
    let mut i: usize = 0;
    while i < n
        invariant
            n == ways@.len(),
            chain@.len() > 0,
            nonempty_ways(views(ways@)),
            i <= n,
            forall|j: int| 0 <= j < i as int ==> !shares_endpoint(chain@, #[trigger] views(ways@)[j]),
        decreases n - i,
    {
        let way = &ways[i];
        proof {
            assert(way@ == views(ways@)[i as int]);
            assert(views(ways@)[i as int].len() > 0);
        }
        let wn = way.len();
        let cl = chain.len();
        if way[0].id == chain[cl - 1].id {
            return Some((i, 0));
        } else if way[wn - 1].id == chain[0].id {
            return Some((i, 1));
        } else if way[0].id == chain[0].id {
            return Some((i, 2));
        } else if way[wn - 1].id == chain[cl - 1].id {
            return Some((i, 3));
        }
        i += 1;
    }
    None
}

/// Merge an unordered set of route fragments into maximal contiguous
/// chains by shared endpoint identities.
///
/// The output shares no endpoint identity between two distinct chains, so
/// a second pass has nothing left to merge: an already separated input
/// comes back unchanged. Each splice consumes one fragment and drops one
/// duplicated junction point, so the waypoint total shrinks by exactly the
/// number of splices.
pub fn reconcile_ways(input: Vec<Vec<Waypoint>>) -> (out: Vec<Vec<Waypoint>>)
    requires
        nonempty_ways(views(input@)),
    ensures
        nonempty_ways(views(out@)),
        separated(views(out@)),
        out@.len() <= input@.len(),
        total_points(views(out@)) + views(input@).len() == total_points(views(input@)) + views(
            out@,
        ).len(),
        views(out@) == reconcile_spec(views(input@)),
        separated(views(input@)) ==> views(out@) == views(input@),
{
    let ghost g_in = views(input@);
    let mut rest = input;
    let mut out: Vec<Vec<Waypoint>> = Vec::new();
    let ghost mut merges: nat = 0;
    proof {
        assert(g_in.take(0) =~= views(out@));
        assert(g_in.skip(0) =~= views(rest@));
        assert(views(out@) + reconcile_spec(views(rest@)) =~= reconcile_spec(g_in));
    }
    while rest.len() > 0
        invariant
            nonempty_ways(views(rest@)),
            nonempty_ways(views(out@)),
            separated(views(out@)),
            forall|a: int, b: int|
                0 <= a < out@.len() && 0 <= b < rest@.len() ==> !#[trigger] shares_endpoint(
                    views(out@)[a],
                    views(rest@)[b],
                ),
            out@.len() + rest@.len() + merges == g_in.len(),
            total_points(views(out@)) + total_points(views(rest@)) + merges == total_points(g_in),
            separated(g_in) ==> merges == 0 && views(out@) == g_in.take(out@.len() as int) && views(
                rest@,
            ) == g_in.skip(out@.len() as int),
            views(out@) + reconcile_spec(views(rest@)) == reconcile_spec(g_in),
        decreases rest@.len(),
    {
        let ghost rest_at_entry = rest@;
        proof {
            lemma_views_remove(rest@, 0);
            lemma_total_points_remove(views(rest@), 0);
            assert(views(rest@).remove(0) =~= views(rest@).skip(1));
        }
        let mut chain = rest.remove(0);
        let ghost fold_target = chain_fold(chain@, views(rest@));
        proof {
            if separated(g_in) {
                assert(g_in.skip(out@.len() as int).skip(1) =~= g_in.skip(out@.len() as int + 1));
            }
        }
        loop
            invariant
                chain@.len() > 0,
                nonempty_ways(views(rest@)),
                nonempty_ways(views(out@)),
                separated(views(out@)),
                forall|a: int, b: int|
                    0 <= a < out@.len() && 0 <= b < rest@.len() ==> !#[trigger] shares_endpoint(
                        views(out@)[a],
                        views(rest@)[b],
                    ),
                forall|a: int|
                    0 <= a < out@.len() ==> !#[trigger] shares_endpoint(views(out@)[a], chain@),
                out@.len() + 1 + rest@.len() + merges == g_in.len(),
                total_points(views(out@)) + chain@.len() + total_points(views(rest@)) + merges
                    == total_points(g_in),
                separated(g_in) ==> merges == 0 && views(out@) == g_in.take(out@.len() as int)
                    && chain@ == g_in[out@.len() as int] && views(rest@) == g_in.skip(
                    out@.len() as int + 1,
                ),
                chain_fold(chain@, views(rest@)) == fold_target,
                rest@.len() < rest_at_entry.len(),
            ensures
                chain@.len() > 0,
                nonempty_ways(views(rest@)),
                nonempty_ways(views(out@)),
                separated(views(out@)),
                forall|a: int, b: int|
                    0 <= a < out@.len() && 0 <= b < rest@.len() ==> !#[trigger] shares_endpoint(
                        views(out@)[a],
                        views(rest@)[b],
                    ),
                forall|a: int|
                    0 <= a < out@.len() ==> !#[trigger] shares_endpoint(views(out@)[a], chain@),
                forall|b: int|
                    0 <= b < rest@.len() ==> !shares_endpoint(chain@, #[trigger] views(rest@)[b]),
                out@.len() + 1 + rest@.len() + merges == g_in.len(),
                total_points(views(out@)) + chain@.len() + total_points(views(rest@)) + merges
                    == total_points(g_in),
                separated(g_in) ==> merges == 0 && views(out@) == g_in.take(out@.len() as int)
                    && chain@ == g_in[out@.len() as int] && views(rest@) == g_in.skip(
                    out@.len() as int + 1,
                ),
                (chain@, views(rest@)) == fold_target,
                rest@.len() < rest_at_entry.len(),
            decreases rest@.len(),
        {
            match find_match(&chain, &rest) {
                Option::None => {
                    proof {
                        lemma_no_match_found(chain@, views(rest@), 0);
                    }
                    break ;
                },
                Option::Some((i, c)) => {
                    proof {
                        if separated(g_in) {
                            let k = out@.len() as int;
                            assert(views(rest@)[i as int] == g_in[k + 1 + i as int]);
                            assert(shares_endpoint(g_in[k], g_in[k + 1 + i as int]));
                            assert(false);
                        }
                        lemma_views_remove(rest@, i as int);
                        lemma_total_points_remove(views(rest@), i as int);
                        views(rest@).remove_ensures(i as int);
                        lemma_first_match_found(chain@, views(rest@), 0, i as int, c as int);
                        assert(chain_fold(chain@, views(rest@)) == chain_fold(
                            join_spec(chain@, views(rest@)[i as int], c as int),
                            views(rest@).remove(i as int),
                        ));
                    }
                    let ghost chain0 = chain@;
                    let ghost w_view = views(rest@)[i as int];
                    let w = rest.remove(i);
                    chain = join_chain(chain, w, c);
                    proof {
                        merges = merges + 1;
                        lemma_join_shape(chain0, w_view, c as int);
                        assert forall|a: int| 0 <= a < out@.len() implies !#[trigger] shares_endpoint(
                            views(out@)[a],
                            chain@,
                        ) by {
                            assert(!shares_endpoint(views(out@)[a], chain0));
                            assert(!shares_endpoint(views(out@)[a], w_view));
                        }
                    }
                },
            }
        }
        proof {
            lemma_views_push(out@, chain);
            lemma_total_points_push(views(out@), chain@);
            let out_new = views(out@).push(chain@);
            assert forall|i: int, j: int|
                0 <= i < out_new.len() && 0 <= j < out_new.len() && i != j implies !#[trigger] shares_endpoint(
                out_new[i],
                out_new[j],
            ) by {
                if i < views(out@).len() && j < views(out@).len() {
                    assert(!shares_endpoint(views(out@)[i], views(out@)[j]));
                } else if j == views(out@).len() as int {
                    assert(out_new[j] == chain@);
                    assert(!shares_endpoint(views(out@)[i], chain@));
                } else {
                    assert(out_new[i] == chain@);
                    assert(!shares_endpoint(views(out@)[j], chain@));
                }
            }
            assert(separated(out_new));
            assert forall|a: int, b: int|
                0 <= a < out_new.len() && 0 <= b < rest@.len() implies !#[trigger] shares_endpoint(
                out_new[a],
                views(rest@)[b],
            ) by {
                if a < views(out@).len() {
                    assert(!shares_endpoint(views(out@)[a], views(rest@)[b]));
                } else {
                    assert(out_new[a] == chain@);
                    assert(!shares_endpoint(chain@, views(rest@)[b]));
                }
            }
            assert(nonempty_ways(out_new));
            assert(reconcile_spec(views(rest_at_entry)) == seq![chain@] + reconcile_spec(
                views(rest@),
            ));
            assert(views(out@).push(chain@) =~= views(out@) + seq![chain@]);
            assert((views(out@) + seq![chain@]) + reconcile_spec(views(rest@)) =~= views(out@) + (
            seq![chain@] + reconcile_spec(views(rest@))));
            if separated(g_in) {
                let k = out@.len() as int;
                assert(views(out@).push(chain@) =~= g_in.take(k + 1));
            }
        }
        out.push(chain);
    }
    proof {
        assert(reconcile_spec(views(rest@)) =~= Seq::<Seq<Waypoint>>::empty());
        assert(views(out@) + Seq::<Seq<Waypoint>>::empty() =~= views(out@));
        if separated(g_in) {
            assert(g_in.take(out@.len() as int) =~= g_in);
        }
    }
    out
}

} // verus!
