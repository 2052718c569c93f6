use vstd::prelude::*;
use vstd::arithmetic::div_mod::{lemma_div_is_ordered, lemma_div_multiples_vanish, lemma_div_pos_is_pos};
use vstd::arithmetic::mul::{lemma_mul_inequality, lemma_mul_nonnegative};
use crate::aggregate::{dur_total, lemma_aggregation_monotonicity, rational_of, Ratio, Segment};
use crate::geometry::{GeoPos, SegCandidate, MAX_GEO_MM};
use crate::ids::Junction;
use crate::project::{best_candidate, scan_best};

verus! {

/// Cap on the number of line pieces of one fragment, chosen so that every
/// accumulated length fits comfortably in a machine word.
pub const MAX_FRAGMENT_PIECES: usize = 1048576;

/// One item of the final output: a plain geometry point, or a geometry
/// point anchored to a junction.
#[derive(Clone, Copy, Debug, PartialEq, Eq, Structural)]
pub enum ResultSegment {
    Junction(Junction, GeoPos),
    Point(GeoPos),
}

/// A scan's minimum, when there is one, points at a real candidate.
proof fn lemma_best_in_range(cands: Seq<Option<SegCandidate>>, n: int)
    requires
        0 <= n <= cands.len(),
    ensures
        match best_candidate(cands, n) {
            Option::None => true,
            Option::Some(b) => 0 <= b.0 < n && cands[b.0] == Some(b.1),
        },
    decreases n,
{
    if n > 0 {
        lemma_best_in_range(cands, n - 1);
    }
}

/// Split a fragment at the scanned point nearest the anchor and keep the
/// tail: the nearest point itself, then everything after its piece.
/// `cands` holds the anchor's closest point and measured distance per
/// piece of the fragment, in order. A fragment offering no candidate is
/// discarded.
pub fn split_fragment_tail(points: &Vec<GeoPos>, cands: &Vec<Option<SegCandidate>>) -> (r: Option<
    Vec<GeoPos>,
>)
    requires
        cands@.len() + 1 == points@.len() || (points@.len() == 0 && cands@.len() == 0),
    ensures
        match best_candidate(cands@, cands@.len() as int) {
            Option::None => r is None,
            Option::Some(b) => r is Some && r->Some_0@ == seq![b.1.point] + points@.skip(b.0 + 1),
        },
{
    match scan_best(cands) {
        Option::None => None,
        Option::Some((idx, c)) => {
            let n = cands.len();
            proof {
                lemma_best_in_range(cands@, cands@.len() as int);
                assert(idx < n);
            }
            let mut out: Vec<GeoPos> = Vec::new();
            out.push(c.point);
            proof {
                assert(out@ =~= seq![c.point] + points@.subrange(idx + 1, idx + 1));
            }
            let mut i: usize = idx + 1;
            while i < points.len()
                invariant
                    idx + 1 <= i <= points@.len(),
                    out@ == seq![c.point] + points@.subrange(idx + 1, i as int),
                decreases points@.len() - i,
            {
                out.push(points[i]);
                proof {
                    assert(out@ =~= seq![c.point] + points@.subrange(idx + 1, i + 1));
                }
                i += 1;
            }
            proof {
                assert(points@.subrange(idx + 1, points@.len() as int) =~= points@.skip(idx + 1));
            }
            Some(out)
        },
    }
}

/// Split a fragment at the scanned point nearest the anchor and keep the
/// head: everything up to and including the start of the nearest piece,
/// then the nearest point itself.
pub fn split_fragment_head(points: &Vec<GeoPos>, cands: &Vec<Option<SegCandidate>>) -> (r: Option<
    Vec<GeoPos>,
>)
    requires
        cands@.len() + 1 == points@.len() || (points@.len() == 0 && cands@.len() == 0),
    ensures
        match best_candidate(cands@, cands@.len() as int) {
            Option::None => r is None,
            Option::Some(b) => r is Some && r->Some_0@ == points@.take(b.0 + 1) + seq![b.1.point],
        },
{
    match scan_best(cands) {
        Option::None => None,
        Option::Some((idx, c)) => {
            let n = cands.len();
            proof {
                lemma_best_in_range(cands@, cands@.len() as int);
                assert(idx < n);
                assert(Seq::<GeoPos>::empty() =~= points@.take(0));
            }
            let mut out: Vec<GeoPos> = Vec::new();
            let mut i: usize = 0;
            while i <= idx
                invariant
                    i <= idx + 1,
                    idx < n,
                    n == cands@.len(),
                    cands@.len() + 1 == points@.len(),
                    out@ == points@.take(i as int),
                decreases idx + 1 - i,
            {
                out.push(points[i]);
                proof {
                    assert(out@ =~= points@.take(i + 1));
                }
                i += 1;
            }
            out.push(c.point);
            proof {
                assert(out@ =~= points@.take(idx + 1) + seq![c.point]);
            }
            Some(out)
        },
    }
}

/// The route distance at which a junction is due: its relative position
/// times the fragment's total length, in integer arithmetic.
pub open spec fn junction_distance(r: Ratio, total: int) -> int {
    r.num * total / (r.den as int)
}

/// Linear interpolation of one coordinate at `num / den` of the way from
/// `a` to `b`, computed on magnitudes so the division never crosses zero.
pub open spec fn interp_coord(a: int, b: int, num: int, den: int) -> int {
    if b >= a {
        a + (b - a) * num / den
    } else {
        a - (a - b) * num / den
    }
}

/// The interpolated point at `num / den` of the way from `a` to `b`.
pub open spec fn interp_point(a: GeoPos, b: GeoPos, num: int, den: int) -> GeoPos {
    GeoPos {
        lat_udeg: interp_coord(a.lat_udeg as int, b.lat_udeg as int, num, den) as i64,
        lon_udeg: interp_coord(a.lon_udeg as int, b.lon_udeg as int, num, den) as i64,
    }
}

/// Emit, onto one piece from `a` to `b` spanning route distances `d` to
/// `nd`, every junction from position `k` on that falls due before `nd`,
/// each interpolated proportionally along the piece.
pub open spec fn place_on_piece(
    juncs: Seq<(Ratio, Junction)>,
    k: int,
    total: int,
    a: GeoPos,
    b: GeoPos,
    d: int,
    nd: int,
    out: Seq<ResultSegment>,
) -> (int, Seq<ResultSegment>)
    decreases juncs.len() - k,
{
    if k < 0 || k >= juncs.len() {
        (k, out)
    } else {
        let jd = junction_distance(juncs[k].0, total);
        if nd > jd {
            place_on_piece(
                juncs,
                k + 1,
                total,
                a,
                b,
                d,
                nd,
                out.push(ResultSegment::Junction(juncs[k].1, interp_point(a, b, jd - d, nd - d))),
            )
        } else {
            (k, out)
        }
    }
}

/// Walk the fragment's pieces, accumulating route distance: each piece
/// first receives the junctions due on it, then its end point as a plain
/// point.
pub open spec fn walk_pieces(
    juncs: Seq<(Ratio, Junction)>,
    total: int,
    points: Seq<GeoPos>,
    lengths: Seq<u64>,
    i: int,
    d: int,
    k: int,
    out: Seq<ResultSegment>,
) -> (int, Seq<ResultSegment>)
    decreases lengths.len() - i,
{
    if i < 0 || i >= lengths.len() {
        (k, out)
    } else {
        let nd = d + lengths[i];
        let s = place_on_piece(juncs, k, total, points[i], points[i + 1], d, nd, out);
        walk_pieces(
            juncs,
            total,
            points,
            lengths,
            i + 1,
            nd,
            s.0,
            s.1.push(ResultSegment::Point(points[i + 1])),
        )
    }
}

/// The summed length of the pieces from `i` on.
pub open spec fn len_from(lengths: Seq<u64>, i: int) -> int
    decreases lengths.len() - i,
{
    if i < 0 || i >= lengths.len() {
        0
    } else {
        lengths[i] + len_from(lengths, i + 1)
    }
}

proof fn lemma_len_from_nonneg(lengths: Seq<u64>, i: int)
    ensures
        len_from(lengths, i) >= 0,
    decreases lengths.len() - i,
{
    if 0 <= i < lengths.len() {
        lemma_len_from_nonneg(lengths, i + 1);
    }
}

/// A well-formed relative-position list: every fraction lies in [0, 1],
/// all share one denominator, and the numerators never decrease.
pub open spec fn positions_wf(juncs: Seq<(Ratio, Junction)>) -> bool {
    &&& forall|k: int|
        0 <= k < juncs.len() ==> (#[trigger] juncs[k]).0.den >= 1 && juncs[k].0.num
            <= juncs[k].0.den
    &&& forall|k1: int, k2: int|
        0 <= k1 <= k2 < juncs.len() ==> (#[trigger] juncs[k1]).0.num <= (
        #[trigger] juncs[k2]).0.num && juncs[k1].0.den == juncs[k2].0.den
}

/// Whether a relative-position list is well formed.
pub fn positions_ok(juncs: &Vec<(Ratio, Junction)>) -> (r: bool)
    ensures
        r == positions_wf(juncs@),
{
    let mut i: usize = 0;
    while i < juncs.len()
        invariant
            i <= juncs@.len(),
            forall|k: int|
                0 <= k < i ==> (#[trigger] juncs@[k]).0.den >= 1 && juncs@[k].0.num
                    <= juncs@[k].0.den,
            forall|k1: int, k2: int|
                0 <= k1 <= k2 < i ==> (#[trigger] juncs@[k1]).0.num <= (
                #[trigger] juncs@[k2]).0.num && juncs@[k1].0.den == juncs@[k2].0.den,
        decreases juncs@.len() - i,
    {
        let r = juncs[i].0;
        if r.den < 1 || r.num > r.den {
            return false;
        }
        if i > 0 {
            let prev = juncs[i - 1].0;
            if prev.num > r.num || prev.den != r.den {
                return false;
            }
            proof {
                assert forall|k1: int, k2: int| 0 <= k1 <= k2 < i + 1 implies (
                #[trigger] juncs@[k1]).0.num <= (#[trigger] juncs@[k2]).0.num && juncs@[k1].0.den
                    == juncs@[k2].0.den by {
                    if k2 == i && k1 < i {
                        assert(juncs@[k1].0.num <= juncs@[i as int - 1].0.num);
                        assert(juncs@[k1].0.den == juncs@[i as int - 1].0.den);
                    }
                }
            }
        }
        i += 1;
    }
    true
}

/// The relative positions the aggregator produces are well formed for
/// the segmentizer: one shared denominator of at least one, numerators
/// within it and never decreasing.
pub proof fn lemma_rational_positions_wf(s: Seq<(u64, crate::ids::Junction)>)
    requires
        dur_total(s) <= u64::MAX,
    ensures
        positions_wf(rational_of(s)),
{
    lemma_aggregation_monotonicity(s);
    let r = rational_of(s);
    assert forall|k1: int, k2: int| 0 <= k1 <= k2 < r.len() implies (#[trigger] r[k1]).0.num <= (
    #[trigger] r[k2]).0.num && r[k1].0.den == r[k2].0.den by {
        assert(r[k1].0.num <= r[k2].0.num);
        if dur_total(s) == 0 {
            assert(r[k1].0.den == 1);
            assert(r[k2].0.den == 1);
        }
    }
}

proof fn lemma_jd_bounds(juncs: Seq<(Ratio, Junction)>, total: int, k: int)
    requires
        positions_wf(juncs),
        0 <= k < juncs.len(),
        total >= 0,
    ensures
        0 <= junction_distance(juncs[k].0, total) <= total,
{
    let r = juncs[k].0;
    lemma_mul_nonnegative(r.num as int, total);
    lemma_div_pos_is_pos(r.num * total, r.den as int);
    lemma_mul_inequality(r.num as int, r.den as int, total);
    lemma_div_is_ordered(r.num * total, r.den * total, r.den as int);
    lemma_div_multiples_vanish(total, r.den as int);
}

proof fn lemma_jd_monotone(juncs: Seq<(Ratio, Junction)>, total: int, k1: int, k2: int)
    requires
        positions_wf(juncs),
        0 <= k1 <= k2 < juncs.len(),
        total >= 0,
    ensures
        junction_distance(juncs[k1].0, total) <= junction_distance(juncs[k2].0, total),
{
    let r1 = juncs[k1].0;
    let r2 = juncs[k2].0;
    lemma_mul_inequality(r1.num as int, r2.num as int, total);
    lemma_div_is_ordered(r1.num * total, r2.num * total, r1.den as int);
}

/// The segmentizer's machine bounds on one split fragment: pieces and
/// points correspond, the piece count and each measured length stay
/// under their physical caps, and every point has legal coordinates.
pub open spec fn fragment_wf(points: Seq<GeoPos>, lengths: Seq<u64>) -> bool {
    &&& lengths.len() + 1 == points.len()
    &&& lengths.len() <= MAX_FRAGMENT_PIECES
    &&& forall|t: int| 0 <= t < lengths.len() ==> (#[trigger] lengths[t]) <= MAX_GEO_MM
    &&& forall|t: int| 0 <= t < points.len() ==> (#[trigger] points[t]).valid()
}

/// Whether one split fragment's data meets the segmentizer's bounds.
pub fn fragment_ok(points: &Vec<GeoPos>, lengths: &Vec<u64>) -> (r: bool)
    ensures
        r == fragment_wf(points@, lengths@),
{
    if lengths.len() > MAX_FRAGMENT_PIECES {
        return false;
    }
    if points.len() != lengths.len() + 1 {
        return false;
    }
    let mut t: usize = 0;
    while t < lengths.len()
        invariant
            t <= lengths@.len(),
            forall|s: int| 0 <= s < t ==> (#[trigger] lengths@[s]) <= MAX_GEO_MM,
        decreases lengths@.len() - t,
    {
        if lengths[t] > MAX_GEO_MM {
            return false;
        }
        t += 1;
    }
    let mut p: usize = 0;
    while p < points.len()
        invariant
            p <= points@.len(),
            forall|s: int| 0 <= s < p ==> (#[trigger] points@[s]).valid(),
        decreases points@.len() - p,
    {
        let pt = points[p];
        if pt.lat_udeg < -crate::geometry::MAX_LAT_UDEG || pt.lat_udeg > crate::geometry::MAX_LAT_UDEG
            || pt.lon_udeg < -crate::geometry::MAX_LON_UDEG || pt.lon_udeg
            > crate::geometry::MAX_LON_UDEG {
            return false;
        }
        p += 1;
    }
    true
}

/// Walk one split fragment and place each of the canonical segment's
/// junctions at the route-distance fraction its relative position names,
/// emitting each piece's end point as a plain point behind any junctions
/// due on that piece.
#[verifier::loop_isolation(false)]
pub fn segmentize_fragment(
    juncs: &Vec<(Ratio, Junction)>,
    points: &Vec<GeoPos>,
    lengths: &Vec<u64>,
) -> (r: Vec<ResultSegment>)
    requires
        fragment_wf(points@, lengths@),
        positions_wf(juncs@),
    ensures
        r@ == walk_pieces(
            juncs@,
            len_from(lengths@, 0),
            points@,
            lengths@,
            0,
            0,
            0,
            Seq::empty(),
        ).1,
{
    let mut total: u64 = 0;
    let mut t: usize = lengths.len();
    while t > 0
        invariant
            t <= lengths@.len(),
            total == len_from(lengths@, t as int),
            total <= (lengths@.len() - t) * MAX_GEO_MM,
        decreases t,
    {
        t -= 1;
        total = total + lengths[t];
    }
    let ghost gtotal = total as int;
    let ghost w = walk_pieces(juncs@, gtotal, points@, lengths@, 0, 0, 0, Seq::empty());
    let mut out: Vec<ResultSegment> = Vec::new();
    let mut d: u64 = 0;
    let mut k: usize = 0;
    let mut i: usize = 0;
    proof {
        assert forall|k2: int| 0 <= k2 < juncs@.len() implies junction_distance(
            juncs@[k2].0,
            gtotal,
        ) >= 0 by {
            lemma_jd_bounds(juncs@, gtotal, k2);
        }
    }
    while i < lengths.len()
        invariant
            i <= lengths@.len(),
            k <= juncs@.len(),
            d <= i * MAX_GEO_MM,
            forall|k2: int|
                k <= k2 < juncs@.len() ==> junction_distance(#[trigger] juncs@[k2].0, gtotal)
                    >= d,
            walk_pieces(juncs@, gtotal, points@, lengths@, i as int, d as int, k as int, out@)
                == w,
        decreases lengths@.len() - i,
    {
        let nd = d + lengths[i];
        let a = points[i];
        let b = points[i + 1];
        let ghost k0 = k as int;
        let ghost out0 = out@;
        #[verifier::loop_isolation(true)]
        loop
            invariant
                positions_wf(juncs@),
                gtotal == total as int,
                gtotal >= 0,
                gtotal <= 0x8000_0000_0000_0000,
                a.valid(),
                b.valid(),
                d <= nd,
                k0 <= k <= juncs@.len(),
                forall|k2: int|
                    k <= k2 < juncs@.len() ==> junction_distance(#[trigger] juncs@[k2].0, gtotal)
                        >= d,
                place_on_piece(
                    juncs@,
                    k as int,
                    gtotal,
                    a,
                    b,
                    d as int,
                    nd as int,
                    out@,
                ) == place_on_piece(juncs@, k0, gtotal, a, b, d as int, nd as int, out0),
            ensures
                k0 <= k <= juncs@.len(),
                forall|k2: int|
                    k <= k2 < juncs@.len() ==> junction_distance(#[trigger] juncs@[k2].0, gtotal)
                        >= d,
                place_on_piece(juncs@, k as int, gtotal, a, b, d as int, nd as int, out@) == (
                k as int,
                out@,
                ),
                place_on_piece(juncs@, k0, gtotal, a, b, d as int, nd as int, out0) == (
                k as int,
                out@,
                ),
                k < juncs@.len() ==> junction_distance(juncs@[k as int].0, gtotal) >= nd,
            decreases juncs@.len() - k,
        {
            if k >= juncs.len() {
                break ;
            }
            let rat = juncs[k].0;
            proof {
                lemma_jd_bounds(juncs@, gtotal, k as int);
                vstd::arithmetic::mul::lemma_mul_upper_bound(
                    rat.num as int,
                    u64::MAX as int,
                    gtotal,
                    0x8000_0000_0000_0000,
                );
                lemma_mul_nonnegative(rat.num as int, gtotal);
            }
            let jd = ((rat.num as u128 * total as u128) / (rat.den as u128)) as u64;
            proof {
                assert(jd == junction_distance(juncs@[k as int].0, gtotal));
            }
            if nd > jd {
                proof {
                    assert(junction_distance(juncs@[k as int].0, gtotal) >= d);
                }
                let numf = jd - d;
                let denf = nd - d;
                let lat = interp_coord_exec(a.lat_udeg, b.lat_udeg, numf, denf);
                let lon = interp_coord_exec(a.lon_udeg, b.lon_udeg, numf, denf);
                let pt = GeoPos { lat_udeg: lat, lon_udeg: lon };
                proof {
                    assert(pt == interp_point(a, b, jd - d, nd - d));
                }
                out.push(ResultSegment::Junction(juncs[k].1, pt));
                k += 1;
            } else {
                break ;
            }
        }
        out.push(ResultSegment::Point(b));
        proof {
            assert forall|k2: int|
                k <= k2 < juncs@.len() implies junction_distance(
                #[trigger] juncs@[k2].0,
                gtotal,
            ) >= nd by {
                if k2 > k as int {
                    lemma_jd_monotone(juncs@, gtotal, k as int, k2);
                }
            }
        }
        d = nd;
        i += 1;
    }
    out
}

/// Walk every split fragment of the route for one canonical segment,
/// covering the portion of each fragment between the two anchors. An
/// empty canonical junction list produces no output at all.
pub fn segmentize(segment: &Segment, fragments: &Vec<(Vec<GeoPos>, Vec<u64>)>) -> (r: Vec<
    Vec<ResultSegment>,
>)
    requires
        positions_wf(segment.junctions@),
        forall|f: int|
            0 <= f < fragments@.len() ==> fragment_wf(
                (#[trigger] fragments@[f]).0@,
                fragments@[f].1@,
            ),
    ensures
        segment.junctions@.len() == 0 ==> r@.len() == 0,
        segment.junctions@.len() > 0 ==> r@.len() == fragments@.len() && forall|f: int|
            0 <= f < fragments@.len() ==> (#[trigger] r@[f])@ == walk_pieces(
                segment.junctions@,
                len_from(fragments@[f].1@, 0),
                fragments@[f].0@,
                fragments@[f].1@,
                0,
                0,
                0,
                Seq::empty(),
            ).1,
{
    let mut r: Vec<Vec<ResultSegment>> = Vec::new();
    if segment.junctions.len() == 0 {
        return r;
    }
    let mut f: usize = 0;
    while f < fragments.len()
        invariant
            f <= fragments@.len(),
            positions_wf(segment.junctions@),
            forall|t: int|
                0 <= t < fragments@.len() ==> fragment_wf(
                    (#[trigger] fragments@[t]).0@,
                    fragments@[t].1@,
                ),
            r@.len() == f,
            forall|t: int|
                0 <= t < f ==> (#[trigger] r@[t])@ == walk_pieces(
                    segment.junctions@,
                    len_from(fragments@[t].1@, 0),
                    fragments@[t].0@,
                    fragments@[t].1@,
                    0,
                    0,
                    0,
                    Seq::empty(),
                ).1,
        decreases fragments@.len() - f,
    {
        let frag = segmentize_fragment(&segment.junctions, &fragments[f].0, &fragments[f].1);
        r.push(frag);
        f += 1;
    }
    r
}

/// How many output items anchor a junction.
pub open spec fn count_anchored(out: Seq<ResultSegment>) -> int
    decreases out.len(),
{
    if out.len() == 0 {
        0
    } else {
        count_anchored(out.drop_last()) + (if out.last() is Junction {
            1int
        } else {
            0int
        })
    }
}

proof fn lemma_place_shape(
    juncs: Seq<(Ratio, Junction)>,
    k: int,
    total: int,
    a: GeoPos,
    b: GeoPos,
    d: int,
    nd: int,
    out: Seq<ResultSegment>,
)
    requires
        0 <= k <= juncs.len(),
    ensures
        ({
            let s = place_on_piece(juncs, k, total, a, b, d, nd, out);
            &&& k <= s.0 <= juncs.len()
            &&& count_anchored(s.1) == count_anchored(out) + (s.0 - k)
            &&& (s.0 < juncs.len() ==> junction_distance(juncs[s.0].0, total) >= nd)
        }),
    decreases juncs.len() - k,
{
    if k < juncs.len() {
        let jd = junction_distance(juncs[k].0, total);
        if nd > jd {
            let pushed = out.push(
                ResultSegment::Junction(juncs[k].1, interp_point(a, b, jd - d, nd - d)),
            );
            assert(pushed.drop_last() =~= out);
            lemma_place_shape(juncs, k + 1, total, a, b, d, nd, pushed);
        }
    }
}

proof fn lemma_walk_conservation(
    juncs: Seq<(Ratio, Junction)>,
    total: int,
    points: Seq<GeoPos>,
    lengths: Seq<u64>,
    i: int,
    d: int,
    k: int,
    out: Seq<ResultSegment>,
)
    requires
        positions_wf(juncs),
        total >= 0,
        0 <= i <= lengths.len(),
        0 <= k <= juncs.len(),
        forall|k2: int|
            k <= k2 < juncs.len() ==> junction_distance(#[trigger] juncs[k2].0, total) >= d,
        forall|k2: int|
            0 <= k2 < juncs.len() ==> junction_distance(#[trigger] juncs[k2].0, total) < d
                + len_from(lengths, i),
    ensures
        ({
            let s = walk_pieces(juncs, total, points, lengths, i, d, k, out);
            s.0 == juncs.len() && count_anchored(s.1) == count_anchored(out) + (juncs.len() - k)
        }),
    decreases lengths.len() - i,
{
    if i >= lengths.len() {
        if k < juncs.len() {
            assert(junction_distance(juncs[k].0, total) >= d);
            assert(junction_distance(juncs[k].0, total) < d);
        }
    } else {
        let nd = d + lengths[i];
        lemma_place_shape(juncs, k, total, points[i], points[i + 1], d, nd, out);
        let s = place_on_piece(juncs, k, total, points[i], points[i + 1], d, nd, out);
        assert forall|k2: int|
            s.0 <= k2 < juncs.len() implies junction_distance(#[trigger] juncs[k2].0, total)
            >= nd by {
            if k2 > s.0 {
                lemma_jd_monotone(juncs, total, s.0, k2);
            }
        }
        let pushed = s.1.push(ResultSegment::Point(points[i + 1]));
        assert(pushed.drop_last() =~= s.1);
        lemma_walk_conservation(juncs, total, points, lengths, i + 1, nd, s.0, pushed);
    }
}

/// Segmentizer conservation: when every junction of the canonical
/// segment falls due strictly inside the fragment's total length, the
/// walk anchors each junction exactly once — the output holds exactly as
/// many junction-anchored items as the canonical segment has entries.
pub proof fn lemma_segmentizer_conservation(
    juncs: Seq<(Ratio, Junction)>,
    points: Seq<GeoPos>,
    lengths: Seq<u64>,
)
    requires
        positions_wf(juncs),
        forall|k: int|
            0 <= k < juncs.len() ==> junction_distance(#[trigger] juncs[k].0, len_from(lengths, 0))
                < len_from(lengths, 0),
    ensures
        ({
            let s = walk_pieces(juncs, len_from(lengths, 0), points, lengths, 0, 0, 0, Seq::empty());
            s.0 == juncs.len() && count_anchored(s.1) == juncs.len()
        }),
{
    let total = len_from(lengths, 0);
    lemma_len_from_nonneg(lengths, 0);
    assert forall|k2: int| 0 <= k2 < juncs.len() implies junction_distance(
        #[trigger] juncs[k2].0,
        total,
    ) >= 0 by {
        lemma_jd_bounds(juncs, total, k2);
    }
    assert(count_anchored(Seq::<ResultSegment>::empty()) == 0);
    lemma_walk_conservation(juncs, total, points, lengths, 0, 0, 0, Seq::empty());
}

/// Interpolate one coordinate; magnitudes keep the machine arithmetic
/// within bounds.
fn interp_coord_exec(a: i64, b: i64, num: u64, den: u64) -> (r: i64)
    requires
        -200_000_000 <= a <= 200_000_000,
        -200_000_000 <= b <= 200_000_000,
        num < den,
    ensures
        r == interp_coord(a as int, b as int, num as int, den as int),
{
    if b >= a {
        let diff = (b - a) as u64;
        proof {
            vstd::arithmetic::mul::lemma_mul_upper_bound(
                diff as int,
                400_000_000,
                num as int,
                u64::MAX as int,
            );
            lemma_mul_nonnegative(diff as int, num as int);
        }
        let prod: u128 = diff as u128 * num as u128;
        let off128: u128 = prod / (den as u128);
        proof {
            lemma_div_pos_is_pos(diff * num, den as int);
            lemma_mul_inequality(num as int, den as int, diff as int);
            assert(num * diff == diff * num) by (nonlinear_arith);
            assert(den * diff == diff * den) by (nonlinear_arith);
            assert(diff * num <= diff * den);
            lemma_div_is_ordered(diff * num, diff * den, den as int);
            lemma_div_multiples_vanish(diff as int, den as int);
            assert((den as int * diff as int) / den as int == diff as int);
            assert(off128 <= diff);
        }
        a + (off128 as u64 as i64)
    } else {
        let diff = (a - b) as u64;
        proof {
            vstd::arithmetic::mul::lemma_mul_upper_bound(
                diff as int,
                400_000_000,
                num as int,
                u64::MAX as int,
            );
            lemma_mul_nonnegative(diff as int, num as int);
        }
        let prod: u128 = diff as u128 * num as u128;
        let off128: u128 = prod / (den as u128);
        proof {
            lemma_div_pos_is_pos(diff * num, den as int);
            lemma_mul_inequality(num as int, den as int, diff as int);
            assert(num * diff == diff * num) by (nonlinear_arith);
            assert(den * diff == diff * den) by (nonlinear_arith);
            assert(diff * num <= diff * den);
            lemma_div_is_ordered(diff * num, diff * den, den as int);
            lemma_div_multiples_vanish(diff as int, den as int);
            assert((den as int * diff as int) / den as int == diff as int);
            assert(off128 <= diff);
        }
        a - (off128 as u64 as i64)
    }
}

} // verus!
