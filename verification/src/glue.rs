use vstd::prelude::*;
use crate::geometry::DistTable;
use crate::ids::Id;
use crate::reconcile::{nonempty_ways, reversed, views, LineInfo, Waypoint};

verus! {

/// The endpoint identities of all fragments in the set.
pub open spec fn endpoint_ids(ways: Seq<Seq<Waypoint>>) -> Set<Id> {
    Set::new(
        |id: Id|
            exists|i: int|
                0 <= i < ways.len() && ((#[trigger] ways[i]).first().id == id || ways[i].last().id
                    == id),
    )
}

/// Which of the four endpoint pairings of chain and candidate has the
/// smallest measured distance; earlier pairings win ties.
pub open spec fn glue_case(chain: Seq<Waypoint>, way: Seq<Waypoint>, t: DistTable) -> int {
    let d0 = t.lookup_spec(way.first().id, chain.last().id)->Some_0;
    let d1 = t.lookup_spec(way.last().id, chain.first().id)->Some_0;
    let d2 = t.lookup_spec(way.first().id, chain.first().id)->Some_0;
    let d3 = t.lookup_spec(way.last().id, chain.last().id)->Some_0;
    let c1 = if d1 < d0 {
        1int
    } else {
        0int
    };
    let b1 = if d1 < d0 {
        d1
    } else {
        d0
    };
    let c2 = if d2 < b1 {
        2int
    } else {
        c1
    };
    let b2 = if d2 < b1 {
        d2
    } else {
        b1
    };
    if d3 < b2 {
        3int
    } else {
        c2
    }
}

/// Concatenate the candidate onto the chain under the chosen pairing; no
/// point is dropped, since the glued ends are distinct points bridged
/// across a gap.
pub open spec fn glue_join(chain: Seq<Waypoint>, way: Seq<Waypoint>, c: int) -> Seq<Waypoint> {
    if c == 0 {
        chain + way
    } else if c == 1 {
        way + chain
    } else if c == 2 {
        way.reverse() + chain
    } else {
        chain + way.reverse()
    }
}

/// One gluing step: attach the candidate by its minimum-distance pairing.
pub open spec fn glue_step(chain: Seq<Waypoint>, way: Seq<Waypoint>, t: DistTable) -> Seq<
    Waypoint,
> {
    glue_join(chain, way, glue_case(chain, way, t))
}

/// Fold every remaining fragment, in order, onto the chain.
pub open spec fn glue_fold(chain: Seq<Waypoint>, rest: Seq<Seq<Waypoint>>, t: DistTable) -> Seq<
    Waypoint,
>
    decreases rest.len(),
{
    if rest.len() == 0 {
        chain
    } else {
        glue_fold(glue_step(chain, rest[0], t), rest.skip(1), t)
    }
}

proof fn lemma_glue_join_shape(chain: Seq<Waypoint>, way: Seq<Waypoint>, c: int)
    requires
        chain.len() > 0,
        way.len() > 0,
        0 <= c <= 3,
    ensures
        glue_join(chain, way, c).len() == chain.len() + way.len(),
        (glue_join(chain, way, c).first() == chain.first()
            || glue_join(chain, way, c).first() == way.first()
            || glue_join(chain, way, c).first() == way.last()),
        (glue_join(chain, way, c).last() == chain.last()
            || glue_join(chain, way, c).last() == way.first()
            || glue_join(chain, way, c).last() == way.last()),
{
    assert(way.reverse().len() == way.len());
    if c == 2 || c == 3 {
        assert(way.reverse().first() == way.last());
        assert(way.reverse().last() == way.first());
    }
}

impl LineInfo {
    /// Best-effort gluing for a discontiguous route: re-run the merge
    /// loop, but attach each remaining fragment to the chain by the
    /// minimum measured distance among the four endpoint pairings instead
    /// of demanding an exact identity match. The result is a single
    /// chain; ambiguous geometry may be mis-joined, which callers accept.
    ///
    /// `table` holds measured distances covering every fragment endpoint
    /// pairing.
    pub fn glue_ways(&mut self, table: &DistTable)
        requires
            nonempty_ways(views(old(self).ways@)),
            table.covers(endpoint_ids(views(old(self).ways@))),
        ensures
            final(self).line == old(self).line,
            final(self).name == old(self).name,
            old(self).ways@.len() == 0 ==> final(self).ways@.len() == 0,
            old(self).ways@.len() > 0 ==> views(final(self).ways@) == seq![
                glue_fold(
                    views(old(self).ways@)[0],
                    views(old(self).ways@).skip(1),
                    *table,
                ),
            ],
    {
        let ghost g = views(self.ways@);
        if self.ways.len() == 0 {
            return ;
        }
        let mut rest: Vec<Vec<Waypoint>> = Vec::new();
        std::mem::swap(&mut rest, &mut self.ways);
        let mut chain = rest.remove(0);
        proof {
            assert(chain@ == g[0]);
            assert(views(rest@) =~= g.skip(1));
            assert(endpoint_ids(g).contains(chain@.first().id));
            assert(endpoint_ids(g).contains(chain@.last().id));
        }
        let ghost grest = views(rest@);
        proof {
            assert(grest.skip(0) =~= grest);
        }
        let mut i: usize = 0;
        while i < rest.len()
            invariant
                i <= rest@.len(),
                grest == views(rest@),
                nonempty_ways(grest),
                chain@.len() > 0,
                table.covers(endpoint_ids(g)),
                endpoint_ids(g).contains(chain@.first().id),
                endpoint_ids(g).contains(chain@.last().id),
                forall|k: int|
                    0 <= k < grest.len() ==> endpoint_ids(g).contains(
                        (#[trigger] grest[k]).first().id,
                    ) && endpoint_ids(g).contains(grest[k].last().id),
                glue_fold(chain@, grest.skip(i as int), *table) == glue_fold(g[0], g.skip(1), *table),
            decreases rest@.len() - i,
        {
            let way = &rest[i];
            proof {
                assert(way@ == grest[i as int]);
                assert(way@.len() > 0);
            }
            let wn = way.len();
            let cl = chain.len();
            let d0 = table.lookup(way[0].id, chain[cl - 1].id).unwrap();
            let d1 = table.lookup(way[wn - 1].id, chain[0].id).unwrap();
            let d2 = table.lookup(way[0].id, chain[0].id).unwrap();
            let d3 = table.lookup(way[wn - 1].id, chain[cl - 1].id).unwrap();
            let mut c: u8 = 0;
            let mut best = d0;
            if d1 < best {
                c = 1;
                best = d1;
            }
            if d2 < best {
                c = 2;
                best = d2;
            }
            if d3 < best {
                c = 3;
            }
            proof {
                assert(c as int == glue_case(chain@, way@, *table));
            }
            let ghost chain0 = chain@;
            if c == 0 {
                crate::reconcile::append_from(&mut chain, way, 0);
            } else if c == 1 {
                let mut r = crate::reconcile::copied(way);
                crate::reconcile::append_from(&mut r, &chain, 0);
                chain = r;
            } else if c == 2 {
                let mut r = reversed(way);
                crate::reconcile::append_from(&mut r, &chain, 0);
                chain = r;
            } else {
                let rw = reversed(way);
                crate::reconcile::append_from(&mut chain, &rw, 0);
            }
            proof {
                assert(way@.skip(0) =~= way@);
                assert(chain0.skip(0) =~= chain0);
                assert(way@.reverse().skip(0) =~= way@.reverse());
                assert(chain@ == glue_step(chain0, way@, *table));
                lemma_glue_join_shape(chain0, way@, glue_case(chain0, way@, *table));
                assert(grest.skip(i as int)[0] == grest[i as int]);
                assert(grest.skip(i as int).skip(1) =~= grest.skip(i as int + 1));
            }
            i += 1;
        }
        proof {
            assert(grest.skip(grest.len() as int) =~= Seq::<Seq<Waypoint>>::empty());
        }
        self.ways = Vec::new();
        self.ways.push(chain);
        proof {
            assert(views(self.ways@) =~= seq![glue_fold(g[0], g.skip(1), *table)]);
        }
    }
}

} // verus!
