use vstd::prelude::*;
use crate::geometry::GeoPos;

verus! {

/// A named stop position carried by a route's metadata, used as a
/// directional reference.
#[derive(Clone, Debug)]
pub struct LineStop {
    pub name: String,
    pub pos: GeoPos,
}

/// The edit distance between two strings.
pub uninterp spec fn levenshtein_of(a: Seq<char>, b: Seq<char>) -> usize;

/// Relies on strsim::levenshtein: the Levenshtein edit distance between
/// two strings, a function of the two strings alone.
#[verifier::external_body]
fn levenshtein_dist(a: &str, b: &str) -> (r: usize)
    ensures
        r == levenshtein_of(a@, b@),
{
    strsim::levenshtein(a, b)
}

/// The position, among the first `n` stops, of the name nearest `from`
/// by edit distance; the first wins ties.
pub open spec fn best_name_match(from: Seq<char>, stops: Seq<LineStop>, n: int) -> Option<int>
    decreases n,
{
    if n <= 0 {
        None
    } else {
        match best_name_match(from, stops, n - 1) {
            Option::None => Some(n - 1),
            Option::Some(p) => if levenshtein_of(from, stops[n - 1].name@) < levenshtein_of(
                from,
                stops[p].name@,
            ) {
                Some(n - 1)
            } else {
                Some(p)
            },
        }
    }
}

/// Find a route's conventional start among its stops: the stop whose
/// name lies nearest the route's "from" tag by edit distance, the first
/// among ties.
pub fn find_from_stop(from: &String, stops: &Vec<LineStop>) -> (r: Option<usize>)
    ensures
        match best_name_match(from@, stops@, stops@.len() as int) {
            Option::None => r is None,
            Option::Some(p) => r is Some && r->Some_0 == p,
        },
{
    let n = stops.len();
    let mut best: Option<usize> = None;
    let mut best_dist: usize = 0;
    let mut i: usize = 0;
    while i < n
        invariant
            i <= n,
            n == stops@.len(),
            best is Some ==> best->Some_0 < i && best_dist == levenshtein_of(
                from@,
                stops@[best->Some_0 as int].name@,
            ),
            match best_name_match(from@, stops@, i as int) {
                Option::None => best is None,
                Option::Some(p) => best is Some && best->Some_0 == p,
            },
        decreases n - i,
    {
        let d = levenshtein_dist(from.as_str(), stops[i].name.as_str());
        match best {
            Option::None => {
                best = Some(i);
                best_dist = d;
            },
            Option::Some(_) => {
                if d < best_dist {
                    best = Some(i);
                    best_dist = d;
                }
            },
        }
        i += 1;
    }
    best
}

/// Find a route's conventional end among its stops: the first stop whose
/// name equals the route's "to" tag exactly.
pub fn find_to_stop(to: &String, stops: &Vec<LineStop>) -> (r: Option<usize>)
    ensures
        match r {
            Option::None => forall|i: int| 0 <= i < stops@.len() ==> (#[trigger] stops@[i]).name@ != to@,
            Option::Some(p) => (p as int) < stops@.len() && stops@[p as int].name@ == to@
                && forall|i: int| 0 <= i < p as int ==> (#[trigger] stops@[i]).name@ != to@,
        },
{
    let n = stops.len();
    let mut i: usize = 0;
    while i < n
        invariant
            i <= n,
            n == stops@.len(),
            forall|k: int| 0 <= k < i ==> (#[trigger] stops@[k]).name@ != to@,
        decreases n - i,
    {
        if stops[i].name == *to {
            return Some(i);
        }
        i += 1;
    }
    None
}

} // verus!
