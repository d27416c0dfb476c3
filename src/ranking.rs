//! Places in the final standings: players with equal points share a place,
//! and places are dense (two players tied first are followed by the second).

use vstd::prelude::*;

use crate::model::RankedPlayer;

verus! {

/// How many distinct values of `s` are greater than `p`.
pub open spec fn distinct_above(s: Seq<u16>, p: u16) -> nat
    decreases s.len(),
{
    if s.len() == 0 {
        0
    } else {
        distinct_above(s.drop_last(), p) + if s.last() > p && !s.drop_last().contains(s.last()) {
            1nat
        } else {
            0nat
        }
    }
}

/// The place of a player with `p` points among players with `points`.
pub open spec fn place(points: Seq<u16>, p: u16) -> nat {
    1 + distinct_above(points, p)
}

pub open spec fn points_of(ranked: Seq<RankedPlayer>) -> Seq<u16> {
    ranked.map_values(|e: RankedPlayer| e.2)
}

proof fn lemma_distinct_above_bound(s: Seq<u16>, p: u16)
    ensures
        distinct_above(s, p) <= s.len(),
    decreases s.len(),
{
    if s.len() > 0 {
        lemma_distinct_above_bound(s.drop_last(), p);
    }
}

proof fn lemma_distinct_above_member(s: Seq<u16>, p: u16)
    requires
        s.contains(p),
    ensures
        distinct_above(s, p) < s.len(),
    decreases s.len(),
{
    lemma_distinct_above_bound(s.drop_last(), p);
    if s.last() != p {
        let k = choose|k: int| 0 <= k < s.len() && s[k] == p;
        assert(s.drop_last()[k] == p);
        lemma_distinct_above_member(s.drop_last(), p);
    }
}

fn contains_points(s: &Vec<u16>, end: usize, p: u16) -> (r: bool)
    requires
        end <= s@.len(),
    ensures
        r == s@.subrange(0, end as int).contains(p),
{
    let mut i: usize = 0;
    while i < end
        invariant
            i <= end <= s@.len(),
            forall|k: int| 0 <= k < i ==> s@[k] != p,
        decreases end - i,
    {
        if s[i] == p {
            assert(s@.subrange(0, end as int)[i as int] == p);
            return true;
        }
        i = i + 1;
    }
    false
}

/// The place of each entry of the standings, in the same order.
pub fn ranking_places(ranked_players: &Vec<RankedPlayer>) -> (r: Vec<usize>)
    ensures
        r@.len() == ranked_players@.len(),
        forall|i: int|
            0 <= i < r@.len() ==> #[trigger] r@[i] == place(
                points_of(ranked_players@),
                ranked_players@[i].2,
            ),
{
    let ghost all = points_of(ranked_players@);
    let mut points: Vec<u16> = Vec::new();
    let mut i: usize = 0;
    while i < ranked_players.len()
        invariant
            i <= ranked_players.len(),
            all == points_of(ranked_players@),
            points@ == all.subrange(0, i as int),
        decreases ranked_players.len() - i,
    {
        points.push(ranked_players[i].2);
        i = i + 1;
    }
    assert(points@ =~= all);
    let mut r: Vec<usize> = Vec::new();
    let mut i: usize = 0;
    while i < points.len()
        invariant
            i <= points.len(),
            points@ == all,
            all.len() == ranked_players@.len(),
            all == points_of(ranked_players@),
            r@.len() == i,
            forall|k: int| 0 <= k < i ==> #[trigger] r@[k] == place(all, all[k]),
        decreases points.len() - i,
    {
        let p = points[i];
        let mut above: usize = 0;
        let mut j: usize = 0;
        while j < points.len()
            invariant
                j <= points.len(),
                points@ == all,
                above == distinct_above(all.subrange(0, j as int), p),
            decreases points.len() - j,
        {
            proof {
                assert(all.subrange(0, j + 1).drop_last() =~= all.subrange(0, j as int));
                lemma_distinct_above_bound(all.subrange(0, j as int), p);
            }
            if points[j] > p && !contains_points(&points, j, points[j]) {
                above = above + 1;
            }
            j = j + 1;
        }
        assert(all.subrange(0, j as int) =~= all);
        proof {
            assert(all[i as int] == p);
            lemma_distinct_above_member(all, p);
        }
        r.push(above + 1);
        i = i + 1;
    }
    r
}

/// Whether the entry at `a` is listed before the entry at `b` in the
/// standings: more points first; among equal points, the later entry first.
pub open spec fn listed_before(points: Seq<u16>, a: int, b: int) -> bool {
    points[a] > points[b] || (points[a] == points[b] && a > b)
}

/// The order in which the standings are shown: each position holds the
/// index of an entry of `ranked_players`, every entry appears once, and
/// entries with more points come first.
pub fn standings_order(ranked_players: &Vec<RankedPlayer>) -> (r: Vec<usize>)
    ensures
        r@.len() == ranked_players@.len(),
        r@.no_duplicates(),
        forall|i: int| 0 <= i < r@.len() ==> #[trigger] r@[i] < ranked_players@.len(),
        forall|i: int, j: int|
            0 <= i < j < r@.len() ==> listed_before(
                points_of(ranked_players@),
                #[trigger] r@[i] as int,
                #[trigger] r@[j] as int,
            ),
{
    let ghost pts = points_of(ranked_players@);
    let mut order: Vec<usize> = Vec::new();
    let mut i: usize = 0;
    while i < ranked_players.len()
        invariant
            i <= ranked_players.len(),
            pts == points_of(ranked_players@),
            order@.len() == i,
            order@.no_duplicates(),
            forall|k: int| 0 <= k < order@.len() ==> #[trigger] order@[k] < i,
            forall|a: int, b: int|
                0 <= a < b < order@.len() ==> listed_before(
                    pts,
                    #[trigger] order@[a] as int,
                    #[trigger] order@[b] as int,
                ),
        decreases ranked_players.len() - i,
    {
        let x = ranked_players[i].2;
        assert(pts[i as int] == x);
        let mut p: usize = 0;
        while p < order.len() && ranked_players[order[p]].2 > x
            invariant
                i < ranked_players.len(),
                pts == points_of(ranked_players@),
                pts[i as int] == x,
                order@.len() == i,
                p <= order@.len(),
                forall|k: int| 0 <= k < order@.len() ==> #[trigger] order@[k] < i,
                forall|k: int| 0 <= k < p ==> pts[#[trigger] order@[k] as int] > x,
            decreases order@.len() - p,
        {
            p = p + 1;
        }
        proof {
            assert forall|k: int| p <= k < order@.len() implies pts[#[trigger] order@[k] as int] <= x by {
                if k > p {
                    assert(listed_before(pts, order@[p as int] as int, order@[k] as int));
                }
            }
        }
        let ghost before = order@;
        order.insert(p, i);
        proof {
            let now = order@;
            assert(now == before.insert(p as int, i));
            assert forall|k: int| 0 <= k < now.len() implies #[trigger] now[k] < i + 1 by {
                if k < p {
                    assert(now[k] == before[k]);
                } else if k > p {
                    assert(now[k] == before[k - 1]);
                }
            }
            assert forall|a: int, b: int| 0 <= a < b < now.len() implies listed_before(
                pts,
                #[trigger] now[a] as int,
                #[trigger] now[b] as int,
            ) by {
                if a < p && b < p {
                    assert(now[a] == before[a] && now[b] == before[b]);
                } else if a < p && b == p {
                    assert(now[a] == before[a]);
                } else if a < p {
                    assert(now[a] == before[a] && now[b] == before[b - 1]);
                } else if a == p {
                    assert(now[b] == before[b - 1]);
                    assert(pts[before[b - 1] as int] <= x);
                    assert(before[b - 1] < i);
                } else {
                    assert(now[a] == before[a - 1] && now[b] == before[b - 1]);
                }
            }
            assert(now.no_duplicates()) by {
                assert forall|a: int, b: int| 0 <= a < now.len() && 0 <= b < now.len() && a != b implies now[a] != now[b] by {
                    if a < b {
                        assert(listed_before(pts, now[a] as int, now[b] as int));
                    } else {
                        assert(listed_before(pts, now[b] as int, now[a] as int));
                    }
                }
            }
        }
        i = i + 1;
    }
    order
}

} // verus!
