//! Flood-fill distances and step-by-step paths over the map's exit
//! relation, used by the monster chase logic and by the builders that
//! wall off unreachable floor.

use vstd::prelude::*;
use crate::map::{GameMap, MAPCOUNT};

verus! {

/// Distance value of a tile the flood fill never reached.
pub const UNREACHED: u32 = 4294967295;

/// A step always lands on the grid.
pub proof fn lemma_step_in_bounds(m: GameMap, a: int, b: int)
    requires
        m.step(a, b),
    ensures
        81 <= b < 3440,
{
    vstd::arithmetic::div_mod::lemma_fundamental_div_mod(b, 80);
}

/// The marking of a distance map: closed under the exit relation and
/// containing the start, it covers everything reachable from the start.
pub proof fn lemma_path_marked(m: GameMap, dist: Seq<u32>, p: Seq<int>)
    requires
        dist.len() == 3440,
        m.is_path(p),
        p.len() >= 1,
        0 <= p.first() < 3440,
        dist[p.first()] != UNREACHED,
        forall|i: int, b: int|
            0 <= i < 3440 && dist[i] != UNREACHED && #[trigger] m.step(i, b) ==> 0 <= b < 3440
                && dist[b] != UNREACHED,
    ensures
        0 <= p.last() < 3440,
        dist[p.last()] != UNREACHED,
    decreases p.len(),
{
    if p.len() > 1 {
        let q = p.drop_last();
        assert(forall|i: int| 0 <= i < q.len() - 1 ==> m.step(#[trigger] q[i], q[i + 1]));
        lemma_path_marked(m, dist, q);
        assert(m.step(p[p.len() - 2], p.last()));
    }
}

/// Whatever is reachable from the start is marked in a distance map that
/// contains the start and is closed under the exit relation.
pub proof fn lemma_flood_fill_complete(m: GameMap, dist: Seq<u32>, start: int, t: int)
    requires
        dist.len() == 3440,
        0 <= start < 3440,
        dist[start] != UNREACHED,
        forall|i: int, b: int|
            0 <= i < 3440 && dist[i] != UNREACHED && #[trigger] m.step(i, b) ==> 0 <= b < 3440
                && dist[b] != UNREACHED,
        m.reachable(start, t),
    ensures
        0 <= t < 3440,
        dist[t] != UNREACHED,
{
    let p = choose|p: Seq<int>|
        p.len() >= 1 && p.first() == start && p.last() == t && m.is_path(p);
    lemma_path_marked(m, dist, p);
}

/// A sequence of distinct tile indices cannot be longer than the grid.
proof fn lemma_distinct_bounded_len(s: Seq<usize>)
    requires
        s.no_duplicates(),
        forall|k: int| 0 <= k < s.len() ==> #[trigger] s[k] < 3440,
    ensures
        s.len() <= 3440,
{
    let si = s.map_values(|u: usize| u as int);
    assert(si.no_duplicates());
    si.unique_seq_to_set();
    assert(si.to_set().subset_of(vstd::set_lib::set_int_range(0, 3440))) by {
        assert forall|x: int| si.to_set().contains(x) implies vstd::set_lib::set_int_range(
            0,
            3440,
        ).contains(x) by {
            let k = choose|k: int| 0 <= k < si.len() && si[k] == x;
            assert(s[k] < 3440);
        }
    }
    vstd::set_lib::lemma_int_range(0, 3440);
    vstd::set_lib::lemma_len_subset(si.to_set(), vstd::set_lib::set_int_range(0, 3440));
}

/// Well-formedness of a flood-fill result for map `m` and start tile
/// `start`: the start is at distance zero, every marked tile is reachable,
/// the marking is closed under the exit relation, and every marked tile
/// other than the start has a marked parent one legal step away.
pub open spec fn flood_wf(m: GameMap, start: int, dist: Seq<u32>, parent: Seq<usize>) -> bool {
    &&& dist.len() == 3440
    &&& parent.len() == 3440
    &&& dist[start] == 0
    &&& forall|i: int| 0 <= i < 3440 && #[trigger] dist[i] != UNREACHED ==> m.reachable(start, i)
    &&& forall|i: int, b: int|
        0 <= i < 3440 && dist[i] != UNREACHED && #[trigger] m.step(i, b) ==> 0 <= b < 3440
            && dist[b] != UNREACHED
    &&& forall|i: int|
        0 <= i < 3440 && #[trigger] dist[i] != UNREACHED && i != start ==> parent[i] < 3440
            && dist[parent[i] as int] != UNREACHED && m.step(parent[i] as int, i)
            && dist[i] == dist[parent[i] as int] + 1
}

/// Breadth-first flood fill from `start` over the exit relation.
///
/// The result marks exactly the tiles reachable from the start: marked
/// tiles are reachable (and carry a parent chain back to the start), and
/// by `lemma_flood_fill_complete` every reachable tile is marked.
#[verifier::rlimit(60)]
pub fn flood_fill(m: &GameMap, start: usize) -> (r: (Vec<u32>, Vec<usize>))
    requires
        m.wf(),
        start < 3440,
    ensures
        flood_wf(*m, start as int, r.0@, r.1@),
{
    let mut dist: Vec<u32> = Vec::new();
    let mut parent: Vec<usize> = Vec::new();
    let mut i: usize = 0;
    while i < MAPCOUNT
        invariant
            i <= 3440,
            dist.len() == i,
            parent.len() == i,
            forall|j: int| 0 <= j < i ==> #[trigger] dist@[j] == UNREACHED,
        decreases 3440 - i,
    {
        dist.push(UNREACHED);
        parent.push(0);
        i = i + 1;
    }
    dist.set(start, 0);
    let mut queue: Vec<usize> = Vec::new();
    queue.push(start);
    let mut qh: usize = 0;
    proof {
        m.lemma_reachable_refl(start as int);
        assert forall|i: int|
            0 <= i < 3440 && #[trigger] dist@[i] != UNREACHED implies queue@.contains(
            i as usize,
        ) by {
            assert(i == start as int);
            assert(queue@[0] == i as usize);
        }
    }

    while qh < queue.len()
        invariant
            m.wf(),
            start < 3440,
            dist.len() == 3440,
            parent.len() == 3440,
            qh <= queue.len(),
            queue.len() <= 3440,
            queue@.no_duplicates(),
            dist@[start as int] == 0,
            forall|k: int|
                0 <= k < queue.len() ==> #[trigger] queue@[k] < 3440 && dist@[queue@[k] as int]
                    != UNREACHED,
            forall|i: int|
                0 <= i < 3440 && #[trigger] dist@[i] != UNREACHED ==> queue@.contains(i as usize),
            forall|i: int|
                0 <= i < 3440 && #[trigger] dist@[i] != UNREACHED ==> dist@[i] < queue.len(),
            forall|i: int|
                0 <= i < 3440 && #[trigger] dist@[i] != UNREACHED ==> m.reachable(
                    start as int,
                    i,
                ),
            forall|i: int|
                0 <= i < 3440 && #[trigger] dist@[i] != UNREACHED && i != start ==> parent@[i]
                    < 3440 && dist@[parent@[i] as int] != UNREACHED && m.step(parent@[i] as int, i)
                    && dist@[i] == dist@[parent@[i] as int] + 1,
            forall|k: int, b: int|
                0 <= k < qh && #[trigger] m.step(queue@[k] as int, b) ==> 0 <= b < 3440 && dist@[b]
                    != UNREACHED,
        decreases 3440 - qh,
    {
        let cur = queue[qh];
        let exits = m.get_available_exits(cur);
        let mut t: usize = 0;
        while t < exits.len()
            invariant
                m.wf(),
                start < 3440,
                cur < 3440,
                dist.len() == 3440,
                parent.len() == 3440,
                qh < queue.len(),
                queue.len() <= 3440,
                queue@[qh as int] == cur,
                dist@[cur as int] != UNREACHED,
                queue@.no_duplicates(),
                dist@[start as int] == 0,
                t <= exits.len(),
                forall|k: int|
                    0 <= k < exits.len() ==> m.step(cur as int, (#[trigger] exits@[k]).0 as int)
                        && exits@[k].0 < 3440,
                forall|b: int| m.step(cur as int, b) ==> exists|k: int|
                    0 <= k < exits.len() && (#[trigger] exits@[k]).0 == b,
                forall|k: int|
                    0 <= k < queue.len() ==> #[trigger] queue@[k] < 3440 && dist@[queue@[k] as int]
                        != UNREACHED,
                forall|i: int|
                    0 <= i < 3440 && #[trigger] dist@[i] != UNREACHED ==> queue@.contains(
                        i as usize,
                    ),
                forall|i: int|
                    0 <= i < 3440 && #[trigger] dist@[i] != UNREACHED ==> dist@[i] < queue.len(),
                forall|i: int|
                    0 <= i < 3440 && #[trigger] dist@[i] != UNREACHED ==> m.reachable(
                        start as int,
                        i,
                    ),
                forall|i: int|
                    0 <= i < 3440 && #[trigger] dist@[i] != UNREACHED && i != start ==> parent@[i]
                        < 3440 && dist@[parent@[i] as int] != UNREACHED && m.step(
                        parent@[i] as int,
                        i,
                    ) && dist@[i] == dist@[parent@[i] as int] + 1,
                forall|k: int, b: int|
                    0 <= k < qh && #[trigger] m.step(queue@[k] as int, b) ==> 0 <= b < 3440
                        && dist@[b] != UNREACHED,
                forall|k: int|
                    0 <= k < t ==> dist@[(#[trigger] exits@[k]).0 as int] != UNREACHED,
            decreases exits.len() - t,
        {
            let (b, _cost) = exits[t];
            if dist[b] == UNREACHED {
                proof {
                    assert(!queue@.contains(b)) by {
                        if queue@.contains(b) {
                            let k = choose|k: int| 0 <= k < queue@.len() && queue@[k] == b;
                            assert(dist@[queue@[k] as int] != UNREACHED);
                        }
                    }
                    assert(b != cur && b as int != start as int);
                    m.lemma_reachable_step(start as int, cur as int, b as int);
                }
                let db = dist[cur];
                dist.set(b, db + 1);
                parent.set(b, cur);
                let ghost q0 = queue@;
                queue.push(b);
                proof {
                    assert forall|i: int, j: int|
                        0 <= i < queue@.len() && 0 <= j < queue@.len() && i != j implies queue@[i]
                        != queue@[j] by {
                        if i < q0.len() && j < q0.len() {
                            assert(q0.no_duplicates());
                        } else if j == q0.len() && i < q0.len() {
                            assert(q0.contains(q0[i]));
                        } else if i == q0.len() && j < q0.len() {
                            assert(q0.contains(q0[j]));
                        }
                    }
                    lemma_distinct_bounded_len(queue@);
                    assert forall|i: int|
                        0 <= i < 3440 && #[trigger] dist@[i] != UNREACHED implies queue@.contains(
                        i as usize,
                    ) by {
                        if i == b as int {
                            assert(queue@[queue@.len() - 1] == b);
                        } else {
                            assert(q0.contains(i as usize));
                            let k = choose|k: int| 0 <= k < q0.len() && q0[k] == i as usize;
                            assert(queue@[k] == i as usize);
                        }
                    }
                }
            }
            t = t + 1;
        }
        proof {
            assert forall|k: int, b: int|
                0 <= k < qh + 1 && #[trigger] m.step(queue@[k] as int, b) implies 0 <= b < 3440
                && dist@[b] != UNREACHED by {
                lemma_step_in_bounds(*m, queue@[k] as int, b);
                if k == qh {
                    let k2 = choose|k2: int|
                        0 <= k2 < exits@.len() && (#[trigger] exits@[k2]).0 == b;
                    assert(dist@[exits@[k2].0 as int] != UNREACHED);
                }
            }
        }
        qh = qh + 1;
    }
    proof {
        assert forall|i: int, b: int|
            0 <= i < 3440 && dist@[i] != UNREACHED && #[trigger] m.step(i, b) implies 0 <= b < 3440
            && dist@[b] != UNREACHED by {
            assert(queue@.contains(i as usize));
            let k = choose|k: int| 0 <= k < queue@.len() && queue@[k] == i as usize;
            assert(m.step(queue@[k] as int, b));
        }
    }
    (dist, parent)
}

/// A step-by-step path from `start` to `goal` along the exit relation,
/// or `None` exactly when no such walk exists.
pub fn path_to(m: &GameMap, start: usize, goal: usize) -> (r: Option<Vec<usize>>)
    requires
        m.wf(),
        start < 3440,
        goal < 3440,
    ensures
        match r {
            Some(p) => {
                &&& p.len() >= 1
                &&& p@[0] == start
                &&& p@[p.len() - 1] == goal
                &&& forall|i: int| 0 <= i < p.len() ==> #[trigger] p@[i] < 3440
                &&& forall|i: int|
                    0 <= i < p.len() - 1 ==> m.step(#[trigger] p@[i] as int, p@[i + 1] as int)
            },
            None => !m.reachable(start as int, goal as int),
        },
{
    let (dist, parent) = flood_fill(m, start);
    if dist[goal] == UNREACHED {
        proof {
            if m.reachable(start as int, goal as int) {
                lemma_flood_fill_complete(*m, dist@, start as int, goal as int);
            }
        }
        return None;
    }
    // Walk the parent chain backwards from the goal.
    let mut rev: Vec<usize> = Vec::new();
    rev.push(goal);
    let mut cur: usize = goal;
    while cur != start
        invariant
            m.wf(),
            start < 3440,
            cur < 3440,
            flood_wf(*m, start as int, dist@, parent@),
            dist@[cur as int] != UNREACHED,
            rev.len() >= 1,
            rev@[0] == goal,
            rev@[rev.len() - 1] == cur,
            forall|i: int| 0 <= i < rev.len() ==> #[trigger] rev@[i] < 3440,
            forall|i: int|
                0 <= i < rev.len() - 1 ==> m.step(rev@[i + 1] as int, #[trigger] rev@[i] as int),
        decreases dist@[cur as int],
    {
        let p = parent[cur];
        rev.push(p);
        cur = p;
    }
    // Reverse into start-to-goal order.
    let mut path: Vec<usize> = Vec::new();
    let mut t: usize = rev.len();
    while t > 0
        invariant
            t <= rev.len(),
            path.len() == rev.len() - t,
            forall|i: int| 0 <= i < rev.len() ==> #[trigger] rev@[i] < 3440,
            forall|i: int|
                0 <= i < rev.len() - 1 ==> m.step(rev@[i + 1] as int, #[trigger] rev@[i] as int),
            forall|i: int|
                0 <= i < path.len() ==> #[trigger] path@[i] == rev@[rev.len() - 1 - i],
        decreases t,
    {
        t = t - 1;
        let v = rev[t];
        path.push(v);
    }
    proof {
        assert(path@[0] == rev@[rev.len() - 1]);
        assert(path@[path.len() - 1] == rev@[0]);
        assert forall|i: int|
            0 <= i < path.len() - 1 implies m.step(
            #[trigger] path@[i] as int,
            path@[i + 1] as int,
        ) by {
            assert(path@[i] == rev@[rev.len() - 1 - i]);
            assert(path@[i + 1] == rev@[rev.len() - 1 - (i + 1)]);
            assert(m.step(rev@[(rev.len() - 2 - i) + 1] as int, rev@[rev.len() - 2 - i] as int));
        }
    }
    Some(path)
}

} // verus!
