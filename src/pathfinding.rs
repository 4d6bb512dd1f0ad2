//! Breadth-first search over the map: movement ranges and shortest paths.

use vstd::prelude::*;

use crate::battlefield::Battlefield;
use crate::hexgrid::{is_neighbor, lemma_neighbors_members, neighbors_in, neighbors_spec, Hex};

verus! {

/// A hex that can be reached, how many steps it takes, and the steps taken:
/// `path` runs from the start (included) to `hex` (included).
pub struct Reach {
    pub hex: Hex,
    pub cost: u64,
    pub path: Vec<Hex>,
}

/// Which hexes a walk may step onto.
pub type Rule = spec_fn(Hex) -> bool;

/// Free hexes of the map only.
pub open spec fn free_rule(field: Battlefield) -> Rule {
    |h: Hex| field.passable_spec(h)
}

/// Free hexes of the map, and the goal whatever stands on it.
pub open spec fn goal_rule(field: Battlefield, goal: Hex) -> Rule {
    |h: Hex| field.passable_spec(h) || h == goal
}

/// Every hex.
pub open spec fn any_rule() -> Rule {
    |h: Hex| true
}

/// `p` starts at `start` and each later hex is a neighbour of the one before it
/// (inside `[0, w) x [0, ht)`) that `enter` allows.
pub open spec fn is_walk(p: Seq<Hex>, start: Hex, w: int, ht: int, enter: Rule) -> bool {
    &&& p.len() >= 1
    &&& p[0] == start
    &&& forall|i: int|
        0 < i < p.len() ==> is_neighbor(#[trigger] p[i - 1], p[i], w, ht) && enter(p[i])
}

/// Some entry of `s` is at `n` with a cost of at most `c`.
pub open spec fn reached(s: Seq<Reach>, n: Hex, c: int) -> bool {
    exists|j: int| 0 <= j < s.len() && (#[trigger] s[j]).hex == n && s[j].cost <= c
}

pub open spec fn entry_ok(e: Reach, start: Hex, w: int, ht: int, enter: Rule, budget: int) -> bool {
    &&& e.cost <= budget
    &&& e.path@.len() == e.cost + 1
    &&& e.path@.last() == e.hex
    &&& is_walk(e.path@, start, w, ht, enter)
}

pub open spec fn distinct_hexes(s: Seq<Reach>) -> bool {
    forall|i: int, j: int| 0 <= i < j < s.len() ==> (#[trigger] s[i]).hex != (#[trigger] s[j]).hex
}

/// The result of a search from `start`: the start first at no cost, every entry
/// a walk of its cost within the budget, and no hex twice.
pub open spec fn sound(s: Seq<Reach>, start: Hex, w: int, ht: int, enter: Rule, budget: int) -> bool {
    &&& s.len() >= 1
    &&& s[0].hex == start
    &&& s[0].cost == 0
    &&& forall|i: int| 0 <= i < s.len() ==> entry_ok(#[trigger] s[i], start, w, ht, enter, budget)
    &&& distinct_hexes(s)
}

/// Entries come in order of cost.
pub open spec fn costs_sorted(s: Seq<Reach>) -> bool {
    forall|i: int, j: int| 0 <= i < j < s.len() ==> (#[trigger] s[i]).cost <= (#[trigger] s[j]).cost
}

/// Every hex that `enter` allows next to entry `i` is reached one step later.
pub open spec fn expanded(s: Seq<Reach>, i: int, w: int, ht: int, enter: Rule) -> bool {
    forall|n: Hex| is_neighbor(s[i].hex, n, w, ht) && enter(n) ==> #[trigger] reached(s, n, s[i].cost + 1)
}

/// Every entry of cost below `limit` has been expanded.
pub open spec fn closed_below(s: Seq<Reach>, w: int, ht: int, enter: Rule, limit: int) -> bool {
    forall|i: int| 0 <= i < s.len() && (#[trigger] s[i]).cost < limit ==> expanded(s, i, w, ht, enter)
}

proof fn lemma_reached_push(s: Seq<Reach>, x: Reach, n: Hex, c: int)
    requires
        reached(s, n, c),
    ensures
        reached(s.push(x), n, c),
{
    let j = choose|j: int| 0 <= j < s.len() && (#[trigger] s[j]).hex == n && s[j].cost <= c;
    assert(s.push(x)[j] == s[j]);
}

proof fn lemma_expanded_push(s: Seq<Reach>, x: Reach, i: int, w: int, ht: int, enter: Rule)
    requires
        0 <= i < s.len(),
        expanded(s, i, w, ht, enter),
    ensures
        expanded(s.push(x), i, w, ht, enter),
{
    assert(s.push(x)[i] == s[i]);
    assert forall|n: Hex| is_neighbor(s.push(x)[i].hex, n, w, ht) && enter(n) implies #[trigger] reached(
        s.push(x),
        n,
        s.push(x)[i].cost + 1,
    ) by {
        lemma_reached_push(s, x, n, s[i].cost + 1);
    }
}

/// A walk of `p.len() - 1` steps within the limit ends on an entry that costs no
/// more than that.
pub proof fn lemma_walk_reached(
    s: Seq<Reach>,
    p: Seq<Hex>,
    start: Hex,
    w: int,
    ht: int,
    enter: Rule,
    limit: int,
)
    requires
        s.len() >= 1,
        s[0].hex == start,
        s[0].cost == 0,
        closed_below(s, w, ht, enter, limit),
        is_walk(p, start, w, ht, enter),
        p.len() - 1 <= limit,
    ensures
        reached(s, p.last(), p.len() - 1),
    decreases p.len(),
{
    if p.len() == 1 {
        assert(s[0].hex == p.last());
    } else {
        let q = p.drop_last();
        assert(is_walk(q, start, w, ht, enter)) by {
            assert forall|i: int| 0 < i < q.len() implies is_neighbor(#[trigger] q[i - 1], q[i], w, ht)
                && enter(q[i]) by {
                assert(q[i - 1] == p[i - 1]);
                assert(q[i] == p[i]);
            }
        }
        lemma_walk_reached(s, q, start, w, ht, enter, limit);
        let j = choose|j: int| 0 <= j < s.len() && (#[trigger] s[j]).hex == q.last() && s[j].cost <= q.len() - 1;
        let k = p.len() - 1;
        assert(is_neighbor(p[k - 1], p[k], w, ht) && enter(p[k]));
        assert(expanded(s, j, w, ht, enter));
        assert(reached(s, p[k], s[j].cost + 1));
        let m = choose|m: int| 0 <= m < s.len() && (#[trigger] s[m]).hex == p[k] && s[m].cost <= s[j].cost + 1;
        assert(s[m].hex == p.last() && s[m].cost <= p.len() - 1);
    }
}

fn copy_path(p: &Vec<Hex>) -> (r: Vec<Hex>)
    ensures
        r@ == p@,
{
    let mut r: Vec<Hex> = Vec::new();
    let mut i: usize = 0;
    while i < p.len()
        invariant
            i <= p@.len(),
            r@ == p@.subrange(0, i as int),
        decreases p@.len() - i,
    {
        r.push(p[i]);
        i += 1;
    }
    assert(r@ =~= p@);
    r
}

fn holds_hex(s: &Vec<Reach>, n: Hex) -> (r: bool)
    ensures
        r == exists|j: int| 0 <= j < s@.len() && (#[trigger] s@[j]).hex == n,
{
    let mut i: usize = 0;
    while i < s.len()
        invariant
            i <= s@.len(),
            forall|j: int| 0 <= j < i ==> (#[trigger] s@[j]).hex != n,
        decreases s@.len() - i,
    {
        if s[i].hex == n {
            assert(s@[i as int].hex == n);
            return true;
        }
        i += 1;
    }
    false
}

/// Breadth-first search from `start`, one layer of cost at a time, up to
/// `budget` steps. A hex is entered when `everywhere` holds, when `field` has it
/// free, or when it is `goal`.
#[verifier::rlimit(60)]
pub(crate) fn explore(
    start: Hex,
    budget: u64,
    w: i64,
    ht: i64,
    field: &Battlefield,
    everywhere: bool,
    goal: Option<Hex>,
    Ghost(enter): Ghost<Rule>,
) -> (out: Vec<Reach>)
    requires
        0 <= w <= i32::MAX + 1,
        0 <= ht <= i32::MAX + 1,
        field.wf(),
        forall|h: Hex| #[trigger] enter(h) == (everywhere || field.passable_spec(h) || goal == Some(h)),
    ensures
        sound(out@, start, w as int, ht as int, enter, budget as int),
        costs_sorted(out@),
        closed_below(out@, w as int, ht as int, enter, budget as int),
        budget == u64::MAX ==> closed_below(out@, w as int, ht as int, enter, u64::MAX as int + 1),
{
    let mut first: Vec<Hex> = Vec::new();
    first.push(start);
    let mut out: Vec<Reach> = Vec::new();
    out.push(Reach { hex: start, cost: 0, path: first });
    let mut lo: usize = 0;
    let mut k: u64 = 0;
    loop
        invariant
            0 <= w <= i32::MAX + 1,
            0 <= ht <= i32::MAX + 1,
            field.wf(),
            forall|h: Hex| #[trigger] enter(h) == (everywhere || field.passable_spec(h) || goal == Some(h)),
            sound(out@, start, w as int, ht as int, enter, budget as int),
            costs_sorted(out@),
            lo <= out@.len(),
            k <= budget,
            k <= lo,
            forall|i: int| 0 <= i < lo ==> (#[trigger] out@[i]).cost < k,
            forall|i: int| lo <= i < out@.len() ==> (#[trigger] out@[i]).cost == k,
            forall|i: int| 0 <= i < lo ==> expanded(out@, i, w as int, ht as int, enter),
        ensures
            lo == out@.len() || k == budget,
            out@.len() <= usize::MAX,
        decreases budget - k,
    {
        let hi = out.len();
        if lo == hi || k >= budget {
            break;
        }
        let mut i: usize = lo;
        while i < hi
            invariant
                0 <= w <= i32::MAX + 1,
                0 <= ht <= i32::MAX + 1,
                field.wf(),
                forall|h: Hex| #[trigger] enter(h) == (everywhere || field.passable_spec(h) || goal == Some(h)),
                sound(out@, start, w as int, ht as int, enter, budget as int),
                costs_sorted(out@),
            costs_sorted(out@),
                lo <= i <= hi <= out@.len(),
                k < budget,
                forall|j: int| 0 <= j < lo ==> (#[trigger] out@[j]).cost < k,
                forall|j: int| lo <= j < hi ==> (#[trigger] out@[j]).cost == k,
                forall|j: int| hi <= j < out@.len() ==> (#[trigger] out@[j]).cost == k + 1,
                forall|j: int| 0 <= j < i ==> expanded(out@, j, w as int, ht as int, enter),
            decreases hi - i,
        {
            let cur = out[i].hex;
            let cur_path = copy_path(&out[i].path);
            let ns = neighbors_in(cur, w, ht);
            let ghost before = out@;
            let mut j: usize = 0;
            while j < ns.len()
                invariant
                    0 <= w <= i32::MAX + 1,
                    0 <= ht <= i32::MAX + 1,
                    field.wf(),
                    forall|h: Hex| #[trigger] enter(h) == (everywhere || field.passable_spec(h) || goal == Some(h)),
                    sound(out@, start, w as int, ht as int, enter, budget as int),
                    costs_sorted(out@),
                costs_sorted(out@),
            costs_sorted(out@),
                    lo <= i < hi <= before.len() <= out@.len(),
                    k < budget,
                    ns@ == crate::hexgrid::neighbors_spec(cur, w as int, ht as int),
                    j <= ns@.len(),
                    cur == out@[i as int].hex,
                    cur_path@ == out@[i as int].path@,
                    out@.subrange(0, before.len() as int) == before,
                    forall|m: int| 0 <= m < lo ==> (#[trigger] out@[m]).cost < k,
                    forall|m: int| lo <= m < hi ==> (#[trigger] out@[m]).cost == k,
                    forall|m: int| hi <= m < out@.len() ==> (#[trigger] out@[m]).cost == k + 1,
                    forall|m: int| 0 <= m < i ==> expanded(out@, m, w as int, ht as int, enter),
                    forall|m: int| 0 <= m < j ==> enter(#[trigger] ns@[m]) ==> reached(out@, ns@[m], k + 1),
                decreases ns@.len() - j,
            {
                let n = ns[j];
                let open = everywhere || field.is_hex_passable(n) || goal == Some(n);
                if open && !holds_hex(&out, n) {
                    let mut p = copy_path(&cur_path);
                    p.push(n);
                    let e = Reach { hex: n, cost: k + 1, path: p };
                    let ghost old_out = out@;
                    proof {
                        assert(ns@.contains(n));
                        lemma_neighbors_members(cur, n, w as int, ht as int);
                        assert(entry_ok(old_out[i as int], start, w as int, ht as int, enter, budget as int));
                        assert forall|t: int| 0 < t < p@.len() implies is_neighbor(#[trigger] p@[t - 1], p@[t], w as int, ht as int)
                            && enter(p@[t]) by {
                            if t < p@.len() - 1 {
                                assert(p@[t - 1] == cur_path@[t - 1]);
                                assert(p@[t] == cur_path@[t]);
                            } else {
                                assert(p@[t - 1] == cur_path@.last());
                            }
                        }
                        assert(entry_ok(e, start, w as int, ht as int, enter, budget as int));
                    }
                    out.push(e);
                    proof {
                        assert forall|m: int| 0 <= m < i implies expanded(out@, m, w as int, ht as int, enter) by {
                            lemma_expanded_push(old_out, e, m, w as int, ht as int, enter);
                        }
                        assert forall|m: int| 0 <= m < j && enter(#[trigger] ns@[m]) implies reached(out@, ns@[m], k + 1) by {
                            if enter(ns@[m]) {
                                lemma_reached_push(old_out, e, ns@[m], k + 1);
                            }
                        }
                        assert(out@[out@.len() - 1] == e);
                        assert(reached(out@, n, k + 1));
                        assert forall|a: int, b: int| 0 <= a < b < out@.len() implies (#[trigger] out@[a]).hex
                            != (#[trigger] out@[b]).hex by {
                            if b == out@.len() - 1 {
                                assert(old_out[a].hex != n);
                            } else {
                                assert(out@[a] == old_out[a]);
                                assert(out@[b] == old_out[b]);
                            }
                        }
                        assert forall|m: int| 0 <= m < out@.len() implies entry_ok(#[trigger] out@[m], start, w as int, ht as int, enter, budget as int) by {
                            if m < old_out.len() {
                                assert(out@[m] == old_out[m]);
                            }
                        }
                        assert(out@.subrange(0, before.len() as int) =~= before) by {
                            assert(old_out.subrange(0, before.len() as int) == before);
                            assert forall|t: int| 0 <= t < before.len() implies out@[t] == old_out[t] by {}
                        }
                    }
                } else {
                    proof {
                        if open {
                            let m = choose|m: int| 0 <= m < out@.len() && (#[trigger] out@[m]).hex == n;
                            assert(out@[m].cost <= k + 1);
                            assert(reached(out@, n, k + 1));
                        }
                    }
                }
                j += 1;
            }
            proof {
                assert(out@[i as int] == before[i as int]);
                assert forall|n: Hex| is_neighbor(out@[i as int].hex, n, w as int, ht as int) && enter(n)
                    implies #[trigger] reached(out@, n, out@[i as int].cost + 1) by {
                    lemma_neighbors_members(cur, n, w as int, ht as int);
                    let m = choose|m: int| 0 <= m < ns@.len() && ns@[m] == n;
                    assert(enter(ns@[m]));
                }
            }
            i += 1;
        }
        lo = hi;
        k = k + 1;
    }
    proof {
        assert forall|i: int| 0 <= i < out@.len() && (#[trigger] out@[i]).cost < budget implies expanded(out@, i, w as int, ht as int, enter) by {
            assert(i < lo);
        }
        if budget == u64::MAX {
            assert forall|i: int| 0 <= i < out@.len() && (#[trigger] out@[i]).cost < u64::MAX as int + 1 implies expanded(out@, i, w as int, ht as int, enter) by {
                assert(i < lo);
            }
        }
    }
    out
}

/// `goal` can be reached from `start` by stepping over free hexes of the map,
/// the goal itself excepted.
pub open spec fn reachable(field: Battlefield, start: Hex, goal: Hex) -> bool {
    exists|p: Seq<Hex>|
        is_walk(p, start, field.width as int, field.height as int, goal_rule(field, goal))
            && #[trigger] p.last() == goal
}

fn find_hex(s: &Vec<Reach>, n: Hex) -> (r: Option<usize>)
    ensures
        r.is_some() ==> r.unwrap() < s@.len() && s@[r.unwrap() as int].hex == n,
        r.is_none() ==> forall|j: int| 0 <= j < s@.len() ==> (#[trigger] s@[j]).hex != n,
{
    let mut i: usize = 0;
    while i < s.len()
        invariant
            i <= s@.len(),
            forall|j: int| 0 <= j < i ==> (#[trigger] s@[j]).hex != n,
        decreases s@.len() - i,
    {
        if s[i].hex == n {
            return Some(i);
        }
        i += 1;
    }
    None
}

/// The neighbours of `hex` on a grid whose largest column and row are those of
/// `grid_boundary`.
pub fn hex_neighbors(hex: Hex, grid_boundary: Hex) -> (r: Vec<Hex>)
    ensures
        r@ == neighbors_spec(hex, grid_boundary.q + 1, grid_boundary.r + 1),
{
    neighbors_in(hex, grid_boundary.q as i64 + 1, grid_boundary.r as i64 + 1)
}

/// `r` lists every hex that a unit on `start` can reach with `movement` steps
/// over free hexes of `field`, each once, with the fewest steps that it takes
/// and a walk of that many steps; the start comes first, at no cost, and with no
/// movement it is all there is.
pub open spec fn is_movement_range(r: Seq<Reach>, start: Hex, movement: int, field: Battlefield) -> bool {
    &&& sound(r, start, field.width as int, field.height as int, free_rule(field), if movement <= 0 {
        0
    } else {
        movement
    })
    &&& movement <= 0 ==> r.len() == 1
    &&& forall|p: Seq<Hex>|
        is_walk(p, start, field.width as int, field.height as int, free_rule(field)) && p.len() - 1
            <= movement ==> #[trigger] reached(r, p.last(), p.len() - 1)
    &&& forall|i: int, p: Seq<Hex>|
        0 <= i < r.len() && is_walk(p, start, field.width as int, field.height as int, free_rule(field))
            && #[trigger] p.last() == (#[trigger] r[i]).hex ==> r[i].cost <= p.len() - 1
}

/// Every hex that a unit standing on `start` can reach with `movement` steps over
/// free hexes, with the fewest steps that it takes and a walk of that many steps.
/// The start comes first, at no cost; with no movement left it is all there is.
pub fn movement_range(start: Hex, movement: i32, field: &Battlefield) -> (r: Vec<Reach>)
    requires
        field.wf(),
    ensures
        is_movement_range(r@, start, movement as int, *field),
{
    let budget: u64 = if movement <= 0 { 0 } else { movement as u64 };
    let ghost enter = free_rule(*field);
    let out = explore(
        start,
        budget,
        field.width as i64,
        field.height as i64,
        field,
        false,
        None,
        Ghost(enter),
    );
    let ghost w = field.width as int;
    let ghost ht = field.height as int;
    proof {
        assert forall|p: Seq<Hex>| is_walk(p, start, w, ht, enter) && p.len() - 1 <= movement implies #[trigger] reached(
            out@,
            p.last(),
            p.len() - 1,
        ) by {
            lemma_walk_reached(out@, p, start, w, ht, enter, budget as int);
        }
        assert forall|i: int, p: Seq<Hex>|
            0 <= i < out@.len() && is_walk(p, start, w, ht, enter) && #[trigger] p.last() == (#[trigger] out@[i]).hex
            implies out@[i].cost <= p.len() - 1 by {
            assert(entry_ok(out@[i], start, w, ht, enter, budget as int));
            if p.len() - 1 <= budget {
                lemma_walk_reached(out@, p, start, w, ht, enter, budget as int);
                let j = choose|j: int| 0 <= j < out@.len() && (#[trigger] out@[j]).hex == p.last() && out@[j].cost <= p.len() - 1;
                if j != i {
                    assert(out@[i].hex != out@[j].hex);
                }
            }
        }
        if movement <= 0 {
            if out@.len() > 1 {
                assert(entry_ok(out@[1], start, w, ht, enter, 0));
                assert(out@[1].hex == out@[1].path@[0]);
                assert(out@[0].hex != out@[1].hex);
            }
        }
    }
    out
}

/// `r` is a shortest walk from `start` to `goal` over free hexes of `field`
/// (the goal itself excepted), or empty when there is none; from a hex to itself
/// it is that hex alone.
pub open spec fn is_bfs_path(r: Seq<Hex>, start: Hex, goal: Hex, field: Battlefield) -> bool {
    &&& start == goal ==> r == seq![start]
    &&& r.len() > 0 ==> is_walk(r, start, field.width as int, field.height as int, goal_rule(field, goal))
        && r.last() == goal
    &&& r.len() > 0 <==> reachable(field, start, goal)
    &&& forall|p: Seq<Hex>|
        is_walk(p, start, field.width as int, field.height as int, goal_rule(field, goal))
            && #[trigger] p.last() == goal ==> r.len() <= p.len()
}

/// A shortest walk from `start` to `goal` over free hexes, where `goal` itself
/// may be taken (by the unit that is sought, say); empty when there is none.
pub fn bfs_path(start: Hex, goal: Hex, field: &Battlefield) -> (r: Vec<Hex>)
    requires
        field.wf(),
    ensures
        is_bfs_path(r@, start, goal, *field),
{
    let ghost w = field.width as int;
    let ghost ht = field.height as int;
    let ghost enter = goal_rule(*field, goal);
    if start == goal {
        let mut r: Vec<Hex> = Vec::new();
        r.push(start);
        proof {
            assert(is_walk(r@, start, w, ht, enter));
            assert(r@.last() == goal);
        }
        return r;
    }
    let out = explore(
        start,
        u64::MAX,
        field.width as i64,
        field.height as i64,
        field,
        false,
        Some(goal),
        Ghost(enter),
    );
    proof {
        assert forall|p: Seq<Hex>| is_walk(p, start, w, ht, enter) && p.last() == goal
            implies reached(out@, goal, p.len() - 1) by {
            assert(closed_below(out@, w, ht, enter, p.len() - 1)) by {
                assert forall|i: int| 0 <= i < out@.len() && (#[trigger] out@[i]).cost < p.len() - 1
                    implies expanded(out@, i, w, ht, enter) by {
                    assert(entry_ok(out@[i], start, w, ht, enter, u64::MAX as int));
                }
            }
            lemma_walk_reached(out@, p, start, w, ht, enter, p.len() - 1);
        }
    }
    match find_hex(&out, goal) {
        Some(f) => {
            let r = copy_path(&out[f].path);
            proof {
                assert(entry_ok(out@[f as int], start, w, ht, enter, u64::MAX as int));
                assert(reachable(*field, start, goal)) by {
                    assert(r@.last() == goal);
                }
                assert forall|p: Seq<Hex>| is_walk(p, start, w, ht, enter) && #[trigger] p.last() == goal
                    implies r@.len() <= p.len() by {
                    let j = choose|j: int| 0 <= j < out@.len() && (#[trigger] out@[j]).hex == goal
                        && out@[j].cost <= p.len() - 1;
                    if j != f {
                        assert(out@[j].hex != out@[f as int].hex);
                    }
                }
            }
            r
        },
        None => {
            proof {
                if reachable(*field, start, goal) {
                    let p = choose|p: Seq<Hex>| is_walk(p, start, w, ht, enter) && #[trigger] p.last() == goal;
                    let j = choose|j: int| 0 <= j < out@.len() && (#[trigger] out@[j]).hex == goal
                        && out@[j].cost <= p.len() - 1;
                }
            }
            Vec::new()
        },
    }
}

/// Every hex of a movement range costs at most the movement, the start is there
/// first at no cost, and each hex's walk has one hex more than its cost, ending
/// on that hex.
pub proof fn lemma_movement_range_costs(r: Seq<Reach>, start: Hex, movement: int, field: Battlefield)
    requires
        is_movement_range(r, start, movement, field),
        movement >= 0,
    ensures
        r.len() >= 1,
        r[0].hex == start,
        r[0].cost == 0,
        forall|i: int| 0 <= i < r.len() ==> (#[trigger] r[i]).cost <= movement,
        forall|i: int| 0 <= i < r.len() ==> (#[trigger] r[i]).path@.len() == r[i].cost + 1,
        forall|i: int| 0 <= i < r.len() ==> (#[trigger] r[i]).path@.last() == r[i].hex,
        forall|i: int| 0 <= i < r.len() ==> (#[trigger] r[i]).path@[0] == start,
{
    assert forall|i: int| 0 <= i < r.len() implies (#[trigger] r[i]).path@[0] == start by {
        assert(entry_ok(r[i], start, field.width as int, field.height as int, free_rule(field), movement));
    }
}

/// A path found from `start` to `goal` begins on `start` and ends on `goal`;
/// none is found exactly when `goal` cannot be reached.
pub proof fn lemma_bfs_path_ends(r: Seq<Hex>, start: Hex, goal: Hex, field: Battlefield)
    requires
        is_bfs_path(r, start, goal, field),
    ensures
        r.len() > 0 ==> r[0] == start && r[r.len() - 1] == goal,
        r.len() == 0 <==> !reachable(field, start, goal),
{
}

} // verus!
