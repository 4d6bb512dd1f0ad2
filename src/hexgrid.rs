//! Hex coordinates: neighbours, areas and distance.

use vstd::prelude::*;

use crate::battlefield::Battlefield;
use crate::pathfinding::{any_rule, entry_ok, explore, is_walk, lemma_walk_reached, reached};

verus! {

/// A cell of the battlefield in column (`q`) / row (`r`) coordinates.
#[derive(Clone, Copy, Debug, PartialEq, Eq, Hash, Structural)]
pub struct Hex {
    pub q: i32,
    pub r: i32,
}

/// The six step offsets of a hex: columns with an even `q` and columns with an
/// odd `q` use different tables.
pub open spec fn offset_spec(q: int, k: int) -> (int, int) {
    if q % 2 == 0 {
        if k == 0 { (0, -1) }
        else if k == 1 { (1, -1) }
        else if k == 2 { (1, 0) }
        else if k == 3 { (0, 1) }
        else if k == 4 { (-1, 0) }
        else { (-1, -1) }
    } else {
        if k == 0 { (0, -1) }
        else if k == 1 { (1, 0) }
        else if k == 2 { (1, 1) }
        else if k == 3 { (0, 1) }
        else if k == 4 { (-1, 1) }
        else { (-1, 0) }
    }
}

/// The coordinates reached from `h` by its `k`-th step.
pub open spec fn step_spec(h: Hex, k: int) -> (int, int) {
    (h.q + offset_spec(h.q as int, k).0, h.r + offset_spec(h.q as int, k).1)
}

/// Whether the coordinates lie in the rectangle `[0, w) x [0, ht)`.
pub open spec fn in_rect(q: int, r: int, w: int, ht: int) -> bool {
    0 <= q < w && 0 <= r < ht
}

pub open spec fn hex_in_rect(h: Hex, w: int, ht: int) -> bool {
    in_rect(h.q as int, h.r as int, w, ht)
}

/// The first `n` steps of `h`, in table order, keeping those inside the rectangle.
pub open spec fn steps_in_rect(h: Hex, w: int, ht: int, n: int) -> Seq<Hex>
    decreases n,
{
    if n <= 0 {
        Seq::empty()
    } else {
        let prev = steps_in_rect(h, w, ht, n - 1);
        let c = step_spec(h, n - 1);
        if in_rect(c.0, c.1, w, ht) {
            prev.push(Hex { q: c.0 as i32, r: c.1 as i32 })
        } else {
            prev
        }
    }
}

/// The neighbours of `h` inside the rectangle `[0, w) x [0, ht)`, in table order.
pub open spec fn neighbors_spec(h: Hex, w: int, ht: int) -> Seq<Hex> {
    steps_in_rect(h, w, ht, 6)
}

/// `b` is one step away from `a`, and inside the rectangle.
pub open spec fn is_neighbor(a: Hex, b: Hex, w: int, ht: int) -> bool {
    &&& hex_in_rect(b, w, ht)
    &&& exists|k: int| 0 <= k < 6 && #[trigger] step_spec(a, k) == (b.q as int, b.r as int)
}

/// `h` is at most `n` steps from `start`, every step inside `[0, w) x [0, ht)`.
pub open spec fn within_steps(start: Hex, h: Hex, n: int, w: int, ht: int) -> bool {
    exists|p: Seq<Hex>| is_walk(p, start, w, ht, any_rule()) && p.len() - 1 <= n && #[trigger] p.last() == h
}

/// Axial hex distance.
pub open spec fn distance_spec(a: Hex, b: Hex) -> int {
    let dq = a.q - b.q;
    let dr = a.r - b.r;
    (abs(dq) + abs(dq + dr) + abs(dr)) / 2
}

pub open spec fn abs(x: int) -> int {
    if x < 0 { -x } else { x }
}

proof fn lemma_steps_in_rect_members(h: Hex, b: Hex, w: int, ht: int, n: int)
    requires
        0 <= n <= 6,
        w <= i32::MAX + 1,
        ht <= i32::MAX + 1,
    ensures
        steps_in_rect(h, w, ht, n).contains(b) <==> (hex_in_rect(b, w, ht) && exists|k: int|
            0 <= k < n && #[trigger] step_spec(h, k) == (b.q as int, b.r as int)),
    decreases n,
{
    if n > 0 {
        lemma_steps_in_rect_members(h, b, w, ht, n - 1);
        let prev = steps_in_rect(h, w, ht, n - 1);
        let c = step_spec(h, n - 1);
        if steps_in_rect(h, w, ht, n).contains(b) {
            if !prev.contains(b) {
                let i = choose|i: int| 0 <= i < steps_in_rect(h, w, ht, n).len()
                    && steps_in_rect(h, w, ht, n)[i] == b;
                assert(i == prev.len());
                assert(step_spec(h, n - 1) == (b.q as int, b.r as int));
            }
        }
        if hex_in_rect(b, w, ht) && exists|k: int|
            0 <= k < n && #[trigger] step_spec(h, k) == (b.q as int, b.r as int) {
            let k = choose|k: int| 0 <= k < n && #[trigger] step_spec(h, k) == (b.q as int, b.r as int);
            if k == n - 1 {
                let s = steps_in_rect(h, w, ht, n);
                assert(s[s.len() - 1] == b);
            } else {
                let i = choose|i: int| 0 <= i < prev.len() && prev[i] == b;
                assert(steps_in_rect(h, w, ht, n)[i] == b);
            }
        }
    }
}

/// Membership in the neighbour list is exactly the neighbour relation.
pub proof fn lemma_neighbors_members(a: Hex, b: Hex, w: int, ht: int)
    requires
        w <= i32::MAX + 1,
        ht <= i32::MAX + 1,
    ensures
        neighbors_spec(a, w, ht).contains(b) <==> is_neighbor(a, b, w, ht),
{
    lemma_steps_in_rect_members(a, b, w, ht, 6);
}

fn offset(q: i32, k: usize) -> (r: (i64, i64))
    requires
        k < 6,
    ensures
        r.0 == offset_spec(q as int, k as int).0,
        r.1 == offset_spec(q as int, k as int).1,
{
    if q % 2 == 0 {
        if k == 0 { (0, -1) }
        else if k == 1 { (1, -1) }
        else if k == 2 { (1, 0) }
        else if k == 3 { (0, 1) }
        else if k == 4 { (-1, 0) }
        else { (-1, -1) }
    } else {
        if k == 0 { (0, -1) }
        else if k == 1 { (1, 0) }
        else if k == 2 { (1, 1) }
        else if k == 3 { (0, 1) }
        else if k == 4 { (-1, 1) }
        else { (-1, 0) }
    }
}

/// The neighbours of `hex` inside `[0, w) x [0, ht)`.
pub(crate) fn neighbors_in(hex: Hex, w: i64, ht: i64) -> (r: Vec<Hex>)
    requires
        w <= i32::MAX + 1,
        ht <= i32::MAX + 1,
    ensures
        r@ == neighbors_spec(hex, w as int, ht as int),
{
    let mut out: Vec<Hex> = Vec::new();
    let mut k: usize = 0;
    while k < 6
        invariant
            k <= 6,
            w <= i32::MAX + 1,
            ht <= i32::MAX + 1,
            out@ == steps_in_rect(hex, w as int, ht as int, k as int),
        decreases 6 - k,
    {
        let d = offset(hex.q, k);
        let q: i64 = hex.q as i64 + d.0;
        let r: i64 = hex.r as i64 + d.1;
        if 0 <= q && q < w && 0 <= r && r < ht {
            out.push(Hex { q: q as i32, r: r as i32 });
        }
        k += 1;
    }
    out
}

impl Hex {
    /// The neighbours of this hex inside the grid `[0, grid_width) x [0, grid_height)`,
    /// in table order.
    pub fn neighbors(&self, grid_width: i32, grid_height: i32) -> (r: Vec<Hex>)
        ensures
            r@ == neighbors_spec(*self, grid_width as int, grid_height as int),
            forall|b: Hex| r@.contains(b) <==> is_neighbor(*self, b, grid_width as int, grid_height as int),
    {
        proof {
            assert forall|b: Hex| neighbors_spec(*self, grid_width as int, grid_height as int).contains(b)
                <==> is_neighbor(*self, b, grid_width as int, grid_height as int) by {
                lemma_neighbors_members(*self, b, grid_width as int, grid_height as int);
            }
        }
        neighbors_in(*self, grid_width as i64, grid_height as i64)
    }

    /// Whether `hex` is one of this hex's neighbours inside the grid.
    pub fn is_adjacent(&self, hex: Hex, grid_width: i32, grid_height: i32) -> (r: bool)
        ensures
            r == is_neighbor(*self, hex, grid_width as int, grid_height as int),
    {
        let ns = self.neighbors(grid_width, grid_height);
        let mut i: usize = 0;
        while i < ns.len()
            invariant
                i <= ns@.len(),
                forall|j: int| 0 <= j < i ==> ns@[j] != hex,
                ns@.contains(hex) <==> is_neighbor(*self, hex, grid_width as int, grid_height as int),
            decreases ns@.len() - i,
        {
            if ns[i] == hex {
                assert(ns@.contains(hex));
                return true;
            }
            i += 1;
        }
        proof {
            if ns@.contains(hex) {
                let j = choose|j: int| 0 <= j < ns@.len() && ns@[j] == hex;
            }
        }
        false
    }

    /// The hexes at most `range` steps from this one over the grid
    /// `[0, grid_width) x [0, grid_height)`, nearest first, this hex itself first of
    /// all; none for a negative range.
    pub fn range_to_area(&self, range: i32, grid_width: i32, grid_height: i32) -> (r: Vec<Hex>)
        ensures
            range < 0 ==> r@.len() == 0,
            range >= 0 ==> r@.len() >= 1 && r@[0] == *self,
            r@.no_duplicates(),
            forall|h: Hex|
                #[trigger] r@.contains(h) <==> range >= 0 && within_steps(
                    *self,
                    h,
                    range as int,
                    grid_width as int,
                    grid_height as int,
                ),
            forall|i: int, j: int, n: int|
                0 <= i < j < r@.len() && #[trigger] within_steps(*self, r@[j], n, grid_width as int, grid_height as int)
                    ==> #[trigger] within_steps(*self, r@[i], n, grid_width as int, grid_height as int),
    {
        let mut area: Vec<Hex> = Vec::new();
        if range < 0 {
            return area;
        }
        let w: i64 = if grid_width < 0 { 0 } else { grid_width as i64 };
        let ht: i64 = if grid_height < 0 { 0 } else { grid_height as i64 };
        let open = Battlefield { width: 0, height: 0, hexes: Vec::new() };
        let ghost enter = any_rule();
        let out = explore(*self, range as u64, w, ht, &open, true, None, Ghost(enter));
        let ghost gw = grid_width as int;
        let ghost gh = grid_height as int;
        proof {
            assert forall|p: Seq<Hex>| is_walk(p, *self, gw, gh, enter) <==> is_walk(p, *self, w as int, ht as int, enter) by {
                if p.len() >= 1 {
                    assert forall|i: int| 0 < i < p.len() implies (is_neighbor(#[trigger] p[i - 1], p[i], gw, gh)
                        <==> is_neighbor(p[i - 1], p[i], w as int, ht as int)) by {}
                }
            }
        }
        let mut i: usize = 0;
        while i < out.len()
            invariant
                i <= out@.len(),
                area@.len() == i,
                forall|j: int| 0 <= j < i ==> area@[j] == (#[trigger] out@[j]).hex,
            decreases out@.len() - i,
        {
            area.push(out[i].hex);
            i += 1;
        }
        proof {
            assert forall|a: int, b: int| 0 <= a < area@.len() && 0 <= b < area@.len() && a != b
                implies area@[a] != area@[b] by {
                if a < b {
                    assert(out@[a].hex != out@[b].hex);
                } else {
                    assert(out@[b].hex != out@[a].hex);
                }
            }
            assert forall|i: int, j: int, n: int|
                0 <= i < j < area@.len() && #[trigger] within_steps(*self, area@[j], n, gw, gh)
                    implies #[trigger] within_steps(*self, area@[i], n, gw, gh) by {
                let p = choose|p: Seq<Hex>| is_walk(p, *self, gw, gh, enter) && p.len() - 1 <= n
                    && #[trigger] p.last() == area@[j];
                assert(entry_ok(out@[j], *self, w as int, ht as int, enter, range as int));
                assert(entry_ok(out@[i], *self, w as int, ht as int, enter, range as int));
                assert(out@[i].cost <= out@[j].cost);
                if p.len() - 1 <= range {
                    lemma_walk_reached(out@, p, *self, w as int, ht as int, enter, range as int);
                    let m = choose|m: int| 0 <= m < out@.len() && (#[trigger] out@[m]).hex == p.last()
                        && out@[m].cost <= p.len() - 1;
                    if m != j {
                        if m < j {
                            assert(out@[m].hex != out@[j].hex);
                        } else {
                            assert(out@[j].hex != out@[m].hex);
                        }
                    }
                }
                let q = out@[i].path@;
                assert(is_walk(q, *self, gw, gh, enter) && q.len() - 1 <= n && q.last() == area@[i]);
            }
            assert forall|h: Hex| #[trigger] area@.contains(h) <==> within_steps(*self, h, range as int, gw, gh) by {
                if area@.contains(h) {
                    let j = choose|j: int| 0 <= j < area@.len() && area@[j] == h;
                    assert(entry_ok(out@[j], *self, w as int, ht as int, enter, range as int));
                    let p = out@[j].path@;
                    assert(is_walk(p, *self, gw, gh, enter) && p.len() - 1 <= range && p.last() == h);
                }
                if within_steps(*self, h, range as int, gw, gh) {
                    let p = choose|p: Seq<Hex>| is_walk(p, *self, gw, gh, enter) && p.len() - 1 <= range
                        && #[trigger] p.last() == h;
                    lemma_walk_reached(out@, p, *self, w as int, ht as int, enter, range as int);
                    let j = choose|j: int| 0 <= j < out@.len() && (#[trigger] out@[j]).hex == h && out@[j].cost
                        <= p.len() - 1;
                    assert(area@[j] == h);
                }
            }
        }
        area
    }
}

/// Distance does not depend on the order of its ends, and going through a third
/// hex is never shorter.
pub proof fn lemma_distance_metric(a: Hex, b: Hex, c: Hex)
    ensures
        distance_spec(a, b) == distance_spec(b, a),
        distance_spec(a, c) <= distance_spec(a, b) + distance_spec(b, c),
{
    let x1 = a.q - b.q;
    let y1 = a.r - b.r;
    let x2 = b.q - c.q;
    let y2 = b.r - c.r;
    let n1 = abs(x1) + abs(x1 + y1) + abs(y1);
    let n2 = abs(x2) + abs(x2 + y2) + abs(y2);
    let n3 = abs(x1 + x2) + abs(x1 + x2 + y1 + y2) + abs(y1 + y2);
    assert(n1 % 2 == 0 && n2 % 2 == 0 && n3 % 2 == 0);
    assert(n3 <= n1 + n2);
}

} // verus!
