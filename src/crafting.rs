//! Crafting items out of materials.

use vstd::prelude::*;

use crate::item::{same_item, Item};

verus! {

/// What crafting an item takes: amounts of named materials.
#[derive(Debug, Clone)]
pub struct Blueprint {
    pub id: u32,
    pub result: Item,
    pub cost: Vec<(String, u32)>,
}

/// No material is named twice.
pub open spec fn names_unique(m: Seq<(String, u32)>) -> bool {
    forall|i: int, j: int| 0 <= i < j < m.len() ==> (#[trigger] m[i]).0@ != (#[trigger] m[j]).0@
}

/// How much of material `k` the list holds; none when it is not listed.
pub open spec fn amount_of(m: Seq<(String, u32)>, k: Seq<char>) -> int {
    if exists|i: int| 0 <= i < m.len() && (#[trigger] m[i]).0@ == k {
        m[choose|i: int| 0 <= i < m.len() && (#[trigger] m[i]).0@ == k].1 as int
    } else {
        0
    }
}

/// The stock covers every amount that the cost lists.
pub open spec fn affordable(cost: Seq<(String, u32)>, stock: Seq<(String, u32)>) -> bool {
    forall|i: int| 0 <= i < cost.len() ==> amount_of(stock, (#[trigger] cost[i]).0@) >= cost[i].1
}

proof fn lemma_amount_at(m: Seq<(String, u32)>, j: int)
    requires
        names_unique(m),
        0 <= j < m.len(),
    ensures
        amount_of(m, m[j].0@) == m[j].1,
{
    let k = m[j].0@;
    assert(m[j].0@ == k);
    let c = choose|i: int| 0 <= i < m.len() && (#[trigger] m[i]).0@ == k;
    if c < j {
        assert(m[c].0@ != m[j].0@);
    } else if c > j {
        assert(m[j].0@ != m[c].0@);
    }
}

proof fn lemma_amount_prefix(m: Seq<(String, u32)>, i: int, k: Seq<char>)
    requires
        names_unique(m),
        0 <= i < m.len(),
    ensures
        amount_of(m.take(i + 1), k) == if k == m[i].0@ { m[i].1 as int } else { amount_of(m.take(i), k) },
{
    let a = m.take(i + 1);
    let b = m.take(i);
    assert(names_unique(a));
    assert(names_unique(b));
    if k == m[i].0@ {
        assert(a[i] == m[i]);
        lemma_amount_at(a, i);
    } else {
        if exists|t: int| 0 <= t < b.len() && (#[trigger] b[t]).0@ == k {
            let t = choose|t: int| 0 <= t < b.len() && (#[trigger] b[t]).0@ == k;
            lemma_amount_at(b, t);
            assert(a[t] == b[t]);
            lemma_amount_at(a, t);
        } else {
            if exists|t: int| 0 <= t < a.len() && (#[trigger] a[t]).0@ == k {
                let t = choose|t: int| 0 <= t < a.len() && (#[trigger] a[t]).0@ == k;
                assert(t != i);
                assert(b[t] == a[t]);
            }
        }
    }
}

fn find_name(m: &Vec<(String, u32)>, k: &String) -> (r: Option<usize>)
    requires
        names_unique(m@),
    ensures
        r.is_some() ==> r.unwrap() < m@.len() && m@[r.unwrap() as int].0@ == k@,
        r.is_none() ==> amount_of(m@, k@) == 0 && forall|j: int| 0 <= j < m@.len() ==> (#[trigger] m@[j]).0@ != k@,
{
    let mut i: usize = 0;
    while i < m.len()
        invariant
            i <= m@.len(),
            forall|j: int| 0 <= j < i ==> (#[trigger] m@[j]).0@ != k@,
        decreases m@.len() - i,
    {
        if m[i].0 == *k {
            return Some(i);
        }
        i += 1;
    }
    None
}

impl Blueprint {
    pub open spec fn wf(&self) -> bool {
        names_unique(self.cost@)
    }

    /// Crafts the item when `materials` covers the cost, taking the cost out of
    /// it; otherwise leaves `materials` as it is and gives nothing.
    pub fn craft(&self, materials: &mut Vec<(String, u32)>) -> (r: Option<Item>)
        requires
            self.wf(),
            names_unique(old(materials)@),
        ensures
            names_unique(final(materials)@),
            affordable(self.cost@, old(materials)@) ==> r.is_some() && same_item(r.unwrap(), self.result)
                && final(materials)@.len() == old(
                materials,
            )@.len() && (forall|j: int| 0 <= j < old(materials)@.len() ==> (#[trigger] final(materials)@[j]).0@
                == old(materials)@[j].0@) && forall|k: Seq<char>| #[trigger] amount_of(final(materials)@, k)
                == amount_of(old(materials)@, k) - amount_of(self.cost@, k),
            !affordable(self.cost@, old(materials)@) ==> r.is_none() && final(materials)@ == old(materials)@,
    {
        let mut i: usize = 0;
        while i < self.cost.len()
            invariant
                i <= self.cost@.len(),
                forall|j: int| 0 <= j < i ==> amount_of(materials@, (#[trigger] self.cost@[j]).0@) >= self.cost@[j].1,
                names_unique(materials@),
            decreases self.cost@.len() - i,
        {
            let have: u32 = match find_name(materials, &self.cost[i].0) {
                Some(j) => {
                    proof {
                        lemma_amount_at(materials@, j as int);
                    }
                    materials[j].1
                },
                None => 0,
            };
            if have < self.cost[i].1 {
                return None;
            }
            i += 1;
        }
        let ghost start = materials@;
        let mut i: usize = 0;
        while i < self.cost.len()
            invariant
                self.wf(),
                i <= self.cost@.len(),
                affordable(self.cost@, start),
                names_unique(materials@),
                materials@.len() == start.len(),
                forall|j: int| 0 <= j < start.len() ==> (#[trigger] materials@[j]).0@ == start[j].0@,
                forall|k: Seq<char>| #[trigger] amount_of(materials@, k) == amount_of(start, k) - amount_of(
                    self.cost@.take(i as int),
                    k,
                ),
            decreases self.cost@.len() - i,
        {
            proof {
                assert forall|k: Seq<char>| amount_of(self.cost@.take(i as int + 1), k) == if k == self.cost@[i as int].0@ {
                    self.cost@[i as int].1 as int
                } else {
                    amount_of(self.cost@.take(i as int), k)
                } by {
                    lemma_amount_prefix(self.cost@, i as int, k);
                }
                let key = self.cost@[i as int].0@;
                if exists|t: int| 0 <= t < i && (#[trigger] self.cost@.take(i as int)[t]).0@ == key {
                    let t = choose|t: int| 0 <= t < i && (#[trigger] self.cost@.take(i as int)[t]).0@ == key;
                    assert(self.cost@[t].0@ != self.cost@[i as int].0@);
                }
                assert(amount_of(self.cost@.take(i as int), key) == 0);
                assert(amount_of(start, self.cost@[i as int].0@) >= self.cost@[i as int].1);
            }
            match find_name(materials, &self.cost[i].0) {
                Some(j) => {
                    proof {
                        lemma_amount_at(materials@, j as int);
                    }
                    let ghost before = materials@;
                    let name = materials[j].0.clone();
                    let left: u32 = materials[j].1 - self.cost[i].1;
                    materials.set(j, (name, left));
                    proof {
                        assert forall|a: int, b: int| 0 <= a < b < materials@.len() implies (#[trigger] materials@[a]).0@
                            != (#[trigger] materials@[b]).0@ by {
                            assert(before[a].0@ != before[b].0@);
                        }
                        assert forall|k: Seq<char>| #[trigger] amount_of(materials@, k) == amount_of(before, k) - (if k
                            == self.cost@[i as int].0@ { self.cost@[i as int].1 as int } else { 0 }) by {
                            if k == self.cost@[i as int].0@ {
                                lemma_amount_at(materials@, j as int);
                            } else {
                                if exists|t: int| 0 <= t < before.len() && (#[trigger] before[t]).0@ == k {
                                    let t = choose|t: int| 0 <= t < before.len() && (#[trigger] before[t]).0@ == k;
                                    lemma_amount_at(before, t);
                                    assert(t != j);
                                    assert(materials@[t] == before[t]);
                                    lemma_amount_at(materials@, t);
                                } else {
                                    if exists|t: int| 0 <= t < materials@.len() && (#[trigger] materials@[t]).0@ == k {
                                        let t = choose|t: int| 0 <= t < materials@.len() && (#[trigger] materials@[t]).0@ == k;
                                        assert(t != j);
                                        assert(materials@[t] == before[t]);
                                    }
                                }
                            }
                        }
                    }
                },
                None => {},
            }
            i += 1;
        }
        proof {
            assert(self.cost@.take(self.cost@.len() as int) =~= self.cost@);
        }
        Some(self.result.duplicate())
    }
}

} // verus!
