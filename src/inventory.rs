//! What heroes wear and carry, and the shared storage.

use vstd::prelude::*;

use crate::item::Item;

verus! {

#[derive(Clone, Copy, Debug, PartialEq, Eq, Hash, Structural)]
pub enum Slot {
    Head,
    Body,
    Boots,
    MainHand,
    OffHand,
    Trinket,
}

/// What a hero wears, one item per slot at most, and what it carries.
#[derive(Clone, Debug)]
pub struct Inventory {
    pub equipped: Vec<(Slot, Item)>,
    pub backpack: Vec<Item>,
}

/// No slot is listed twice.
pub open spec fn slots_unique(e: Seq<(Slot, Item)>) -> bool {
    forall|i: int, j: int| 0 <= i < j < e.len() ==> (#[trigger] e[i]).0 != (#[trigger] e[j]).0
}

/// Where `slot` is listed, if it is.
pub open spec fn slot_pos(e: Seq<(Slot, Item)>, slot: Slot) -> Option<int> {
    if exists|i: int| 0 <= i < e.len() && (#[trigger] e[i]).0 == slot {
        Some(choose|i: int| 0 <= i < e.len() && (#[trigger] e[i]).0 == slot)
    } else {
        None
    }
}

fn find_slot(e: &Vec<(Slot, Item)>, slot: Slot) -> (r: Option<usize>)
    requires
        slots_unique(e@),
    ensures
        r.is_some() == slot_pos(e@, slot).is_some(),
        r.is_some() ==> r.unwrap() as int == slot_pos(e@, slot).unwrap(),
{
    let mut i: usize = 0;
    while i < e.len()
        invariant
            i <= e@.len(),
            slots_unique(e@),
            forall|j: int| 0 <= j < i ==> (#[trigger] e@[j]).0 != slot,
        decreases e@.len() - i,
    {
        if e[i].0 == slot {
            proof {
                assert(e@[i as int].0 == slot);
                let c = slot_pos(e@, slot).unwrap();
                if c != i {
                    if c < i {
                        assert(e@[c].0 != e@[i as int].0);
                    } else {
                        assert(e@[i as int].0 != e@[c].0);
                    }
                }
            }
            return Some(i);
        }
        i += 1;
    }
    None
}

impl Inventory {
    pub open spec fn wf(&self) -> bool {
        slots_unique(self.equipped@)
    }

    pub fn new() -> (r: Self)
        ensures
            r.wf(),
            r.equipped@.len() == 0,
            r.backpack@.len() == 0,
    {
        Inventory { equipped: Vec::new(), backpack: Vec::new() }
    }

    /// Puts `item` in `slot`, handing back what was there before.
    pub fn equip(&mut self, slot: Slot, item: Item) -> (r: Option<Item>)
        requires
            old(self).wf(),
        ensures
            final(self).wf(),
            final(self).backpack@ == old(self).backpack@,
            match slot_pos(old(self).equipped@, slot) {
                Some(i) => r == Some(old(self).equipped@[i].1) && final(self).equipped@
                    == old(self).equipped@.update(i, (slot, item)),
                None => r.is_none() && final(self).equipped@ == old(self).equipped@.push((slot, item)),
            },
    {
        match find_slot(&self.equipped, slot) {
            Some(i) => {
                let ghost before = self.equipped@;
                let prev = self.equipped.remove(i);
                self.equipped.insert(i, (slot, item));
                proof {
                    assert(self.equipped@ =~= before.update(i as int, (slot, item)));
                    assert forall|a: int, b: int| 0 <= a < b < self.equipped@.len() implies (#[trigger] self.equipped@[a]).0
                        != (#[trigger] self.equipped@[b]).0 by {
                        assert(before[a].0 != before[b].0);
                    }
                }
                Some(prev.1)
            },
            None => {
                let ghost before = self.equipped@;
                self.equipped.push((slot, item));
                proof {
                    assert forall|a: int, b: int| 0 <= a < b < self.equipped@.len() implies (#[trigger] self.equipped@[a]).0
                        != (#[trigger] self.equipped@[b]).0 by {
                        if b == before.len() {
                            assert(before[a].0 != slot);
                        } else {
                            assert(before[a].0 != before[b].0);
                        }
                    }
                }
                None
            },
        }
    }

    /// Takes the item out of `slot`, if there is one.
    pub fn unequip(&mut self, slot: Slot) -> (r: Option<Item>)
        requires
            old(self).wf(),
        ensures
            final(self).wf(),
            final(self).backpack@ == old(self).backpack@,
            match slot_pos(old(self).equipped@, slot) {
                Some(i) => r == Some(old(self).equipped@[i].1) && final(self).equipped@
                    == old(self).equipped@.remove(i),
                None => r.is_none() && final(self).equipped@ == old(self).equipped@,
            },
    {
        match find_slot(&self.equipped, slot) {
            Some(i) => {
                let ghost before = self.equipped@;
                let prev = self.equipped.remove(i);
                proof {
                    assert forall|a: int, b: int| 0 <= a < b < self.equipped@.len() implies (#[trigger] self.equipped@[a]).0
                        != (#[trigger] self.equipped@[b]).0 by {
                        if a < i {
                            if b < i {
                                assert(before[a].0 != before[b].0);
                            } else {
                                assert(before[a].0 != before[b + 1].0);
                            }
                        } else {
                            assert(before[a + 1].0 != before[b + 1].0);
                        }
                    }
                }
                Some(prev.1)
            },
            None => None,
        }
    }

    pub fn add_to_backpack(&mut self, item: Item)
        ensures
            final(self).equipped@ == old(self).equipped@,
            final(self).backpack@ == old(self).backpack@.push(item),
    {
        self.backpack.push(item);
    }

    /// Takes the `idx`-th item out of the backpack, if there is one.
    pub fn remove_from_backpack(&mut self, idx: usize) -> (r: Option<Item>)
        ensures
            final(self).equipped@ == old(self).equipped@,
            idx < old(self).backpack@.len() ==> r == Some(old(self).backpack@[idx as int])
                && final(self).backpack@ == old(self).backpack@.remove(idx as int),
            idx >= old(self).backpack@.len() ==> r.is_none() && final(self).backpack@ == old(
                self,
            ).backpack@,
    {
        if idx < self.backpack.len() {
            Some(self.backpack.remove(idx))
        } else {
            None
        }
    }
}

/// Items kept between battles.
#[derive(Debug, Clone)]
pub struct Storage {
    pub items: Vec<Item>,
}

impl Storage {
    /// Takes the `index`-th item out, if there is one.
    pub fn pull_item(&mut self, index: usize) -> (r: Option<Item>)
        ensures
            index < old(self).items@.len() ==> r == Some(old(self).items@[index as int])
                && final(self).items@ == old(self).items@.remove(index as int),
            index >= old(self).items@.len() ==> r.is_none() && final(self).items@ == old(self).items@,
    {
        if index < self.items.len() {
            Some(self.items.remove(index))
        } else {
            None
        }
    }

    pub fn push_item(&mut self, item: Item)
        ensures
            final(self).items@ == old(self).items@.push(item),
    {
        self.items.push(item);
    }
}

} // verus!
