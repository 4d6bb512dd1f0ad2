//! Items.

use vstd::prelude::*;

use crate::effect::Effect;

verus! {

#[derive(Clone, Copy, Debug, PartialEq, Eq, Hash, Structural)]
pub enum ItemSlot {
    Head,
    Body,
    Boots,
    MainHand,
    OffHand,
    Accessory,
}

#[derive(Clone, Debug)]
pub struct Item {
    pub id: u64,
    pub name: String,
    pub slot: Option<ItemSlot>,
    pub stat_changes: Vec<(String, i32)>,
    pub effects: Vec<Effect>,
}

/// `a` and `b` hold the same item: same id, name, slot, stat changes and effects.
pub open spec fn same_item(a: Item, b: Item) -> bool {
    &&& a.id == b.id
    &&& a.name@ == b.name@
    &&& a.slot == b.slot
    &&& a.stat_changes@.len() == b.stat_changes@.len()
    &&& forall|i: int| 0 <= i < a.stat_changes@.len() ==> (#[trigger] a.stat_changes@[i]).0@
        == b.stat_changes@[i].0@ && a.stat_changes@[i].1 == b.stat_changes@[i].1
    &&& a.effects@ == b.effects@
}

impl Item {
    /// A copy of the item.
    pub fn duplicate(&self) -> (r: Item)
        ensures
            same_item(r, *self),
    {
        let mut stat_changes: Vec<(String, i32)> = Vec::new();
        let mut i: usize = 0;
        while i < self.stat_changes.len()
            invariant
                i <= self.stat_changes@.len(),
                stat_changes@.len() == i,
                forall|j: int| 0 <= j < i ==> (#[trigger] stat_changes@[j]).0@ == self.stat_changes@[j].0@
                    && stat_changes@[j].1 == self.stat_changes@[j].1,
            decreases self.stat_changes@.len() - i,
        {
            stat_changes.push((self.stat_changes[i].0.clone(), self.stat_changes[i].1));
            i += 1;
        }
        let mut effects: Vec<Effect> = Vec::new();
        let mut i: usize = 0;
        while i < self.effects.len()
            invariant
                i <= self.effects@.len(),
                effects@ == self.effects@.subrange(0, i as int),
            decreases self.effects@.len() - i,
        {
            effects.push(self.effects[i]);
            i += 1;
        }
        proof {
            assert(effects@ =~= self.effects@);
        }
        Item { id: self.id, name: self.name.clone(), slot: self.slot, stat_changes, effects }
    }

    /// The materials that taking the item apart yields: two iron ore.
    pub fn decompose(&self) -> (r: Vec<(String, u32)>)
        ensures
            r@.len() == 1,
            r@[0].0@ == "iron_ore"@,
            r@[0].1 == 2,
    {
        let mut r: Vec<(String, u32)> = Vec::new();
        r.push(("iron_ore".to_owned(), 2));
        proof {
            reveal_strlit("iron_ore");
        }
        r
    }
}

} // verus!
