//! Game items and the shared inventory resource.
//!
//! The inventory is consumed by the build protocol (cost enforcement) and by
//! the mined-reward pass; it keeps one counter per item kind.

use vstd::prelude::*;

verus! {

/// The kinds of resource items that exist in the game.
#[derive(Debug, Clone, Copy, PartialEq, Eq, Structural)]
pub enum GameItem {
    Iron,
    Copper,
}

impl GameItem {
    /// Bundles this item with an amount.
    pub fn stack(&self, amount: u32) -> (r: ItemStack)
        ensures
            r.item == *self,
            r.amount == amount,
    {
        ItemStack { item: *self, amount }
    }

    /// All item kinds, each exactly once.
    pub fn iter() -> (r: Vec<GameItem>)
        ensures
            r@ =~= seq![GameItem::Iron, GameItem::Copper],
    {
        let mut v: Vec<GameItem> = Vec::new();
        v.push(GameItem::Iron);
        v.push(GameItem::Copper);
        v
    }
}

/// An amount of one item kind.
#[derive(Debug, Clone, Copy, PartialEq, Eq, Structural)]
pub struct ItemStack {
    pub item: GameItem,
    pub amount: u32,
}

/// The player's stock of each item kind.
pub struct Inventory {
    iron: u32,
    copper: u32,
}

impl Inventory {
    /// How many of `item` the inventory holds, as a spec-level view.
    pub closed spec fn spec_amount(&self, item: GameItem) -> u32 {
        match item {
            GameItem::Iron => self.iron,
            GameItem::Copper => self.copper,
        }
    }

    /// The inventory holding exactly the given amounts.
    pub closed spec fn spec_with(iron: u32, copper: u32) -> Inventory {
        Inventory { iron, copper }
    }

    /// What `spec_with` holds of each item.
    pub proof fn lemma_spec_with(iron: u32, copper: u32)
        ensures
            Inventory::spec_with(iron, copper).spec_amount(GameItem::Iron) == iron,
            Inventory::spec_with(iron, copper).spec_amount(GameItem::Copper) == copper,
    {
    }

    /// An empty inventory: zero of every item.
    pub fn new() -> (r: Inventory)
        ensures
            forall|item: GameItem| r.spec_amount(item) == 0u32,
    {
        Inventory { iron: 0, copper: 0 }
    }

    /// Whether the stock covers the whole stack.
    pub fn has_enough_items(&self, item_stack: &ItemStack) -> (r: bool)
        ensures
            r == (self.spec_amount(item_stack.item) >= item_stack.amount),
    {
        self.amount(&item_stack.item) >= item_stack.amount
    }

    /// Adds `delta` of `item`, saturating at the counter's maximum.
    pub fn add(&mut self, item: GameItem, delta: u32)
        ensures
            final(self).spec_amount(item)
                == if old(self).spec_amount(item) + delta <= u32::MAX {
                    (old(self).spec_amount(item) + delta) as u32
                } else {
                    u32::MAX
                },
            forall|other: GameItem| other != item
                ==> final(self).spec_amount(other) == old(self).spec_amount(other),
    {
        match item {
            GameItem::Iron => {
                self.iron = self.iron.saturating_add(delta);
            }
            GameItem::Copper => {
                self.copper = self.copper.saturating_add(delta);
            }
        }
    }

    /// Removes `delta` of `item`; the stock must cover it.
    pub fn remove(&mut self, item: GameItem, delta: u32)
        requires
            old(self).spec_amount(item) >= delta,
        ensures
            final(self).spec_amount(item) == old(self).spec_amount(item) - delta,
            forall|other: GameItem| other != item
                ==> final(self).spec_amount(other) == old(self).spec_amount(other),
    {
        match item {
            GameItem::Iron => {
                self.iron = self.iron - delta;
            }
            GameItem::Copper => {
                self.copper = self.copper - delta;
            }
        }
    }

    /// How many of `item` the inventory holds.
    pub fn amount(&self, item: &GameItem) -> (r: u32)
        ensures
            r == self.spec_amount(*item),
    {
        match item {
            GameItem::Iron => self.iron,
            GameItem::Copper => self.copper,
        }
    }
}

} // verus!
