//! The hotbar: nine stacks, one of them active, cycled by scrolling.

use vstd::prelude::*;

use crate::meshing::block::BlockId;

verus! {

/// Slots on the hotbar.
pub const HOTBAR_SLOTS: usize = 9;

/// A stack of identical blocks.
#[derive(Clone, Copy, Debug, PartialEq, Eq, Structural)]
pub struct ItemStack {
    pub block: BlockId,
    pub count: u32,
}

/// The player's hotbar: nine slots, one active.
#[derive(Clone, Copy, Debug)]
pub struct Inventory {
    pub hotbar: [ItemStack; 9],
    pub active: usize,
}

impl Default for Inventory {
    /// Nine stacks of 64 of block 1, the first slot active.
    fn default() -> (r: Inventory)
        ensures
            r.active == 0,
            forall|i: int| 0 <= i < 9 ==> r.hotbar[i] == (ItemStack { block: BlockId(1), count: 64 }),
    {
        let s = ItemStack { block: BlockId(1), count: 64 };
        Inventory { hotbar: [s, s, s, s, s, s, s, s, s], active: 0 }
    }
}

impl Inventory {
    /// The active slot is on the hotbar.
    pub open spec fn wf(&self) -> bool {
        self.active < HOTBAR_SLOTS
    }

    /// The selected stack.
    pub fn active_slot(&self) -> (r: ItemStack)
        requires
            self.wf(),
        ensures
            r == self.hotbar[self.active as int],
    {
        self.hotbar[self.active]
    }

    /// The block selected for placement.
    pub fn active_block(&self) -> (r: BlockId)
        requires
            self.wf(),
        ensures
            r == self.hotbar[self.active as int].block,
    {
        self.hotbar[self.active].block
    }

    /// Select `slot`; a slot past the hotbar is ignored.
    pub fn select(&mut self, slot: usize)
        ensures
            final(self).hotbar == old(self).hotbar,
            final(self).active == (if slot < HOTBAR_SLOTS {
                slot
            } else {
                old(self).active
            }),
    {
        if slot < HOTBAR_SLOTS {
            self.active = slot;
        }
    }

    /// Cycle to the next slot, wrapping after the last.
    pub fn scroll_next(&mut self)
        requires
            old(self).wf(),
        ensures
            final(self).wf(),
            final(self).hotbar == old(self).hotbar,
            final(self).active == (old(self).active + 1) % 9,
    {
        self.active = (self.active + 1) % 9;
    }

    /// Cycle to the previous slot, wrapping before the first.
    pub fn scroll_prev(&mut self)
        requires
            old(self).wf(),
        ensures
            final(self).wf(),
            final(self).hotbar == old(self).hotbar,
            final(self).active == (old(self).active + 8) % 9,
    {
        self.active = (self.active + 8) % 9;
    }
}

/// Scrolling to the next slot and back to the previous one returns to the
/// starting slot, and so does the reverse.
pub proof fn lemma_scroll_round_trip(active: usize)
    requires
        active < HOTBAR_SLOTS,
    ensures
        ((active + 1) % 9 + 8) % 9 == active,
        ((active + 8) % 9 + 1) % 9 == active,
{
}

/// Nine scrolls in one direction come back to the starting slot.
pub proof fn lemma_scroll_cycle(active: usize)
    requires
        active < HOTBAR_SLOTS,
    ensures
        (active + 9) % 9 == active,
        (active + 9 * 8) % 9 == active,
{
}

} // verus!
