use crate::block::{BlockDirection, BlockPos, Facing};
use crate::data_component::{container_view, empty_stack_view, lemma_container_view, lemma_stack_view_patch, lookup_item, patch_view};
use crate::item::{
    CONTAINER, ComponentView, ContainerImpl, ContainerSlot, DataComponent, DataComponentImpl, ItemRegistry, ItemStack,
    ItemStackView, component_view,
};
use crate::item_stack::{copy_stack, first_entry_index, lemma_first_entry_none, lemma_first_entry_step};
use crate::slot::{DEFAULT_MAX_COUNT_PER_STACK, Inventory, stacks_view};
use vstd::prelude::*;

verus! {

/// The event type of the lid animation, sent with the number of viewers.
pub const OPEN_ANIMATION_EVENT_TYPE: u8 = 1;

/// How many slots a shulker box has.
pub const INVENTORY_SIZE: usize = 27;

/// A placed shulker box block.
#[derive(Debug, Clone, Copy, PartialEq, Eq, Structural)]
pub struct ShulkerBoxBlock;

/// The container entries of a list of (slot, stack) pairs: the slot truncated to a byte.
pub open spec fn container_entries_of(items: Seq<(usize, ItemStackView)>) -> Seq<(i8, ItemStackView)> {
    items.map_values(|e: (usize, ItemStackView)| (e.0 as i8, e.1))
}

/// The stacks held by the container component of a stack: those of its first
/// container entry when that entry sets a container, none otherwise.
pub open spec fn container_of(v: ItemStackView) -> Seq<(i8, ItemStackView)> {
    let j = first_entry_index(v.patch, CONTAINER);
    if j < 0 {
        Seq::empty()
    } else {
        match v.patch[j].1 {
            Some(ComponentView::Container(xs)) => xs,
            _ => Seq::empty(),
        }
    }
}

/// Container entries with their slot numbers widened to `usize`.
pub open spec fn widened(xs: Seq<(i8, ItemStackView)>) -> Seq<(usize, ItemStackView)> {
    xs.map_values(|e: (i8, ItemStackView)| (e.0 as usize, e.1))
}

/// What a placed shulker box item puts into the new box: its container's stacks with
/// their slot numbers widened to `usize` (a negative byte wraps to a huge slot).
pub open spec fn placed_items(placed: Option<ItemStackView>) -> Seq<(usize, ItemStackView)> {
    match placed {
        None => Seq::empty(),
        Some(v) => widened(container_of(v)),
    }
}

/// The slots after putting each (slot, stack) in turn, skipping slots past the end.
pub open spec fn place_all(stacks: Seq<ItemStackView>, items: Seq<(usize, ItemStackView)>) -> Seq<ItemStackView>
    decreases items.len(),
{
    if items.len() == 0 {
        stacks
    } else {
        let prev = place_all(stacks, items.drop_last());
        let last = items.last();
        if (last.0 as int) < prev.len() {
            prev.update(last.0 as int, last.1)
        } else {
            prev
        }
    }
}

proof fn lemma_place_all_len(stacks: Seq<ItemStackView>, items: Seq<(usize, ItemStackView)>)
    ensures
        place_all(stacks, items).len() == stacks.len(),
    decreases items.len(),
{
    if items.len() > 0 {
        lemma_place_all_len(stacks, items.drop_last());
    }
}

/// The stack dropped when a shulker box breaks, as values: one box of the block's item,
/// carrying the box's stacks in a container component when there are any.
pub open spec fn loot_stack(items: Seq<crate::item::Item>, item_id: u16, inventory: Seq<(usize, ItemStackView)>) -> ItemStackView {
    ItemStackView {
        item_count: 1,
        item: lookup_item(items, item_id),
        patch: if inventory.len() == 0 {
            Seq::empty()
        } else {
            seq![(DataComponent(CONTAINER), Some(ComponentView::Container(container_entries_of(inventory))))]
        },
    }
}

/// (slot, stack) pairs as values.
pub open spec fn pairs_view(v: Seq<(usize, ItemStack)>) -> Seq<(usize, ItemStackView)> {
    v.map_values(|e: (usize, ItemStack)| (e.0, e.1@))
}

impl ShulkerBoxBlock {
    /// The facing of a box placed against the clicked side: away from it.
    pub fn on_place(direction: BlockDirection) -> (r: Facing)
        ensures
            r == direction.spec_to_facing().spec_opposite(),
    {
        direction.to_facing().opposite()
    }

    /// Whether a synced block event is handled: only the lid animation.
    pub fn on_synced_block_event(event_type: u8) -> (r: bool)
        ensures
            r == (event_type == OPEN_ANIMATION_EVENT_TYPE),
    {
        event_type == OPEN_ANIMATION_EVENT_TYPE
    }

    /// The container entries for the given (slot, stack) pairs, in order; each slot is
    /// truncated to a byte.
    pub fn build_container_items(items: &[(usize, ItemStack)]) -> (r: Vec<ContainerSlot>)
        ensures
            container_view(r@) == container_entries_of(pairs_view(items@)),
    {
        let mut tags: Vec<ContainerSlot> = Vec::new();
        let mut i: usize = 0;
        while i < items.len()
            invariant
                i <= items@.len(),
                container_view(tags@) == container_entries_of(pairs_view(items@)).take(i as int),
            decreases items@.len() - i,
        {
            let ghost before = tags@;
            let slot = items[i].0 as i8;
            let stack = copy_stack(&items[i].1);
            tags.push(ContainerSlot { slot, stack });
            assert(container_view(tags@) =~= container_view(before).push((slot, stack@)));
            assert(container_entries_of(pairs_view(items@)).take(i + 1) =~= container_entries_of(pairs_view(items@)).take(
                i as int,
            ).push((slot, stack@)));
            i = i + 1;
        }
        assert(container_entries_of(pairs_view(items@)).take(items@.len() as int) =~= container_entries_of(
            pairs_view(items@),
        ));
        tags
    }

    /// What breaking a shulker box drops: nothing when it was broken in creative mode
    /// and held nothing, else one box of the block's item (the empty item when the id is
    /// not registered) that keeps the box's stacks.
    pub fn drop_shulker_loot(
        broken_in_creative: Option<bool>,
        shulker_box_inventory: Option<Vec<(usize, ItemStack)>>,
        item_id: u16,
        registry: &ItemRegistry,
    ) -> (r: Option<ItemStack>)
        ensures
            ({
                let creative = match broken_in_creative {
                    Some(b) => b,
                    None => false,
                };
                let inventory = match shulker_box_inventory {
                    Some(v) => pairs_view(v@),
                    None => Seq::empty(),
                };
                if creative && inventory.len() == 0 {
                    r is None
                } else {
                    r matches Some(s) && s@ == loot_stack(registry.items@, item_id, inventory)
                }
            }),
    {
        let is_creative = match broken_in_creative {
            Some(b) => b,
            None => false,
        };
        let inventory: Vec<(usize, ItemStack)> = match shulker_box_inventory {
            Some(v) => v,
            None => Vec::new(),
        };
        if is_creative && inventory.len() == 0 {
            return None;
        }
        let item = match registry.from_id(item_id) {
            Some(it) => it,
            None => crate::item::Item::air(),
        };
        let ghost inv = pairs_view(inventory@);
        if inventory.len() == 0 {
            let s = ItemStack { item_count: 1, item, patch: Vec::new() };
            proof {
                lemma_stack_view_patch(s);
                assert(patch_view(s.patch@) =~= Seq::empty());
            }
            Some(s)
        } else {
            let container = ContainerImpl { items: Self::build_container_items(inventory.as_slice()) };
            let mut patch: Vec<(DataComponent, Option<DataComponentImpl>)> = Vec::new();
            patch.push((DataComponent(CONTAINER), Some(DataComponentImpl::Container(container))));
            let s = ItemStack { item_count: 1, item, patch };
            proof {
                lemma_stack_view_patch(s);
                lemma_container_view(container);
                assert(patch_view(s.patch@) =~= seq![
                    (DataComponent(CONTAINER), Some(ComponentView::Container(container_entries_of(inv)))),
                ]);
            }
            Some(s)
        }
    }

    /// The (slot, stack) pairs that a placed shulker box item carries in its container
    /// component, in order.
    pub fn placed_container_items(placed: Option<&ItemStack>) -> (r: Vec<(usize, ItemStack)>)
        ensures
            pairs_view(r@) == placed_items(
                match placed {
                    Some(s) => Some(s@),
                    None => None,
                },
            ),
    {
        let mut out: Vec<(usize, ItemStack)> = Vec::new();
        let stack = match placed {
            Some(s) => s,
            None => {
                assert(pairs_view(out@) =~= Seq::empty());
                return out;
            },
        };
        proof {
            lemma_stack_view_patch(*stack);
        }
        let ghost pv = stack@.patch;
        let mut t: usize = 0;
        while t < stack.patch.len()
            invariant
                pv == patch_view(stack.patch@),
                pv == stack@.patch,
                t <= stack.patch@.len(),
                out@.len() == 0,
                placed == Some(stack),
                forall|u: int| 0 <= u < t ==> #[trigger] pv[u].0.0 != CONTAINER,
            decreases stack.patch@.len() - t,
        {
            if stack.patch[t].0.0 == CONTAINER {
                proof {
                    lemma_first_entry_step(pv, CONTAINER, t as int);
                }
                match &stack.patch[t].1 {
                    Some(DataComponentImpl::Container(ci)) => {
                        proof {
                            lemma_container_view(*ci);
                            assert(pv[t as int].1 == Some(component_view(DataComponentImpl::Container(*ci))));
                        }
                        let ghost xs = container_view(ci.items@);
                        let mut i: usize = 0;
                        while i < ci.items.len()
                            invariant
                                i <= ci.items@.len(),
                                xs == container_view(ci.items@),
                                pairs_view(out@) == widened(xs).take(
                                    i as int,
                                ),
                            decreases ci.items@.len() - i,
                        {
                            let ghost before = out@;
                            let slot = ci.items[i].slot as usize;
                            let copy = copy_stack(&ci.items[i].stack);
                            out.push((slot, copy));
                            assert(pairs_view(out@) =~= pairs_view(before).push((slot, copy@)));
                            assert(widened(xs).take(i + 1) =~= widened(xs).take(i as int).push((slot, copy@)));
                            i = i + 1;
                        }
                        assert(widened(xs).take(ci.items@.len() as int)
                            =~= widened(xs));
                        assert(first_entry_index(pv, CONTAINER) == t as int);
                        assert(container_of(stack@) == xs);
                        return out;
                    },
                    _ => {
                        assert(pv[t as int].1 == match stack.patch@[t as int].1 {
                            Some(c) => Some(component_view(c)),
                            None => None::<ComponentView>,
                        });
                        assert(first_entry_index(pv, CONTAINER) == t as int);
                        assert(!(pv[t as int].1 matches Some(ComponentView::Container(_))));
                        assert(container_of(stack@) =~= Seq::empty());
                        assert(pairs_view(out@) =~= Seq::empty());
                        return out;
                    },
                }
            }
            t = t + 1;
        }
        proof {
            lemma_first_entry_none(pv, CONTAINER);
        }
        assert(pairs_view(out@) =~= Seq::empty());
        out
    }

    /// Puts each (slot, stack) pair into the inventory in turn, skipping slots past the
    /// end; the inventory is not marked as changed.
    pub fn fill_inventory(inventory: &mut Inventory, items: &[(usize, ItemStack)])
        ensures
            final(inventory).view_stacks() == place_all(old(inventory).view_stacks(), pairs_view(items@)),
            final(inventory).dirty == old(inventory).dirty,
            final(inventory).max_count_per_stack == old(inventory).max_count_per_stack,
            final(inventory).refused_items@ == old(inventory).refused_items@,
    {
        let ghost start = inventory.view_stacks();
        let mut i: usize = 0;
        while i < items.len()
            invariant
                i <= items@.len(),
                inventory.view_stacks() == place_all(start, pairs_view(items@).take(i as int)),
                inventory.stacks@.len() == start.len(),
                inventory.dirty == old(inventory).dirty,
                inventory.max_count_per_stack == old(inventory).max_count_per_stack,
                inventory.refused_items@ == old(inventory).refused_items@,
            decreases items@.len() - i,
        {
            let ghost prev = inventory.view_stacks();
            assert(pairs_view(items@).take(i + 1).drop_last() =~= pairs_view(items@).take(i as int));
            proof {
                lemma_place_all_len(start, pairs_view(items@).take(i as int));
            }
            let slot = items[i].0;
            if slot < inventory.stacks.len() {
                let copy = copy_stack(&items[i].1);
                let ghost before = inventory.stacks@;
                inventory.stacks.set(slot, copy);
                assert(stacks_view(inventory.stacks@) =~= stacks_view(before).update(slot as int, copy@));
            }
            i = i + 1;
        }
        assert(pairs_view(items@).take(items@.len() as int) =~= pairs_view(items@));
    }

    /// A shulker box placed by a player takes over the stacks of the item it was placed
    /// from.
    pub fn player_placed(inventory: &mut Inventory, placed: Option<&ItemStack>)
        ensures
            final(inventory).view_stacks() == place_all(
                old(inventory).view_stacks(),
                placed_items(
                    match placed {
                        Some(s) => Some(s@),
                        None => None,
                    },
                ),
            ),
            final(inventory).dirty == old(inventory).dirty,
            final(inventory).max_count_per_stack == old(inventory).max_count_per_stack,
            final(inventory).refused_items@ == old(inventory).refused_items@,
    {
        let items = Self::placed_container_items(placed);
        Self::fill_inventory(inventory, items.as_slice());
    }
}

/// The block entity of a shulker box: its position and its 27 slots, which refuse
/// shulker boxes.
#[derive(Debug)]
pub struct ShulkerBoxBlockEntity {
    pub position: BlockPos,
    pub inventory: Inventory,
}

impl ShulkerBoxBlockEntity {
    /// An empty shulker box at `position`; `shulker_box_items` are the ids of the
    /// shulker box items, which its slots refuse.
    pub fn new(position: BlockPos, shulker_box_items: Vec<u16>) -> (r: ShulkerBoxBlockEntity)
        ensures
            r.position == position,
            r.inventory.stacks@.len() == INVENTORY_SIZE,
            forall|i: int| 0 <= i < INVENTORY_SIZE ==> #[trigger] r.inventory.view_stacks()[i] == empty_stack_view(),
            r.inventory.refused_items@ == shulker_box_items@,
            r.inventory.max_count_per_stack == DEFAULT_MAX_COUNT_PER_STACK,
            !r.inventory.dirty,
    {
        ShulkerBoxBlockEntity { position, inventory: Inventory::new(INVENTORY_SIZE, shulker_box_items) }
    }

    /// The position of the block.
    pub fn get_position(&self) -> (r: BlockPos)
        ensures
            r == self.position,
    {
        self.position
    }

    /// Whether the slots changed since the last save.
    pub fn is_dirty(&self) -> (r: bool)
        ensures
            r == self.inventory.dirty,
    {
        self.inventory.dirty
    }

    /// Forgets that the slots changed.
    pub fn clear_dirty(&mut self)
        ensures
            !final(self).inventory.dirty,
            final(self).inventory.stacks@ == old(self).inventory.stacks@,
            final(self).inventory.refused_items@ == old(self).inventory.refused_items@,
            final(self).inventory.max_count_per_stack == old(self).inventory.max_count_per_stack,
            final(self).position == old(self).position,
    {
        self.inventory.dirty = false;
    }

    /// The synced block event sent when the number of viewers changes: the lid
    /// animation type and the new count truncated to a byte.
    pub fn on_viewer_count_update(new_count: u16) -> (r: (u8, u8))
        ensures
            r == (OPEN_ANIMATION_EVENT_TYPE, new_count as u8),
    {
        (OPEN_ANIMATION_EVENT_TYPE, new_count as u8)
    }
}

/// Container entries built from (slot, stack) pairs with slots below 128 widen back to
/// the same pairs.
proof fn lemma_widened_entries(inventory: Seq<(usize, ItemStackView)>)
    requires
        forall|i: int| 0 <= i < inventory.len() ==> (#[trigger] inventory[i]).0 < 128,
    ensures
        widened(container_entries_of(inventory)) == inventory,
{
    assert forall|i: int| 0 <= i < inventory.len() implies #[trigger] widened(container_entries_of(inventory))[i]
        == inventory[i] by {
        let s = inventory[i].0;
        assert(s < 128);
        assert((s as i8) as usize == s) by (bit_vector)
            requires
                s < 128,
        ;
    }
    assert(widened(container_entries_of(inventory)) =~= inventory);
}

/// Breaking a shulker box and placing the dropped item again gives back the same
/// (slot, stack) pairs, whenever every slot number fits in a non-negative byte.
pub proof fn lemma_loot_keeps_contents(items: Seq<crate::item::Item>, item_id: u16, inventory: Seq<(usize, ItemStackView)>)
    requires
        forall|i: int| 0 <= i < inventory.len() ==> (#[trigger] inventory[i]).0 < 128,
    ensures
        placed_items(Some(loot_stack(items, item_id, inventory))) == inventory,
{
    let v = loot_stack(items, item_id, inventory);
    if inventory.len() == 0 {
        assert(first_entry_index(v.patch, CONTAINER) == -1);
        assert(widened(container_of(v)) =~= inventory);
    } else {
        assert(v.patch[0].0.0 == CONTAINER);
        assert(first_entry_index(v.patch, CONTAINER) == 0);
        assert(container_of(v) == container_entries_of(inventory));
        lemma_widened_entries(inventory);
    }
}

/// The slot numbers of the pairs are pairwise different.
pub open spec fn distinct_slots(items: Seq<(usize, ItemStackView)>) -> bool {
    forall|i: int, j: int| 0 <= i < j < items.len() ==> (#[trigger] items[i]).0 != (#[trigger] items[j]).0
}

/// Putting pairs with distinct slots: each pair's stack lands at its slot when the slot
/// exists, and every slot that no pair names keeps its stack.
pub proof fn lemma_place_all_distinct(stacks: Seq<ItemStackView>, items: Seq<(usize, ItemStackView)>)
    requires
        distinct_slots(items),
    ensures
        place_all(stacks, items).len() == stacks.len(),
        forall|i: int|
            0 <= i < items.len() && (#[trigger] items[i]).0 < stacks.len() ==> place_all(stacks, items)[items[i].0 as int]
                == items[i].1,
        forall|k: int|
            0 <= k < stacks.len() && (forall|i: int| 0 <= i < items.len() ==> (#[trigger] items[i]).0 != k)
                ==> #[trigger] place_all(stacks, items)[k] == stacks[k],
    decreases items.len(),
{
    lemma_place_all_len(stacks, items);
    if items.len() > 0 {
        let pre = items.drop_last();
        let n = items.len() - 1;
        assert(distinct_slots(pre)) by {
            assert forall|i: int, j: int| 0 <= i < j < pre.len() implies (#[trigger] pre[i]).0 != (#[trigger] pre[j]).0 by {
                assert(pre[i] == items[i] && pre[j] == items[j]);
            }
        }
        lemma_place_all_distinct(stacks, pre);
        lemma_place_all_len(stacks, pre);
        let prev = place_all(stacks, pre);
        assert forall|i: int| 0 <= i < items.len() && (#[trigger] items[i]).0 < stacks.len() implies place_all(
            stacks,
            items,
        )[items[i].0 as int] == items[i].1 by {
            if i < n {
                assert(pre[i] == items[i]);
                assert(items[i].0 != items[n].0);
            }
        }
        assert forall|k: int|
            0 <= k < stacks.len() && (forall|i: int| 0 <= i < items.len() ==> (#[trigger] items[i]).0 != k) implies #[trigger] place_all(
            stacks,
            items,
        )[k] == stacks[k] by {
            assert(items[n].0 != k);
            assert forall|i: int| 0 <= i < pre.len() implies (#[trigger] pre[i]).0 != k by {
                assert(pre[i] == items[i]);
            }
        }
    }
}

/// Building a shulker container from (slot, stack) pairs with distinct slots below 128
/// (as [`ShulkerBoxBlock::build_container_items`] does) and then placing a box item that
/// carries it (as [`ShulkerBoxBlock::player_placed`] does) puts each stack back at its
/// slot, when the slot exists, and leaves every other slot as it was.
pub proof fn lemma_build_then_place(stacks: Seq<ItemStackView>, items: Seq<(usize, ItemStackView)>, placed: ItemStackView)
    requires
        forall|i: int| 0 <= i < items.len() ==> (#[trigger] items[i]).0 < 128,
        distinct_slots(items),
        container_of(placed) == container_entries_of(items),
    ensures
        place_all(stacks, placed_items(Some(placed))).len() == stacks.len(),
        forall|i: int|
            0 <= i < items.len() && (#[trigger] items[i]).0 < stacks.len() ==> place_all(
                stacks,
                placed_items(Some(placed)),
            )[items[i].0 as int] == items[i].1,
        forall|k: int|
            0 <= k < stacks.len() && (forall|i: int| 0 <= i < items.len() ==> (#[trigger] items[i]).0 != k)
                ==> #[trigger] place_all(stacks, placed_items(Some(placed)))[k] == stacks[k],
{
    lemma_widened_entries(items);
    assert(placed_items(Some(placed)) == items);
    lemma_place_all_distinct(stacks, items);
}

/// Breaking a shulker box drops a single box: one item, of the block's item, whose
/// container holds the box's stacks (none when it was empty).
pub proof fn lemma_loot_is_one_box(items: Seq<crate::item::Item>, item_id: u16, inventory: Seq<(usize, ItemStackView)>)
    ensures
        loot_stack(items, item_id, inventory).item_count == 1,
        loot_stack(items, item_id, inventory).item == lookup_item(items, item_id),
        container_of(loot_stack(items, item_id, inventory)) == container_entries_of(inventory),
{
    let v = loot_stack(items, item_id, inventory);
    if inventory.len() == 0 {
        assert(first_entry_index(v.patch, CONTAINER) == -1);
        assert(container_entries_of(inventory) =~= Seq::<(i8, ItemStackView)>::empty());
    } else {
        assert(v.patch[0].0.0 == CONTAINER);
        assert(first_entry_index(v.patch, CONTAINER) == 0);
    }
}

} // verus!
