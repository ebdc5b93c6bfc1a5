use crate::data_component::{empty_stack_view, is_empty_view};
use crate::item::{ItemStack, ItemStackView};
use crate::item_stack::{are_items_and_components_equal, copy_stack, spec_max_stack_size, with_count};
use vstd::prelude::*;

verus! {

/// How many items an inventory slot holds at most, unless the stack allows fewer.
pub const DEFAULT_MAX_COUNT_PER_STACK: u8 = 99;

/// The stacks of an inventory, as values.
pub open spec fn stacks_view(v: Seq<ItemStack>) -> Seq<ItemStackView> {
    v.map_values(|s: ItemStack| s@)
}

/// A fixed number of slots, each holding a stack.
#[derive(Debug)]
pub struct Inventory {
    pub stacks: Vec<ItemStack>,
    pub max_count_per_stack: u8,
    /// Ids of items that no slot of this inventory accepts.
    pub refused_items: Vec<u16>,
    pub dirty: bool,
}

impl Inventory {
    /// The stacks, as values.
    pub open spec fn view_stacks(&self) -> Seq<ItemStackView> {
        stacks_view(self.stacks@)
    }

    /// An inventory of `size` empty slots that refuses the items in `refused_items`.
    pub fn new(size: usize, refused_items: Vec<u16>) -> (r: Inventory)
        ensures
            r.stacks@.len() == size,
            forall|i: int| 0 <= i < size ==> #[trigger] r.view_stacks()[i] == empty_stack_view(),
            r.max_count_per_stack == DEFAULT_MAX_COUNT_PER_STACK,
            r.refused_items@ == refused_items@,
            !r.dirty,
    {
        let mut stacks: Vec<ItemStack> = Vec::new();
        let mut i: usize = 0;
        while i < size
            invariant
                i <= size,
                stacks@.len() == i,
                forall|t: int| 0 <= t < i ==> #[trigger] stacks@[t]@ == empty_stack_view(),
            decreases size - i,
        {
            stacks.push(ItemStack::empty());
            i = i + 1;
        }
        Inventory { stacks, max_count_per_stack: DEFAULT_MAX_COUNT_PER_STACK, refused_items, dirty: false }
    }

    /// How many slots there are.
    pub fn size(&self) -> (r: usize)
        ensures
            r == self.stacks@.len(),
    {
        self.stacks.len()
    }

    /// Whether every slot is empty.
    pub fn is_empty(&self) -> (r: bool)
        ensures
            r == forall|i: int| 0 <= i < self.stacks@.len() ==> is_empty_view(#[trigger] self.view_stacks()[i]),
    {
        let mut i: usize = 0;
        while i < self.stacks.len()
            invariant
                i <= self.stacks@.len(),
                forall|t: int| 0 <= t < i ==> is_empty_view(#[trigger] self.view_stacks()[t]),
            decreases self.stacks@.len() - i,
        {
            if !self.stacks[i].is_empty() {
                assert(!is_empty_view(self.view_stacks()[i as int]));
                return false;
            }
            i = i + 1;
        }
        true
    }

    /// The stack in `slot`.
    pub fn get_stack(&self, slot: usize) -> (r: &ItemStack)
        requires
            slot < self.stacks@.len(),
        ensures
            r@ == self.view_stacks()[slot as int],
    {
        &self.stacks[slot]
    }

    /// Marks the inventory as changed.
    pub fn mark_dirty(&mut self)
        ensures
            final(self).dirty,
            final(self).stacks@ == old(self).stacks@,
            final(self).max_count_per_stack == old(self).max_count_per_stack,
            final(self).refused_items@ == old(self).refused_items@,
    {
        self.dirty = true;
    }

    /// Puts `stack` into `slot`.
    pub fn set_stack(&mut self, slot: usize, stack: ItemStack)
        requires
            slot < old(self).stacks@.len(),
        ensures
            final(self).view_stacks() == old(self).view_stacks().update(slot as int, stack@),
            final(self).dirty,
            final(self).max_count_per_stack == old(self).max_count_per_stack,
            final(self).refused_items@ == old(self).refused_items@,
            final(self).stacks@.len() == old(self).stacks@.len(),
    {
        let ghost before = self.stacks@;
        self.stacks.set(slot, stack);
        assert(stacks_view(self.stacks@) =~= stacks_view(before).update(slot as int, stack@));
        self.mark_dirty();
    }

    /// Takes the whole stack out of `slot`, leaving it empty.
    pub fn remove_stack(&mut self, slot: usize) -> (r: ItemStack)
        requires
            slot < old(self).stacks@.len(),
        ensures
            r@ == old(self).view_stacks()[slot as int],
            final(self).view_stacks() == old(self).view_stacks().update(slot as int, empty_stack_view()),
            final(self).dirty,
            final(self).max_count_per_stack == old(self).max_count_per_stack,
            final(self).refused_items@ == old(self).refused_items@,
            final(self).stacks@.len() == old(self).stacks@.len(),
    {
        let removed = copy_stack(&self.stacks[slot]);
        self.set_stack(slot, ItemStack::empty());
        removed
    }

    /// Takes up to `amount` items out of `slot`: nothing when the slot is empty or
    /// `amount` is 0.
    pub fn remove_stack_specific(&mut self, slot: usize, amount: u8) -> (r: ItemStack)
        requires
            slot < old(self).stacks@.len(),
        ensures
            ({
                let (taken, rest) = spec_remove_specific(old(self).view_stacks()[slot as int], amount);
                &&& r@ == taken
                &&& final(self).view_stacks() == old(self).view_stacks().update(slot as int, rest)
            }),
            final(self).dirty,
            final(self).max_count_per_stack == old(self).max_count_per_stack,
            final(self).refused_items@ == old(self).refused_items@,
            final(self).stacks@.len() == old(self).stacks@.len(),
    {
        if self.stacks[slot].is_empty() || amount == 0 {
            self.mark_dirty();
            assert(self.view_stacks() =~= old(self).view_stacks().update(slot as int, old(self).view_stacks()[slot as int]));
            return ItemStack::empty();
        }
        let mut stack = copy_stack(&self.stacks[slot]);
        let taken = stack.split(amount);
        self.set_stack(slot, stack);
        taken
    }

    /// Whether `slot` accepts `stack`: every item but the refused ones.
    pub fn is_valid_slot_for(&self, slot: usize, stack: &ItemStack) -> (r: bool)
        ensures
            r == !self.refused_items@.contains(stack.item.id),
    {
        let mut i: usize = 0;
        while i < self.refused_items.len()
            invariant
                i <= self.refused_items@.len(),
                forall|t: int| 0 <= t < i ==> self.refused_items@[t] != stack.item.id,
            decreases self.refused_items@.len() - i,
        {
            if self.refused_items[i] == stack.item.id {
                assert(self.refused_items@[i as int] == stack.item.id);
                return false;
            }
            i = i + 1;
        }
        true
    }

    /// Empties every slot.
    pub fn clear(&mut self)
        ensures
            final(self).stacks@.len() == old(self).stacks@.len(),
            forall|i: int| 0 <= i < final(self).stacks@.len() ==> #[trigger] final(self).view_stacks()[i] == empty_stack_view(),
            final(self).dirty,
            final(self).max_count_per_stack == old(self).max_count_per_stack,
            final(self).refused_items@ == old(self).refused_items@,
            final(self).stacks@.len() == old(self).stacks@.len(),
    {
        let n = self.stacks.len();
        let mut i: usize = 0;
        while i < n
            invariant
                n == self.stacks@.len(),
                i <= n,
                forall|t: int| 0 <= t < i ==> (#[trigger] self.stacks@[t])@ == empty_stack_view(),
                self.max_count_per_stack == old(self).max_count_per_stack,
                self.refused_items@ == old(self).refused_items@,
            decreases n - i,
        {
            let e = ItemStack::empty();
            self.stacks.set(i, e);
            i = i + 1;
        }
        let ghost before = self.stacks@;
        self.mark_dirty();
        assert(self.stacks@ == before);
        assert forall|i: int| 0 <= i < self.stacks@.len() implies #[trigger] self.view_stacks()[i] == empty_stack_view() by {
            assert(self.stacks@[i]@ == empty_stack_view());
        }
    }
}

/// How many items a stack really holds: none when it is empty.
pub open spec fn items_in(v: ItemStackView) -> int {
    if is_empty_view(v) {
        0
    } else {
        v.item_count as int
    }
}

/// The smaller of two bytes.
pub open spec fn min_u8(a: u8, b: u8) -> u8 {
    if a < b {
        a
    } else {
        b
    }
}

/// A stack that is empty reads as the empty stack.
pub open spec fn normalized(v: ItemStackView) -> ItemStackView {
    if is_empty_view(v) {
        empty_stack_view()
    } else {
        v
    }
}

/// Taking up to `amount` items out of a slot that holds `s`: nothing when the slot is
/// empty or `amount` is 0, else a stack of the smaller of `amount` and the count. Returns
/// the stack taken and what the slot then holds.
pub open spec fn spec_remove_specific(s: ItemStackView, amount: u8) -> (ItemStackView, ItemStackView) {
    if is_empty_view(s) || amount == 0 {
        (empty_stack_view(), s)
    } else {
        let n = min_u8(amount, s.item_count);
        (with_count(s, n), with_count(s, (s.item_count - n) as u8))
    }
}

/// Taking a number of items out of a slot moves items and makes none: what is taken and
/// what stays add up to what the slot held.
pub proof fn lemma_remove_specific_conserves(s: ItemStackView, amount: u8)
    ensures
        ({
            let (taken, rest) = spec_remove_specific(s, amount);
            items_in(taken) + items_in(rest) == items_in(s)
        }),
{
}

/// Inserting never mixes components: afterwards the slot holds what it held, or holds
/// the inserted item with the inserted stack's components. A slot that holds another
/// item, or the same item with other components, takes nothing and the whole stack
/// comes back; so does a slot that refuses the stack.
pub proof fn lemma_insert_keeps_components(v: ItemStackView, count: u8, s: ItemStackView, cap: u8, allowed: bool)
    ensures
        ({
            let (left, slot) = spec_insert(v, count, s, cap, allowed);
            &&& slot == s || (slot.item == v.item && slot.patch == v.patch)
            &&& !is_empty_view(s) && (v.item != s.item || v.patch != s.patch) ==> slot == s && left == normalized(v)
            &&& !allowed ==> slot == s && left == normalized(v)
        }),
{
}

/// Taking from a slot that holds `s`: whether items come out, and if so which.
/// Returns the stack taken (`None` for nothing) and what the slot then holds.
pub open spec fn spec_try_take(s: ItemStackView, min: u8, max: u8, allowed: bool) -> (Option<ItemStackView>, ItemStackView) {
    let m = min_u8(min, max);
    let n = min_u8(m, s.item_count);
    if (!allowed && s.item_count > max) || is_empty_view(s) || m == 0 {
        (None, s)
    } else {
        (Some(with_count(s, n)), normalized(with_count(s, (s.item_count - n) as u8)))
    }
}

/// Inserting up to `count` items of `v` into a slot that holds `s`, where `cap` items fit
/// and `allowed` says whether the slot accepts `v`. Returns what is left of `v` and what
/// the slot then holds.
pub open spec fn spec_insert(v: ItemStackView, count: u8, s: ItemStackView, cap: u8, allowed: bool) -> (ItemStackView, ItemStackView) {
    if !is_empty_view(v) && allowed {
        let m = min_u8(min_u8(count, v.item_count), (cap - s.item_count) as u8);
        if m == 0 {
            (normalized(v), s)
        } else if is_empty_view(s) {
            (normalized(with_count(v, (v.item_count - m) as u8)), with_count(v, m))
        } else if v.item == s.item && v.patch == s.patch {
            (normalized(with_count(v, (v.item_count - m) as u8)), with_count(s, (s.item_count + m) as u8))
        } else {
            (normalized(v), s)
        }
    } else {
        (normalized(v), s)
    }
}

/// Taking from a slot moves items and makes none: what is taken and what stays add up to
/// what the slot held.
pub proof fn lemma_take_conserves(s: ItemStackView, min: u8, max: u8, allowed: bool)
    ensures
        ({
            let (taken, rest) = spec_try_take(s, min, max, allowed);
            match taken {
                Some(t) => items_in(t) + items_in(rest) == items_in(s) && items_in(t) > 0,
                None => rest == s,
            }
        }),
{
}

/// Inserting into a slot moves items and makes none: what is left over and what the
/// slot then holds add up to what the two held before, and the slot never ends above
/// `cap` if it did not start above it.
pub proof fn lemma_insert_conserves(v: ItemStackView, count: u8, s: ItemStackView, cap: u8, allowed: bool)
    requires
        s.item_count <= cap,
    ensures
        ({
            let (left, slot) = spec_insert(v, count, s, cap, allowed);
            &&& items_in(left) + items_in(slot) == items_in(v) + items_in(s)
            &&& slot.item_count <= cap
        }),
{
}

/// Inserts up to `count` items of `stack` into slot `index` of `inventory`, where `cap`
/// items fit and `allowed` says whether the slot accepts the stack; see [`spec_insert`].
/// Returns what is left of the stack.
pub fn insert_into_slot(inventory: &mut Inventory, index: usize, stack: ItemStack, count: u8, cap: u8, allowed: bool) -> (r: ItemStack)
    requires
        index < old(inventory).stacks@.len(),
        !is_empty_view(stack@) && allowed ==> old(inventory).view_stacks()[index as int].item_count <= cap,
    ensures
        ({
            let (left, slot) = spec_insert(stack@, count, old(inventory).view_stacks()[index as int], cap, allowed);
            &&& r@ == left
            &&& final(inventory).view_stacks() == old(inventory).view_stacks().update(index as int, slot)
        }),
        final(inventory).stacks@.len() == old(inventory).stacks@.len(),
        final(inventory).max_count_per_stack == old(inventory).max_count_per_stack,
        final(inventory).refused_items@ == old(inventory).refused_items@,
        final(inventory).dirty == (old(inventory).dirty || (!is_empty_view(stack@) && allowed && min_u8(
            min_u8(count, stack@.item_count),
            (cap - old(inventory).view_stacks()[index as int].item_count) as u8,
        ) != 0 && (is_empty_view(old(inventory).view_stacks()[index as int]) || (stack@.item
            == old(inventory).view_stacks()[index as int].item && stack@.patch == old(
            inventory,
        ).view_stacks()[index as int].patch)))),
{
    let mut stack = stack;
    proof {
        crate::data_component::lemma_stack_view_patch(stack);
    }
    let ghost v = stack@;
    let ghost s = inventory.view_stacks()[index as int];
    let ghost unchanged = inventory.view_stacks();
    assert(unchanged =~= unchanged.update(index as int, s));
    if !stack.is_empty() && allowed {
        let held_count = inventory.get_stack(index).item_count;
        proof {
            crate::data_component::lemma_stack_view_patch(inventory.stacks@[index as int]);
        }
        let a = if count < stack.item_count {
            count
        } else {
            stack.item_count
        };
        let room: u8 = cap - held_count;
        let m = if a < room {
            a
        } else {
            room
        };
        if m != 0 {
            if inventory.get_stack(index).is_empty() {
                let part = stack.split(m);
                inventory.set_stack(index, part);
            } else if are_items_and_components_equal(&stack, inventory.get_stack(index)) {
                stack.decrement(m);
                let mut merged = copy_stack(inventory.get_stack(index));
                merged.increment(m);
                inventory.set_stack(index, merged);
            }
        }
    }
    proof {
        crate::data_component::lemma_stack_view_patch(stack);
    }
    if stack.is_empty() {
        ItemStack::empty()
    } else {
        stack
    }
}

/// Takes between `min` and `max` items out of slot `index` of `inventory`, where
/// `allowed` says whether the slot may be changed; see [`spec_try_take`].
pub fn try_take_from_slot(inventory: &mut Inventory, index: usize, min: u8, max: u8, allowed: bool) -> (r: Option<ItemStack>)
    requires
        index < old(inventory).stacks@.len(),
    ensures
        ({
            let (taken, rest) = spec_try_take(old(inventory).view_stacks()[index as int], min, max, allowed);
            &&& match (r, taken) {
                (Some(st), Some(t)) => st@ == t,
                (None, None) => true,
                _ => false,
            }
            &&& final(inventory).view_stacks() == old(inventory).view_stacks().update(index as int, rest)
            &&& taken is Some ==> final(inventory).dirty
        }),
        final(inventory).stacks@.len() == old(inventory).stacks@.len(),
        final(inventory).max_count_per_stack == old(inventory).max_count_per_stack,
        final(inventory).refused_items@ == old(inventory).refused_items@,
{
    let ghost s = inventory.view_stacks()[index as int];
    let cloned = copy_stack(inventory.get_stack(index));
    proof {
        crate::data_component::lemma_stack_view_patch(cloned);
    }
    if !allowed && cloned.item_count > max {
        proof {
            assert(inventory.view_stacks() =~= inventory.view_stacks().update(index as int, s));
        }
        return None;
    }
    let m = if min < max {
        min
    } else {
        max
    };
    let stack = inventory.remove_stack_specific(index, m);
    if stack.is_empty() {
        return None;
    }
    if inventory.get_stack(index).is_empty() {
        inventory.set_stack(index, ItemStack::empty());
        proof {
            assert(inventory.view_stacks() =~= old(inventory).view_stacks().update(index as int, empty_stack_view()));
        }
    }
    Some(stack)
}

/// A slot of an inventory.
#[derive(Debug)]
pub struct NormalSlot {
    pub inventory: Inventory,
    pub index: usize,
    pub id: u8,
}

impl NormalSlot {
    /// The slot `index` of `inventory`.
    pub fn new(inventory: Inventory, index: usize) -> (r: NormalSlot)
        ensures
            r.inventory == inventory,
            r.index == index,
            r.id == 0,
    {
        NormalSlot { inventory, index, id: 0 }
    }

    /// The slot lies within its inventory.
    pub open spec fn wf(&self) -> bool {
        self.index < self.inventory.stacks@.len()
    }

    /// What the slot holds.
    pub open spec fn held(&self) -> ItemStackView {
        self.inventory.view_stacks()[self.index as int]
    }

    /// The slot's own stack changed to `v` and no other.
    pub open spec fn becomes(&self, next: &NormalSlot, v: ItemStackView) -> bool {
        &&& next.inventory.view_stacks() == self.inventory.view_stacks().update(self.index as int, v)
        &&& next.inventory.stacks@.len() == self.inventory.stacks@.len()
        &&& next.inventory.max_count_per_stack == self.inventory.max_count_per_stack
        &&& next.inventory.refused_items@ == self.inventory.refused_items@
        &&& next.index == self.index
        &&& next.id == self.id
    }

    /// The index of the slot in its inventory.
    pub fn get_index(&self) -> (r: usize)
        ensures
            r == self.index,
    {
        self.index
    }

    /// Sets the slot's number in its screen, keeping its low byte.
    pub fn set_id(&mut self, id: usize)
        ensures
            final(self).id == id as u8,
            final(self).inventory == old(self).inventory,
            final(self).index == old(self).index,
    {
        self.id = id as u8;
    }

    /// A copy of what the slot holds.
    pub fn get_cloned_stack(&self) -> (r: ItemStack)
        requires
            self.wf(),
        ensures
            r@ == self.held(),
    {
        copy_stack(self.inventory.get_stack(self.index))
    }

    /// Whether the slot holds items.
    pub fn has_stack(&self) -> (r: bool)
        requires
            self.wf(),
        ensures
            r == !is_empty_view(self.held()),
    {
        !self.inventory.get_stack(self.index).is_empty()
    }

    /// Marks the inventory as changed.
    pub fn mark_dirty(&mut self)
        ensures
            final(self).inventory.dirty,
            old(self).becomes(final(self), old(self).held()) || !old(self).wf(),
            final(self).inventory.stacks@ == old(self).inventory.stacks@,
    {
        self.inventory.mark_dirty();
        proof {
            if old(self).wf() {
                assert(self.inventory.view_stacks() =~= old(self).inventory.view_stacks().update(
                    self.index as int,
                    old(self).held(),
                ));
            }
        }
    }

    /// Puts `stack` into the slot and marks the inventory as changed.
    pub fn set_stack(&mut self, stack: ItemStack)
        requires
            old(self).wf(),
        ensures
            old(self).becomes(final(self), stack@),
            final(self).inventory.dirty,
    {
        self.inventory.set_stack(self.index, stack);
    }

    /// How many items the slot takes of any stack.
    pub fn get_max_item_count(&self) -> (r: u8)
        ensures
            r == self.inventory.max_count_per_stack,
    {
        self.inventory.max_count_per_stack
    }

    /// How many items of `stack` the slot takes.
    pub fn get_max_item_count_for_stack(&self, stack: &ItemStack) -> (r: u8)
        ensures
            r == min_u8(self.inventory.max_count_per_stack, spec_max_stack_size(stack@)),
    {
        let a = self.get_max_item_count();
        let b = stack.get_max_stack_size();
        if a < b {
            a
        } else {
            b
        }
    }

    /// Takes up to `amount` items out of the slot.
    pub fn take_stack(&mut self, amount: u8) -> (r: ItemStack)
        requires
            old(self).wf(),
        ensures
            ({
                let (taken, rest) = spec_remove_specific(old(self).held(), amount);
                r@ == taken && old(self).becomes(final(self), rest)
            }),
            final(self).inventory.dirty,
    {
        self.inventory.remove_stack_specific(self.index, amount)
    }

    /// Whether the slot accepts `stack`.
    pub fn can_insert(&self, stack: &ItemStack) -> (r: bool)
        ensures
            r == !self.inventory.refused_items@.contains(stack.item.id),
    {
        self.inventory.is_valid_slot_for(self.index, stack)
    }

    /// Whether items may be taken out; any may.
    pub fn can_take_items(&self) -> (r: bool)
        ensures
            r,
    {
        true
    }

    /// Whether the slot may be changed: it accepts what it holds and gives items up.
    pub fn allow_modification(&self) -> (r: bool)
        requires
            self.wf(),
        ensures
            r == !self.inventory.refused_items@.contains(self.held().item.id),
    {
        let cloned = self.get_cloned_stack();
        proof {
            crate::data_component::lemma_stack_view_patch(cloned);
        }
        self.can_insert(&cloned) && self.can_take_items()
    }

    /// Takes between `min` and `max` items; see [`spec_try_take`]. A slot that may not be
    /// changed gives up nothing when it holds more than `max`; a slot left without items
    /// is emptied.
    pub fn try_take_stack_range(&mut self, min: u8, max: u8) -> (r: Option<ItemStack>)
        requires
            old(self).wf(),
        ensures
            ({
                let (taken, rest) = spec_try_take(
                    old(self).held(),
                    min,
                    max,
                    !old(self).inventory.refused_items@.contains(old(self).held().item.id),
                );
                &&& match (r, taken) {
                    (Some(st), Some(t)) => st@ == t,
                    (None, None) => true,
                    _ => false,
                }
                &&& old(self).becomes(final(self), rest)
                &&& taken is Some ==> final(self).inventory.dirty
            }),
    {
        if !self.can_take_items() {
            return None;
        }
        let allowed = self.allow_modification();
        try_take_from_slot(&mut self.inventory, self.index, min, max, allowed)
    }

    /// Takes between `min` and `max` items, or gives the empty stack when none come out;
    /// marks the inventory as changed when items are taken.
    pub fn safe_take(&mut self, min: u8, max: u8) -> (r: ItemStack)
        requires
            old(self).wf(),
        ensures
            ({
                let (taken, rest) = spec_try_take(
                    old(self).held(),
                    min,
                    max,
                    !old(self).inventory.refused_items@.contains(old(self).held().item.id),
                );
                &&& r@ == match taken {
                    Some(t) => t,
                    None => empty_stack_view(),
                }
                &&& old(self).becomes(final(self), rest)
                &&& taken is Some ==> final(self).inventory.dirty
            }),
    {
        let taken = self.try_take_stack_range(min, max);
        match taken {
            Some(st) => {
                self.mark_dirty();
                st
            },
            None => ItemStack::empty(),
        }
    }

    /// Inserts as many items of `stack` as fit; returns what is left.
    pub fn insert_stack(&mut self, stack: ItemStack) -> (r: ItemStack)
        requires
            old(self).wf(),
            !is_empty_view(stack@) && !old(self).inventory.refused_items@.contains(stack.item.id) ==> old(self).held().item_count
                <= min_u8(old(self).inventory.max_count_per_stack, spec_max_stack_size(stack@)),
        ensures
            ({
                let (left, slot) = spec_insert(
                    stack@,
                    stack.item_count,
                    old(self).held(),
                    min_u8(old(self).inventory.max_count_per_stack, spec_max_stack_size(stack@)),
                    !old(self).inventory.refused_items@.contains(stack.item.id),
                );
                r@ == left && old(self).becomes(final(self), slot)
            }),
    {
        let count = stack.item_count;
        self.insert_stack_count(stack, count)
    }

    /// Inserts up to `count` items of `stack`, as many as fit; returns what is left. An
    /// empty slot takes a split of the stack; a slot holding the same item with the same
    /// components takes items from it; any other slot takes nothing.
    pub fn insert_stack_count(&mut self, stack: ItemStack, count: u8) -> (r: ItemStack)
        requires
            old(self).wf(),
            !is_empty_view(stack@) && !old(self).inventory.refused_items@.contains(stack.item.id) ==> old(self).held().item_count
                <= min_u8(old(self).inventory.max_count_per_stack, spec_max_stack_size(stack@)),
        ensures
            ({
                let (left, slot) = spec_insert(
                    stack@,
                    count,
                    old(self).held(),
                    min_u8(old(self).inventory.max_count_per_stack, spec_max_stack_size(stack@)),
                    !old(self).inventory.refused_items@.contains(stack.item.id),
                );
                r@ == left && old(self).becomes(final(self), slot)
            }),
    {
        let cap = self.get_max_item_count_for_stack(&stack);
        let allowed = self.can_insert(&stack);
        insert_into_slot(&mut self.inventory, self.index, stack, count, cap, allowed)
    }

}

/// The body slot that an armor slot stands for.
#[derive(Debug, Clone, Copy, PartialEq, Eq, Structural)]
pub enum EquipmentSlot {
    MainHand,
    OffHand,
    Feet,
    Legs,
    Chest,
    Head,
    Body,
    Saddle,
}

/// What an item can be worn as, as far as armor slots ask.
#[derive(Debug, Clone, Copy, PartialEq, Eq, Structural)]
pub enum Wearable {
    Helmet,
    Skull,
    CarvedPumpkin,
    Chestplate,
    Elytra,
    Leggings,
    Boots,
    Other,
}

/// Whether an armor slot for `slot` takes an item worn as `w`: the head takes helmets,
/// skulls and carved pumpkins, the chest chestplates and elytras, the legs leggings, the
/// feet boots; the other slots take anything.
pub open spec fn spec_armor_accepts(slot: EquipmentSlot, w: Wearable) -> bool {
    match slot {
        EquipmentSlot::Head => w == Wearable::Helmet || w == Wearable::Skull || w == Wearable::CarvedPumpkin,
        EquipmentSlot::Chest => w == Wearable::Chestplate || w == Wearable::Elytra,
        EquipmentSlot::Legs => w == Wearable::Leggings,
        EquipmentSlot::Feet => w == Wearable::Boots,
        _ => true,
    }
}

/// A slot of an inventory that holds one piece of equipment.
#[derive(Debug)]
pub struct ArmorSlot {
    pub inventory: Inventory,
    pub index: usize,
    pub id: u8,
    pub equipment_slot: EquipmentSlot,
}

impl ArmorSlot {
    /// The slot `index` of `inventory`, for `equipment_slot`.
    pub fn new(inventory: Inventory, index: usize, equipment_slot: EquipmentSlot) -> (r: ArmorSlot)
        ensures
            r.inventory == inventory,
            r.index == index,
            r.id == 0,
            r.equipment_slot == equipment_slot,
    {
        ArmorSlot { inventory, index, id: 0, equipment_slot }
    }

    /// The slot lies within its inventory.
    pub open spec fn wf(&self) -> bool {
        self.index < self.inventory.stacks@.len()
    }

    /// What the slot holds.
    pub open spec fn held(&self) -> ItemStackView {
        self.inventory.view_stacks()[self.index as int]
    }

    /// The slot's own stack changed to `v` and no other.
    pub open spec fn becomes(&self, next: &ArmorSlot, v: ItemStackView) -> bool {
        &&& next.inventory.view_stacks() == self.inventory.view_stacks().update(self.index as int, v)
        &&& next.inventory.stacks@.len() == self.inventory.stacks@.len()
        &&& next.inventory.max_count_per_stack == self.inventory.max_count_per_stack
        &&& next.inventory.refused_items@ == self.inventory.refused_items@
        &&& next.index == self.index
        &&& next.id == self.id
        &&& next.equipment_slot == self.equipment_slot
    }

    /// The index of the slot in its inventory.
    pub fn get_index(&self) -> (r: usize)
        ensures
            r == self.index,
    {
        self.index
    }

    /// Sets the slot's number in its screen, keeping its low byte.
    pub fn set_id(&mut self, id: usize)
        ensures
            final(self).id == id as u8,
            final(self).inventory == old(self).inventory,
            final(self).index == old(self).index,
            final(self).equipment_slot == old(self).equipment_slot,
    {
        self.id = id as u8;
    }

    /// An armor slot holds one item.
    pub fn get_max_item_count(&self) -> (r: u8)
        ensures
            r == 1,
    {
        1
    }

    /// How many items of `stack` the slot takes.
    pub fn get_max_item_count_for_stack(&self, stack: &ItemStack) -> (r: u8)
        ensures
            r == min_u8(1, spec_max_stack_size(stack@)),
    {
        let a = self.get_max_item_count();
        let b = stack.get_max_stack_size();
        if a < b {
            a
        } else {
            b
        }
    }

    /// Whether the slot takes an item worn as `wearable`; see [`spec_armor_accepts`].
    pub fn can_insert(&self, wearable: Wearable) -> (r: bool)
        ensures
            r == spec_armor_accepts(self.equipment_slot, wearable),
    {
        match self.equipment_slot {
            EquipmentSlot::Head => wearable == Wearable::Helmet || wearable == Wearable::Skull || wearable
                == Wearable::CarvedPumpkin,
            EquipmentSlot::Chest => wearable == Wearable::Chestplate || wearable == Wearable::Elytra,
            EquipmentSlot::Legs => wearable == Wearable::Leggings,
            EquipmentSlot::Feet => wearable == Wearable::Boots,
            _ => true,
        }
    }

    /// Whether items may be taken out; any may.
    pub fn can_take_items(&self) -> (r: bool)
        ensures
            r,
    {
        true
    }

    /// Marks the inventory as changed.
    pub fn mark_dirty(&mut self)
        ensures
            final(self).inventory.dirty,
            final(self).inventory.stacks@ == old(self).inventory.stacks@,
            final(self).inventory.max_count_per_stack == old(self).inventory.max_count_per_stack,
            final(self).inventory.refused_items@ == old(self).inventory.refused_items@,
            final(self).index == old(self).index,
            final(self).id == old(self).id,
            final(self).equipment_slot == old(self).equipment_slot,
    {
        self.inventory.mark_dirty();
    }

    /// Puts `stack` into the slot in place of `previous_stack` and marks the inventory as
    /// changed.
    pub fn set_stack_prev(&mut self, stack: ItemStack, previous_stack: ItemStack)
        requires
            old(self).wf(),
        ensures
            old(self).becomes(final(self), stack@),
            final(self).inventory.dirty,
    {
        self.inventory.set_stack(self.index, stack);
    }

    /// Inserts as many items of `stack`, worn as `wearable`, as fit; returns what is left.
    pub fn insert_stack(&mut self, stack: ItemStack, wearable: Wearable) -> (r: ItemStack)
        requires
            old(self).wf(),
            !is_empty_view(stack@) && spec_armor_accepts(old(self).equipment_slot, wearable) ==> old(self).held().item_count
                <= min_u8(1, spec_max_stack_size(stack@)),
        ensures
            ({
                let (left, slot) = spec_insert(
                    stack@,
                    stack.item_count,
                    old(self).held(),
                    min_u8(1, spec_max_stack_size(stack@)),
                    spec_armor_accepts(old(self).equipment_slot, wearable),
                );
                r@ == left && old(self).becomes(final(self), slot)
            }),
    {
        let count = stack.item_count;
        let cap = self.get_max_item_count_for_stack(&stack);
        let allowed = self.can_insert(wearable);
        insert_into_slot(&mut self.inventory, self.index, stack, count, cap, allowed)
    }

    /// Takes between `min` and `max` items, the held stack being worn as `held_wearable`;
    /// see [`spec_try_take`].
    pub fn try_take_stack_range(&mut self, min: u8, max: u8, held_wearable: Wearable) -> (r: Option<ItemStack>)
        requires
            old(self).wf(),
        ensures
            ({
                let (taken, rest) = spec_try_take(
                    old(self).held(),
                    min,
                    max,
                    spec_armor_accepts(old(self).equipment_slot, held_wearable),
                );
                &&& match (r, taken) {
                    (Some(st), Some(t)) => st@ == t,
                    (None, None) => true,
                    _ => false,
                }
                &&& old(self).becomes(final(self), rest)
                &&& taken is Some ==> final(self).inventory.dirty
            }),
    {
        let allowed = self.can_insert(held_wearable) && self.can_take_items();
        try_take_from_slot(&mut self.inventory, self.index, min, max, allowed)
    }
}

} // verus!
