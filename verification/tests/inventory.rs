use pumpkin::block::{BlockDirection, BlockPos, Facing};
use pumpkin::item::{
    CONTAINER, ContainerImpl, ContainerSlot, DAMAGE, DataComponent, DataComponentImpl, DamageImpl, Item, ItemRegistry,
    ItemStack, MAX_STACK_SIZE, MaxStackSizeImpl,
};
use pumpkin::item_stack::{are_items_and_components_equal, copy_stack};
use pumpkin::shulker_box::{INVENTORY_SIZE, OPEN_ANIMATION_EVENT_TYPE, ShulkerBoxBlock, ShulkerBoxBlockEntity};
use pumpkin::slot::{ArmorSlot, DEFAULT_MAX_COUNT_PER_STACK, EquipmentSlot, Inventory, NormalSlot, Wearable};

const STONE: Item = Item { id: 1, max_stack_size: 64 };
const PEARL: Item = Item { id: 2, max_stack_size: 16 };
const SHULKER: Item = Item { id: 3, max_stack_size: 1 };

fn registry() -> ItemRegistry {
    ItemRegistry { items: vec![Item { id: 0, max_stack_size: 64 }, STONE, PEARL, SHULKER] }
}

fn stack(item: Item, count: u8) -> ItemStack {
    ItemStack { item_count: count, item, patch: vec![] }
}

#[test]
fn max_stack_size_follows_components() {
    assert_eq!(stack(PEARL, 1).get_max_stack_size(), 16);
    let mut s = stack(STONE, 1);
    s.patch.push((DataComponent(MAX_STACK_SIZE), Some(DataComponentImpl::MaxStackSize(MaxStackSizeImpl { size: 8 }))));
    assert_eq!(s.get_max_stack_size(), 8);
    let mut r = stack(STONE, 1);
    r.patch.push((DataComponent(MAX_STACK_SIZE), None));
    assert_eq!(r.get_max_stack_size(), 1);
}

#[test]
fn counts_saturate_and_split() {
    let mut s = stack(STONE, 10);
    s.decrement(3);
    assert_eq!(s.item_count, 7);
    s.decrement(20);
    assert_eq!(s.item_count, 0);
    assert!(s.is_empty());
    let mut t = stack(STONE, 250);
    t.increment(10);
    assert_eq!(t.item_count, 255);
    let mut u = stack(PEARL, 10);
    let part = u.split(4);
    assert_eq!(part.item_count, 4);
    assert_eq!(u.item_count, 6);
    let all = u.split(100);
    assert_eq!(all.item_count, 6);
    assert_eq!(u.item_count, 0);
}

#[test]
fn stack_equality_ignores_count_only() {
    let a = stack(STONE, 3);
    let b = stack(STONE, 9);
    assert!(are_items_and_components_equal(&a, &b));
    let mut c = stack(STONE, 3);
    c.patch.push((DataComponent(DAMAGE), Some(DataComponentImpl::Damage(DamageImpl { damage: 1 }))));
    assert!(!are_items_and_components_equal(&a, &c));
    let d = copy_stack(&c);
    assert!(are_items_and_components_equal(&c, &d));
    assert_eq!(d.item_count, 3);
}

#[test]
fn inventory_basics() {
    let mut inv = Inventory::new(3, vec![SHULKER.id]);
    assert_eq!(inv.size(), 3);
    assert!(inv.is_empty());
    assert_eq!(inv.max_count_per_stack, DEFAULT_MAX_COUNT_PER_STACK);
    inv.set_stack(1, stack(STONE, 5));
    assert!(inv.dirty);
    assert!(!inv.is_empty());
    let taken = inv.remove_stack_specific(1, 2);
    assert_eq!(taken.item_count, 2);
    assert_eq!(inv.get_stack(1).item_count, 3);
    let nothing = inv.remove_stack_specific(0, 2);
    assert!(nothing.is_empty());
    let rest = inv.remove_stack(1);
    assert_eq!(rest.item_count, 3);
    assert!(inv.get_stack(1).is_empty());
    assert!(!inv.is_valid_slot_for(0, &stack(SHULKER, 1)));
    assert!(inv.is_valid_slot_for(0, &stack(STONE, 1)));
    inv.set_stack(2, stack(PEARL, 1));
    inv.clear();
    assert!(inv.is_empty());
}

#[test]
fn slot_insert_and_take_conserve_items() {
    let inv = Inventory::new(2, vec![]);
    let mut slot = NormalSlot::new(inv, 0);
    assert_eq!(slot.get_index(), 0);
    // 20 pearls into an empty slot: 16 fit
    let left = slot.insert_stack(stack(PEARL, 20));
    assert_eq!(left.item_count, 4);
    assert_eq!(slot.get_cloned_stack().item_count, 16);
    // a different item does not merge
    let left2 = slot.insert_stack(stack(STONE, 5));
    assert_eq!(left2.item_count, 5);
    assert_eq!(slot.get_cloned_stack().item, PEARL);
    // take a range
    let got = slot.try_take_stack_range(3, 10).unwrap();
    assert_eq!(got.item_count, 3);
    assert_eq!(slot.get_cloned_stack().item_count, 13);
    let all = slot.take_stack(50);
    assert_eq!(all.item_count, 13);
    assert!(!slot.has_stack());
    assert!(slot.try_take_stack_range(1, 5).is_none());
    assert!(slot.safe_take(1, 5).is_empty());
}

#[test]
fn slot_limits() {
    let inv = Inventory::new(1, vec![SHULKER.id]);
    let mut slot = NormalSlot::new(inv, 0);
    assert_eq!(slot.get_max_item_count(), 99);
    assert_eq!(slot.get_max_item_count_for_stack(&stack(PEARL, 1)), 16);
    assert!(!slot.can_insert(&stack(SHULKER, 1)));
    let left = slot.insert_stack(stack(SHULKER, 1));
    assert_eq!(left.item_count, 1);
    assert!(!slot.has_stack());
    slot.set_stack(stack(STONE, 4));
    let left = slot.insert_stack_count(stack(STONE, 10), 3);
    assert_eq!(left.item_count, 7);
    assert_eq!(slot.get_cloned_stack().item_count, 7);
    slot.set_id(5);
    assert_eq!(slot.id, 5);
}

#[test]
fn shulker_block_events_and_facing() {
    assert!(ShulkerBoxBlock::on_synced_block_event(OPEN_ANIMATION_EVENT_TYPE));
    assert!(!ShulkerBoxBlock::on_synced_block_event(2));
    assert_eq!(ShulkerBoxBlock::on_place(BlockDirection::Up), Facing::Down);
    assert_eq!(ShulkerBoxBlock::on_place(BlockDirection::West), Facing::East);
    assert_eq!(ShulkerBoxBlockEntity::on_viewer_count_update(3), (1, 3));
    assert_eq!(ShulkerBoxBlockEntity::on_viewer_count_update(258), (1, 2));
}

#[test]
fn shulker_container_items_truncate_slots() {
    let items = vec![(0usize, stack(STONE, 5)), (26, stack(PEARL, 2)), (300, stack(STONE, 1))];
    let tags = ShulkerBoxBlock::build_container_items(&items);
    assert_eq!(tags.len(), 3);
    assert_eq!(tags[0].slot, 0);
    assert_eq!(tags[1].slot, 26);
    assert_eq!(tags[1].stack.item, PEARL);
    assert_eq!(tags[2].slot, 44);
}

#[test]
fn shulker_loot() {
    let reg = registry();
    assert!(ShulkerBoxBlock::drop_shulker_loot(Some(true), None, SHULKER.id, &reg).is_none());
    assert!(ShulkerBoxBlock::drop_shulker_loot(Some(true), Some(vec![]), SHULKER.id, &reg).is_none());
    let plain = ShulkerBoxBlock::drop_shulker_loot(None, None, SHULKER.id, &reg).unwrap();
    assert_eq!(plain.item_count, 1);
    assert_eq!(plain.item, SHULKER);
    assert!(plain.patch.is_empty());
    let unknown = ShulkerBoxBlock::drop_shulker_loot(Some(false), None, 77, &reg).unwrap();
    assert_eq!(unknown.item.id, 0);
    let full =
        ShulkerBoxBlock::drop_shulker_loot(Some(true), Some(vec![(4, stack(STONE, 9))]), SHULKER.id, &reg).unwrap();
    assert_eq!(full.patch.len(), 1);
    assert_eq!(full.patch[0].0, DataComponent(CONTAINER));
    match &full.patch[0].1 {
        Some(DataComponentImpl::Container(c)) => {
            assert_eq!(c.items.len(), 1);
            assert_eq!(c.items[0].slot, 4);
            assert_eq!(c.items[0].stack.item_count, 9);
        },
        _ => panic!("container expected"),
    }
}

#[test]
fn shulker_contents_survive_break_and_place() {
    let reg = registry();
    let inside = vec![(0usize, stack(STONE, 9)), (13, stack(PEARL, 3))];
    let dropped = ShulkerBoxBlock::drop_shulker_loot(Some(false), Some(inside), SHULKER.id, &reg).unwrap();
    let mut entity = ShulkerBoxBlockEntity::new(BlockPos { x: 1, y: 64, z: -3 }, vec![SHULKER.id]);
    assert_eq!(entity.inventory.size(), INVENTORY_SIZE);
    ShulkerBoxBlock::player_placed(&mut entity.inventory, Some(&dropped));
    assert_eq!(entity.inventory.get_stack(0).item_count, 9);
    assert_eq!(entity.inventory.get_stack(13).item, PEARL);
    assert_eq!(entity.inventory.get_stack(13).item_count, 3);
    assert!(entity.inventory.get_stack(1).is_empty());
    assert!(!entity.is_dirty());
}

#[test]
fn shulker_placement_skips_bad_slots() {
    let container = ContainerImpl {
        items: vec![ContainerSlot { slot: -1, stack: stack(STONE, 2) }, ContainerSlot { slot: 30, stack: stack(STONE, 2) }],
    };
    let placed = ItemStack {
        item_count: 1,
        item: SHULKER,
        patch: vec![(DataComponent(CONTAINER), Some(DataComponentImpl::Container(container)))],
    };
    let items = ShulkerBoxBlock::placed_container_items(Some(&placed));
    assert_eq!(items.len(), 2);
    assert_eq!(items[0].0, usize::MAX);
    let mut entity = ShulkerBoxBlockEntity::new(BlockPos { x: 0, y: 0, z: 0 }, vec![]);
    ShulkerBoxBlock::fill_inventory(&mut entity.inventory, &items);
    assert!(entity.inventory.is_empty());
    assert!(ShulkerBoxBlock::placed_container_items(None).is_empty());
    assert!(ShulkerBoxBlock::placed_container_items(Some(&stack(SHULKER, 1))).is_empty());
}

#[test]
fn shulker_entity_dirty_flag() {
    let mut entity = ShulkerBoxBlockEntity::new(BlockPos { x: 5, y: 6, z: 7 }, vec![SHULKER.id]);
    assert_eq!(entity.get_position(), BlockPos { x: 5, y: 6, z: 7 });
    assert!(!entity.is_dirty());
    entity.inventory.set_stack(3, stack(STONE, 1));
    assert!(entity.is_dirty());
    entity.clear_dirty();
    assert!(!entity.is_dirty());
    assert!(!entity.inventory.is_valid_slot_for(0, &stack(SHULKER, 1)));
}

#[test]
fn block_pos_down() {
    assert_eq!(BlockPos { x: 1, y: 0, z: 2 }.down(), BlockPos { x: 1, y: -1, z: 2 });
}

#[test]
fn armor_slot_rules() {
    let helmet = Item { id: 4, max_stack_size: 1 };
    let inv = Inventory::new(4, vec![]);
    let mut head = ArmorSlot::new(inv, 3, EquipmentSlot::Head);
    assert_eq!(head.get_index(), 3);
    assert_eq!(head.get_max_item_count(), 1);
    assert_eq!(head.get_max_item_count_for_stack(&stack(STONE, 1)), 1);
    assert!(head.can_insert(Wearable::Helmet));
    assert!(head.can_insert(Wearable::CarvedPumpkin));
    assert!(!head.can_insert(Wearable::Boots));
    assert!(head.can_take_items());
    // boots do not go on the head
    let left = head.insert_stack(stack(helmet, 1), Wearable::Boots);
    assert_eq!(left.item_count, 1);
    // a helmet does, one at a time
    let left = head.insert_stack(stack(helmet, 2), Wearable::Helmet);
    assert_eq!(left.item_count, 1);
    assert_eq!(head.inventory.get_stack(3).item_count, 1);
    let taken = head.try_take_stack_range(1, 1, Wearable::Helmet).unwrap();
    assert_eq!(taken.item_count, 1);
    assert!(head.inventory.get_stack(3).is_empty());
    head.set_stack_prev(stack(helmet, 1), ItemStack::empty());
    assert!(head.inventory.dirty);
    let any = ArmorSlot::new(Inventory::new(1, vec![]), 0, EquipmentSlot::MainHand);
    assert!(any.can_insert(Wearable::Other));
    let chest = ArmorSlot::new(Inventory::new(1, vec![]), 0, EquipmentSlot::Chest);
    assert!(chest.can_insert(Wearable::Elytra) && !chest.can_insert(Wearable::Leggings));
}

#[test]
fn built_container_places_back_at_its_slots() {
    let items = vec![(26usize, stack(PEARL, 2)), (3, stack(STONE, 7)), (40, stack(STONE, 1))];
    let container = ContainerImpl { items: ShulkerBoxBlock::build_container_items(&items) };
    let placed = ItemStack {
        item_count: 1,
        item: SHULKER,
        patch: vec![(DataComponent(CONTAINER), Some(DataComponentImpl::Container(container)))],
    };
    let mut entity = ShulkerBoxBlockEntity::new(BlockPos { x: 0, y: 0, z: 0 }, vec![SHULKER.id]);
    entity.inventory.set_stack(5, stack(STONE, 4));
    ShulkerBoxBlock::player_placed(&mut entity.inventory, Some(&placed));
    assert_eq!(entity.inventory.get_stack(26).item, PEARL);
    assert_eq!(entity.inventory.get_stack(26).item_count, 2);
    assert_eq!(entity.inventory.get_stack(3).item_count, 7);
    assert_eq!(entity.inventory.get_stack(5).item_count, 4);
    assert!(entity.inventory.get_stack(0).is_empty());
}

#[test]
fn taking_marks_the_inventory_changed() {
    let mut inv = Inventory::new(1, vec![]);
    inv.set_stack(0, stack(STONE, 5));
    inv.dirty = false;
    let mut slot = NormalSlot::new(inv, 0);
    let taken = slot.safe_take(2, 2);
    assert_eq!(taken.item_count, 2);
    assert!(slot.inventory.dirty);
    slot.inventory.dirty = false;
    assert!(slot.try_take_stack_range(1, 1).is_some());
    assert!(slot.inventory.dirty);
}
