use pumpkin::data_component::{deserialize_from_bytes, decode_stack, item_component_counts, serialize, write_stack};
use pumpkin::error::{ReadingError, WritingError};
use pumpkin::item::{CONTAINER, ContainerImpl, ContainerSlot};
use pumpkin::item::{
    DAMAGE, DataComponent, DataComponentImpl, DamageImpl, ENCHANTMENTS, EnchantmentsImpl, FIREWORKS,
    FireworkExplosionImpl, FireworkExplosionShape, FireworksImpl, Item, ItemRegistry, ItemStack, MAX_STACK_SIZE,
    MaxStackSizeImpl, POTION_CONTENTS, PotionContentsImpl, StatusEffectInstance, UNBREAKABLE,
};
use pumpkin::item_stack_serializer::{ItemComponentHash, ItemStackHash, ItemStackSerializer, OptionalItemStackHash};
use pumpkin::ser::{Deserializer, read_string, write_string};
use pumpkin::var_int::{VarInt, read_var_int, write_var_int};

fn registry() -> ItemRegistry {
    ItemRegistry {
        items: vec![
            Item { id: 0, max_stack_size: 64 },
            Item { id: 1, max_stack_size: 64 },
            Item { id: 2, max_stack_size: 16 },
            Item { id: 3, max_stack_size: 1 },
        ],
    }
}

fn var_int_bytes(v: i32) -> Vec<u8> {
    let mut out = Vec::new();
    write_var_int(&mut out, v);
    out
}

#[test]
fn var_int_encodings() {
    assert_eq!(var_int_bytes(0), vec![0x00]);
    assert_eq!(var_int_bytes(1), vec![0x01]);
    assert_eq!(var_int_bytes(127), vec![0x7f]);
    assert_eq!(var_int_bytes(128), vec![0x80, 0x01]);
    assert_eq!(var_int_bytes(300), vec![0xac, 0x02]);
    assert_eq!(var_int_bytes(2147483647), vec![0xff, 0xff, 0xff, 0xff, 0x07]);
    assert_eq!(var_int_bytes(-1), vec![0xff, 0xff, 0xff, 0xff, 0x0f]);
    assert_eq!(var_int_bytes(-2147483648), vec![0x80, 0x80, 0x80, 0x80, 0x08]);
}

#[test]
fn var_int_round_trip_values() {
    for v in [0, 1, -1, 127, 128, 255, 25565, -2147483648, 2147483647, 300] {
        let mut bytes = vec![9u8];
        write_var_int(&mut bytes, v);
        bytes.push(7);
        let (read, end) = read_var_int(&bytes, 1).unwrap();
        assert_eq!(read, v);
        assert_eq!(bytes[end], 7);
    }
}

#[test]
fn var_int_errors() {
    assert_eq!(read_var_int(&[], 0), Err(ReadingError::EndOfInput));
    assert_eq!(read_var_int(&[0x80, 0x80], 0), Err(ReadingError::EndOfInput));
    assert_eq!(read_var_int(&[0x80, 0x80, 0x80, 0x80, 0x80, 0x01], 0), Err(ReadingError::TooLarge));
}

#[test]
fn string_round_trip_and_limits() {
    let mut out = Vec::new();
    write_string(&mut out, "héllo").unwrap();
    assert_eq!(out[0], 6);
    let (t, end) = read_string(&out, 0).unwrap();
    assert_eq!(t, "héllo");
    assert_eq!(end, out.len());

    let long = "a".repeat(32768);
    let mut out2 = Vec::new();
    assert_eq!(write_string(&mut out2, &long), Err(WritingError::TooLarge));

    // a declared length over the limit
    let mut too_long = Vec::new();
    write_var_int(&mut too_long, 32768);
    assert_eq!(read_string(&too_long, 0).unwrap_err(), ReadingError::TooLarge);
    // bytes that are not UTF-8
    assert_eq!(read_string(&[2, 0xff, 0xfe], 0).unwrap_err(), ReadingError::Invalid);
    // the string runs past the end
    assert_eq!(read_string(&[5, b'a'], 0).unwrap_err(), ReadingError::EndOfInput);
}

#[test]
fn deserializer_primitives() {
    let mut d = Deserializer::new(vec![
        0x01, 0x02, // u16
        0xff, 0xfe, // i16
        0x00, 0x01, 0x00, 0x00, // u32
        0xff, 0xff, 0xff, 0xff, 0xff, 0xff, 0xff, 0xff, // i64
        0x00, 0x00, 0x00, 0x41, // char
        0x03, 0x0a, 0x0b, 0x0c, // byte buffer
        0x01, // bool
        0x85, // i8
    ]);
    assert_eq!(d.get_u16_be(), Ok(258));
    assert_eq!(d.get_i16_be(), Ok(-2));
    assert_eq!(d.get_u32_be(), Ok(65536));
    assert_eq!(d.get_i64_be(), Ok(-1));
    assert_eq!(d.get_char(), Ok('A'));
    assert_eq!(d.get_byte_buf(), Ok(vec![0x0a, 0x0b, 0x0c]));
    assert_eq!(d.get_bool(), Ok(true));
    assert_eq!(d.get_i8(), Ok(-123));
    assert_eq!(d.bytes_read(), 26);
    assert_eq!(d.get_u8(), Err(ReadingError::EndOfInput));
    assert_eq!(d.bytes_read(), 26);
}

#[test]
fn deserializer_u64_and_i32() {
    let mut d = Deserializer::new(vec![0, 0, 0, 0, 0, 0, 1, 0, 0xff, 0xff, 0xff, 0xfe]);
    assert_eq!(d.get_u64_be(), Ok(256));
    assert_eq!(d.get_i32_be(), Ok(-2));
}

#[test]
fn deserializer_rejects_bad_chars_and_lengths() {
    let mut d = Deserializer::new(vec![0x00, 0x00, 0xd8, 0x00]);
    assert_eq!(d.get_char(), Err(ReadingError::Invalid));
    assert_eq!(d.bytes_read(), 0);

    let mut d = Deserializer::new(vec![0xff, 0xff, 0xff, 0xff, 0x0f]);
    assert_eq!(d.get_byte_buf(), Err(ReadingError::Invalid));

    let mut d = Deserializer::new(vec![0x05, 0x01]);
    assert_eq!(d.get_byte_buf(), Err(ReadingError::EndOfInput));
    assert_eq!(d.bytes_read(), 0);

    let mut d = Deserializer::new(vec![0x01]);
    assert_eq!(d.get_u16_be(), Err(ReadingError::EndOfInput));
}

#[test]
fn deserializer_var_ints_and_strings() {
    let mut bytes = Vec::new();
    write_var_int(&mut bytes, 300);
    write_var_int(&mut bytes, -1);
    write_var_int(&mut bytes, 4);
    write_string(&mut bytes, "abc").unwrap();
    write_var_int(&mut bytes, -1);
    let mut d = Deserializer::new(bytes);
    assert_eq!(d.get_var_int(), Ok(VarInt(300)));
    assert_eq!(d.get_map_len(), Ok(usize::MAX));
    assert_eq!(d.get_variant_index(), Ok(4));
    assert_eq!(d.get_string(), Ok("abc".to_string()));
    assert_eq!(d.get_variant_index(), Err(ReadingError::Invalid));
}

fn round_trip(id: u8, value: &DataComponentImpl) -> DataComponentImpl {
    let mut out = Vec::new();
    serialize(DataComponent(id), value, &mut out).unwrap();
    deserialize_from_bytes(DataComponent(id), &out, &registry()).unwrap()
}

#[test]
fn simple_components_round_trip() {
    match round_trip(MAX_STACK_SIZE, &DataComponentImpl::MaxStackSize(MaxStackSizeImpl { size: 16 })) {
        DataComponentImpl::MaxStackSize(m) => assert_eq!(m.size, 16),
        _ => panic!("wrong kind"),
    }
    match round_trip(DAMAGE, &DataComponentImpl::Damage(DamageImpl { damage: -7 })) {
        DataComponentImpl::Damage(d) => assert_eq!(d.damage, -7),
        _ => panic!("wrong kind"),
    }
    assert!(matches!(
        round_trip(UNBREAKABLE, &DataComponentImpl::Unbreakable(pumpkin::item::UnbreakableImpl)),
        DataComponentImpl::Unbreakable(_)
    ));
}

#[test]
fn enchantments_wire_form() {
    let e = EnchantmentsImpl { enchantment: vec![(0, 3), (9, 1)] };
    let mut out = Vec::new();
    serialize(DataComponent(ENCHANTMENTS), &DataComponentImpl::Enchantments(e), &mut out).unwrap();
    // count, then each id one above the registry id and the level
    assert_eq!(out, vec![2, 1, 3, 10, 1]);
    match deserialize_from_bytes(DataComponent(ENCHANTMENTS), &out, &registry()).unwrap() {
        DataComponentImpl::Enchantments(back) => assert_eq!(back.enchantment, vec![(0, 3), (9, 1)]),
        _ => panic!("wrong kind"),
    }
    // an id of zero names no enchantment
    assert_eq!(
        deserialize_from_bytes(DataComponent(ENCHANTMENTS), &[1, 0, 1], &registry()).unwrap_err(),
        ReadingError::Invalid
    );
}

#[test]
fn max_stack_size_out_of_range_is_invalid() {
    let bytes = var_int_bytes(256);
    assert_eq!(
        deserialize_from_bytes(DataComponent(MAX_STACK_SIZE), &bytes, &registry()).unwrap_err(),
        ReadingError::Invalid
    );
    assert_eq!(deserialize_from_bytes(DataComponent(MAX_STACK_SIZE), &[], &registry()).unwrap_err(), ReadingError::Missing);
}

#[test]
fn unsupported_component() {
    assert_eq!(deserialize_from_bytes(DataComponent(0), &[0], &registry()).unwrap_err(), ReadingError::Unsupported);
}

#[test]
fn potion_round_trip_with_all_fields() {
    let p = PotionContentsImpl {
        potion_id: Some(5),
        custom_color: Some(0x00ff00),
        custom_effects: vec![StatusEffectInstance {
            effect_id: 1,
            amplifier: 2,
            duration: 600,
            ambient: false,
            show_particles: true,
            show_icon: true,
        }],
        custom_name: Some("swift".to_string()),
    };
    match round_trip(POTION_CONTENTS, &DataComponentImpl::PotionContents(p)) {
        DataComponentImpl::PotionContents(back) => {
            assert_eq!(back.potion_id, Some(5));
            assert_eq!(back.custom_color, Some(0x00ff00));
            assert_eq!(back.custom_effects.len(), 1);
            assert_eq!(back.custom_effects[0].duration, 600);
            assert_eq!(back.custom_name, Some("swift".to_string()));
        },
        _ => panic!("wrong kind"),
    }
}

#[test]
fn potion_without_id_reads_the_next_field_anyway() {
    // The reader consumes a VarInt after a false flag: the color flag is swallowed.
    let p = PotionContentsImpl { potion_id: None, custom_color: None, custom_effects: vec![], custom_name: None };
    let mut out = Vec::new();
    serialize(DataComponent(POTION_CONTENTS), &DataComponentImpl::PotionContents(p), &mut out).unwrap();
    assert_eq!(out, vec![0, 0, 0, 0]);
    assert!(deserialize_from_bytes(DataComponent(POTION_CONTENTS), &out, &registry()).is_err());
}

#[test]
fn fireworks_round_trip() {
    let f = FireworksImpl {
        flight_duration: 2,
        explosions: vec![FireworkExplosionImpl {
            shape: FireworkExplosionShape::Star,
            colors: vec![0xff0000, 0x0000ff],
            fade_colors: vec![],
            has_trail: true,
            has_twinkle: false,
        }],
    };
    match round_trip(FIREWORKS, &DataComponentImpl::Fireworks(f)) {
        DataComponentImpl::Fireworks(back) => {
            assert_eq!(back.flight_duration, 2);
            assert_eq!(back.explosions.len(), 1);
            assert_eq!(back.explosions[0].shape, FireworkExplosionShape::Star);
            assert_eq!(back.explosions[0].colors, vec![0xff0000, 0x0000ff]);
            assert!(back.explosions[0].has_trail);
        },
        _ => panic!("wrong kind"),
    }
}

#[test]
fn decode_plain_stack() {
    // count 5, item 2, no added, no removed components
    let bytes = vec![5, 2, 0, 0];
    let (stack, end) = decode_stack(&bytes, 0, &registry()).unwrap();
    assert_eq!(end, 4);
    assert_eq!(stack.item_count, 5);
    assert_eq!(stack.item, Item { id: 2, max_stack_size: 16 });
    assert!(stack.patch.is_empty());
}

#[test]
fn decode_empty_and_unknown_stacks() {
    let (stack, end) = decode_stack(&[0, 99], 0, &registry()).unwrap();
    assert_eq!(end, 1);
    assert!(stack.is_empty());
    // an item id past the registry reads as the empty item
    let (stack, _) = decode_stack(&[1, 50, 0, 0], 0, &registry()).unwrap();
    assert_eq!(stack.item.id, 0);
    // too many component changes
    let mut bytes = vec![1, 1];
    write_var_int(&mut bytes, 200);
    write_var_int(&mut bytes, 57);
    assert_eq!(decode_stack(&bytes, 0, &registry()).unwrap_err(), ReadingError::Invalid);
}

#[test]
fn decode_stack_with_components() {
    // count 1, item 3, one added component (damage 9 in one byte), one removed (unbreakable)
    let bytes = vec![1, 3, 1, 1, DAMAGE, 1, 9, UNBREAKABLE];
    let (stack, end) = decode_stack(&bytes, 0, &registry()).unwrap();
    assert_eq!(end, bytes.len());
    assert_eq!(stack.patch.len(), 2);
    assert_eq!(stack.patch[0].0, DataComponent(DAMAGE));
    match &stack.patch[0].1 {
        Some(DataComponentImpl::Damage(d)) => assert_eq!(d.damage, 9),
        _ => panic!("damage expected"),
    }
    assert_eq!(stack.patch[1].0, DataComponent(UNBREAKABLE));
    assert!(stack.patch[1].1.is_none());
    assert_eq!(item_component_counts(&stack), (1, 1));
}

#[test]
fn removal_only_stack_round_trip() {
    let stack = ItemStack {
        item_count: 7,
        item: Item { id: 1, max_stack_size: 64 },
        patch: vec![(DataComponent(DAMAGE), None), (DataComponent(UNBREAKABLE), None)],
    };
    let mut out = Vec::new();
    write_stack(&mut out, &stack, 1).unwrap();
    assert_eq!(out, vec![7, 1, 0, 2, DAMAGE, UNBREAKABLE]);
    let (back, end) = decode_stack(&out, 0, &registry()).unwrap();
    assert_eq!(end, out.len());
    assert_eq!(back.item_count, 7);
    assert_eq!(back.item.id, 1);
    assert_eq!(back.patch.len(), 2);
    assert!(back.patch.iter().all(|e| e.1.is_none()));
}

#[test]
fn empty_stack_writes_a_zero() {
    let mut out = Vec::new();
    ItemStackSerializer::from_option(None).serialize(&mut out).unwrap();
    assert_eq!(out, vec![0]);
}

#[test]
fn serializer_reads_and_remaps() {
    let mut d = Deserializer::new(vec![3, 1, 0, 0]);
    let s = ItemStackSerializer::deserialize(&mut d, &registry()).unwrap();
    assert_eq!(d.bytes_read(), 4);
    let remapped = s.to_stack_for_version(2, &registry());
    assert_eq!(remapped.item, Item { id: 2, max_stack_size: 16 });
    assert_eq!(remapped.item_count, 3);

    let stack = ItemStack { item_count: 2, item: Item { id: 1, max_stack_size: 64 }, patch: vec![] };
    let mut out = Vec::new();
    ItemStackSerializer(stack).write_with_version(&mut out, 300).unwrap();
    assert_eq!(out, vec![2, 0xac, 0x02, 0, 0]);
    let back = ItemStackSerializer(ItemStack { item_count: 2, item: Item { id: 1, max_stack_size: 64 }, patch: vec![] })
        .to_stack();
    assert_eq!(back.item_count, 2);
}

#[test]
fn stack_hash_matching() {
    let stack = ItemStack {
        item_count: 4,
        item: Item { id: 2, max_stack_size: 16 },
        patch: vec![
            (DataComponent(DAMAGE), Some(DataComponentImpl::Damage(DamageImpl { damage: 1 }))),
            (DataComponent(UNBREAKABLE), None),
        ],
    };
    let hash = OptionalItemStackHash(Some(ItemStackHash {
        item_id: VarInt(2),
        count: VarInt(4),
        components: ItemComponentHash { added: vec![(VarInt(DAMAGE as i32), 1234)], removed: vec![VarInt(UNBREAKABLE as i32)] },
    }));
    assert!(hash.hash_equals(&stack, &[1234, 0]));
    assert!(!hash.hash_equals(&stack, &[4321, 0]));
    let none = OptionalItemStackHash(None);
    assert!(!none.hash_equals(&stack, &[1234, 0]));
    assert!(none.hash_equals(&ItemStack::empty(), &[]));
}

#[test]
fn optional_hash_wire_form() {
    let mut bytes = vec![1, 2, 4, 1, DAMAGE];
    bytes.extend_from_slice(&1234i32.to_be_bytes());
    bytes.extend_from_slice(&[1, UNBREAKABLE]);
    let mut d = Deserializer::new(bytes.clone());
    let h = OptionalItemStackHash::deserialize(&mut d).unwrap();
    assert_eq!(d.bytes_read(), bytes.len());
    let inner = h.0.unwrap();
    assert_eq!(inner.item_id, VarInt(2));
    assert_eq!(inner.count, VarInt(4));
    assert_eq!(inner.components.added, vec![(VarInt(DAMAGE as i32), 1234)]);
    assert_eq!(inner.components.removed, vec![VarInt(UNBREAKABLE as i32)]);

    let mut d = Deserializer::new(vec![0]);
    assert!(OptionalItemStackHash::deserialize(&mut d).unwrap().0.is_none());

    let (c, end) = ItemComponentHash::decode(&[0, 0], 0).unwrap();
    assert!(c.added.is_empty() && c.removed.is_empty());
    assert_eq!(end, 2);
    let mut too_many = Vec::new();
    write_var_int(&mut too_many, 257);
    assert_eq!(ItemComponentHash::decode(&too_many, 0).unwrap_err(), ReadingError::Invalid);
}

#[test]
fn container_round_trip_in_slot_order() {
    let container = ContainerImpl {
        items: vec![
            ContainerSlot { slot: 2, stack: ItemStack { item_count: 3, item: Item { id: 1, max_stack_size: 64 }, patch: vec![] } },
            ContainerSlot {
                slot: 0,
                stack: ItemStack {
                    item_count: 1,
                    item: Item { id: 3, max_stack_size: 1 },
                    patch: vec![(DataComponent(DAMAGE), None)],
                },
            },
        ],
    };
    let mut out = Vec::new();
    serialize(DataComponent(CONTAINER), &DataComponentImpl::Container(container), &mut out).unwrap();
    // size 3, slot 0: count 1 item 3 (0 added, 1 removed: damage), slot 1: empty, slot 2: count 3 item 1
    assert_eq!(out, vec![3, 1, 3, 0, 1, DAMAGE, 0, 3, 1, 0, 0]);
    match deserialize_from_bytes(DataComponent(CONTAINER), &out, &registry()).unwrap() {
        DataComponentImpl::Container(back) => {
            assert_eq!(back.items.len(), 2);
            assert_eq!(back.items[0].slot, 0);
            assert_eq!(back.items[0].stack.item.id, 3);
            assert_eq!(back.items[0].stack.patch.len(), 1);
            assert_eq!(back.items[1].slot, 2);
            assert_eq!(back.items[1].stack.item_count, 3);
        },
        _ => panic!("container expected"),
    }
}

#[test]
fn added_component_does_not_read_back() {
    // The writer puts no byte length before an added value; the reader expects one.
    let stack = ItemStack {
        item_count: 1,
        item: Item { id: 1, max_stack_size: 64 },
        patch: vec![(DataComponent(DAMAGE), Some(DataComponentImpl::Damage(DamageImpl { damage: 5 })))],
    };
    let mut out = Vec::new();
    write_stack(&mut out, &stack, 1).unwrap();
    assert_eq!(out, vec![1, 1, 1, 0, DAMAGE, 5]);
    assert_eq!(decode_stack(&out, 0, &registry()).unwrap_err(), ReadingError::EndOfInput);
}
