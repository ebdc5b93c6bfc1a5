use crate::components::{MAX_EFFECTS, MAX_ENCHANTMENTS, MAX_EXPLOSIONS, MAX_FLIGHT_DURATION, enc_damage, enc_max_stack_size};
use crate::data_component::{
    MAX_COMPONENTS, added_count, container_size, dec_adds, dec_container_items, dec_removes, dec_stack,
    deserialize_component, empty_stack_view, enc_adds, enc_component, enc_container, enc_removes, enc_slots, enc_stack,
    is_empty_view, kind_id, last_slot_index, lemma_last_slot_index, lookup_item, removed_count,
};
use crate::error::ReadingError;
use crate::item::{CONTAINER, ComponentView, DATA_COMPONENT_COUNT, DataComponent, Item, ItemStackView};
use crate::roundtrip::{
    enchantment_ids_valid, explosion_readable, holds_at, lemma_enchantments_at, lemma_explosion_at, lemma_fireworks_at,
    lemma_potion_at, lemma_var_int_at,
};
use crate::var_int::{decode_var_int, encode_var_int, lemma_encode_var_u32_len, lemma_var_int_roundtrip};
use crate::codec::next_var_int_at;
use vstd::prelude::*;

verus! {

/// A component value that its reader gives back unchanged: lists within the reader's
/// bounds, enchantment ids registered, a potion with both its id and its color, a flight
/// duration in range. Containers have their own law, [`lemma_container_roundtrip`].
pub open spec fn component_readable(c: ComponentView) -> bool {
    match c {
        ComponentView::MaxStackSize(_) => true,
        ComponentView::Damage(_) => true,
        ComponentView::Unbreakable => true,
        ComponentView::Enchantments(es) => es.len() <= MAX_ENCHANTMENTS && enchantment_ids_valid(es),
        ComponentView::PotionContents(v) => v.potion_id is Some && v.custom_color is Some && v.custom_effects.len()
            <= MAX_EFFECTS,
        ComponentView::FireworkExplosion(e) => explosion_readable(e),
        ComponentView::Fireworks(f, es) => 0 <= f <= MAX_FLIGHT_DURATION && es.len() <= MAX_EXPLOSIONS && forall|i: int|
            0 <= i < es.len() ==> explosion_readable(#[trigger] es[i]),
        ComponentView::Container(_) => false,
    }
}

/// Reading a written component value gives it back: for every value that can be written
/// and that the reader accepts, the bytes that [`enc_component`] gives read back, as its
/// own kind, to the same value.
pub proof fn lemma_component_roundtrip(c: ComponentView, items: Seq<Item>)
    requires
        component_readable(c),
        enc_component(c) is Some,
    ensures
        deserialize_component(DataComponent(kind_id(c)), enc_component(c)->0, items) == Ok::<ComponentView, ReadingError>(c),
{
    let w = enc_component(c)->0;
    assert(w.subrange(0, w.len() as int) =~= w);
    match c {
        ComponentView::MaxStackSize(size) => {
            lemma_var_int_at(w, 0, size as i32);
        },
        ComponentView::Damage(d) => {
            lemma_var_int_at(w, 0, d);
        },
        ComponentView::Unbreakable => {},
        ComponentView::Enchantments(es) => {
            lemma_enchantments_at(w, 0, es);
        },
        ComponentView::PotionContents(v) => {
            lemma_potion_at(w, 0, v);
        },
        ComponentView::FireworkExplosion(e) => {
            lemma_explosion_at(w, 0, e);
        },
        ComponentView::Fireworks(f, es) => {
            lemma_fireworks_at(w, 0, (f, es));
        },
        ComponentView::Container(_) => {},
    }
}

/// A stack whose patch only removes components, each of a registered kind, and whose
/// item is the registry's entry for its id.
pub open spec fn removal_stack(v: ItemStackView, items: Seq<Item>) -> bool {
    &&& forall|i: int| 0 <= i < v.patch.len() ==> (#[trigger] v.patch[i]).1 is None && v.patch[i].0.0 < DATA_COMPONENT_COUNT
    &&& v.patch.len() <= MAX_COMPONENTS
    &&& (v.item.id as int) < items.len()
    &&& items[v.item.id as int] == v.item
}

proof fn lemma_removal_counts(patch: Seq<(DataComponent, Option<ComponentView>)>)
    requires
        forall|i: int| 0 <= i < patch.len() ==> (#[trigger] patch[i]).1 is None,
    ensures
        added_count(patch) == 0,
        removed_count(patch) == patch.len(),
    decreases patch.len(),
{
    if patch.len() > 0 {
        assert forall|i: int| 0 <= i < patch.drop_last().len() implies (#[trigger] patch.drop_last()[i]).1 is None by {
            assert(patch.drop_last()[i] == patch[i]);
        }
        lemma_removal_counts(patch.drop_last());
        assert(patch.last() == patch[patch.len() - 1]);
    }
}

proof fn lemma_enc_adds_none(patch: Seq<(DataComponent, Option<ComponentView>)>, i: int)
    requires
        0 <= i,
        forall|k: int| 0 <= k < patch.len() ==> (#[trigger] patch[k]).1 is None,
    ensures
        enc_adds(patch, i) == Some(Seq::<u8>::empty()),
    decreases patch.len() - i,
{
    if i < patch.len() {
        lemma_enc_adds_none(patch, i + 1);
        assert(patch[i].1 is None);
        assert(Seq::<u8>::empty() + Seq::<u8>::empty() =~= Seq::<u8>::empty());
    }
}

proof fn lemma_removes_at(s: Seq<u8>, p: int, patch: Seq<(DataComponent, Option<ComponentView>)>, i: int)
    requires
        0 <= i <= patch.len(),
        forall|k: int| 0 <= k < patch.len() ==> (#[trigger] patch[k]).1 is None && patch[k].0.0 < DATA_COMPONENT_COUNT,
        holds_at(s, p, enc_removes(patch, i)),
    ensures
        dec_removes(s, p, (patch.len() - i) as nat) == Ok::<(Seq<(DataComponent, Option<ComponentView>)>, int), ReadingError>(
            (patch.subrange(i, patch.len() as int), p + enc_removes(patch, i).len()),
        ),
    decreases patch.len() - i,
{
    if i == patch.len() {
        assert(patch.subrange(i, i) =~= Seq::<(DataComponent, Option<ComponentView>)>::empty());
    } else {
        let id = patch[i].0.0;
        let e = encode_var_int(id as i32);
        assert(patch[i].1 is None);
        assert(enc_removes(patch, i) == e + enc_removes(patch, i + 1));
        crate::codec::lemma_window_split(s, p, e, enc_removes(patch, i + 1));
        lemma_var_int_at(s, p, id as i32);
        assert(next_var_int_at(s, p) == decode_var_int(s, p));
        assert(((id as i32) as u8) == id);
        lemma_removes_at(s, p + e.len(), patch, i + 1);
        assert(seq![(DataComponent(id), None::<ComponentView>)] + patch.subrange(i + 1, patch.len() as int) =~= patch.subrange(
            i,
            patch.len() as int,
        ));
        assert(patch[i] == (DataComponent(id), None::<ComponentView>));
        assert((patch.len() - i - 1) as nat == (patch.len() - i) as nat - 1);
    }
}

/// A stack that is empty reads as the empty stack.
pub open spec fn read_back_stack(v: ItemStackView) -> ItemStackView {
    if is_empty_view(v) {
        empty_stack_view()
    } else {
        v
    }
}

#[verifier::rlimit(40)]
proof fn lemma_removal_stack_at(s: Seq<u8>, p: int, v: ItemStackView, items: Seq<Item>)
    requires
        !is_empty_view(v),
        removal_stack(v, items),
        enc_stack(v, v.item.id) is Some,
        holds_at(s, p, enc_stack(v, v.item.id)->0),
    ensures
        dec_stack(s, p, items) == Ok::<(ItemStackView, int), ReadingError>((v, p + enc_stack(v, v.item.id)->0.len())),
{
    let patch = v.patch;
    lemma_removal_counts(patch);
    lemma_enc_adds_none(patch, 0);
    let h1 = encode_var_int(v.item_count as i32);
    let h2 = encode_var_int(v.item.id as i32);
    let h3 = encode_var_int(0);
    let h4 = encode_var_int(patch.len() as i32);
    let rm = enc_removes(patch, 0);
    let head = h1 + h2 + h3 + h4;
    let whole = head + (Seq::<u8>::empty() + rm);
    assert(enc_stack(v, v.item.id) == Some(whole));
    assert(Seq::<u8>::empty() + rm =~= rm);
    crate::codec::lemma_window_split(s, p, head, rm);
    crate::codec::lemma_window_split(s, p, h1 + h2 + h3, h4);
    crate::codec::lemma_window_split(s, p, h1 + h2, h3);
    crate::codec::lemma_window_split(s, p, h1, h2);
    let p1 = p + h1.len();
    let p2 = p1 + h2.len();
    let p3 = p2 + h3.len();
    let p4 = p3 + h4.len();
    lemma_var_int_at(s, p, v.item_count as i32);
    lemma_var_int_at(s, p1, v.item.id as i32);
    lemma_var_int_at(s, p2, 0);
    lemma_var_int_at(s, p3, patch.len() as i32);
    assert(decode_var_int(s, p) == Ok::<(i32, int), ReadingError>((v.item_count as i32, p1)));
    assert(decode_var_int(s, p1) == Ok::<(i32, int), ReadingError>((v.item.id as i32, p2)));
    assert(decode_var_int(s, p2) == Ok::<(i32, int), ReadingError>((0, p3)));
    assert(decode_var_int(s, p3) == Ok::<(i32, int), ReadingError>((patch.len() as i32, p4)));
    lemma_removes_at(s, p4, patch, 0);
    assert(patch.subrange(0, patch.len() as int) =~= patch);
    assert(v.item_count != 0);
    assert(((v.item_count as i32) as u8) == v.item_count);
    assert(lookup_item(items, v.item.id) == v.item);
    assert(Seq::<(DataComponent, Option<ComponentView>)>::empty() + patch =~= patch);
    assert(dec_adds(s, p4, 0, items) == Ok::<(Seq<(DataComponent, Option<ComponentView>)>, int), ReadingError>(
        (Seq::empty(), p4),
    ));
    assert(p4 + rm.len() == p + whole.len());
}

/// A written stack reads back at any position: a stack whose patch only removes
/// components gives itself, an empty one the empty stack.
proof fn lemma_stack_at(s: Seq<u8>, p: int, v: ItemStackView, items: Seq<Item>)
    requires
        is_empty_view(v) || removal_stack(v, items),
        enc_stack(v, v.item.id) is Some,
        holds_at(s, p, enc_stack(v, v.item.id)->0),
    ensures
        dec_stack(s, p, items) == Ok::<(ItemStackView, int), ReadingError>(
            (read_back_stack(v), p + enc_stack(v, v.item.id)->0.len()),
        ),
{
    if is_empty_view(v) {
        lemma_var_int_at(s, p, 0);
        assert(decode_var_int(s, p) == Ok::<(i32, int), ReadingError>((0, p + encode_var_int(0).len())));
    } else {
        lemma_removal_stack_at(s, p, v, items);
    }
}

proof fn lemma_removal_stack_writable(v: ItemStackView, items: Seq<Item>)
    requires
        is_empty_view(v) || removal_stack(v, items),
    ensures
        enc_stack(v, v.item.id) is Some,
{
    if !is_empty_view(v) {
        lemma_enc_adds_none(v.patch, 0);
    }
}

/// Reading a written stack gives it back, when its patch only removes components (the
/// writer puts no byte length before an added component's value, which the reader
/// expects) and its item is registered; an empty stack reads back as the empty stack.
pub proof fn lemma_stack_roundtrip(v: ItemStackView, items: Seq<Item>, rest: Seq<u8>)
    requires
        is_empty_view(v) || removal_stack(v, items),
    ensures
        enc_stack(v, v.item.id) is Some,
        dec_stack(enc_stack(v, v.item.id)->0 + rest, 0, items) == Ok::<(ItemStackView, int), ReadingError>(
            (if is_empty_view(v) {
                empty_stack_view()
            } else {
                v
            }, enc_stack(v, v.item.id)->0.len() as int),
        ),
{
    lemma_removal_stack_writable(v, items);
    let w = enc_stack(v, v.item.id)->0;
    assert((w + rest).subrange(0, w.len() as int) =~= w);
    lemma_stack_at(w + rest, 0, v, items);
}

/// The stacks that reading a written container gives for slots `j` on: for each slot
/// below the container's size, the last stack listed for it, unless that one is empty.
pub open spec fn container_read_back(items: Seq<(i8, ItemStackView)>, j: int) -> Seq<(i8, ItemStackView)>
    decreases container_size(items) - j,
{
    if j < 0 || j >= container_size(items) {
        Seq::empty()
    } else {
        let k = last_slot_index(items, j);
        let rest = container_read_back(items, j + 1);
        if 0 <= k < items.len() && !is_empty_view(items[k].1) {
            seq![(j as i8, items[k].1)] + rest
        } else {
            rest
        }
    }
}

/// Every stack of a container is empty or only removes components, and its item is
/// registered.
pub open spec fn container_readable(items: Seq<(i8, ItemStackView)>, reg: Seq<Item>) -> bool {
    forall|i: int| 0 <= i < items.len() ==> is_empty_view(#[trigger] items[i].1) || removal_stack(items[i].1, reg)
}

proof fn lemma_container_size_bound(items: Seq<(i8, ItemStackView)>)
    ensures
        container_size(items) <= 128,
    decreases items.len(),
{
    if items.len() > 0 {
        lemma_container_size_bound(items.drop_last());
    }
}

proof fn lemma_slots_some(items: Seq<(i8, ItemStackView)>, j: int, reg: Seq<Item>)
    requires
        0 <= j,
        container_readable(items, reg),
    ensures
        enc_slots(items, j) is Some,
    decreases container_size(items) - j,
{
    if j < container_size(items) {
        let k = last_slot_index(items, j);
        lemma_last_slot_index(items, j);
        if 0 <= k < items.len() {
            assert(is_empty_view(items[k].1) || removal_stack(items[k].1, reg));
            lemma_removal_stack_writable(items[k].1, reg);
        }
        lemma_slots_some(items, j + 1, reg);
    }
}

#[verifier::spinoff_prover]
#[verifier::rlimit(40)]
proof fn lemma_slots_at(s: Seq<u8>, p: int, items: Seq<(i8, ItemStackView)>, j: int, reg: Seq<Item>)
    requires
        0 <= j <= container_size(items),
        container_readable(items, reg),
        enc_slots(items, j) is Some,
        holds_at(s, p, enc_slots(items, j)->0),
    ensures
        dec_container_items(s, p, j, (container_size(items) - j) as nat, reg) == Ok::<
            (Seq<(i8, ItemStackView)>, int),
            ReadingError,
        >((container_read_back(items, j), p + enc_slots(items, j)->0.len())),
    decreases container_size(items) - j,
{
    if j < container_size(items) {
        let k = last_slot_index(items, j);
        lemma_last_slot_index(items, j);
        let v = if 0 <= k < items.len() {
            items[k].1
        } else {
            empty_stack_view()
        };
        if 0 <= k < items.len() {
            assert(is_empty_view(items[k].1) || removal_stack(items[k].1, reg));
        }
        lemma_removal_stack_writable(v, reg);
        lemma_slots_some(items, j + 1, reg);
        let x = enc_stack(v, v.item.id)->0;
        let y = enc_slots(items, j + 1)->0;
        assert(enc_slots(items, j) == Some(x + y));
        crate::codec::lemma_window_split(s, p, x, y);
        lemma_stack_at(s, p, v, reg);
        if is_empty_view(v) {
            lemma_encode_var_u32_len(0);
        } else {
            assert(x.len() > 0) by {
                lemma_encode_var_u32_len(v.item_count as u32);
                assert(x == encode_var_int(v.item_count as i32) + encode_var_int(v.item.id as i32) + encode_var_int(
                    added_count(v.patch) as i32,
                ) + encode_var_int(removed_count(v.patch) as i32) + enc_adds(v.patch, 0)->0 + enc_removes(v.patch, 0));
            }
        }
        lemma_slots_at(s, p + x.len(), items, j + 1, reg);
        assert((container_size(items) - j) as nat - 1 == (container_size(items) - (j + 1)) as nat);
    } else {
        assert(enc_slots(items, j) == Some(Seq::<u8>::empty()));
    }
}

/// Reading a written container gives back, in slot order, the last stack listed for each
/// slot, empty ones left out, when each stack only removes components (the writer puts
/// no byte length before an added component's value).
#[verifier::spinoff_prover]
#[verifier::rlimit(60)]
pub proof fn lemma_container_roundtrip(items: Seq<(i8, ItemStackView)>, reg: Seq<Item>)
    requires
        container_readable(items, reg),
    ensures
        enc_container(items) is Some,
        deserialize_component(DataComponent(CONTAINER), enc_container(items)->0, reg) == Ok::<ComponentView, ReadingError>(
            ComponentView::Container(container_read_back(items, 0)),
        ),
{
    let n = container_size(items);
    lemma_container_size_bound(items);
    lemma_slots_some(items, 0, reg);
    let h = encode_var_int(n as i32);
    let b = enc_slots(items, 0)->0;
    let w = h + b;
    assert(enc_container(items) == Some(w));
    assert(w.subrange(0, w.len() as int) =~= w);
    crate::codec::lemma_window_split(w, 0, h, b);
    lemma_var_int_at(w, 0, n as i32);
    lemma_slots_at(w, h.len() as int, items, 0, reg);
}

/// A container in canonical form: slot numbers not negative and strictly rising, and no
/// empty stack listed.
pub open spec fn container_canonical(items: Seq<(i8, ItemStackView)>) -> bool {
    &&& forall|i: int| 0 <= i < items.len() ==> 0 <= (#[trigger] items[i]).0 && !is_empty_view(items[i].1)
    &&& forall|i: int, k: int| 0 <= i < k < items.len() ==> (#[trigger] items[i]).0 < (#[trigger] items[k]).0
}

/// The index of the first entry with a slot of at least `j`, for rising slots.
spec fn first_at_least(items: Seq<(i8, ItemStackView)>, j: int) -> int
    decreases items.len(),
{
    if items.len() == 0 {
        0
    } else if items.last().0 < j {
        items.len() as int
    } else {
        first_at_least(items.drop_last(), j)
    }
}

/// `f` splits the entries into those below slot `j` and those at or above it.
spec fn splits_at(items: Seq<(i8, ItemStackView)>, j: int, f: int) -> bool {
    &&& 0 <= f <= items.len()
    &&& forall|i: int| 0 <= i < f ==> (#[trigger] items[i]).0 < j
    &&& forall|i: int| f <= i < items.len() ==> (#[trigger] items[i]).0 >= j
}

proof fn lemma_splits_unique(items: Seq<(i8, ItemStackView)>, j: int, f: int, g: int)
    requires
        splits_at(items, j, f),
        splits_at(items, j, g),
    ensures
        f == g,
{
    if f < g {
        assert(items[f].0 < j);
    } else if g < f {
        assert(items[g].0 < j);
    }
}

proof fn lemma_first_at_least(items: Seq<(i8, ItemStackView)>, j: int)
    requires
        container_canonical(items),
    ensures
        splits_at(items, j, first_at_least(items, j)),
    decreases items.len(),
{
    if items.len() > 0 {
        let pre = items.drop_last();
        assert(container_canonical(pre)) by {
            assert forall|i: int| 0 <= i < pre.len() implies 0 <= (#[trigger] pre[i]).0 && !is_empty_view(pre[i].1) by {
                assert(pre[i] == items[i]);
            }
            assert forall|i: int, k: int| 0 <= i < k < pre.len() implies (#[trigger] pre[i]).0 < (#[trigger] pre[k]).0 by {
                assert(pre[i] == items[i] && pre[k] == items[k]);
            }
        }
        lemma_first_at_least(pre, j);
        let n = items.len() - 1;
        if items.last().0 < j {
            assert forall|i: int| 0 <= i < items.len() implies (#[trigger] items[i]).0 < j by {
                if i < n {
                    assert(items[i].0 < items[n].0);
                }
            }
        } else {
            let f = first_at_least(pre, j);
            assert forall|i: int| 0 <= i < f implies (#[trigger] items[i]).0 < j by {
                assert(pre[i] == items[i]);
            }
            assert forall|i: int| f <= i < items.len() implies (#[trigger] items[i]).0 >= j by {
                if i < n {
                    assert(pre[i] == items[i]);
                }
            }
        }
    }
}

proof fn lemma_slots_below_size(items: Seq<(i8, ItemStackView)>)
    ensures
        forall|i: int| 0 <= i < items.len() ==> (#[trigger] items[i]).0 < container_size(items),
    decreases items.len(),
{
    if items.len() > 0 {
        let pre = items.drop_last();
        lemma_slots_below_size(pre);
        assert forall|i: int| 0 <= i < items.len() implies (#[trigger] items[i]).0 < container_size(items) by {
            if i < items.len() - 1 {
                assert(pre[i] == items[i]);
            }
        }
    }
}

proof fn lemma_last_slot_found(items: Seq<(i8, ItemStackView)>, j: int, i: int)
    requires
        0 <= i < items.len(),
        items[i].0 == j,
    ensures
        last_slot_index(items, j) >= i,
    decreases items.len(),
{
    if items.last().0 != j {
        assert(i < items.len() - 1);
        assert(items.drop_last()[i] == items[i]);
        lemma_last_slot_found(items.drop_last(), j, i);
    }
}

proof fn lemma_read_back_suffix(items: Seq<(i8, ItemStackView)>, j: int)
    requires
        container_canonical(items),
        0 <= j <= container_size(items),
    ensures
        container_read_back(items, j) == items.subrange(first_at_least(items, j), items.len() as int),
    decreases container_size(items) - j,
{
    lemma_first_at_least(items, j);
    let f = first_at_least(items, j);
    let len = items.len() as int;
    if j == container_size(items) {
        lemma_slots_below_size(items);
        assert(splits_at(items, j, len));
        lemma_splits_unique(items, j, f, len);
        assert(items.subrange(len, len) =~= Seq::<(i8, ItemStackView)>::empty());
    } else {
        lemma_read_back_suffix(items, j + 1);
        lemma_first_at_least(items, j + 1);
        let g = first_at_least(items, j + 1);
        let k = last_slot_index(items, j);
        lemma_last_slot_index(items, j);
        if f < len && items[f].0 == j {
            assert(splits_at(items, j + 1, f + 1)) by {
                assert forall|i: int| f + 1 <= i < len implies (#[trigger] items[i]).0 >= j + 1 by {
                    assert(items[f].0 < items[i].0);
                }
            }
            lemma_splits_unique(items, j + 1, g, f + 1);
            lemma_last_slot_found(items, j, f);
            if k > f {
                assert(items[f].0 < items[k].0);
            }
            assert(k == f);
            assert(items[f] == (j as i8, items[f].1));
            assert(seq![items[f]] + items.subrange(f + 1, len) =~= items.subrange(f, len));
        } else {
            assert(splits_at(items, j + 1, f)) by {
                assert forall|i: int| f <= i < len implies (#[trigger] items[i]).0 >= j + 1 by {
                    if i > f {
                        assert(items[f].0 < items[i].0);
                    }
                }
            }
            lemma_splits_unique(items, j + 1, g, f);
            if k >= 0 {
                assert(items[k].0 == j);
                assert(k < f || k >= f);
                if k >= f {
                    if k > f {
                        assert(items[f].0 < items[k].0);
                    }
                }
            }
            assert(k < 0);
        }
    }
}

/// A container in canonical form reads back as itself after it is written.
pub proof fn lemma_canonical_container_roundtrip(items: Seq<(i8, ItemStackView)>, reg: Seq<Item>)
    requires
        container_canonical(items),
        container_readable(items, reg),
    ensures
        enc_container(items) is Some,
        deserialize_component(DataComponent(CONTAINER), enc_container(items)->0, reg) == Ok::<ComponentView, ReadingError>(
            ComponentView::Container(items),
        ),
{
    lemma_container_roundtrip(items, reg);
    lemma_read_back_suffix(items, 0);
    lemma_first_at_least(items, 0);
    assert(splits_at(items, 0, 0));
    lemma_splits_unique(items, 0, first_at_least(items, 0), 0);
    assert(items.subrange(0, items.len() as int) =~= items);
}

/// Added entries of a patch made from component values, each under its own kind.
pub open spec fn added_entries(adds: Seq<ComponentView>) -> Seq<(DataComponent, Option<ComponentView>)> {
    adds.map_values(|c: ComponentView| (DataComponent(kind_id(c)), Some(c)))
}

/// Removed entries of a patch made from component kinds.
pub open spec fn removed_entries(removes: Seq<DataComponent>) -> Seq<(DataComponent, Option<ComponentView>)> {
    removes.map_values(|d: DataComponent| (d, None::<ComponentView>))
}

/// One added component as a stack carries it on the wire: its kind id, the byte length
/// of its value, then the value.
pub open spec fn framed_add(c: ComponentView) -> Seq<u8> {
    let w = enc_component(c)->0;
    encode_var_int(kind_id(c) as i32) + encode_var_int(w.len() as i32) + w
}

/// Added components, each framed with its byte length, one after another.
pub open spec fn framed_adds(adds: Seq<ComponentView>) -> Seq<u8>
    decreases adds.len(),
{
    if adds.len() == 0 {
        Seq::empty()
    } else {
        framed_add(adds[0]) + framed_adds(adds.drop_first())
    }
}

/// A non-empty stack on the wire: count, item id, the numbers of added and removed
/// components, each added component framed with its byte length, then the ids of the
/// removed components.
pub open spec fn framed_stack(count: u8, item_id: u16, adds: Seq<ComponentView>, removes: Seq<DataComponent>) -> Seq<u8> {
    encode_var_int(count as i32) + encode_var_int(item_id as i32) + encode_var_int(adds.len() as i32) + encode_var_int(
        removes.len() as i32,
    ) + framed_adds(adds) + enc_removes(removed_entries(removes), 0)
}

/// A component value that can be framed and reads back.
pub open spec fn add_framable(c: ComponentView) -> bool {
    &&& component_readable(c)
    &&& enc_component(c) is Some
    &&& enc_component(c)->0.len() <= i32::MAX
}

proof fn lemma_framed_add_at(s: Seq<u8>, p: int, c: ComponentView, items: Seq<Item>)
    requires
        add_framable(c),
        holds_at(s, p, framed_add(c)),
    ensures
        ({
            let w = enc_component(c)->0;
            let q1 = p + encode_var_int(kind_id(c) as i32).len();
            let q2 = q1 + encode_var_int(w.len() as i32).len();
            &&& q2 + w.len() == p + framed_add(c).len()
            &&& decode_var_int(s, p) == Ok::<(i32, int), ReadingError>((kind_id(c) as i32, q1))
            &&& decode_var_int(s, q1) == Ok::<(i32, int), ReadingError>((w.len() as i32, q2))
            &&& q2 + w.len() <= s.len()
            &&& s.subrange(q2, q2 + w.len()) == w
            &&& deserialize_component(DataComponent(kind_id(c)), w, items) == Ok::<ComponentView, ReadingError>(c)
            &&& DataComponent::spec_try_from_id((kind_id(c) as i32) as u8) == Some(DataComponent(kind_id(c)))
        }),
{
    let w = enc_component(c)->0;
    let h1 = encode_var_int(kind_id(c) as i32);
    let h2 = encode_var_int(w.len() as i32);
    crate::codec::lemma_window_split(s, p, h1 + h2, w);
    crate::codec::lemma_window_split(s, p, h1, h2);
    let q1 = p + h1.len();
    lemma_var_int_at(s, p, kind_id(c) as i32);
    lemma_var_int_at(s, q1, w.len() as i32);
    assert(((kind_id(c) as i32) as u8) == kind_id(c));
    lemma_component_roundtrip(c, items);
}

#[verifier::spinoff_prover]
#[verifier::rlimit(40)]
proof fn lemma_framed_adds_at(s: Seq<u8>, p: int, adds: Seq<ComponentView>, items: Seq<Item>)
    requires
        forall|i: int| 0 <= i < adds.len() ==> add_framable(#[trigger] adds[i]),
        holds_at(s, p, framed_adds(adds)),
    ensures
        dec_adds(s, p, adds.len(), items) == Ok::<(Seq<(DataComponent, Option<ComponentView>)>, int), ReadingError>(
            (added_entries(adds), p + framed_adds(adds).len()),
        ),
    decreases adds.len(),
{
    if adds.len() == 0 {
        assert(added_entries(adds) =~= Seq::<(DataComponent, Option<ComponentView>)>::empty());
    } else {
        let c = adds[0];
        assert(add_framable(c));
        let tail = framed_adds(adds.drop_first());
        assert(framed_adds(adds) == framed_add(c) + tail);
        crate::codec::lemma_window_split(s, p, framed_add(c), tail);
        lemma_framed_add_at(s, p, c, items);
        let next = p + framed_add(c).len();
        assert forall|i: int| 0 <= i < adds.drop_first().len() implies add_framable(#[trigger] adds.drop_first()[i]) by {
            assert(adds.drop_first()[i] == adds[i + 1]);
        }
        lemma_framed_adds_at(s, next, adds.drop_first(), items);
        assert(seq![(DataComponent(kind_id(c)), Some(c))] + added_entries(adds.drop_first()) =~= added_entries(adds));
        assert((adds.len() - 1) as nat == adds.drop_first().len());
    }
}

/// Reading a stack reads every added component it announces: a non-empty stack whose
/// added components are framed with their byte lengths, as the reader expects, reads
/// back with all its added components in order, then its removed ones, and the reader
/// ends after the last of them.
#[verifier::spinoff_prover]
#[verifier::rlimit(60)]
pub proof fn lemma_framed_stack_roundtrip(
    count: u8,
    item: Item,
    adds: Seq<ComponentView>,
    removes: Seq<DataComponent>,
    items: Seq<Item>,
    rest: Seq<u8>,
)
    requires
        count > 0,
        (item.id as int) < items.len(),
        items[item.id as int] == item,
        adds.len() + removes.len() <= MAX_COMPONENTS,
        forall|i: int| 0 <= i < adds.len() ==> add_framable(#[trigger] adds[i]),
        forall|i: int| 0 <= i < removes.len() ==> (#[trigger] removes[i]).0 < DATA_COMPONENT_COUNT,
    ensures
        dec_stack(framed_stack(count, item.id, adds, removes) + rest, 0, items) == Ok::<(ItemStackView, int), ReadingError>(
            (
                ItemStackView {
                    item_count: count,
                    item,
                    patch: added_entries(adds) + removed_entries(removes),
                },
                framed_stack(count, item.id, adds, removes).len() as int,
            ),
        ),
{
    let rp = removed_entries(removes);
    let h1 = encode_var_int(count as i32);
    let h2 = encode_var_int(item.id as i32);
    let h3 = encode_var_int(adds.len() as i32);
    let h4 = encode_var_int(removes.len() as i32);
    let fa = framed_adds(adds);
    let rm = enc_removes(rp, 0);
    let whole = framed_stack(count, item.id, adds, removes);
    assert(whole == h1 + h2 + h3 + h4 + fa + rm);
    let s = whole + rest;
    assert(s.subrange(0, whole.len() as int) =~= whole);
    crate::codec::lemma_window_split(s, 0, h1 + h2 + h3 + h4 + fa, rm);
    crate::codec::lemma_window_split(s, 0, h1 + h2 + h3 + h4, fa);
    crate::codec::lemma_window_split(s, 0, h1 + h2 + h3, h4);
    crate::codec::lemma_window_split(s, 0, h1 + h2, h3);
    crate::codec::lemma_window_split(s, 0, h1, h2);
    let p1 = h1.len() as int;
    let p2 = p1 + h2.len();
    let p3 = p2 + h3.len();
    let p4 = p3 + h4.len();
    let p5 = p4 + fa.len();
    lemma_var_int_at(s, 0, count as i32);
    lemma_var_int_at(s, p1, item.id as i32);
    lemma_var_int_at(s, p2, adds.len() as i32);
    lemma_var_int_at(s, p3, removes.len() as i32);
    assert(decode_var_int(s, 0) == Ok::<(i32, int), ReadingError>((count as i32, p1)));
    assert(decode_var_int(s, p1) == Ok::<(i32, int), ReadingError>((item.id as i32, p2)));
    assert(decode_var_int(s, p2) == Ok::<(i32, int), ReadingError>((adds.len() as i32, p3)));
    assert(decode_var_int(s, p3) == Ok::<(i32, int), ReadingError>((removes.len() as i32, p4)));
    lemma_framed_adds_at(s, p4, adds, items);
    assert forall|k: int| 0 <= k < rp.len() implies (#[trigger] rp[k]).1 is None && rp[k].0.0 < DATA_COMPONENT_COUNT by {
        assert(rp[k] == (removes[k], None::<ComponentView>));
    }
    lemma_removes_at(s, p5, rp, 0);
    assert(rp.subrange(0, rp.len() as int) =~= rp);
    assert(((count as i32) as u8) == count);
    assert(lookup_item(items, item.id) == item);
    assert(p5 + rm.len() == whole.len());
}

} // verus!
