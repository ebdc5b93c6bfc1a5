use crate::codec::{after, cons, lemma_after_cons, lemma_after_empty, next_var_int_at};
use crate::components::{
    as_view, enc_damage, enc_enchantments, enc_explosion, enc_fireworks, enc_max_stack_size, enc_potion,
    enchantment_ids_writable, write_damage, write_enchantments, write_explosion, write_fireworks, write_max_stack_size,
    write_potion, dec_damage, dec_enchantments, dec_explosion, dec_fireworks, dec_max_stack_size, dec_potion, decode_damage,
    decode_enchantments, decode_explosion, decode_fireworks, decode_max_stack_size, decode_potion,
};
use crate::error::{ReadingError, WritingError};
use crate::item::{
    CONTAINER, ComponentView, ContainerImpl, ContainerSlot, DAMAGE, DataComponent, DataComponentImpl, DamageImpl, ENCHANTMENTS,
    FIREWORKS, FIREWORK_EXPLOSION, Item, ItemRegistry, ItemStack, ItemStackView, MAX_STACK_SIZE, MaxStackSizeImpl,
    POTION_CONTENTS, UNBREAKABLE, UnbreakableImpl, component_view, option_component_view, spec_air, stack_view,
};
use crate::ser::{lemma_var_int_advances, next_var_int, slice_subrange};
use crate::var_int::{decode_var_int, encode_var_int, read_var_int, write_var_int};
use vstd::prelude::*;

verus! {

/// The most component changes one stack may carry on the wire.
pub const MAX_COMPONENTS: i32 = 256;

/// The most stacks a container may list on the wire.
pub const MAX_CONTAINER_ITEMS: i32 = 256;

/// The empty stack: no items of the empty item.
pub open spec fn empty_stack_view() -> ItemStackView {
    ItemStackView { item_count: 0, item: spec_air(), patch: Seq::empty() }
}

/// A stack is empty when it holds no items or holds the empty item.
pub open spec fn is_empty_view(v: ItemStackView) -> bool {
    v.item_count == 0 || v.item.id == 0
}

/// The registered item with id `id`, or the empty item when there is none.
pub open spec fn lookup_item(items: Seq<Item>, id: u16) -> Item {
    if (id as int) < items.len() {
        items[id as int]
    } else {
        spec_air()
    }
}

/// The patch of a stack, as values.
pub open spec fn patch_view(ps: Seq<(DataComponent, Option<DataComponentImpl>)>) -> Seq<(DataComponent, Option<ComponentView>)> {
    ps.map_values(
        |e: (DataComponent, Option<DataComponentImpl>)|
            (
                e.0,
                match e.1 {
                    Some(c) => Some(component_view(c)),
                    None => None,
                },
            ),
    )
}

/// The stacks of a container, as values.
pub open spec fn container_view(xs: Seq<ContainerSlot>) -> Seq<(i8, ItemStackView)> {
    xs.map_values(|x: ContainerSlot| (x.slot, stack_view(x.stack)))
}

/// The view of a stack is made of its count, its item and the views of its patch entries.
pub proof fn lemma_stack_view_patch(s: ItemStack)
    ensures
        stack_view(s).patch == patch_view(s.patch@),
        stack_view(s).item_count == s.item_count,
        stack_view(s).item == s.item,
{
    assert forall|i: int| 0 <= i < s.patch@.len() implies stack_view(s).patch[i] == patch_view(s.patch@)[i] by {
        assert(option_component_view(s, i) == match s.patch@[i].1 {
            Some(c) => Some(component_view(c)),
            None => None::<ComponentView>,
        });
    }
    assert(stack_view(s).patch =~= patch_view(s.patch@));
}

/// The view of a container value lists its slots and the views of their stacks.
pub proof fn lemma_container_view(ci: ContainerImpl)
    ensures
        component_view(DataComponentImpl::Container(ci)) == ComponentView::Container(container_view(ci.items@)),
{
    if let ComponentView::Container(xs) = component_view(DataComponentImpl::Container(ci)) {
        assert(xs =~= container_view(ci.items@));
    }
}

/// Reading a component value of kind `id` from exactly the bytes `w`; bytes after the
/// value are ignored. Kinds without a codec are `Unsupported`.
pub open spec fn deserialize_component(id: DataComponent, w: Seq<u8>, items: Seq<Item>) -> Result<ComponentView, ReadingError>
    decreases w.len() + 1, 2int, 0int,
{
    if id.0 == MAX_STACK_SIZE {
        match dec_max_stack_size(w, 0) {
            Ok((v, _)) => Ok(ComponentView::MaxStackSize(v)),
            Err(e) => Err(e),
        }
    } else if id.0 == ENCHANTMENTS {
        match dec_enchantments(w, 0) {
            Ok((v, _)) => Ok(ComponentView::Enchantments(v)),
            Err(e) => Err(e),
        }
    } else if id.0 == DAMAGE {
        match dec_damage(w, 0) {
            Ok((v, _)) => Ok(ComponentView::Damage(v)),
            Err(e) => Err(e),
        }
    } else if id.0 == UNBREAKABLE {
        Ok(ComponentView::Unbreakable)
    } else if id.0 == POTION_CONTENTS {
        match dec_potion(w, 0) {
            Ok((v, _)) => Ok(ComponentView::PotionContents(v)),
            Err(e) => Err(e),
        }
    } else if id.0 == FIREWORK_EXPLOSION {
        match dec_explosion(w, 0) {
            Ok((v, _)) => Ok(ComponentView::FireworkExplosion(v)),
            Err(e) => Err(e),
        }
    } else if id.0 == FIREWORKS {
        match dec_fireworks(w, 0) {
            Ok((v, _)) => Ok(ComponentView::Fireworks(v.0, v.1)),
            Err(e) => Err(e),
        }
    } else if id.0 == CONTAINER {
        match next_var_int_at(w, 0) {
            Err(e) => Err(e),
            Ok((n, q)) => if n < 0 || n > MAX_CONTAINER_ITEMS {
                Err(ReadingError::Invalid)
            } else {
                match dec_container_items(w, q, 0, n as nat, items) {
                    Ok((xs, _)) => Ok(ComponentView::Container(xs)),
                    Err(e) => Err(e),
                }
            },
        }
    } else {
        Err(ReadingError::Unsupported)
    }
}

/// The `k` stacks of a container from `p` on, numbered from `slot`; empty stacks are
/// read and left out.
pub open spec fn dec_container_items(w: Seq<u8>, p: int, slot: int, k: nat, items: Seq<Item>) -> Result<(Seq<(i8, ItemStackView)>, int), ReadingError>
    decreases w.len() + 1, 1int, k,
{
    if k == 0 {
        Ok((Seq::empty(), p))
    } else if p < 0 || p >= w.len() {
        Err(ReadingError::Missing)
    } else {
        match dec_stack(w, p, items) {
            Err(e) => Err(e),
            Ok((st, q)) => {
                let rest = dec_container_items(w, q, slot + 1, (k - 1) as nat, items);
                if is_empty_view(st) {
                    rest
                } else {
                    cons((slot as i8, st), rest)
                }
            },
        }
    }
}

/// A stack: count (zero for the empty stack, which ends there), item id, how many
/// components are added and removed (together at most `MAX_COMPONENTS`), each added
/// component as id, byte length and bytes, and each removed component as id. A stack
/// with an item id out of the registry holds the empty item.
pub open spec fn dec_stack(s: Seq<u8>, p: int, items: Seq<Item>) -> Result<(ItemStackView, int), ReadingError>
    decreases s.len() - p, 0int, 0int,
{
    match decode_var_int(s, p) {
        Err(e) => Err(e),
        Ok((count, p1)) => if count == 0 {
            Ok((empty_stack_view(), p1))
        } else {
            match decode_var_int(s, p1) {
                Err(e) => Err(e),
                Ok((item_id, p2)) => match decode_var_int(s, p2) {
                    Err(e) => Err(e),
                    Ok((num_to_add, p3)) => match decode_var_int(s, p3) {
                        Err(e) => Err(e),
                        Ok((num_to_remove, p4)) => if num_to_add < 0 || num_to_remove < 0 || num_to_add + num_to_remove
                            > MAX_COMPONENTS {
                            Err(ReadingError::Invalid)
                        } else {
                            proof {
                                lemma_var_int_advances(s, p);
                                lemma_var_int_advances(s, p1);
                                lemma_var_int_advances(s, p2);
                                lemma_var_int_advances(s, p3);
                            }
                            match dec_adds(s, p4, num_to_add as nat, items) {
                                Err(e) => Err(e),
                                Ok((adds, p5)) => match dec_removes(s, p5, num_to_remove as nat) {
                                    Err(e) => Err(e),
                                    Ok((removes, p6)) => if item_id < 0 || item_id > 0xffff {
                                        Err(ReadingError::Invalid)
                                    } else {
                                        Ok(
                                            (
                                                ItemStackView {
                                                    item_count: count as u8,
                                                    item: lookup_item(items, item_id as u16),
                                                    patch: adds + removes,
                                                },
                                                p6,
                                            ),
                                        )
                                    },
                                },
                            }
                        },
                    },
                },
            }
        },
    }
}

/// `k` added components, each an id, a byte length and that many bytes; a component whose
/// bytes do not read as its kind is left out.
pub open spec fn dec_adds(s: Seq<u8>, p: int, k: nat, items: Seq<Item>) -> Result<(Seq<(DataComponent, Option<ComponentView>)>, int), ReadingError>
    decreases s.len() - p, 0int, k,
{
    if k == 0 {
        Ok((Seq::empty(), p))
    } else {
        match decode_var_int(s, p) {
            Err(e) => Err(e),
            Ok((id_val, q1)) => match DataComponent::spec_try_from_id(id_val as u8) {
                None => Err(ReadingError::Invalid),
                Some(c) => match decode_var_int(s, q1) {
                    Err(e) => Err(e),
                    Ok((len, q2)) => if len < 0 {
                        Err(ReadingError::Invalid)
                    } else if q2 + len > s.len() {
                        Err(ReadingError::EndOfInput)
                    } else {
                        proof {
                            lemma_var_int_advances(s, p);
                            lemma_var_int_advances(s, q1);
                        }
                        let entry: Seq<(DataComponent, Option<ComponentView>)> = match deserialize_component(
                            c,
                            s.subrange(q2, q2 + len),
                            items,
                        ) {
                            Ok(v) => seq![(c, Some(v))],
                            Err(_) => Seq::empty(),
                        };
                        match dec_adds(s, q2 + len, (k - 1) as nat, items) {
                            Err(e) => Err(e),
                            Ok((rest, q3)) => Ok((entry + rest, q3)),
                        }
                    },
                },
            },
        }
    }
}

/// `k` removed components, each an id.
pub open spec fn dec_removes(s: Seq<u8>, p: int, k: nat) -> Result<(Seq<(DataComponent, Option<ComponentView>)>, int), ReadingError>
    decreases k,
{
    if k == 0 {
        Ok((Seq::empty(), p))
    } else {
        match decode_var_int(s, p) {
            Err(e) => Err(e),
            Ok((id_val, q)) => match DataComponent::spec_try_from_id(id_val as u8) {
                None => Err(ReadingError::Invalid),
                Some(c) => cons((c, None), dec_removes(s, q, (k - 1) as nat)),
            },
        }
    }
}

/// A component read result, its value taken as values.
pub open spec fn component_res(r: Result<DataComponentImpl, ReadingError>) -> Result<ComponentView, ReadingError> {
    match r {
        Ok(c) => Ok(component_view(c)),
        Err(e) => Err(e),
    }
}

impl ItemStack {
    /// The empty stack.
    pub fn empty() -> (r: ItemStack)
        ensures
            r@ == empty_stack_view(),
            r.patch@.len() == 0,
    {
        let r = ItemStack { item_count: 0, item: Item::air(), patch: Vec::new() };
        proof {
            lemma_stack_view_patch(r);
            assert(r@.patch =~= Seq::<(DataComponent, Option<ComponentView>)>::empty());
        }
        r
    }
}

/// Reads a component value of kind `id` from `bytes`, ignoring bytes after it.
pub fn deserialize_from_bytes(id: DataComponent, bytes: &[u8], registry: &ItemRegistry) -> (res: Result<DataComponentImpl, ReadingError>)
    ensures
        component_res(res) == deserialize_component(id, bytes@, registry.items@),
    decreases bytes@.len() + 1, 2int, 0int,
{
    if id.0 == MAX_STACK_SIZE {
        match decode_max_stack_size(bytes, 0) {
            Ok((v, _)) => Ok(DataComponentImpl::MaxStackSize(MaxStackSizeImpl { size: v })),
            Err(e) => Err(e),
        }
    } else if id.0 == ENCHANTMENTS {
        match decode_enchantments(bytes, 0) {
            Ok((v, _)) => Ok(DataComponentImpl::Enchantments(v)),
            Err(e) => Err(e),
        }
    } else if id.0 == DAMAGE {
        match decode_damage(bytes, 0) {
            Ok((v, _)) => Ok(DataComponentImpl::Damage(DamageImpl { damage: v })),
            Err(e) => Err(e),
        }
    } else if id.0 == UNBREAKABLE {
        Ok(DataComponentImpl::Unbreakable(UnbreakableImpl))
    } else if id.0 == POTION_CONTENTS {
        match decode_potion(bytes, 0) {
            Ok((v, _)) => Ok(DataComponentImpl::PotionContents(v)),
            Err(e) => Err(e),
        }
    } else if id.0 == FIREWORK_EXPLOSION {
        match decode_explosion(bytes, 0) {
            Ok((v, _)) => Ok(DataComponentImpl::FireworkExplosion(v)),
            Err(e) => Err(e),
        }
    } else if id.0 == FIREWORKS {
        match decode_fireworks(bytes, 0) {
            Ok((v, _)) => Ok(DataComponentImpl::Fireworks(v)),
            Err(e) => Err(e),
        }
    } else if id.0 == CONTAINER {
        let (n, q0) = match next_var_int(bytes, 0) {
            Ok(x) => x,
            Err(e) => return Err(e),
        };
        if n < 0 || n > MAX_CONTAINER_ITEMS {
            return Err(ReadingError::Invalid);
        }
        let ci = match decode_container_items(bytes, q0, n as usize, registry) {
            Ok(ci) => ci,
            Err(e) => return Err(e),
        };
        proof {
            lemma_container_view(ci);
        }
        Ok(DataComponentImpl::Container(ci))
    } else {
        Err(ReadingError::Unsupported)
    }
}

/// Reads the `k` stacks of a container from `q0` on.
fn decode_container_items(bytes: &[u8], q0: usize, k: usize, registry: &ItemRegistry) -> (res: Result<ContainerImpl, ReadingError>)
    requires
        k <= 256,
    ensures
        match res {
            Ok(ci) => dec_container_items(bytes@, q0 as int, 0, k as nat, registry.items@) matches Ok((xs, _))
                && xs == container_view(ci.items@),
            Err(e) => dec_container_items(bytes@, q0 as int, 0, k as nat, registry.items@) == Err::<
                (Seq<(i8, ItemStackView)>, int),
                ReadingError,
            >(e),
        },
    decreases bytes@.len() + 1, 1int, 0int,
{
    let ghost items = registry.items@;
    let mut acc: Vec<ContainerSlot> = Vec::new();
    let mut q = q0;
    let mut i: usize = 0;
    proof {
        lemma_after_empty(dec_container_items(bytes@, q0 as int, 0, k as nat, items));
    }
    while i < k
        invariant
            i <= k <= 256,
            items == registry.items@,
            dec_container_items(bytes@, q0 as int, 0, k as nat, items) == after(
                container_view(acc@),
                dec_container_items(bytes@, q as int, i as int, (k - i) as nat, items),
            ),
        decreases k - i,
    {
        if q >= bytes.len() {
            return Err(ReadingError::Missing);
        }
        let (st, q1) = match decode_stack(bytes, q, registry) {
            Ok(x) => x,
            Err(e) => return Err(e),
        };
        proof {
            lemma_stack_view_patch(st);
        }
        if st.item_count == 0 || st.item.id == 0 {
        } else {
            proof {
                lemma_after_cons(
                    container_view(acc@),
                    (i as i8, st@),
                    dec_container_items(bytes@, q1 as int, i + 1, (k - i - 1) as nat, items),
                );
            }
            let ghost before = acc@;
            acc.push(ContainerSlot { slot: i as i8, stack: st });
            assert(container_view(acc@) =~= container_view(before).push((i as i8, acc@[acc@.len() - 1].stack@)));
        }
        q = q1;
        i = i + 1;
    }
    assert(container_view(acc@) + Seq::<(i8, ItemStackView)>::empty() =~= container_view(acc@));
    Ok(ContainerImpl { items: acc })
}

/// Reads a stack at `p`; see [`dec_stack`].
pub fn decode_stack(bytes: &[u8], p: usize, registry: &ItemRegistry) -> (res: Result<(ItemStack, usize), ReadingError>)
    ensures
        as_view(res) == dec_stack(bytes@, p as int, registry.items@),
    decreases bytes@.len() - p, 1int, 0int,
{
    let (count, p1) = match read_var_int(bytes, p) {
        Ok(x) => x,
        Err(e) => return Err(e),
    };
    if count == 0 {
        return Ok((ItemStack::empty(), p1));
    }
    let (item_id, p2) = match read_var_int(bytes, p1) {
        Ok(x) => x,
        Err(e) => return Err(e),
    };
    let (num_to_add, p3) = match read_var_int(bytes, p2) {
        Ok(x) => x,
        Err(e) => return Err(e),
    };
    let (num_to_remove, p4) = match read_var_int(bytes, p3) {
        Ok(x) => x,
        Err(e) => return Err(e),
    };
    if num_to_add < 0 || num_to_remove < 0 || (num_to_add as i64) + (num_to_remove as i64) > MAX_COMPONENTS as i64 {
        return Err(ReadingError::Invalid);
    }
    proof {
        lemma_var_int_advances(bytes@, p as int);
        lemma_var_int_advances(bytes@, p1 as int);
        lemma_var_int_advances(bytes@, p2 as int);
        lemma_var_int_advances(bytes@, p3 as int);
    }
    let (mut patch, p5) = match decode_adds(bytes, p, p4, num_to_add as usize, registry) {
        Ok(x) => x,
        Err(e) => return Err(e),
    };
    let ghost adds = patch_view(patch@);
    let p6 = match decode_removes(bytes, p5, num_to_remove as usize, &mut patch) {
        Ok(x) => x,
        Err(e) => return Err(e),
    };
    if item_id < 0 || item_id > 0xffff {
        return Err(ReadingError::Invalid);
    }
    let item = match registry.from_id(item_id as u16) {
        Some(it) => it,
        None => Item::air(),
    };
    let st = ItemStack { item_count: count as u8, item, patch };
    proof {
        lemma_stack_view_patch(st);
    }
    Ok((st, p6))
}

/// Reads `k` added components from `p4` on, within a stack that starts at `p`.
fn decode_adds(bytes: &[u8], p: usize, p4: usize, k: usize, registry: &ItemRegistry) -> (res: Result<(Vec<(DataComponent, Option<DataComponentImpl>)>, usize), ReadingError>)
    requires
        p < p4 <= bytes@.len(),
    ensures
        match res {
            Ok((v, q)) => dec_adds(bytes@, p4 as int, k as nat, registry.items@) == Ok::<
                (Seq<(DataComponent, Option<ComponentView>)>, int),
                ReadingError,
            >((patch_view(v@), q as int)),
            Err(e) => dec_adds(bytes@, p4 as int, k as nat, registry.items@) == Err::<
                (Seq<(DataComponent, Option<ComponentView>)>, int),
                ReadingError,
            >(e),
        },
    decreases bytes@.len() - p, 0int, 0int,
{
    let ghost items = registry.items@;
    let mut acc: Vec<(DataComponent, Option<DataComponentImpl>)> = Vec::new();
    let mut q = p4;
    let mut i: usize = 0;
    proof {
        lemma_after_empty(dec_adds(bytes@, p4 as int, k as nat, items));
    }
    while i < k
        invariant
            i <= k,
            p < q <= bytes@.len(),
            items == registry.items@,
            dec_adds(bytes@, p4 as int, k as nat, items) == after(
                patch_view(acc@),
                dec_adds(bytes@, q as int, (k - i) as nat, items),
            ),
        decreases k - i,
    {
        let (id_val, q1) = match read_var_int(bytes, q) {
            Ok(x) => x,
            Err(e) => return Err(e),
        };
        let c = match DataComponent::try_from_id(id_val as u8) {
            Some(c) => c,
            None => return Err(ReadingError::Invalid),
        };
        let (len, q2) = match read_var_int(bytes, q1) {
            Ok(x) => x,
            Err(e) => return Err(e),
        };
        if len < 0 {
            return Err(ReadingError::Invalid);
        }
        let n = len as usize;
        proof {
            lemma_var_int_advances(bytes@, q as int);
            lemma_var_int_advances(bytes@, q1 as int);
        }
        if bytes.len() - q2 < n {
            return Err(ReadingError::EndOfInput);
        }
        let window = slice_subrange(bytes, q2, q2 + n);
        let decoded = deserialize_from_bytes(c, window, registry);
        let ghost before = acc@;
        match decoded {
            Ok(v) => {
                proof {
                    lemma_after_cons(
                        patch_view(acc@),
                        (c, Some(component_view(v))),
                        dec_adds(bytes@, (q2 + n) as int, (k - i - 1) as nat, items),
                    );
                }
                acc.push((c, Some(v)));
                assert(patch_view(acc@) =~= patch_view(before).push((c, Some(component_view(v)))));
            },
            Err(_) => {
                assert(Seq::<(DataComponent, Option<ComponentView>)>::empty() + patch_view(before) =~= patch_view(before));
            },
        }
        q = q2 + n;
        i = i + 1;
    }
    assert(patch_view(acc@) + Seq::<(DataComponent, Option<ComponentView>)>::empty() =~= patch_view(acc@));
    Ok((acc, q))
}

/// Reads `k` removed components at `p`, appending them to `patch`.
fn decode_removes(bytes: &[u8], p: usize, k: usize, patch: &mut Vec<(DataComponent, Option<DataComponentImpl>)>) -> (res: Result<usize, ReadingError>)
    ensures
        match res {
            Ok(q) => match dec_removes(bytes@, p as int, k as nat) {
                Ok((rs, r)) => r == q as int && patch_view(final(patch)@) == patch_view(old(patch)@) + rs,
                Err(_) => false,
            },
            Err(e) => dec_removes(bytes@, p as int, k as nat) == Err::<
                (Seq<(DataComponent, Option<ComponentView>)>, int),
                ReadingError,
            >(e),
        },
{
    let ghost start = patch_view(patch@);
    let mut q = p;
    let mut i: usize = 0;
    let ghost mut got: Seq<(DataComponent, Option<ComponentView>)> = Seq::empty();
    proof {
        lemma_after_empty(dec_removes(bytes@, p as int, k as nat));
    }
    while i < k
        invariant
            i <= k,
            patch_view(patch@) == start + got,
            dec_removes(bytes@, p as int, k as nat) == after(got, dec_removes(bytes@, q as int, (k - i) as nat)),
        decreases k - i,
    {
        let (id_val, q1) = match read_var_int(bytes, q) {
            Ok(x) => x,
            Err(e) => return Err(e),
        };
        let c = match DataComponent::try_from_id(id_val as u8) {
            Some(c) => c,
            None => return Err(ReadingError::Invalid),
        };
        proof {
            lemma_after_cons(got, (c, None), dec_removes(bytes@, q1 as int, (k - i - 1) as nat));
        }
        let ghost before = patch@;
        patch.push((c, None));
        proof {
            assert(patch_view(patch@) =~= patch_view(before).push((c, None)));
            got = got.push((c, None));
            assert(patch_view(patch@) =~= start + got);
        }
        q = q1;
        i = i + 1;
    }
    assert(got + Seq::<(DataComponent, Option<ComponentView>)>::empty() =~= got);
    Ok(q)
}

// ---------------------------------------------------------------------------
// Writing
// ---------------------------------------------------------------------------

/// Both parts, one after the other, when both could be written.
pub open spec fn join(a: Option<Seq<u8>>, b: Option<Seq<u8>>) -> Option<Seq<u8>> {
    match (a, b) {
        (Some(x), Some(y)) => Some(x + y),
        _ => None,
    }
}

/// Joining byte sequences is associative.
pub proof fn lemma_join_assoc(w: Seq<u8>, x: Option<Seq<u8>>, r: Option<Seq<u8>>)
    ensures
        join(Some(w), join(x, r)) == join(join(Some(w), x), r),
{
    if let (Some(a), Some(b)) = (x, r) {
        assert(w + (a + b) =~= w + a + b);
    }
}

/// The registry id of the component kind that a value belongs to.
pub open spec fn kind_id(c: ComponentView) -> u8 {
    match c {
        ComponentView::MaxStackSize(_) => MAX_STACK_SIZE,
        ComponentView::Enchantments(_) => ENCHANTMENTS,
        ComponentView::Damage(_) => DAMAGE,
        ComponentView::Unbreakable => UNBREAKABLE,
        ComponentView::PotionContents(_) => POTION_CONTENTS,
        ComponentView::FireworkExplosion(_) => FIREWORK_EXPLOSION,
        ComponentView::Fireworks(_, _) => FIREWORKS,
        ComponentView::Container(_) => CONTAINER,
    }
}

/// How many entries of a patch add or replace a component.
pub open spec fn added_count(patch: Seq<(DataComponent, Option<ComponentView>)>) -> nat
    decreases patch.len(),
{
    if patch.len() == 0 {
        0
    } else {
        added_count(patch.drop_last()) + if patch.last().1 is Some {
            1nat
        } else {
            0nat
        }
    }
}

/// How many entries of a patch remove a component.
pub open spec fn removed_count(patch: Seq<(DataComponent, Option<ComponentView>)>) -> nat
    decreases patch.len(),
{
    if patch.len() == 0 {
        0
    } else {
        removed_count(patch.drop_last()) + if patch.last().1 is None {
            1nat
        } else {
            0nat
        }
    }
}

/// The bytes of the removed components of a patch from entry `i` on: each one's id.
pub open spec fn enc_removes(patch: Seq<(DataComponent, Option<ComponentView>)>, i: int) -> Seq<u8>
    decreases patch.len() - i,
{
    if i < 0 || i >= patch.len() {
        Seq::empty()
    } else {
        (if patch[i].1 is None {
            encode_var_int(patch[i].0.0 as i32)
        } else {
            Seq::empty()
        }) + enc_removes(patch, i + 1)
    }
}

/// One more than the highest slot number of a container, or 0 when it is empty.
pub open spec fn container_size(items: Seq<(i8, ItemStackView)>) -> nat
    decreases items.len(),
{
    if items.len() == 0 {
        0
    } else {
        let rest = container_size(items.drop_last());
        let here = items.last().0 + 1;
        if here > rest {
            here as nat
        } else {
            rest
        }
    }
}

/// The index of the last stack in slot `j`, or -1 when none is.
pub open spec fn last_slot_index(items: Seq<(i8, ItemStackView)>, j: int) -> int
    decreases items.len(),
{
    if items.len() == 0 {
        -1
    } else if items.last().0 == j {
        items.len() - 1
    } else {
        last_slot_index(items.drop_last(), j)
    }
}

/// The bytes of a component value, or `None` when it holds a string too long to write.
pub open spec fn enc_component(c: ComponentView) -> Option<Seq<u8>>
    decreases c, 0int,
{
    match c {
        ComponentView::MaxStackSize(size) => Some(enc_max_stack_size(size)),
        ComponentView::Enchantments(es) => Some(enc_enchantments(es)),
        ComponentView::Damage(d) => Some(enc_damage(d)),
        ComponentView::Unbreakable => Some(Seq::empty()),
        ComponentView::PotionContents(pv) => enc_potion(pv),
        ComponentView::FireworkExplosion(e) => Some(enc_explosion(e)),
        ComponentView::Fireworks(f, es) => Some(enc_fireworks((f, es))),
        ComponentView::Container(items) => enc_container(items),
    }
}

/// The bytes of a container: its size, then one stack per slot up to the highest
/// occupied one, the last stack listed for a slot or the empty stack.
pub open spec fn enc_container(items: Seq<(i8, ItemStackView)>) -> Option<Seq<u8>>
    decreases items, container_size(items) + 1,
{
    join(Some(encode_var_int(container_size(items) as i32)), enc_slots(items, 0))
}

/// The bytes of the slots of a container from slot `j` on.
pub open spec fn enc_slots(items: Seq<(i8, ItemStackView)>, j: int) -> Option<Seq<u8>>
    decreases items, container_size(items) - j,
{
    if j < 0 || j >= container_size(items) {
        Some(Seq::empty())
    } else {
        let k = last_slot_index(items, j);
        let part = if 0 <= k < items.len() {
            proof {
                assert(decreases_to!(items => items[k]));
            }
            enc_stack(items[k].1, items[k].1.item.id)
        } else {
            Some(encode_var_int(0))
        };
        join(part, enc_slots(items, j + 1))
    }
}

/// The bytes of a stack written with item id `item_id`: 0 for an empty stack, else count,
/// item id, the numbers of added and removed components, each added component as id and
/// value (with no length), then each removed component's id. The reader ([`dec_stack`])
/// expects a byte length before each added value, so only stacks that add no component
/// read back as written.
pub open spec fn enc_stack(v: ItemStackView, item_id: u16) -> Option<Seq<u8>>
    decreases v, 0int,
{
    if is_empty_view(v) {
        Some(encode_var_int(0))
    } else {
        join(
            Some(
                encode_var_int(v.item_count as i32) + encode_var_int(item_id as i32) + encode_var_int(
                    added_count(v.patch) as i32,
                ) + encode_var_int(removed_count(v.patch) as i32),
            ),
            join(enc_adds(v.patch, 0), Some(enc_removes(v.patch, 0))),
        )
    }
}

/// The bytes of the added components of a patch from entry `i` on.
pub open spec fn enc_adds(patch: Seq<(DataComponent, Option<ComponentView>)>, i: int) -> Option<Seq<u8>>
    decreases patch, patch.len() - i,
{
    if i < 0 || i >= patch.len() {
        Some(Seq::empty())
    } else {
        let part = match patch[i].1 {
            Some(c) => {
                proof {
                    assert(decreases_to!(patch => patch[i]));
                }
                join(Some(encode_var_int(patch[i].0.0 as i32)), enc_component(c))
            },
            None => Some(Seq::empty()),
        };
        join(part, enc_adds(patch, i + 1))
    }
}

/// A component value can be written without fault: enchantment ids leave room for one
/// more, and a container's slots are not negative and its stacks can be written.
pub open spec fn component_writable(c: ComponentView) -> bool
    decreases c, 0int,
{
    match c {
        ComponentView::Enchantments(es) => enchantment_ids_writable(es),
        ComponentView::Container(items) => container_writable(items),
        _ => true,
    }
}

/// A container can be written without fault.
pub open spec fn container_writable(items: Seq<(i8, ItemStackView)>) -> bool
    decreases items, container_size(items) + 1,
{
    (forall|i: int| 0 <= i < items.len() ==> #[trigger] items[i].0 >= 0) && slots_writable(items, 0)
}

/// The stacks written for the slots of a container from slot `j` on can be written.
pub open spec fn slots_writable(items: Seq<(i8, ItemStackView)>, j: int) -> bool
    decreases items, container_size(items) - j,
{
    if j < 0 || j >= container_size(items) {
        true
    } else {
        let k = last_slot_index(items, j);
        (if 0 <= k < items.len() {
            proof {
                assert(decreases_to!(items => items[k]));
            }
            stack_writable(items[k].1)
        } else {
            true
        }) && slots_writable(items, j + 1)
    }
}

/// A stack can be written without fault: an empty one always; otherwise it adds and
/// removes at most 255 components each, and each added value belongs to the kind its
/// entry names and can be written.
pub open spec fn stack_writable(v: ItemStackView) -> bool
    decreases v, 0int,
{
    is_empty_view(v) || (added_count(v.patch) <= 255 && removed_count(v.patch) <= 255 && patch_writable(v.patch, 0))
}

/// The entries of a patch from `i` on can be written.
pub open spec fn patch_writable(patch: Seq<(DataComponent, Option<ComponentView>)>, i: int) -> bool
    decreases patch, patch.len() - i,
{
    if i < 0 || i >= patch.len() {
        true
    } else {
        (match patch[i].1 {
            Some(c) => {
                proof {
                    assert(decreases_to!(patch => patch[i]));
                }
                kind_id(c) == patch[i].0.0 && component_writable(c)
            },
            None => true,
        }) && patch_writable(patch, i + 1)
    }
}

/// Counting added and removed entries one entry further.
pub proof fn lemma_counts_step(patch: Seq<(DataComponent, Option<ComponentView>)>, i: int)
    requires
        0 <= i < patch.len(),
    ensures
        added_count(patch.take(i + 1)) == added_count(patch.take(i)) + if patch[i].1 is Some {
            1nat
        } else {
            0nat
        },
        removed_count(patch.take(i + 1)) == removed_count(patch.take(i)) + if patch[i].1 is None {
            1nat
        } else {
            0nat
        },
{
    assert(patch.take(i + 1).drop_last() =~= patch.take(i));
}

/// The counts of a prefix of a patch are at most those of the patch.
pub proof fn lemma_counts_prefix(patch: Seq<(DataComponent, Option<ComponentView>)>, i: int)
    requires
        0 <= i <= patch.len(),
    ensures
        added_count(patch.take(i)) <= added_count(patch),
        removed_count(patch.take(i)) <= removed_count(patch),
    decreases patch.len() - i,
{
    if i == patch.len() {
        assert(patch.take(i) =~= patch);
    } else {
        lemma_counts_step(patch, i);
        lemma_counts_prefix(patch, i + 1);
    }
}

/// Counts the entries of a stack's patch that add a component and those that remove one.
pub fn item_component_counts(stack: &ItemStack) -> (r: (u8, u8))
    requires
        added_count(stack@.patch) <= 255,
        removed_count(stack@.patch) <= 255,
    ensures
        r.0 == added_count(stack@.patch),
        r.1 == removed_count(stack@.patch),
{
    let ghost pv = stack@.patch;
    proof {
        lemma_stack_view_patch(*stack);
    }
    let mut to_add: u8 = 0;
    let mut to_remove: u8 = 0;
    let mut i: usize = 0;
    assert(pv.take(0) =~= Seq::<(DataComponent, Option<ComponentView>)>::empty());
    while i < stack.patch.len()
        invariant
            pv == patch_view(stack.patch@),
            added_count(pv) <= 255,
            removed_count(pv) <= 255,
            i <= stack.patch@.len(),
            to_add == added_count(pv.take(i as int)),
            to_remove == removed_count(pv.take(i as int)),
        decreases stack.patch@.len() - i,
    {
        proof {
            lemma_counts_step(pv, i as int);
            lemma_counts_prefix(pv, i + 1);
        }
        if stack.patch[i].1.is_none() {
            to_remove = to_remove + 1;
        } else {
            to_add = to_add + 1;
        }
        i = i + 1;
    }
    assert(pv.take(stack.patch@.len() as int) =~= pv);
    (to_add, to_remove)
}

/// Writes a component value of kind `id`; fails when it holds a string too long to write.
pub fn serialize(id: DataComponent, value: &DataComponentImpl, out: &mut Vec<u8>) -> (res: Result<(), WritingError>)
    requires
        kind_id(value@) == id.0,
        component_writable(value@),
    ensures
        res is Ok <==> enc_component(value@) is Some,
        res is Ok ==> final(out)@ == old(out)@ + enc_component(value@)->0,
    decreases value,
{
    match value {
        DataComponentImpl::MaxStackSize(m) => {
            write_max_stack_size(out, m.size);
            Ok(())
        },
        DataComponentImpl::Enchantments(e) => {
            write_enchantments(out, e);
            Ok(())
        },
        DataComponentImpl::Damage(d) => {
            write_damage(out, d.damage);
            Ok(())
        },
        DataComponentImpl::Unbreakable(_) => {
            assert(old(out)@ + Seq::<u8>::empty() =~= old(out)@);
            Ok(())
        },
        DataComponentImpl::PotionContents(pc) => write_potion(out, pc),
        DataComponentImpl::FireworkExplosion(e) => {
            write_explosion(out, e);
            Ok(())
        },
        DataComponentImpl::Fireworks(f) => {
            write_fireworks(out, f);
            Ok(())
        },
        DataComponentImpl::Container(ci) => {
            proof {
                lemma_container_view(*ci);
            }
            write_container(out, ci)
        },
    }
}

/// The last index for slot `j` is -1 or an entry with that slot.
pub proof fn lemma_last_slot_index(items: Seq<(i8, ItemStackView)>, j: int)
    ensures
        -1 <= last_slot_index(items, j) < items.len(),
        last_slot_index(items, j) >= 0 ==> items[last_slot_index(items, j)].0 == j,
    decreases items.len(),
{
    if items.len() > 0 && items.last().0 != j {
        lemma_last_slot_index(items.drop_last(), j);
    }
}

/// Writes a container: its size, then one stack per slot.
fn write_container(out: &mut Vec<u8>, ci: &ContainerImpl) -> (res: Result<(), WritingError>)
    requires
        container_writable(container_view(ci.items@)),
    ensures
        res is Ok <==> enc_container(container_view(ci.items@)) is Some,
        res is Ok ==> final(out)@ == old(out)@ + enc_container(container_view(ci.items@))->0,
    decreases ci,
{
    let ghost v = container_view(ci.items@);
    let n = ci.items.len();
    let mut size: usize = 0;
    let mut i: usize = 0;
    assert(v.take(0) =~= Seq::<(i8, ItemStackView)>::empty());
    while i < n
        invariant
            n == ci.items@.len() == v.len(),
            v == container_view(ci.items@),
            forall|t: int| 0 <= t < v.len() ==> #[trigger] v[t].0 >= 0,
            i <= n,
            size == container_size(v.take(i as int)),
            size <= 128,
        decreases n - i,
    {
        assert(v.take(i + 1).drop_last() =~= v.take(i as int));
        assert(v[i as int].0 >= 0);
        assert(v[i as int].0 == ci.items@[i as int].slot);
        let slot = ci.items[i].slot as usize;
        if slot + 1 > size {
            size = slot + 1;
        }
        i = i + 1;
    }
    assert(v.take(n as int) =~= v);
    write_var_int(out, size as i32);
    let ghost head = out@;
    let ghost mut w: Seq<u8> = Seq::empty();
    let mut j: usize = 0;
    assert(Seq::<u8>::empty() + Seq::<u8>::empty() =~= Seq::<u8>::empty());
    while j < size
        invariant
            n == ci.items@.len() == v.len(),
            v == container_view(ci.items@),
            size == container_size(v),
            size <= 128,
            j <= size,
            slots_writable(v, j as int),
            head == old(out)@ + encode_var_int(size as i32),
            out@ == head + w,
            enc_slots(v, 0) == join(Some(w), enc_slots(v, j as int)),
        decreases size - j,
    {
        let mut k: usize = 0;
        let mut found = false;
        let mut t: usize = 0;
        assert(v.take(0) =~= Seq::<(i8, ItemStackView)>::empty());
        while t < n
            invariant
                n == ci.items@.len() == v.len(),
                v == container_view(ci.items@),
                t <= n,
                j < size <= 128,
                found == (last_slot_index(v.take(t as int), j as int) >= 0),
                found ==> k == last_slot_index(v.take(t as int), j as int),
            decreases n - t,
        {
            assert(v.take(t + 1).drop_last() =~= v.take(t as int));
            assert(v.take(t + 1).last() == v[t as int]);
            assert(v[t as int].0 == ci.items@[t as int].slot);
            if ci.items[t].slot >= 0 && ci.items[t].slot as usize == j {
                k = t;
                found = true;
            }
            t = t + 1;
        }
        assert(v.take(n as int) =~= v);
        proof {
            lemma_last_slot_index(v, j as int);
        }
        if found {
            let st = &ci.items[k].stack;
            proof {
                lemma_stack_view_patch(*st);
                assert(v[k as int] == (ci.items@[k as int].slot, stack_view(ci.items@[k as int].stack)));
            }
            let r = write_stack(out, st, st.item.id);
            match r {
                Ok(()) => {},
                Err(e) => {
                    proof {
                        lemma_join_assoc(w, None, enc_slots(v, j + 1));
                    }
                    return Err(e);
                },
            }
            proof {
                let part = enc_stack(v[k as int].1, v[k as int].1.item.id);
                lemma_join_assoc(w, part, enc_slots(v, j + 1));
                w = w + part->0;
                assert(out@ =~= head + w);
            }
        } else {
            write_var_int(out, 0);
            proof {
                lemma_join_assoc(w, Some(encode_var_int(0)), enc_slots(v, j + 1));
                w = w + encode_var_int(0);
                assert(out@ =~= head + w);
            }
        }
        j = j + 1;
    }
    proof {
        assert(w + Seq::<u8>::empty() =~= w);
        assert(out@ =~= old(out)@ + (encode_var_int(size as i32) + w));
    }
    Ok(())
}

/// Writes a stack with item id `item_id`; see [`enc_stack`].
#[verifier::spinoff_prover]
#[verifier::rlimit(50)]
pub fn write_stack(out: &mut Vec<u8>, stack: &ItemStack, item_id: u16) -> (res: Result<(), WritingError>)
    requires
        stack_writable(stack@),
    ensures
        res is Ok <==> enc_stack(stack@, item_id) is Some,
        res is Ok ==> final(out)@ == old(out)@ + enc_stack(stack@, item_id)->0,
    decreases stack,
{
    proof {
        lemma_stack_view_patch(*stack);
    }
    let ghost pv = stack@.patch;
    if stack.item_count == 0 || stack.item.id == 0 {
        write_var_int(out, 0);
        return Ok(());
    }
    let (to_add, to_remove) = item_component_counts(stack);
    write_var_int(out, stack.item_count as i32);
    write_var_int(out, item_id as i32);
    write_var_int(out, to_add as i32);
    write_var_int(out, to_remove as i32);
    let ghost head = out@;
    let ghost mut w: Seq<u8> = Seq::empty();
    assert(head + w =~= head);
    let n = stack.patch.len();
    let mut i: usize = 0;
    while i < n
        invariant
            n == stack.patch@.len() == pv.len(),
            pv == patch_view(stack.patch@),
            pv == stack@.patch,
            !is_empty_view(stack@),
            i <= n,
            patch_writable(pv, i as int),
            out@ == head + w,
            enc_adds(pv, 0) == join(Some(w), enc_adds(pv, i as int)),
        decreases n - i,
    {
        let entry = &stack.patch[i];
        match &entry.1 {
            Some(c) => {
                assert(pv[i as int] == (entry.0, Some(component_view(*c))));
                write_var_int(out, entry.0.0 as i32);
                let r = serialize(entry.0, c, out);
                match r {
                    Ok(()) => {
                        proof {
                            let part = join(Some(encode_var_int(entry.0.0 as i32)), enc_component(c@));
                            lemma_join_assoc(w, part, enc_adds(pv, i + 1));
                            w = w + part->0;
                            assert(out@ =~= head + w);
                        }
                    },
                    Err(e) => {
                        proof {
                            lemma_join_assoc(w, None, enc_adds(pv, i + 1));
                        }
                        return Err(e);
                    },
                }
            },
            None => {
                assert(pv[i as int].1 is None);
                proof {
                    lemma_join_assoc(w, Some(Seq::empty()), enc_adds(pv, i + 1));
                    assert(w + Seq::<u8>::empty() =~= w);
                }
            },
        }
        i = i + 1;
    }
    let ghost adds = w;
    assert(adds + Seq::<u8>::empty() =~= adds);
    let ghost mid = out@;
    let ghost mut r: Seq<u8> = Seq::empty();
    assert(mid + r =~= mid);
    let mut i: usize = 0;
    while i < n
        invariant
            n == stack.patch@.len() == pv.len(),
            pv == patch_view(stack.patch@),
            i <= n,
            out@ == mid + r,
            enc_removes(pv, 0) == r + enc_removes(pv, i as int),
        decreases n - i,
    {
        let entry = &stack.patch[i];
        if entry.1.is_none() {
            assert(pv[i as int] == (entry.0, None::<ComponentView>));
            write_var_int(out, entry.0.0 as i32);
            proof {
                assert(r + (encode_var_int(entry.0.0 as i32) + enc_removes(pv, i + 1)) =~= r + encode_var_int(
                    entry.0.0 as i32,
                ) + enc_removes(pv, i + 1));
                r = r + encode_var_int(entry.0.0 as i32);
                assert(out@ =~= mid + r);
            }
        } else {
            assert(pv[i as int].1 is Some);
            assert(r + (Seq::<u8>::empty() + enc_removes(pv, i + 1)) =~= r + enc_removes(pv, i + 1));
        }
        i = i + 1;
    }
    proof {
        assert(r + Seq::<u8>::empty() =~= r);
        assert(out@ =~= head + adds + r);
    }
    Ok(())
}

} // verus!
