use crate::data_component::{container_view, empty_stack_view, is_empty_view, lemma_container_view, lemma_stack_view_patch, patch_view};
use crate::item::{
    ComponentView, ContainerImpl, ContainerSlot, DataComponent, DataComponentImpl, DamageImpl, EnchantmentsImpl,
    FireworkExplosionImpl, FireworksImpl, ItemStack, ItemStackView, MAX_STACK_SIZE, MaxStackSizeImpl, PotionContentsImpl,
    StatusEffectInstance, UnbreakableImpl, component_view, explosions_view,
};
use vstd::prelude::*;

verus! {

fn copy_pairs(v: &Vec<(u8, i32)>) -> (r: Vec<(u8, i32)>)
    ensures
        r@ == v@,
{
    let mut r: Vec<(u8, i32)> = Vec::new();
    let mut i: usize = 0;
    while i < v.len()
        invariant
            i <= v@.len(),
            r@ == v@.take(i as int),
        decreases v@.len() - i,
    {
        r.push(v[i]);
        assert(v@.take(i + 1) =~= v@.take(i as int).push(v@[i as int]));
        i = i + 1;
    }
    assert(v@.take(v@.len() as int) =~= v@);
    r
}

fn copy_i32s(v: &Vec<i32>) -> (r: Vec<i32>)
    ensures
        r@ == v@,
{
    let mut r: Vec<i32> = Vec::new();
    let mut i: usize = 0;
    while i < v.len()
        invariant
            i <= v@.len(),
            r@ == v@.take(i as int),
        decreases v@.len() - i,
    {
        r.push(v[i]);
        assert(v@.take(i + 1) =~= v@.take(i as int).push(v@[i as int]));
        i = i + 1;
    }
    assert(v@.take(v@.len() as int) =~= v@);
    r
}

fn copy_effects(v: &Vec<StatusEffectInstance>) -> (r: Vec<StatusEffectInstance>)
    ensures
        r@ == v@,
{
    let mut r: Vec<StatusEffectInstance> = Vec::new();
    let mut i: usize = 0;
    while i < v.len()
        invariant
            i <= v@.len(),
            r@ == v@.take(i as int),
        decreases v@.len() - i,
    {
        r.push(v[i]);
        assert(v@.take(i + 1) =~= v@.take(i as int).push(v@[i as int]));
        i = i + 1;
    }
    assert(v@.take(v@.len() as int) =~= v@);
    r
}

fn copy_explosion(e: &FireworkExplosionImpl) -> (r: FireworkExplosionImpl)
    ensures
        r@ == e@,
{
    FireworkExplosionImpl {
        shape: e.shape,
        colors: copy_i32s(&e.colors),
        fade_colors: copy_i32s(&e.fade_colors),
        has_trail: e.has_trail,
        has_twinkle: e.has_twinkle,
    }
}

fn copy_fireworks(f: &FireworksImpl) -> (r: FireworksImpl)
    ensures
        r@ == f@,
{
    let mut r: Vec<FireworkExplosionImpl> = Vec::new();
    let mut i: usize = 0;
    while i < f.explosions.len()
        invariant
            i <= f.explosions@.len(),
            explosions_view(r@) == explosions_view(f.explosions@).take(i as int),
        decreases f.explosions@.len() - i,
    {
        let ghost before = r@;
        r.push(copy_explosion(&f.explosions[i]));
        assert(explosions_view(r@) =~= explosions_view(before).push(f.explosions@[i as int]@));
        assert(explosions_view(f.explosions@).take(i + 1) =~= explosions_view(f.explosions@).take(i as int).push(
            f.explosions@[i as int]@,
        ));
        i = i + 1;
    }
    assert(explosions_view(f.explosions@).take(f.explosions@.len() as int) =~= explosions_view(f.explosions@));
    FireworksImpl { flight_duration: f.flight_duration, explosions: r }
}

fn copy_potion(p: &PotionContentsImpl) -> (r: PotionContentsImpl)
    ensures
        r@ == p@,
{
    let custom_name = match &p.custom_name {
        Some(t) => Some(t.clone()),
        None => None,
    };
    PotionContentsImpl {
        potion_id: p.potion_id,
        custom_color: p.custom_color,
        custom_effects: copy_effects(&p.custom_effects),
        custom_name,
    }
}

/// A copy of a component value.
pub fn copy_component(c: &DataComponentImpl) -> (r: DataComponentImpl)
    ensures
        r@ == c@,
    decreases c,
{
    match c {
        DataComponentImpl::MaxStackSize(m) => DataComponentImpl::MaxStackSize(MaxStackSizeImpl { size: m.size }),
        DataComponentImpl::Enchantments(e) => DataComponentImpl::Enchantments(
            EnchantmentsImpl { enchantment: copy_pairs(&e.enchantment) },
        ),
        DataComponentImpl::Damage(d) => DataComponentImpl::Damage(DamageImpl { damage: d.damage }),
        DataComponentImpl::Unbreakable(_) => DataComponentImpl::Unbreakable(UnbreakableImpl),
        DataComponentImpl::PotionContents(p) => DataComponentImpl::PotionContents(copy_potion(p)),
        DataComponentImpl::FireworkExplosion(e) => DataComponentImpl::FireworkExplosion(copy_explosion(e)),
        DataComponentImpl::Fireworks(f) => DataComponentImpl::Fireworks(copy_fireworks(f)),
        DataComponentImpl::Container(ci) => {
            let rc = copy_container(ci);
            proof {
                lemma_container_view(rc);
                lemma_container_view(*ci);
            }
            DataComponentImpl::Container(rc)
        },
    }
}

fn copy_container(ci: &ContainerImpl) -> (rc: ContainerImpl)
    ensures
        container_view(rc.items@) == container_view(ci.items@),
    decreases ci,
{
    let mut r: Vec<ContainerSlot> = Vec::new();
    let mut i: usize = 0;
    while i < ci.items.len()
        invariant
            i <= ci.items@.len(),
            container_view(r@) == container_view(ci.items@).take(i as int),
        decreases ci.items@.len() - i,
    {
        let ghost before = r@;
        let st = copy_stack(&ci.items[i].stack);
        r.push(ContainerSlot { slot: ci.items[i].slot, stack: st });
        assert(container_view(r@) =~= container_view(before).push(container_view(ci.items@)[i as int]));
        assert(container_view(ci.items@).take(i + 1) =~= container_view(ci.items@).take(i as int).push(
            container_view(ci.items@)[i as int],
        ));
        i = i + 1;
    }
    assert(container_view(ci.items@).take(ci.items@.len() as int) =~= container_view(ci.items@));
    ContainerImpl { items: r }
}

/// A copy of a stack.
pub fn copy_stack(s: &ItemStack) -> (r: ItemStack)
    ensures
        r@ == s@,
    decreases s,
{
    let mut patch: Vec<(DataComponent, Option<DataComponentImpl>)> = Vec::new();
    let mut i: usize = 0;
    while i < s.patch.len()
        invariant
            i <= s.patch@.len(),
            patch_view(patch@) == patch_view(s.patch@).take(i as int),
        decreases s.patch@.len() - i,
    {
        let ghost before = patch@;
        let entry = &s.patch[i];
        let value = match &entry.1 {
            Some(c) => Some(copy_component(c)),
            None => None,
        };
        patch.push((entry.0, value));
        assert(patch_view(patch@) =~= patch_view(before).push(patch_view(s.patch@)[i as int]));
        assert(patch_view(s.patch@).take(i + 1) =~= patch_view(s.patch@).take(i as int).push(patch_view(s.patch@)[i as int]));
        i = i + 1;
    }
    assert(patch_view(s.patch@).take(s.patch@.len() as int) =~= patch_view(s.patch@));
    let r = ItemStack { item_count: s.item_count, item: s.item, patch };
    proof {
        lemma_stack_view_patch(r);
        lemma_stack_view_patch(*s);
    }
    r
}

fn pairs_equal(a: &Vec<(u8, i32)>, b: &Vec<(u8, i32)>) -> (r: bool)
    ensures
        r == (a@ == b@),
{
    if a.len() != b.len() {
        return false;
    }
    let mut i: usize = 0;
    while i < a.len()
        invariant
            a@.len() == b@.len(),
            i <= a@.len(),
            forall|t: int| 0 <= t < i ==> a@[t] == b@[t],
        decreases a@.len() - i,
    {
        if a[i].0 != b[i].0 || a[i].1 != b[i].1 {
            return false;
        }
        i = i + 1;
    }
    assert(a@ =~= b@);
    true
}

fn i32s_equal(a: &Vec<i32>, b: &Vec<i32>) -> (r: bool)
    ensures
        r == (a@ == b@),
{
    if a.len() != b.len() {
        return false;
    }
    let mut i: usize = 0;
    while i < a.len()
        invariant
            a@.len() == b@.len(),
            i <= a@.len(),
            forall|t: int| 0 <= t < i ==> a@[t] == b@[t],
        decreases a@.len() - i,
    {
        if a[i] != b[i] {
            return false;
        }
        i = i + 1;
    }
    assert(a@ =~= b@);
    true
}

fn effects_equal(a: &Vec<StatusEffectInstance>, b: &Vec<StatusEffectInstance>) -> (r: bool)
    ensures
        r == (a@ == b@),
{
    if a.len() != b.len() {
        return false;
    }
    let mut i: usize = 0;
    while i < a.len()
        invariant
            a@.len() == b@.len(),
            i <= a@.len(),
            forall|t: int| 0 <= t < i ==> a@[t] == b@[t],
        decreases a@.len() - i,
    {
        if a[i] != b[i] {
            return false;
        }
        i = i + 1;
    }
    assert(a@ =~= b@);
    true
}

fn explosions_equal_one(a: &FireworkExplosionImpl, b: &FireworkExplosionImpl) -> (r: bool)
    ensures
        r == (a@ == b@),
{
    a.shape == b.shape && i32s_equal(&a.colors, &b.colors) && i32s_equal(&a.fade_colors, &b.fade_colors) && a.has_trail
        == b.has_trail && a.has_twinkle == b.has_twinkle
}

fn fireworks_equal(a: &FireworksImpl, b: &FireworksImpl) -> (r: bool)
    ensures
        r == (a@ == b@),
{
    if a.flight_duration != b.flight_duration {
        return false;
    }
    if a.explosions.len() != b.explosions.len() {
        assert(explosions_view(a.explosions@).len() != explosions_view(b.explosions@).len());
        return false;
    }
    let ghost av = explosions_view(a.explosions@);
    let ghost bv = explosions_view(b.explosions@);
    let mut i: usize = 0;
    while i < a.explosions.len()
        invariant
            a.explosions@.len() == b.explosions@.len() == av.len() == bv.len(),
            av == explosions_view(a.explosions@),
            bv == explosions_view(b.explosions@),
            i <= a.explosions@.len(),
            forall|t: int| 0 <= t < i ==> av[t] == bv[t],
        decreases a.explosions@.len() - i,
    {
        if !explosions_equal_one(&a.explosions[i], &b.explosions[i]) {
            assert(av[i as int] != bv[i as int]);
            return false;
        }
        i = i + 1;
    }
    assert(av =~= bv);
    true
}

fn potions_equal(a: &PotionContentsImpl, b: &PotionContentsImpl) -> (r: bool)
    ensures
        r == (a@ == b@),
{
    let names = match (&a.custom_name, &b.custom_name) {
        (Some(x), Some(y)) => {
            let same = PartialEq::eq(x, y);
            assert(same == (x@ == y@));
            same
        },
        (None, None) => true,
        _ => false,
    };
    assert(names == (a@.custom_name == b@.custom_name));
    let ids = match (a.potion_id, b.potion_id) {
        (Some(x), Some(y)) => x == y,
        (None, None) => true,
        _ => false,
    };
    let colors = match (a.custom_color, b.custom_color) {
        (Some(x), Some(y)) => x == y,
        (None, None) => true,
        _ => false,
    };
    ids && colors && effects_equal(&a.custom_effects, &b.custom_effects) && names
}

/// Whether two component values are equal.
pub fn components_equal(a: &DataComponentImpl, b: &DataComponentImpl) -> (r: bool)
    ensures
        r == (a@ == b@),
    decreases a, 0int,
{
    match (a, b) {
        (DataComponentImpl::MaxStackSize(x), DataComponentImpl::MaxStackSize(y)) => x.size == y.size,
        (DataComponentImpl::Enchantments(x), DataComponentImpl::Enchantments(y)) => pairs_equal(&x.enchantment, &y.enchantment),
        (DataComponentImpl::Damage(x), DataComponentImpl::Damage(y)) => x.damage == y.damage,
        (DataComponentImpl::Unbreakable(_), DataComponentImpl::Unbreakable(_)) => true,
        (DataComponentImpl::PotionContents(x), DataComponentImpl::PotionContents(y)) => potions_equal(x, y),
        (DataComponentImpl::FireworkExplosion(x), DataComponentImpl::FireworkExplosion(y)) => explosions_equal_one(x, y),
        (DataComponentImpl::Fireworks(x), DataComponentImpl::Fireworks(y)) => fireworks_equal(x, y),
        (DataComponentImpl::Container(x), DataComponentImpl::Container(y)) => {
            proof {
                lemma_container_view(*x);
                lemma_container_view(*y);
            }
            containers_equal(x, y)
        },
        _ => false,
    }
}

fn containers_equal(x: &ContainerImpl, y: &ContainerImpl) -> (r: bool)
    ensures
        r == (container_view(x.items@) == container_view(y.items@)),
    decreases x, 0int,
{
    let ghost xv = container_view(x.items@);
    let ghost yv = container_view(y.items@);
    if x.items.len() != y.items.len() {
        assert(xv.len() != yv.len());
        return false;
    }
    let mut i: usize = 0;
    while i < x.items.len()
        invariant
            x.items@.len() == y.items@.len() == xv.len() == yv.len(),
            xv == container_view(x.items@),
            yv == container_view(y.items@),
            i <= x.items@.len(),
            forall|t: int| 0 <= t < i ==> xv[t] == yv[t],
        decreases x.items@.len() - i,
    {
        assert(xv[i as int] == (x.items@[i as int].slot, x.items@[i as int].stack@));
        assert(yv[i as int] == (y.items@[i as int].slot, y.items@[i as int].stack@));
        if x.items[i].slot != y.items[i].slot || !stacks_equal(&x.items[i].stack, &y.items[i].stack) {
            assert(xv[i as int] != yv[i as int]);
            return false;
        }
        i = i + 1;
    }
    assert(xv =~= yv);
    true
}

/// Whether two stacks are equal: count, item and patch.
pub fn stacks_equal(a: &ItemStack, b: &ItemStack) -> (r: bool)
    ensures
        r == (a@ == b@),
    decreases a, 2int,
{
    proof {
        lemma_stack_view_patch(*a);
        lemma_stack_view_patch(*b);
    }
    if a.item_count != b.item_count || a.item != b.item {
        return false;
    }
    match_patches(a, b)
}

/// Whether the stacks have the same item and the same patch.
pub fn are_items_and_components_equal(a: &ItemStack, b: &ItemStack) -> (r: bool)
    ensures
        r == (a@.item == b@.item && a@.patch == b@.patch),
{
    proof {
        lemma_stack_view_patch(*a);
        lemma_stack_view_patch(*b);
    }
    a.item == b.item && match_patches(a, b)
}

fn match_patches(a: &ItemStack, b: &ItemStack) -> (r: bool)
    ensures
        r == (a@.patch == b@.patch),
    decreases a, 1int,
{
    proof {
        lemma_stack_view_patch(*a);
        lemma_stack_view_patch(*b);
    }
    let ghost av = a@.patch;
    let ghost bv = b@.patch;
    if a.patch.len() != b.patch.len() {
        assert(av.len() != bv.len());
        return false;
    }
    let mut i: usize = 0;
    while i < a.patch.len()
        invariant
            a.patch@.len() == b.patch@.len() == av.len() == bv.len(),
            av == patch_view(a.patch@),
            bv == patch_view(b.patch@),
            av == a@.patch,
            bv == b@.patch,
            i <= a.patch@.len(),
            forall|t: int| 0 <= t < i ==> av[t] == bv[t],
        decreases a.patch@.len() - i,
    {
        assert(av[i as int] == (a.patch@[i as int].0, match a.patch@[i as int].1 {
            Some(c) => Some(component_view(c)),
            None => None::<ComponentView>,
        }));
        assert(bv[i as int] == (b.patch@[i as int].0, match b.patch@[i as int].1 {
            Some(c) => Some(component_view(c)),
            None => None::<ComponentView>,
        }));
        let same = a.patch[i].0 == b.patch[i].0 && match (&a.patch[i].1, &b.patch[i].1) {
            (Some(x), Some(y)) => components_equal(x, y),
            (None, None) => true,
            _ => false,
        };
        if !same {
            if a.patch[i].0 != b.patch[i].0 {
                assert(av[i as int].0 != bv[i as int].0);
            } else {
                assert(av[i as int].1 != bv[i as int].1);
            }
            assert(av[i as int] != bv[i as int]);
            return false;
        }
        i = i + 1;
    }
    assert(av =~= bv);
    true
}

/// The index of the first patch entry for component kind `id`, or -1 when there is none.
pub open spec fn first_entry_index(patch: Seq<(DataComponent, Option<ComponentView>)>, id: u8) -> int
    decreases patch.len(),
{
    if patch.len() == 0 {
        -1
    } else if patch[0].0.0 == id {
        0
    } else {
        let r = first_entry_index(patch.drop_first(), id);
        if r < 0 {
            -1
        } else {
            r + 1
        }
    }
}

/// How many items fit in a stack: the value of its first max-stack-size entry, 1 when that
/// entry removes the component, and the item's own size when it has no such entry.
pub open spec fn spec_max_stack_size(v: ItemStackView) -> u8 {
    let j = first_entry_index(v.patch, MAX_STACK_SIZE);
    if j < 0 {
        v.item.max_stack_size
    } else {
        match v.patch[j].1 {
            Some(ComponentView::MaxStackSize(n)) => n,
            Some(_) => v.item.max_stack_size,
            None => 1,
        }
    }
}

/// A stack with the given count and otherwise the same as `v`.
pub open spec fn with_count(v: ItemStackView, count: u8) -> ItemStackView {
    ItemStackView { item_count: count, ..v }
}

/// Scanning a patch: the first entry of kind `id` at `t`, after entries of other kinds,
/// is the first entry of that kind.
pub proof fn lemma_first_entry_step(patch: Seq<(DataComponent, Option<ComponentView>)>, id: u8, t: int)
    requires
        0 <= t < patch.len(),
        forall|u: int| 0 <= u < t ==> #[trigger] patch[u].0.0 != id,
    ensures
        patch[t].0.0 == id ==> first_entry_index(patch, id) == t,
    decreases t,
{
    if t > 0 {
        assert forall|u: int| 0 <= u < t - 1 implies #[trigger] patch.drop_first()[u].0.0 != id by {
            assert(patch.drop_first()[u] == patch[u + 1]);
        }
        assert(patch[0].0.0 != id);
        lemma_first_entry_step(patch.drop_first(), id, t - 1);
    }
}

/// A patch with no entry of kind `id` has no first entry of that kind.
pub proof fn lemma_first_entry_none(patch: Seq<(DataComponent, Option<ComponentView>)>, id: u8)
    requires
        forall|u: int| 0 <= u < patch.len() ==> #[trigger] patch[u].0.0 != id,
    ensures
        first_entry_index(patch, id) == -1,
    decreases patch.len(),
{
    if patch.len() > 0 {
        assert forall|u: int| 0 <= u < patch.drop_first().len() implies #[trigger] patch.drop_first()[u].0.0 != id by {
            assert(patch.drop_first()[u] == patch[u + 1]);
        }
        assert(patch[0].0.0 != id);
        lemma_first_entry_none(patch.drop_first(), id);
    }
}

impl ItemStack {
    /// Whether the stack holds nothing: no items, or the empty item.
    pub fn is_empty(&self) -> (r: bool)
        ensures
            r == is_empty_view(self@),
    {
        proof {
            lemma_stack_view_patch(*self);
        }
        self.item_count == 0 || self.item.id == 0
    }

    /// How many items fit in this stack; see [`spec_max_stack_size`].
    pub fn get_max_stack_size(&self) -> (r: u8)
        ensures
            r == spec_max_stack_size(self@),
    {
        proof {
            lemma_stack_view_patch(*self);
        }
        let ghost pv = self@.patch;
        let mut t: usize = 0;
        while t < self.patch.len()
            invariant
                pv == patch_view(self.patch@),
                pv == self@.patch,
                self@.item == self.item,
                t <= self.patch@.len(),
                forall|u: int| 0 <= u < t ==> #[trigger] pv[u].0.0 != MAX_STACK_SIZE,
            decreases self.patch@.len() - t,
        {
            if self.patch[t].0.0 == MAX_STACK_SIZE {
                proof {
                    lemma_first_entry_step(pv, MAX_STACK_SIZE, t as int);
                }
                assert(pv[t as int].1 == match self.patch@[t as int].1 {
                    Some(c) => Some(component_view(c)),
                    None => None::<ComponentView>,
                });
                return match &self.patch[t].1 {
                    Some(DataComponentImpl::MaxStackSize(m)) => m.size,
                    Some(_) => self.item.max_stack_size,
                    None => 1,
                };
            }
            t = t + 1;
        }
        proof {
            lemma_first_entry_none(pv, MAX_STACK_SIZE);
        }
        self.item.max_stack_size
    }

    /// A copy of this stack holding `count` items.
    pub fn copy_with_count(&self, count: u8) -> (r: ItemStack)
        ensures
            r@ == with_count(self@, count),
    {
        let mut r = copy_stack(self);
        proof {
            lemma_stack_view_patch(r);
        }
        r.item_count = count;
        proof {
            lemma_stack_view_patch(r);
        }
        r
    }

    /// Takes away up to `amount` items, no fewer than none.
    pub fn decrement(&mut self, amount: u8)
        ensures
            final(self)@ == with_count(old(self)@, if old(self).item_count >= amount {
                (old(self).item_count - amount) as u8
            } else {
                0u8
            }),
    {
        proof {
            lemma_stack_view_patch(*self);
        }
        self.item_count = self.item_count.saturating_sub(amount);
        proof {
            lemma_stack_view_patch(*self);
        }
    }

    /// Adds `amount` items, up to 255.
    pub fn increment(&mut self, amount: u8)
        ensures
            final(self)@ == with_count(old(self)@, if old(self).item_count + amount <= 255 {
                (old(self).item_count + amount) as u8
            } else {
                255u8
            }),
    {
        proof {
            lemma_stack_view_patch(*self);
        }
        self.item_count = self.item_count.saturating_add(amount);
        proof {
            lemma_stack_view_patch(*self);
        }
    }

    /// Splits off up to `amount` items into a new stack, which is returned.
    pub fn split(&mut self, amount: u8) -> (r: ItemStack)
        ensures
            ({
                let n = if amount < old(self).item_count {
                    amount
                } else {
                    old(self).item_count
                };
                &&& r@ == with_count(old(self)@, n)
                &&& final(self)@ == with_count(old(self)@, (old(self).item_count - n) as u8)
            }),
    {
        let n = if amount < self.item_count {
            amount
        } else {
            self.item_count
        };
        let r = self.copy_with_count(n);
        self.decrement(n);
        r
    }
}

} // verus!
