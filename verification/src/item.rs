use vstd::prelude::*;

verus! {

/// An item kind: its registry id and how many fit in one stack by default.
#[derive(Debug, Clone, Copy, PartialEq, Eq, Structural)]
pub struct Item {
    pub id: u16,
    pub max_stack_size: u8,
}

/// The empty item, registry id 0.
pub open spec fn spec_air() -> Item {
    Item { id: 0, max_stack_size: 64 }
}

impl Item {
    /// The empty item, registry id 0.
    pub fn air() -> (r: Item)
        ensures
            r == spec_air(),
    {
        Item { id: 0, max_stack_size: 64 }
    }
}

/// The table of item kinds, indexed by registry id.
pub struct ItemRegistry {
    pub items: Vec<Item>,
}

impl ItemRegistry {
    /// Entry `i` is the item with id `i`.
    pub open spec fn wf(&self) -> bool {
        &&& self.items@.len() <= 0x10000
        &&& forall|i: int| 0 <= i < self.items@.len() ==> #[trigger] self.items@[i].id == i
    }

    /// The item with registry id `id`, if the registry has one.
    pub open spec fn spec_from_id(&self, id: u16) -> Option<Item> {
        if (id as int) < self.items@.len() {
            Some(self.items@[id as int])
        } else {
            None
        }
    }

    /// The item with registry id `id`, if the registry has one.
    pub fn from_id(&self, id: u16) -> (r: Option<Item>)
        ensures
            r == self.spec_from_id(id),
    {
        if (id as usize) < self.items.len() {
            Some(self.items[id as usize])
        } else {
            None
        }
    }
}

/// The kind of a data component, by its registry id.
#[derive(Debug, Clone, Copy, PartialEq, Eq, Structural)]
pub struct DataComponent(pub u8);

/// How many data component kinds the registry has; ids run from 0 below this.
pub const DATA_COMPONENT_COUNT: u8 = 96;

/// Registry id of the max-stack-size component.
pub const MAX_STACK_SIZE: u8 = 1;

/// Registry id of the damage component.
pub const DAMAGE: u8 = 3;

/// Registry id of the unbreakable component.
pub const UNBREAKABLE: u8 = 4;

/// Registry id of the enchantments component.
pub const ENCHANTMENTS: u8 = 10;

/// Registry id of the potion-contents component.
pub const POTION_CONTENTS: u8 = 42;

/// Registry id of the firework-explosion component.
pub const FIREWORK_EXPLOSION: u8 = 59;

/// Registry id of the fireworks component.
pub const FIREWORKS: u8 = 60;

/// Registry id of the container component.
pub const CONTAINER: u8 = 66;

/// How many enchantments the registry has; ids run from 0 below this.
pub const ENCHANTMENT_COUNT: u8 = 42;

impl DataComponent {
    /// The component kind with registry id `id`, if there is one.
    pub open spec fn spec_try_from_id(id: u8) -> Option<DataComponent> {
        if id < DATA_COMPONENT_COUNT {
            Some(DataComponent(id))
        } else {
            None
        }
    }

    /// The component kind with registry id `id`, if there is one.
    pub fn try_from_id(id: u8) -> (r: Option<DataComponent>)
        ensures
            r == Self::spec_try_from_id(id),
    {
        if id < DATA_COMPONENT_COUNT {
            Some(DataComponent(id))
        } else {
            None
        }
    }

    /// The registry id.
    pub fn to_id(&self) -> (r: u8)
        ensures
            r == self.0,
    {
        self.0
    }
}

/// How many items fit in a stack of this item.
#[derive(Debug, Clone, Copy, PartialEq, Eq, Structural)]
pub struct MaxStackSizeImpl {
    pub size: u8,
}

/// How worn the item is.
#[derive(Debug, Clone, Copy, PartialEq, Eq, Structural)]
pub struct DamageImpl {
    pub damage: i32,
}

/// The enchantments on an item: enchantment registry id and level.
#[derive(Debug, Clone)]
pub struct EnchantmentsImpl {
    pub enchantment: Vec<(u8, i32)>,
}

/// The item does not wear.
#[derive(Debug, Clone, Copy, PartialEq, Eq, Structural)]
pub struct UnbreakableImpl;

/// One status effect of a potion.
#[derive(Debug, Clone, Copy, PartialEq, Eq, Structural)]
pub struct StatusEffectInstance {
    pub effect_id: i32,
    pub amplifier: i32,
    pub duration: i32,
    pub ambient: bool,
    pub show_particles: bool,
    pub show_icon: bool,
}

/// What a potion holds.
#[derive(Debug, Clone)]
pub struct PotionContentsImpl {
    pub potion_id: Option<i32>,
    pub custom_color: Option<i32>,
    pub custom_effects: Vec<StatusEffectInstance>,
    pub custom_name: Option<String>,
}

/// The shape of a firework explosion.
#[derive(Debug, Clone, Copy, PartialEq, Eq, Structural)]
pub enum FireworkExplosionShape {
    SmallBall,
    LargeBall,
    Star,
    Creeper,
    Burst,
}

impl FireworkExplosionShape {
    /// The shape with wire id `id`.
    pub open spec fn spec_from_id(id: i32) -> Option<FireworkExplosionShape> {
        if id == 0 {
            Some(FireworkExplosionShape::SmallBall)
        } else if id == 1 {
            Some(FireworkExplosionShape::LargeBall)
        } else if id == 2 {
            Some(FireworkExplosionShape::Star)
        } else if id == 3 {
            Some(FireworkExplosionShape::Creeper)
        } else if id == 4 {
            Some(FireworkExplosionShape::Burst)
        } else {
            None
        }
    }

    /// The wire id of the shape.
    pub open spec fn spec_to_id(self) -> i32 {
        match self {
            FireworkExplosionShape::SmallBall => 0,
            FireworkExplosionShape::LargeBall => 1,
            FireworkExplosionShape::Star => 2,
            FireworkExplosionShape::Creeper => 3,
            FireworkExplosionShape::Burst => 4,
        }
    }

    /// The shape with wire id `id`.
    pub fn from_id(id: i32) -> (r: Option<FireworkExplosionShape>)
        ensures
            r == Self::spec_from_id(id),
    {
        if id == 0 {
            Some(FireworkExplosionShape::SmallBall)
        } else if id == 1 {
            Some(FireworkExplosionShape::LargeBall)
        } else if id == 2 {
            Some(FireworkExplosionShape::Star)
        } else if id == 3 {
            Some(FireworkExplosionShape::Creeper)
        } else if id == 4 {
            Some(FireworkExplosionShape::Burst)
        } else {
            None
        }
    }

    /// The wire id of the shape.
    pub fn to_id(&self) -> (r: i32)
        ensures
            r == self.spec_to_id(),
    {
        match self {
            FireworkExplosionShape::SmallBall => 0,
            FireworkExplosionShape::LargeBall => 1,
            FireworkExplosionShape::Star => 2,
            FireworkExplosionShape::Creeper => 3,
            FireworkExplosionShape::Burst => 4,
        }
    }
}

/// One firework explosion.
#[derive(Debug, Clone)]
pub struct FireworkExplosionImpl {
    pub shape: FireworkExplosionShape,
    pub colors: Vec<i32>,
    pub fade_colors: Vec<i32>,
    pub has_trail: bool,
    pub has_twinkle: bool,
}

/// A firework rocket: flight duration and explosions.
#[derive(Debug, Clone)]
pub struct FireworksImpl {
    pub flight_duration: i32,
    pub explosions: Vec<FireworkExplosionImpl>,
}

/// One stack in a container, with its slot number.
#[derive(Debug)]
pub struct ContainerSlot {
    pub slot: i8,
    pub stack: ItemStack,
}

/// The stacks a container item holds.
#[derive(Debug)]
pub struct ContainerImpl {
    pub items: Vec<ContainerSlot>,
}

/// The value of a data component, for the kinds that have a wire codec.
#[derive(Debug)]
pub enum DataComponentImpl {
    MaxStackSize(MaxStackSizeImpl),
    Enchantments(EnchantmentsImpl),
    Damage(DamageImpl),
    Unbreakable(UnbreakableImpl),
    PotionContents(PotionContentsImpl),
    FireworkExplosion(FireworkExplosionImpl),
    Fireworks(FireworksImpl),
    Container(ContainerImpl),
}

/// A stack of items: how many, of which item, and the component changes it carries
/// (a value for an added or replaced component, `None` for a removed one).
#[derive(Debug)]
pub struct ItemStack {
    pub item_count: u8,
    pub item: Item,
    pub patch: Vec<(DataComponent, Option<DataComponentImpl>)>,
}

// ---------------------------------------------------------------------------
// Mathematical views
// ---------------------------------------------------------------------------

/// A potion's contents, as values.
pub struct PotionView {
    pub potion_id: Option<i32>,
    pub custom_color: Option<i32>,
    pub custom_effects: Seq<StatusEffectInstance>,
    pub custom_name: Option<Seq<char>>,
}

/// A firework explosion, as values.
pub struct ExplosionView {
    pub shape: FireworkExplosionShape,
    pub colors: Seq<i32>,
    pub fade_colors: Seq<i32>,
    pub has_trail: bool,
    pub has_twinkle: bool,
}

/// A data component value, as values.
pub enum ComponentView {
    MaxStackSize(u8),
    Enchantments(Seq<(u8, i32)>),
    Damage(i32),
    Unbreakable,
    PotionContents(PotionView),
    FireworkExplosion(ExplosionView),
    Fireworks(i32, Seq<ExplosionView>),
    Container(Seq<(i8, ItemStackView)>),
}

/// An item stack, as values.
pub struct ItemStackView {
    pub item_count: u8,
    pub item: Item,
    pub patch: Seq<(DataComponent, Option<ComponentView>)>,
}

impl View for PotionContentsImpl {
    type V = PotionView;

    open spec fn view(&self) -> PotionView {
        PotionView {
            potion_id: self.potion_id,
            custom_color: self.custom_color,
            custom_effects: self.custom_effects@,
            custom_name: match self.custom_name {
                Some(t) => Some(t@),
                None => None,
            },
        }
    }
}

impl View for FireworkExplosionImpl {
    type V = ExplosionView;

    open spec fn view(&self) -> ExplosionView {
        ExplosionView {
            shape: self.shape,
            colors: self.colors@,
            fade_colors: self.fade_colors@,
            has_trail: self.has_trail,
            has_twinkle: self.has_twinkle,
        }
    }
}

impl View for EnchantmentsImpl {
    type V = Seq<(u8, i32)>;

    open spec fn view(&self) -> Seq<(u8, i32)> {
        self.enchantment@
    }
}

impl View for FireworksImpl {
    type V = (i32, Seq<ExplosionView>);

    open spec fn view(&self) -> (i32, Seq<ExplosionView>) {
        (self.flight_duration, explosions_view(self.explosions@))
    }
}

/// The explosions of a firework, as values.
pub open spec fn explosions_view(v: Seq<FireworkExplosionImpl>) -> Seq<ExplosionView> {
    v.map_values(|e: FireworkExplosionImpl| e@)
}

/// A stack as values.
pub open spec fn stack_view(s: ItemStack) -> ItemStackView
    decreases s,
{
    ItemStackView {
        item_count: s.item_count,
        item: s.item,
        patch: Seq::new(
            s.patch@.len(),
            |i: int|
                if 0 <= i < s.patch@.len() {
                    (s.patch@[i].0, option_component_view(s, i))
                } else {
                    (DataComponent(0), None)
                },
        ),
    }
}

/// The value of patch entry `i` of `s`, as values.
pub open spec fn option_component_view(s: ItemStack, i: int) -> Option<ComponentView>
    decreases s, 0int,
{
    if 0 <= i < s.patch@.len() {
        match s.patch@[i].1 {
            Some(c) => {
                proof {
                    assert(decreases_to!(s => s.patch));
                    assert(decreases_to!(s.patch => s.patch@));
                    assert(decreases_to!(s.patch@ => s.patch@[i]));
                }
                Some(component_view(c))
            },
            None => None,
        }
    } else {
        None
    }
}

/// A component value as values.
pub open spec fn component_view(c: DataComponentImpl) -> ComponentView
    decreases c,
{
    match c {
        DataComponentImpl::MaxStackSize(m) => ComponentView::MaxStackSize(m.size),
        DataComponentImpl::Enchantments(e) => ComponentView::Enchantments(e.enchantment@),
        DataComponentImpl::Damage(d) => ComponentView::Damage(d.damage),
        DataComponentImpl::Unbreakable(_) => ComponentView::Unbreakable,
        DataComponentImpl::PotionContents(p) => ComponentView::PotionContents(p@),
        DataComponentImpl::FireworkExplosion(e) => ComponentView::FireworkExplosion(e@),
        DataComponentImpl::Fireworks(f) => ComponentView::Fireworks(f.flight_duration, explosions_view(f.explosions@)),
        DataComponentImpl::Container(ci) => ComponentView::Container(
            Seq::new(
                ci.items@.len(),
                |i: int|
                    if 0 <= i < ci.items@.len() {
                        proof {
                            assert(decreases_to!(ci => ci.items));
                            assert(decreases_to!(ci.items => ci.items@));
                            assert(decreases_to!(ci.items@ => ci.items@[i]));
                        }
                        (ci.items@[i].slot, stack_view(ci.items@[i].stack))
                    } else {
                        (0i8, ItemStackView { item_count: 0, item: spec_air(), patch: Seq::empty() })
                    },
            ),
        ),
    }
}

impl View for ItemStack {
    type V = ItemStackView;

    open spec fn view(&self) -> ItemStackView {
        stack_view(*self)
    }
}

impl View for DataComponentImpl {
    type V = ComponentView;

    open spec fn view(&self) -> ComponentView {
        component_view(*self)
    }
}

} // verus!
