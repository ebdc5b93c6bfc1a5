use crate::block::AIR_STATE_ID;
use vstd::prelude::*;

verus! {

/// What the block under a plant is, as far as placement rules ask.
#[derive(Debug, Clone, Copy, PartialEq, Eq, Structural)]
pub enum GroundBlock {
    Cactus,
    Farmland,
    /// A block with the dirt tag.
    Dirt,
    Other,
}

/// The block under a plant: its kind and whether its top face is sturdy.
#[derive(Debug, Clone, Copy, PartialEq, Eq, Structural)]
pub struct Ground {
    pub block: GroundBlock,
    pub top_side_solid: bool,
}

/// How urgent a scheduled block tick is.
#[derive(Debug, Clone, Copy, PartialEq, Eq, Structural)]
pub enum TickPriority {
    ExtremelyHigh,
    VeryHigh,
    High,
    Normal,
    Low,
    VeryLow,
    ExtremelyLow,
}

/// A block tick to schedule at the plant's position.
#[derive(Debug, Clone, Copy, PartialEq, Eq, Structural)]
pub struct ScheduledTick {
    /// In game ticks from now.
    pub delay: u8,
    pub priority: TickPriority,
}

/// Whether an ordinary plant may grow on `ground`: dirt or farmland.
pub open spec fn spec_can_plant_on_top(ground: Ground) -> bool {
    ground.block == GroundBlock::Dirt || ground.block == GroundBlock::Farmland
}

/// Whether an ordinary plant may grow on `ground`: dirt or farmland.
pub fn can_plant_on_top(ground: &Ground) -> (r: bool)
    ensures
        r == spec_can_plant_on_top(*ground),
{
    ground.block == GroundBlock::Dirt || ground.block == GroundBlock::Farmland
}

/// Whether an ordinary plant may stand above `below`.
pub fn plant_can_place_at(below: &Ground) -> (r: bool)
    ensures
        r == spec_can_plant_on_top(*below),
{
    can_plant_on_top(below)
}

/// The state of an ordinary plant after a neighbour changed: air when it may no longer
/// stand, unchanged otherwise.
pub fn plant_state_for_neighbor_update(below: &Ground, state_id: u16) -> (r: u16)
    ensures
        r == (if spec_can_plant_on_top(*below) {
            state_id
        } else {
            AIR_STATE_ID
        }),
{
    if !plant_can_place_at(below) {
        return AIR_STATE_ID;
    }
    state_id
}

/// The cactus flower: grows on cactus, farmland or any block with a sturdy top.
#[derive(Debug, Clone, Copy, PartialEq, Eq, Structural)]
pub struct CactusFlowerBlock;

/// Whether a cactus flower may stand above `below`.
pub open spec fn spec_flower_can_stay(below: Ground) -> bool {
    below.block == GroundBlock::Cactus || below.block == GroundBlock::Farmland || below.top_side_solid
}

impl CactusFlowerBlock {
    /// Whether a cactus flower may stand above `below`.
    pub fn can_place_at_internal(&self, below: &Ground) -> (r: bool)
        ensures
            r == spec_flower_can_stay(*below),
    {
        below.block == GroundBlock::Cactus || below.block == GroundBlock::Farmland || below.top_side_solid
    }

    /// Whether a cactus flower may be placed above `below`.
    pub fn can_place_at(&self, below: &Ground) -> (r: bool)
        ensures
            r == spec_flower_can_stay(*below),
    {
        self.can_place_at_internal(below)
    }

    /// The state a placed cactus flower takes: its default state where it may stand,
    /// air otherwise.
    pub fn on_place(&self, below: &Ground, default_state_id: u16) -> (r: u16)
        ensures
            r == (if spec_flower_can_stay(*below) {
                default_state_id
            } else {
                AIR_STATE_ID
            }),
    {
        if !self.can_place_at_internal(below) {
            return AIR_STATE_ID;
        }
        default_state_id
    }

    /// A neighbour changed: the state stays, and when the flower may no longer stand a
    /// tick is scheduled for the next game tick, which breaks it with drops.
    pub fn get_state_for_neighbor_update(&self, below: &Ground, state_id: u16) -> (r: (u16, Option<ScheduledTick>))
        ensures
            r.0 == state_id,
            r.1 == (if spec_flower_can_stay(*below) {
                None
            } else {
                Some(ScheduledTick { delay: 1, priority: TickPriority::Normal })
            }),
    {
        if !self.can_place_at_internal(below) {
            return (state_id, Some(ScheduledTick { delay: 1, priority: TickPriority::Normal }));
        }
        (state_id, None)
    }

    /// Whether the scheduled tick breaks the flower: when it may no longer stand.
    pub fn on_scheduled_tick(&self, below: &Ground) -> (r: bool)
        ensures
            r == !spec_flower_can_stay(*below),
    {
        !self.can_place_at_internal(below)
    }
}

/// The cactus flower's rules agree: on any ground, placing it gives air exactly when a
/// neighbour update schedules a tick, and that tick breaks it exactly then too.
pub proof fn lemma_flower_rules_agree(below: Ground, default_state_id: u16, state_id: u16)
    requires
        default_state_id != AIR_STATE_ID,
    ensures
        ({
            let placed = if spec_flower_can_stay(below) {
                default_state_id
            } else {
                AIR_STATE_ID
            };
            let scheduled = !spec_flower_can_stay(below);
            let breaks = !spec_flower_can_stay(below);
            &&& (placed == AIR_STATE_ID) == scheduled
            &&& scheduled == breaks
        }),
{
}

/// An ordinary plant stands on dirt and farmland and on nothing else: not on a cactus,
/// and not on any other block, sturdy or not.
pub proof fn lemma_plants_need_soil(ground: Ground)
    ensures
        ground.block != GroundBlock::Dirt && ground.block != GroundBlock::Farmland ==> !spec_can_plant_on_top(ground),
        ground.block == GroundBlock::Dirt || ground.block == GroundBlock::Farmland ==> spec_can_plant_on_top(ground),
        ground.block == GroundBlock::Cactus ==> !spec_can_plant_on_top(ground) && spec_flower_can_stay(ground),
{
}

} // verus!
