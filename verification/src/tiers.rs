//! The five dandelion size tiers and their fixed attribute table.
//!
//! All lengths are fixed-point: collision and merge radii are given in
//! tenths of a world unit, render scale in hundredths, so that the merge
//! radius (1.2 times the collision radius) and every comparison against it
//! are exact integer arithmetic. The visual area of a tier is an integer
//! area measure proportional to the square of its collision radius times a
//! per-tier weight (weights 1.0, 1.2, 1.5, 2.0 and 3.0, scaled by ten);
//! only sums and differences of these values are ever observed, so the
//! constant of proportionality is folded away.

use vstd::prelude::*;

verus! {

/// Dandelion size variants, ordered from smallest to largest.
#[derive(Clone, Copy, Debug, PartialEq, Eq, Structural)]
pub enum DandelionSize {
    Tiny,
    Small,
    Medium,
    Large,
    Huge,
}

/// Largest visual area any single dandelion can contribute.
pub const MAX_VISUAL_AREA: u64 = 5_808_000;

impl DandelionSize {
    /// Sprite filename for this size.
    pub open spec fn spec_asset_path(self) -> Seq<char> {
        match self {
            DandelionSize::Tiny => "dandelion_tiny.png"@,
            DandelionSize::Small => "dandelion_small.png"@,
            DandelionSize::Medium => "dandelion_medium.png"@,
            DandelionSize::Large => "dandelion_large.png"@,
            DandelionSize::Huge => "dandelion_huge.png"@,
        }
    }

    /// Get the asset filename for this size.
    pub fn asset_path(&self) -> (r: &'static str)
        ensures
            r@ == self.spec_asset_path(),
    {
        match self {
            DandelionSize::Tiny => "dandelion_tiny.png",
            DandelionSize::Small => "dandelion_small.png",
            DandelionSize::Medium => "dandelion_medium.png",
            DandelionSize::Large => "dandelion_large.png",
            DandelionSize::Huge => "dandelion_huge.png",
        }
    }

    /// Number of seed orbs released when a dandelion of this size dies.
    pub open spec fn spec_spawn_count(self) -> u32 {
        match self {
            DandelionSize::Tiny => 2,
            DandelionSize::Small => 3,
            DandelionSize::Medium => 4,
            DandelionSize::Large => 5,
            DandelionSize::Huge => 6,
        }
    }

    /// Get spawn count when this dandelion dies.
    pub fn spawn_count(&self) -> (r: u32)
        ensures
            r == self.spec_spawn_count(),
    {
        match self {
            DandelionSize::Tiny => 2,
            DandelionSize::Small => 3,
            DandelionSize::Medium => 4,
            DandelionSize::Large => 5,
            DandelionSize::Huge => 6,
        }
    }

    /// Render scale in hundredths (a 175-pixel sprite at scale 20 is 35
    /// pixels wide).
    pub open spec fn spec_scale(self) -> u32 {
        match self {
            DandelionSize::Tiny => 20,
            DandelionSize::Small => 26,
            DandelionSize::Medium => 32,
            DandelionSize::Large => 40,
            DandelionSize::Huge => 50,
        }
    }

    /// Get scale factor for rendering, in hundredths.
    pub fn scale(&self) -> (r: u32)
        ensures
            r == self.spec_scale(),
    {
        match self {
            DandelionSize::Tiny => 20,
            DandelionSize::Small => 26,
            DandelionSize::Medium => 32,
            DandelionSize::Large => 40,
            DandelionSize::Huge => 50,
        }
    }

    /// Collision radius in tenths of a unit (17.5, 23, 28, 35 and 44 units).
    pub open spec fn spec_collision_radius(self) -> u32 {
        match self {
            DandelionSize::Tiny => 175,
            DandelionSize::Small => 230,
            DandelionSize::Medium => 280,
            DandelionSize::Large => 350,
            DandelionSize::Huge => 440,
        }
    }

    /// Get collision radius, in tenths of a unit.
    pub fn collision_radius(&self) -> (r: u32)
        ensures
            r == self.spec_collision_radius(),
    {
        match self {
            DandelionSize::Tiny => 175,
            DandelionSize::Small => 230,
            DandelionSize::Medium => 280,
            DandelionSize::Large => 350,
            DandelionSize::Huge => 440,
        }
    }

    /// Merge radius in tenths of a unit: 1.2 times the collision radius.
    pub open spec fn spec_merge_radius(self) -> u32 {
        (self.spec_collision_radius() * 12 / 10) as u32
    }

    /// Get merge radius (when dandelions should combine), in tenths of a
    /// unit.
    pub fn merge_radius(&self) -> (r: u32)
        ensures
            r == self.spec_merge_radius(),
    {
        self.collision_radius() * 12 / 10
    }

    /// The next tier up the ladder, if any.
    pub open spec fn spec_next_size(self) -> Option<DandelionSize> {
        match self {
            DandelionSize::Tiny => Some(DandelionSize::Small),
            DandelionSize::Small => Some(DandelionSize::Medium),
            DandelionSize::Medium => Some(DandelionSize::Large),
            DandelionSize::Large => Some(DandelionSize::Huge),
            DandelionSize::Huge => None,
        }
    }

    /// Get next size up for merging.
    pub fn next_size(&self) -> (r: Option<DandelionSize>)
        ensures
            r == self.spec_next_size(),
    {
        match self {
            DandelionSize::Tiny => Some(DandelionSize::Small),
            DandelionSize::Small => Some(DandelionSize::Medium),
            DandelionSize::Medium => Some(DandelionSize::Large),
            DandelionSize::Large => Some(DandelionSize::Huge),
            DandelionSize::Huge => None,
        }
    }

    /// Visual area of this tier: the square of the collision radius (in
    /// tenths) times the per-tier weight in tenths.
    pub open spec fn spec_visual_area(self) -> u64 {
        match self {
            DandelionSize::Tiny => 306_250,
            DandelionSize::Small => 634_800,
            DandelionSize::Medium => 1_176_000,
            DandelionSize::Large => 2_450_000,
            DandelionSize::Huge => 5_808_000,
        }
    }

    /// Get visual area coverage for curb appeal calculation.
    pub fn visual_area(&self) -> (r: u64)
        ensures
            r == self.spec_visual_area(),
            r <= MAX_VISUAL_AREA,
    {
        match self {
            DandelionSize::Tiny => 306_250,
            DandelionSize::Small => 634_800,
            DandelionSize::Medium => 1_176_000,
            DandelionSize::Large => 2_450_000,
            DandelionSize::Huge => 5_808_000,
        }
    }

    /// Base health of this tier before level scaling.
    pub open spec fn spec_base_health(self) -> u32 {
        match self {
            DandelionSize::Tiny => 1,
            DandelionSize::Small => 2,
            DandelionSize::Medium => 3,
            DandelionSize::Large => 4,
            DandelionSize::Huge => 5,
        }
    }

    /// Get base health before level scaling.
    pub fn base_health(&self) -> (r: u32)
        ensures
            r == self.spec_base_health(),
    {
        match self {
            DandelionSize::Tiny => 1,
            DandelionSize::Small => 2,
            DandelionSize::Medium => 3,
            DandelionSize::Large => 4,
            DandelionSize::Huge => 5,
        }
    }
}

/// Every tier's visual area is positive and at most `MAX_VISUAL_AREA`.
pub proof fn lemma_visual_area_bounds(s: DandelionSize)
    ensures
        0 < s.spec_visual_area() <= MAX_VISUAL_AREA,
{
}

} // verus!
