//! A falling tile. Geometry is measured in hundredths of a screen unit and
//! time in milliseconds, so every quantity of the simulation is an integer.
use vstd::prelude::*;

verus! {

/// The height of a tile, which is also the span of travel over which it can
/// be struck.
pub const TILE_HEIGHT: i64 = 10000;

/// The top of the hit bar.
pub const HIT_BAR: i64 = 55000;

/// The thickness of the hit bar; a thicker bar makes tiles easier to strike.
pub const HIT_DISTANCE: i64 = 2500;

/// The vertical center of the hit bar, the reference point of the hit
/// window: the top of the bar plus half its thickness.
pub const MIDDLE_BAR: i64 = 56250;

/// The lower screen bound; a tile past it was missed.
pub const BOTTOM_BOUND: i64 = 60000;

/// The distance at which a tile's center sits exactly on the bar's center:
/// the bar's center less half a tile height.
pub const CENTERED_DISTANCE: i64 = 51250;

/// Half the tile height plus half the bar thickness: the tolerance of the
/// hit window around the bar's center.
pub const HALF_WINDOW: i64 = 6250;

/// A single falling tile: how far it has travelled, which slot it falls in,
/// and how far it moves each tick.
#[derive(Clone, Copy, Debug, PartialEq, Eq, Structural)]
pub struct Tile {
    /// Travel from the top of the screen; the tile starts one tile height
    /// above it, so the value begins negative.
    pub distance: i64,
    /// The slot the tile falls through.
    pub slot: u8,
    /// Travel per tick.
    pub speed: i64,
}

/// The hit window: a strike on `slot` lands on this tile when the slots match
/// and the tile's vertical center is within half a tile height plus half the
/// bar thickness of the bar's center.
pub open spec fn spec_is_hit(t: Tile, slot: u8) -> bool {
    &&& slot == t.slot
    &&& -HALF_WINDOW <= t.distance + TILE_HEIGHT / 2 - MIDDLE_BAR
    &&& t.distance + TILE_HEIGHT / 2 - MIDDLE_BAR <= HALF_WINDOW
}

/// A strike on another slot never lands on this tile, whatever its distance.
pub proof fn lemma_is_hit_needs_matching_slot(t: Tile, slot: u8)
    requires
        slot != t.slot,
    ensures
        !spec_is_hit(t, slot),
{
}

/// A tile sitting exactly on the bar's center is within the hit window of its
/// own slot.
pub proof fn lemma_centered_tile_is_hit(t: Tile)
    requires
        t.distance == CENTERED_DISTANCE,
    ensures
        spec_is_hit(t, t.slot),
{
}

impl Tile {
    /// A tile released at the top boundary with the given speed, in a slot
    /// drawn uniformly at random from the configured slots.
    pub fn random_new(speed: i64, slot_count: u8) -> (t: Tile)
        requires
            slot_count >= 1,
        ensures
            t.distance == -TILE_HEIGHT,
            t.speed == speed,
            t.slot < slot_count,
    {
        Tile { distance: -TILE_HEIGHT, slot: random_below(slot_count), speed }
    }

    /// Advances the tile by its speed.
    pub fn tick(&mut self)
        requires
            old(self).speed >= 0,
            old(self).distance + old(self).speed <= i64::MAX,
        ensures
            final(self).distance == old(self).distance + old(self).speed,
            final(self).slot == old(self).slot,
            final(self).speed == old(self).speed,
    {
        self.distance = self.distance + self.speed;
    }

    /// Whether a strike on `slot` lands on this tile.
    pub fn is_hit(&self, slot: u8) -> (r: bool)
        ensures
            r == spec_is_hit(*self, slot),
    {
        if slot != self.slot {
            return false;
        }
        let middle = (self.distance as i128) + ((TILE_HEIGHT / 2) as i128);
        let offset = middle - (MIDDLE_BAR as i128);
        let magnitude = if offset < 0 {
            -offset
        } else {
            offset
        };
        magnitude <= HALF_WINDOW as i128
    }
}

/// Relies on rand::random_range: a draw from `0..n` lies below `n`; the range
/// is nonempty, so the call does not panic.
#[verifier::external_body]
pub(crate) fn random_below(n: u8) -> (r: u8)
    requires
        n >= 1,
    ensures
        r < n,
{
    rand::random_range(0..n)
}

} // verus!
