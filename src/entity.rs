use vstd::prelude::*;

verus! {

/// A full turn in binary angle units.
pub const TURN: u32 = 65536;

#[derive(Clone, Copy, Debug, PartialEq, Eq, Structural)]
pub enum EntityKind {
    Boat,
    Aircraft,
    Weapon,
    Collectible,
    Obstacle,
    Decoy,
    Turret,
}

#[derive(Clone, Copy, Debug, PartialEq, Eq, Structural)]
pub enum EntitySubKind {
    Ram,
    Submarine,
    Dredger,
    Cruiser,
    Torpedo,
    Plane,
    Heli,
    DepthCharge,
    Rocket,
    Missile,
    Shell,
    Sam,
    Mine,
    Other,
}

/// Altitude band of a contact.
#[derive(Clone, Copy, Debug, PartialEq, Eq, Structural)]
pub enum Altitude {
    Airborne,
    Surface,
    Submerged,
}

/// A weapon or aircraft slot of a vessel. `entity_type` indexes the entity table.
#[derive(Clone, Copy, Debug, PartialEq, Eq, Structural)]
pub struct Armament {
    pub entity_type: usize,
    pub turret: Option<usize>,
    pub vertical: bool,
}

/// A turret mount: its rest angle and how far either side of it the turret may turn.
#[derive(Clone, Copy, Debug, PartialEq, Eq, Structural)]
pub struct Turret {
    pub angle: u16,
    pub azimuth: u16,
}

/// Static data of one entity type.
#[derive(Clone, Debug)]
pub struct EntityData {
    pub kind: EntityKind,
    pub sub_kind: EntitySubKind,
    /// Health as a number of ticks of damage.
    pub max_health: u32,
    pub length: i32,
    pub radius: i32,
    pub speed: i32,
    pub level: u8,
    pub armaments: Vec<Armament>,
    pub turrets: Vec<Turret>,
}

/// Distance between two binary angles, the short way round: at most half a turn.
pub open spec fn angle_dist(a: u16, b: u16) -> int {
    let d = if a >= b {
        a - b
    } else {
        a + TURN - b
    };
    if d <= TURN - d {
        d
    } else {
        TURN - d
    }
}

pub fn angle_distance(a: u16, b: u16) -> (r: u16)
    ensures
        r == angle_dist(a, b),
        r <= TURN / 2,
{
    let d: u32 = if a >= b {
        a as u32 - b as u32
    } else {
        a as u32 + TURN - b as u32
    };
    if d <= TURN - d {
        d as u16
    } else {
        (TURN - d) as u16
    }
}

/// Whether the angle `current`, relative to the vessel, is within a turret's arc.
pub open spec fn within_azimuth_spec(t: Turret, current: u16) -> bool {
    angle_dist(current, t.angle) <= t.azimuth
}

impl Turret {
    pub fn within_azimuth(&self, current: u16) -> (r: bool)
        ensures
            r == within_azimuth_spec(*self, current),
    {
        angle_distance(current, self.angle) <= self.azimuth
    }
}

} // verus!
