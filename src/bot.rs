use vstd::prelude::*;

use rand::Rng;

use crate::entity::{Altitude, EntityData, EntityKind, EntitySubKind, TURN};
use crate::steering::{
    SPRING_BOUND, abs, attract_term, repel_term, spring_stretch, spring_term, attract, delta_ok, div_toward_zero, isqrt, lemma_square_bound, repel, spring, trunc_div, Force, SCALE,
};
use crate::targeting::{
    best_firing_solution, is_best, effective_deviation, lemma_best_unique, qualifies, Loadout,
};

verus! {

/// Highest aggression, in parts per million: the chance of acting on a tick.
pub const MAX_AGGRESSION: u32 = 100000;

/// Upgrade levels run below this.
pub const MAX_LEVEL: u8 = 7;

/// Terrain above this height is land.
pub const SAND_LEVEL: i32 = 0;

/// Radius of the disk that aim offsets are drawn from.
pub const AIM_BIAS_RADIUS: i32 = 10;

/// Number of terrain samples around the vessel.
pub const RING: usize = 10;

/// A sensed entity.
#[derive(Clone, Debug)]
pub struct Contact {
    pub id: u32,
    pub player_id: Option<u32>,
    /// Index into the entity table, when resolvable.
    pub entity_type: Option<usize>,
    pub x: i32,
    pub y: i32,
    pub altitude: Altitude,
    /// Damage taken, in ticks of health.
    pub damage: u32,
    pub reloads: Vec<u32>,
}

/// What a bot sees on one tick.
#[derive(Clone, Debug)]
pub struct Snapshot {
    pub player_id: u32,
    /// Own vessel first, when it exists.
    pub contacts: Vec<Contact>,
    /// Terrain height at each point of `ring_offsets` around the own vessel.
    pub ring_heights: Vec<Option<i32>>,
    pub world_radius: i32,
    pub table: Vec<EntityData>,
    /// Entity types the bot may spawn as.
    pub spawn_options: Vec<usize>,
    /// Entity types the bot may upgrade to with its score.
    pub upgrade_options: Vec<usize>,
    /// For each armament of the own vessel, the angle between its facing and its
    /// bearing to the nearest hostile.
    pub aim_deviations: Vec<u16>,
    /// Bearing of the nearest hostile relative to the own vessel's heading.
    pub hostile_bearing: u16,
}

/// The random draws of one tick.
#[derive(Clone, Copy, Debug)]
pub struct Rolls {
    /// Uniform below one million: the bot acts when it falls below its aggression.
    pub act: u32,
    /// Uniform below three: a dead bot quits when it is zero.
    pub quit: u32,
    /// Uniform index into the options chosen from.
    pub pick: usize,
}

#[derive(Clone, Copy, Debug, PartialEq, Eq, Structural)]
pub enum AltitudeTarget {
    Surface,
    Deepest,
}

/// A world position.
#[derive(Clone, Copy, Debug, PartialEq, Eq, Structural)]
pub struct Point {
    pub x: i64,
    pub y: i64,
}

#[derive(Clone, Copy, Debug, PartialEq, Eq, Structural)]
pub struct Control {
    /// Heading as a direction vector; zero means no preference.
    pub heading: Force,
    pub speed: i32,
    pub altitude_target: Option<AltitudeTarget>,
    pub aim: Option<Point>,
    pub active: bool,
}

#[derive(Clone, Copy, Debug, PartialEq, Eq, Structural)]
pub enum Command {
    Control(Control),
    Fire { index: usize, x: i64, y: i64 },
    Spawn { entity_type: usize },
    Upgrade { entity_type: usize },
}

/// A ship-controlling AI with a randomized personality.
#[derive(Clone, Copy, Debug)]
pub struct Bot {
    aggression: u32,
    aim_bias_x: i32,
    aim_bias_y: i32,
    level_ambition: u8,
    spawned_at_least_once: bool,
}

/// Relies on rand's `Rng::gen_range` with the thread generator: a value in `0..n`.
#[verifier::external_body]
fn random_below(n: u64) -> (r: u64)
    requires
        n > 0,
    ensures
        r < n,
{
    rand::thread_rng().gen_range(0..n)
}

/// Draws points uniformly from the square around the aim disk until one falls in
/// the disk; after many misses in a row it settles on the centre.
fn draw_aim_bias() -> (r: (i32, i32))
    ensures
        r.0 * r.0 + r.1 * r.1 <= AIM_BIAS_RADIUS * AIM_BIAS_RADIUS,
{
    let side = (2 * AIM_BIAS_RADIUS + 1) as u64;
    let mut tries: u32 = 0;
    while tries < 64
        invariant
            side == 2 * AIM_BIAS_RADIUS + 1,
        decreases 64 - tries,
    {
        let x = random_below(side) as i32 - AIM_BIAS_RADIUS;
        let y = random_below(side) as i32 - AIM_BIAS_RADIUS;
        proof {
            lemma_square_bound(x as int, AIM_BIAS_RADIUS as int);
            lemma_square_bound(y as int, AIM_BIAS_RADIUS as int);
        }
        if x * x + y * y <= AIM_BIAS_RADIUS * AIM_BIAS_RADIUS {
            return (x, y);
        }
        tries = tries + 1;
    }
    (0, 0)
}

/// Unit directions of the terrain ring, in thousandths.
pub open spec fn ring_dir(k: int) -> (int, int) {
    if k == 0 { (1000, 0) }
    else if k == 1 { (809, 588) }
    else if k == 2 { (309, 951) }
    else if k == 3 { (-309, 951) }
    else if k == 4 { (-809, 588) }
    else if k == 5 { (-1000, 0) }
    else if k == 6 { (-809, -588) }
    else if k == 7 { (-309, -951) }
    else if k == 8 { (309, -951) }
    else { (809, -588) }
}

fn ring_direction(k: usize) -> (r: (i64, i64))
    requires
        k < RING,
    ensures
        r.0 == ring_dir(k as int).0,
        r.1 == ring_dir(k as int).1,
{
    if k == 0 { (1000, 0) }
    else if k == 1 { (809, 588) }
    else if k == 2 { (309, 951) }
    else if k == 3 { (-309, 951) }
    else if k == 4 { (-809, 588) }
    else if k == 5 { (-1000, 0) }
    else if k == 6 { (-809, -588) }
    else if k == 7 { (-309, -951) }
    else if k == 8 { (309, -951) }
    else { (809, -588) }
}

/// Offset of ring sample `k` for a vessel of `length`.
pub open spec fn ring_offset_spec(k: int, length: int) -> (int, int) {
    (trunc_div(ring_dir(k).0 * length, 1000), trunc_div(ring_dir(k).1 * length, 1000))
}

/// Offset of ring sample `k` for a vessel of `length`: the points at which the
/// terrain is sampled.
pub fn ring_offset(k: usize, length: i32) -> (r: (i64, i64))
    requires
        k < RING,
        length >= 0,
    ensures
        r.0 == ring_offset_spec(k as int, length as int).0,
        r.1 == ring_offset_spec(k as int, length as int).1,
        -length <= r.0 <= length,
        -length <= r.1 <= length,
{
    let (cx, cy) = ring_direction(k);
    assert(-0x1000_0000_0000 <= cx * length <= 0x1000_0000_0000) by (nonlinear_arith)
        requires
            -1000 <= cx <= 1000,
            0 <= length <= 0x8000_0000,
    ;
    assert(-0x1000_0000_0000 <= cy * length <= 0x1000_0000_0000) by (nonlinear_arith)
        requires
            -1000 <= cy <= 1000,
            0 <= length <= 0x8000_0000,
    ;
    let ox = div_toward_zero(cx as i128 * length as i128, 1000);
    let oy = div_toward_zero(cy as i128 * length as i128, 1000);
    proof {
        lemma_ring_bound(cx as int, length as int);
        lemma_ring_bound(cy as int, length as int);
    }
    (ox as i64, oy as i64)
}

proof fn lemma_ring_bound(c: int, length: int)
    requires
        -1000 <= c <= 1000,
        length >= 0,
    ensures
        abs(trunc_div(c * length, 1000)) <= length,
{
    let n = abs(c * length);
    assert(0 <= n <= 1000 * length) by (nonlinear_arith)
        requires
            -1000 <= c <= 1000,
            length >= 0,
            n == abs(c * length),
    ;
    vstd::arithmetic::div_mod::lemma_div_is_ordered(n, 1000 * length, 1000);
    vstd::arithmetic::div_mod::lemma_div_by_multiple(length, 1000);
    assert(1000 * length == length * 1000) by (nonlinear_arith);
    vstd::arithmetic::div_mod::lemma_div_pos_is_pos(n, 1000);
}

/// Outside the world or on land.
pub open spec fn land_or_border_spec(x: int, y: int, height: Option<i32>, world_radius: int) -> bool {
    x * x + y * y > world_radius * world_radius || match height {
        Some(h) => h > SAND_LEVEL,
        None => false,
    }
}

/// Whether the point `(x, y)`, where the terrain height is `height` if known, is
/// land or beyond the border of a world of `world_radius`.
pub fn is_land_or_border(x: i64, y: i64, height: Option<i32>, world_radius: i32) -> (r: bool)
    requires
        -0x1_0000_0000 <= x <= 0x1_0000_0000,
        -0x1_0000_0000 <= y <= 0x1_0000_0000,
    ensures
        r == land_or_border_spec(x as int, y as int, height, world_radius as int),
{
    proof {
        lemma_square_bound(x as int, 0x1_0000_0000);
        lemma_square_bound(y as int, 0x1_0000_0000);
        lemma_square_bound(world_radius as int, 0x1_0000_0000);
    }
    let xx = x as i128 * x as i128;
    let yy = y as i128 * y as i128;
    let rr = world_radius as i128 * world_radius as i128;
    if xx + yy > rr {
        return true;
    }
    match height {
        Some(h) => h > SAND_LEVEL,
        None => false,
    }
}


/// Every entity type has non-negative dimensions and speed.
pub open spec fn table_ok(table: Seq<EntityData>) -> bool {
    forall|t: int|
        0 <= t < table.len() ==> table[t].length >= 0 && table[t].radius >= 0 && table[t].speed >= 0
}

/// Entity type of contact `k`, when it resolves.
pub open spec fn resolves(s: Snapshot, k: int) -> bool {
    s.contacts@[k].entity_type.is_some() && s.contacts@[k].entity_type.unwrap() < s.table@.len()
}

pub open spec fn data_of(s: Snapshot, k: int) -> EntityData {
    s.table@[s.contacts@[k].entity_type.unwrap() as int]
}

/// The first contact is the bot's own vessel: a boat of its player.
pub open spec fn own_vessel(s: Snapshot) -> bool {
    &&& s.contacts@.len() > 0
    &&& s.contacts@[0].player_id == Some(s.player_id)
    &&& resolves(s, 0)
    &&& data_of(s, 0).kind == EntityKind::Boat
}

pub open spec fn dist2(s: Snapshot, k: int) -> int {
    let dx = s.contacts@[k].x - s.contacts@[0].x;
    let dy = s.contacts@[k].y - s.contacts@[0].y;
    dx * dx + dy * dy
}

/// Contact `k` is a hostile worth tracking: another player's boat or aircraft, or a missile.
pub open spec fn hostile(s: Snapshot, k: int) -> bool {
    &&& 1 <= k < s.contacts@.len()
    &&& s.contacts@[k].id != s.contacts@[0].id
    &&& resolves(s, k)
    &&& s.contacts@[k].player_id != Some(s.player_id)
    &&& (data_of(s, k).kind == EntityKind::Boat || data_of(s, k).kind == EntityKind::Aircraft || (
    data_of(s, k).kind == EntityKind::Weapon && data_of(s, k).sub_kind == EntitySubKind::Missile))
}

/// Contact `k` is the first nearest hostile.
pub open spec fn is_closest(s: Snapshot, k: int) -> bool {
    &&& hostile(s, k)
    &&& forall|j: int| #![trigger hostile(s, j)] hostile(s, j) ==> dist2(s, k) <= dist2(s, j)
    &&& forall|j: int| #![trigger hostile(s, j)] hostile(s, j) && j < k ==> dist2(s, k) < dist2(s, j)
}

pub open spec fn loadout_of<'a>(s: &'a Snapshot) -> Loadout<'a> {
    Loadout {
        armaments: &s.table@[s.contacts@[0].entity_type.unwrap() as int].armaments,
        turrets: &s.table@[s.contacts@[0].entity_type.unwrap() as int].turrets,
        reloads: &s.contacts@[0].reloads,
        bearing: s.hostile_bearing,
        table: &s.table,
    }
}

/// Armament `i` is the one to use against the nearest hostile `k`.
pub open spec fn firing_choice(s: Snapshot, k: int, i: int) -> bool {
    is_closest(s, k) && is_best(
        loadout_of(&s),
        data_of(s, k).kind,
        s.contacts@[k].altitude,
        s.aim_deviations@,
        i,
    )
}

/// With its vessel alive, the snapshot gives an aim error for every armament of it.
pub open spec fn deviations_ok(s: Snapshot) -> bool {
    own_vessel(s) ==> data_of(s, 0).armaments@.len() <= s.aim_deviations@.len()
}

/// Where a bot aims at contact `k`: its position offset by the aim bias.
pub open spec fn aim_point(s: Snapshot, b: Bot, k: int) -> Point {
    Point {
        x: (s.contacts@[k].x + b.aim_bias_spec().0) as i64,
        y: (s.contacts@[k].y + b.aim_bias_spec().1) as i64,
    }
}

/// The Control command of a living bot: heading along the steering vector, 80% of
/// rated speed, weapons active at half health or more, a submarine surfaced while
/// its health fraction exceeds the aggression and deepest otherwise, and aim at the
/// nearest hostile (offset by the aim bias) when some armament can engage it.
pub open spec fn control_ok(c: Control, s: Snapshot, b: Bot) -> bool {
    let d = data_of(s, 0);
    let left = d.max_health - s.contacts@[0].damage;
    &&& c.heading == movement(s, s.contacts@.len() as int)
    &&& c.speed == d.speed * 4 / 5
    &&& c.active == (2 * left >= d.max_health)
    &&& c.altitude_target == if d.sub_kind == EntitySubKind::Submarine {
        Some(
            if left * 1000000 > b.aggression_spec() * d.max_health {
                AltitudeTarget::Surface
            } else {
                AltitudeTarget::Deepest
            },
        )
    } else {
        None
    }
    &&& (c.aim.is_some() <==> exists|k: int, i: int| firing_choice(s, k, i))
    &&& forall|k: int, i: int| firing_choice(s, k, i) ==> c.aim == Some(aim_point(s, b, k))
}

/// Some armament can engage the nearest hostile and is off by under a sixth of a turn.
pub open spec fn fire_ready(s: Snapshot) -> bool {
    exists|k: int, i: int|
        firing_choice(s, k, i) && 6 * effective_deviation(loadout_of(&s), s.aim_deviations@, i)
            < TURN
}

/// No armament can engage, the level is below the ambition and an upgrade is offered.
pub open spec fn upgrade_ready(s: Snapshot, b: Bot) -> bool {
    &&& forall|k: int, i: int| !firing_choice(s, k, i)
    &&& data_of(s, 0).level < b.level_ambition_spec()
    &&& s.upgrade_options@.len() > 0
}

/// The optional second command of a living bot: a Fire at the nearest hostile
/// (offset by the aim bias) with the best armament when it is off by under a sixth
/// of a turn, or, with no firing solution and a level below ambition, an Upgrade
/// to the picked option.
pub open spec fn fire_or_upgrade(c: Command, s: Snapshot, b: Bot, rolls: Rolls) -> bool {
    match c {
        Command::Fire { index, x, y } => exists|k: int|
            #![trigger is_closest(s, k)]
            firing_choice(s, k, index as int) && 6 * effective_deviation(
                loadout_of(&s),
                s.aim_deviations@,
                index as int,
            ) < TURN && Point { x, y } == aim_point(s, b, k),
        Command::Upgrade { entity_type } => {
            &&& upgrade_ready(s, b)
            &&& entity_type == s.upgrade_options@[(rolls.pick as int) % (s.upgrade_options@.len() as int)]
        },
        _ => false,
    }
}

/// What a bot whose vessel is alive emits: a Control command, then a second command
/// exactly when the act roll falls under the aggression and a Fire or an Upgrade is
/// in order; it never quits.
pub open spec fn alive_outcome(cmds: Seq<Command>, quit: bool, s: Snapshot, b: Bot, rolls: Rolls) -> bool {
    &&& !quit
    &&& 1 <= cmds.len() <= 2
    &&& cmds[0] matches Command::Control(c) && control_ok(c, s, b)
    &&& (cmds.len() == 2 <==> rolls.act < b.aggression_spec() && (fire_ready(s) || upgrade_ready(s, b)))
    &&& cmds.len() == 2 ==> fire_or_upgrade(cmds[1], s, b, rolls)
}

/// What a bot whose vessel is absent does: quit with no command when it has lived
/// before and the quit roll is zero modulo three, else spawn as the picked option.
pub open spec fn dead_outcome(cmds: Seq<Command>, quit: bool, s: Snapshot, b: Bot, rolls: Rolls) -> bool {
    if b.spawned_spec() && rolls.quit % 3 == 0 {
        cmds.len() == 0 && quit
    } else {
        !quit && cmds == seq![Command::Spawn { entity_type: s.spawn_options@[(rolls.pick as int) % (s.spawn_options@.len() as int)] }]
    }
}

/// What a bot does on a tick, alive or not.
pub open spec fn outcome(cmds: Seq<Command>, quit: bool, s: Snapshot, b: Bot, rolls: Rolls) -> bool {
    if own_vessel(s) {
        alive_outcome(cmds, quit, s, b, rolls)
    } else {
        dead_outcome(cmds, quit, s, b, rolls)
    }
}

proof fn lemma_closest_unique(s: Snapshot, k1: int, k2: int)
    requires
        is_closest(s, k1),
        is_closest(s, k2),
    ensures
        k1 == k2,
{
    assert(hostile(s, k1) && hostile(s, k2));
}

/// Height of ring sample `k`, when the snapshot has it.
pub open spec fn ring_height(s: Snapshot, k: int) -> Option<i32> {
    if k < s.ring_heights@.len() {
        s.ring_heights@[k]
    } else {
        None
    }
}

pub open spec fn plus(m: Force, x: int, y: int) -> Force {
    Force { x: (m.x + x) as i128, y: (m.y + y) as i128 }
}

/// Push from land and border, over the ring samples below `k`.
pub open spec fn terrain_force(s: Snapshot, k: int) -> Force
    decreases k,
{
    if k <= 0 {
        Force::zero()
    } else {
        let prev = terrain_force(s, k - 1);
        let o = ring_offset_spec(k - 1, data_of(s, 0).length as int);
        if land_or_border_spec(
            s.contacts@[0].x + o.0,
            s.contacts@[0].y + o.1,
            ring_height(s, k - 1),
            s.world_radius as int,
        ) {
            let d2 = o.0 * o.0 + o.1 * o.1;
            plus(prev, repel_term(o.0, d2), repel_term(o.1, d2))
        } else {
            prev
        }
    }
}

/// Steering `m` after taking contact `j` into account.
pub open spec fn contact_force(s: Snapshot, m: Force, j: int) -> Force {
    let c = s.contacts@[j];
    if c.id == s.contacts@[0].id || !resolves(s, j) {
        m
    } else {
        let cd = data_of(s, j);
        let dx = c.x - s.contacts@[0].x;
        let dy = c.y - s.contacts@[0].y;
        let d2 = dx * dx + dy * dy;
        let friendly = c.player_id == Some(s.player_id);
        let boat = cd.kind == EntityKind::Boat;
        let m1 = if cd.kind == EntityKind::Collectible {
            plus(m, attract_term(dx, d2), attract_term(dy, d2))
        } else if (!friendly || boat) && !(!friendly && boat && cd.sub_kind == EntitySubKind::Ram) {
            plus(m, repel_term(dx, d2), repel_term(dy, d2))
        } else {
            m
        };
        if friendly {
            if boat {
                let st = spring_stretch(dx, dy, data_of(s, 0).radius + cd.radius);
                Force { x: spring_term(dx, st) as i128, y: spring_term(dy, st) as i128 }
            } else {
                m1
            }
        } else if cd.kind == EntityKind::Obstacle {
            plus(m1, repel_term(dx, d2), repel_term(dy, d2))
        } else {
            m1
        }
    }
}

/// Steering after the terrain ring and the contacts below `i`.
pub open spec fn movement(s: Snapshot, i: int) -> Force
    decreases i,
{
    if i <= 1 {
        terrain_force(s, RING as int)
    } else {
        contact_force(s, movement(s, i - 1), i - 1)
    }
}

/// No ring sample below `n` is land or beyond the border.
pub open spec fn open_water(s: Snapshot, n: int) -> bool {
    forall|j: int|
        0 <= j < n ==> !land_or_border_spec(
            s.contacts@[0].x + ring_offset_spec(j, data_of(s, 0).length as int).0,
            s.contacts@[0].y + ring_offset_spec(j, data_of(s, 0).length as int).1,
            ring_height(s, j),
            s.world_radius as int,
        )
}

/// `c` names the first nearest hostile, if there is any.
pub open spec fn closest_ok(s: Snapshot, c: Option<usize>) -> bool {
    match c {
        Some(k) => is_closest(s, k as int),
        None => forall|k: int| !hostile(s, k),
    }
}

/// `c` holds the first nearest hostile among the contacts below `i`, and its squared distance.
pub open spec fn nearest_so_far(s: Snapshot, c: Option<(usize, i128)>, i: int) -> bool {
    match c {
        Some((b, d)) => {
            &&& b < i
            &&& hostile(s, b as int)
            &&& d == dist2(s, b as int)
            &&& forall|j: int| #![trigger hostile(s, j)] hostile(s, j) && j < i ==> d <= dist2(s, j)
            &&& forall|j: int| #![trigger hostile(s, j)] hostile(s, j) && j < b ==> d < dist2(s, j)
        },
        None => forall|j: int| #![trigger hostile(s, j)] hostile(s, j) && j < i ==> false,
    }
}

/// Steering of the own vessel: pushed from land and border around it, pulled to
/// collectibles, pushed from hostiles (but for ramming boats) and obstacles, and
/// held by a spring at the summed radii from allied boats. Also returns the
/// first nearest hostile.
pub fn steer(s: &Snapshot) -> (r: (Force, Option<usize>))
    requires
        own_vessel(*s),
        table_ok(s.table@),
    ensures
        closest_ok(*s, r.1),
        r.0 == movement(*s, s.contacts@.len() as int),
        s.contacts@.len() == 1 && open_water(*s, RING as int) ==> r.0 == Force::zero(),
{
    let own = &s.contacts[0];
    let data = &s.table[own.entity_type.unwrap()];
    let mut m = Force { x: 0, y: 0 };
    let mut k: usize = 0;
    while k < RING
        invariant
            own_vessel(*s),
            table_ok(s.table@),
            own == s.contacts@[0],
            *data == data_of(*s, 0),
            0 <= k <= RING,
            -(k * SCALE) <= m.x <= k * SCALE,
            -(k * SCALE) <= m.y <= k * SCALE,
            open_water(*s, k as int) ==> m == Force::zero(),
            m == terrain_force(*s, k as int),
        decreases RING - k,
    {
        let (ox, oy) = ring_offset(k, data.length);
        let h = if k < s.ring_heights.len() {
            s.ring_heights[k]
        } else {
            None
        };
        assert(h == ring_height(*s, k as int));
        let land = is_land_or_border(own.x as i64 + ox, own.y as i64 + oy, h, s.world_radius);
        if land {
            assert(!open_water(*s, k + 1));
            proof {
                lemma_square_bound(ox as int, data.length as int);
                lemma_square_bound(oy as int, data.length as int);
                lemma_square_bound(data.length as int, 0x8000_0000);
            }
            let d2 = ox as i128 * ox as i128 + oy as i128 * oy as i128;
            repel(&mut m, ox, oy, d2);
        }
        k = k + 1;
    }
    let mut closest: Option<(usize, i128)> = None;
    let n = s.contacts.len();
    let mut i: usize = 1;
    while i < n
        invariant
            own_vessel(*s),
            table_ok(s.table@),
            own == s.contacts@[0],
            *data == data_of(*s, 0),
            n == s.contacts@.len(),
            1 <= i <= n,
            -(SPRING_BOUND + (2 * i + RING) * SCALE) <= m.x <= SPRING_BOUND + (2 * i + RING) * SCALE,
            -(SPRING_BOUND + (2 * i + RING) * SCALE) <= m.y <= SPRING_BOUND + (2 * i + RING) * SCALE,
            n == 1 && open_water(*s, RING as int) ==> m == Force::zero(),
            m == movement(*s, i as int),
            nearest_so_far(*s, closest, i as int),
        decreases n - i,
    {
        let c = &s.contacts[i];
        if c.id != own.id {
            match c.entity_type {
                Some(t) => {
                    if t < s.table.len() {
                        let cd = &s.table[t];
                        let dx = c.x as i64 - own.x as i64;
                        let dy = c.y as i64 - own.y as i64;
                        proof {
                            lemma_square_bound(dx as int, 0x1_0000_0000);
                            lemma_square_bound(dy as int, 0x1_0000_0000);
                        }
                        let d2 = dx as i128 * dx as i128 + dy as i128 * dy as i128;
                        let friendly = match c.player_id {
                            Some(p) => p == s.player_id,
                            None => false,
                        };
                        let is_boat = cd.kind == EntityKind::Boat;
                        if cd.kind == EntityKind::Collectible {
                            attract(&mut m, dx, dy, d2);
                        } else if (!friendly || is_boat) && !(!friendly && is_boat && cd.sub_kind
                            == EntitySubKind::Ram) {
                            repel(&mut m, dx, dy, d2);
                        }
                        if friendly {
                            if is_boat {
                                spring(&mut m, dx, dy, data.radius as i64 + cd.radius as i64);
                            }
                        } else {
                            if cd.kind == EntityKind::Obstacle {
                                repel(&mut m, dx, dy, d2);
                            }
                            let target_kind = is_boat || cd.kind == EntityKind::Aircraft || (cd.kind
                                == EntityKind::Weapon && cd.sub_kind == EntitySubKind::Missile);
                            if target_kind {
                                let nearer = match closest {
                                    None => true,
                                    Some((_, d)) => d2 < d,
                                };
                                if nearer {
                                    closest = Some((i, d2));
                                }
                            }
                        }
                    }
                },
                None => {},
            }
        }
        assert(hostile(*s, i as int) ==> (closest is Some));
        i = i + 1;
    }
    match closest {
        Some((b, _)) => (m, Some(b)),
        None => (m, None),
    }
}

/// Whether the snapshot's first contact is the bot's own vessel.
pub fn has_own_vessel(s: &Snapshot) -> (r: bool)
    ensures
        r == own_vessel(*s),
{
    if s.contacts.len() == 0 {
        return false;
    }
    let c = &s.contacts[0];
    let mine = match c.player_id {
        Some(p) => p == s.player_id,
        None => false,
    };
    match c.entity_type {
        Some(t) => mine && t < s.table.len() && s.table[t].kind == EntityKind::Boat,
        None => false,
    }
}

/// Whether every entity type has non-negative dimensions and speed.
pub fn table_is_valid(table: &Vec<EntityData>) -> (r: bool)
    ensures
        r == table_ok(table@),
{
    let mut i: usize = 0;
    while i < table.len()
        invariant
            0 <= i <= table@.len(),
            forall|t: int|
                0 <= t < i ==> table@[t].length >= 0 && table@[t].radius >= 0 && table@[t].speed
                    >= 0,
        decreases table@.len() - i,
    {
        if table[i].length < 0 || table[i].radius < 0 || table[i].speed < 0 {
            return false;
        }
        i = i + 1;
    }
    true
}

/// Whether the snapshot gives an aim error for every armament of a living vessel.
pub fn deviations_complete(s: &Snapshot) -> (r: bool)
    ensures
        r == deviations_ok(*s),
{
    if !has_own_vessel(s) {
        return true;
    }
    let t = s.contacts[0].entity_type.unwrap();
    s.table[t].armaments.len() <= s.aim_deviations.len()
}

impl Bot {
    pub open spec fn wf(&self) -> bool {
        &&& self.aggression_spec() <= MAX_AGGRESSION
        &&& 1 <= self.level_ambition_spec() < MAX_LEVEL
        &&& self.aim_bias_spec().0 * self.aim_bias_spec().0 + self.aim_bias_spec().1
            * self.aim_bias_spec().1 <= AIM_BIAS_RADIUS * AIM_BIAS_RADIUS
    }

    pub closed spec fn aggression_spec(&self) -> u32 {
        self.aggression
    }

    pub closed spec fn level_ambition_spec(&self) -> u8 {
        self.level_ambition
    }

    pub closed spec fn spawned_spec(&self) -> bool {
        self.spawned_at_least_once
    }

    pub closed spec fn aim_bias_spec(&self) -> (int, int) {
        (self.aim_bias_x as int, self.aim_bias_y as int)
    }

    /// The personality made from draws `a` (below 1001), `(bx, by)` in the aim disk
    /// and `level` (below `MAX_LEVEL - 1`): aggression `a * a / 10`, so that small
    /// values are the more common, and ambition `level + 1`.
    pub open spec fn drawn_from(&self, a: int, bx: int, by: int, level: int) -> bool {
        &&& 0 <= a <= 1000
        &&& bx * bx + by * by <= AIM_BIAS_RADIUS * AIM_BIAS_RADIUS
        &&& 0 <= level < MAX_LEVEL - 1
        &&& self.aggression_spec() == a * a / 10
        &&& self.aim_bias_spec() == (bx, by)
        &&& self.level_ambition_spec() == level + 1
    }

    pub fn aggression(&self) -> (r: u32)
        ensures
            r == self.aggression_spec(),
    {
        self.aggression
    }

    pub fn level_ambition(&self) -> (r: u8)
        ensures
            r == self.level_ambition_spec(),
    {
        self.level_ambition
    }

    pub fn spawned_at_least_once(&self) -> (r: bool)
        ensures
            r == self.spawned_spec(),
    {
        self.spawned_at_least_once
    }

    /// A bot whose personality is given by draws `a` (below 1001), `bx`, `by` (offsets
    /// in the aim disk) and `level` (below `MAX_LEVEL - 1`).
    pub fn from_draws(a: u32, bx: i32, by: i32, level: u8) -> (r: Bot)
        requires
            a <= 1000,
            bx * bx + by * by <= AIM_BIAS_RADIUS * AIM_BIAS_RADIUS,
            level < MAX_LEVEL - 1,
        ensures
            r.wf(),
            r.aggression_spec() == a * a / 10,
            r.aim_bias_spec() == (bx as int, by as int),
            r.level_ambition_spec() == level + 1,
            !r.spawned_spec(),
    {
        assert(a * a <= 1000000) by (nonlinear_arith)
            requires
                a <= 1000,
        ;
        Bot {
            aggression: a * a / 10,
            aim_bias_x: bx,
            aim_bias_y: by,
            level_ambition: level + 1,
            spawned_at_least_once: false,
        }
    }

    /// Decides one tick from the snapshot `s` and the draws `rolls`. Returns the
    /// commands to execute and whether to quit.
    ///
    /// With its vessel alive the bot steers away from land, the border, hostiles and
    /// obstacles, toward collectibles and a comfortable distance from allied boats;
    /// aims the best armament at the nearest hostile; and, when `rolls.act` falls
    /// under its aggression, fires that armament if it is off by under a sixth of a
    /// turn, or else asks for an upgrade below its ambition. Dead after having lived,
    /// it quits on one roll in three; otherwise it spawns.
    pub fn decide(&mut self, s: &Snapshot, rolls: Rolls) -> (r: (Vec<Command>, bool))
        requires
            old(self).wf(),
            s.spawn_options@.len() > 0,
            table_ok(s.table@),
            deviations_ok(*s),
        ensures
            final(self).wf(),
            final(self).aggression_spec() == old(self).aggression_spec(),
            final(self).level_ambition_spec() == old(self).level_ambition_spec(),
            final(self).aim_bias_spec() == old(self).aim_bias_spec(),
            final(self).spawned_spec() == (old(self).spawned_spec() || own_vessel(*s)),
            own_vessel(*s) ==> alive_outcome(r.0@, r.1, *s, *old(self), rolls),
            !own_vessel(*s) ==> dead_outcome(r.0@, r.1, *s, *old(self), rolls),
    {
        let mut cmds: Vec<Command> = Vec::new();
        if !has_own_vessel(s) {
            if self.spawned_at_least_once && rolls.quit % 3 == 0 {
                return (cmds, true);
            }
            let pick = rolls.pick % s.spawn_options.len();
            cmds.push(Command::Spawn { entity_type: s.spawn_options[pick] });
            return (cmds, false);
        }
        self.spawned_at_least_once = true;
        let own = &s.contacts[0];
        let t = own.entity_type.unwrap();
        let data = &s.table[t];
        let (movement, closest) = steer(s);
        let mut solution: Option<(usize, u16)> = None;
        let mut target = Point { x: 0, y: 0 };
        match closest {
            Some(k) => {
                let enemy = &s.contacts[k];
                let ekind = s.table[enemy.entity_type.unwrap()].kind;
                let l = Loadout {
                    armaments: &data.armaments,
                    turrets: &data.turrets,
                    reloads: &own.reloads,
                    bearing: s.hostile_bearing,
                    table: &s.table,
                };
                solution = best_firing_solution(&l, ekind, enemy.altitude, &s.aim_deviations);
                target = Point {
                    x: enemy.x as i64 + self.aim_bias_x as i64,
                    y: enemy.y as i64 + self.aim_bias_y as i64,
                };
                proof {
                    assert(l == loadout_of(s));
                    if solution is Some {
                        let i = solution.unwrap().0;
                        assert(firing_choice(*s, k as int, i as int));
                        assert forall|k2: int, i2: int| firing_choice(*s, k2, i2) implies k2 == k && i2
                            == i by {
                            lemma_closest_unique(*s, k as int, k2);
                            lemma_best_unique(
                                loadout_of(s),
                                data_of(*s, k as int).kind,
                                s.contacts@[k as int].altitude,
                                s.aim_deviations@,
                                i as int,
                                i2,
                            );
                        }
                    }
                    if solution is None {
                        assert forall|k2: int, i: int| !firing_choice(*s, k2, i) by {
                            if firing_choice(*s, k2, i) {
                                lemma_closest_unique(*s, k as int, k2);
                            }
                        }
                    }
                }
            },
            None => {
                assert forall|k2: int, i: int| !firing_choice(*s, k2, i) by {
                    if firing_choice(*s, k2, i) {
                        assert(hostile(*s, k2));
                    }
                }
            },
        }
        let max = data.max_health as i64;
        let left = max - own.damage as i64;
        proof {
            lemma_square_bound(left as int, 0x1_0000_0000);
            assert(-0x10_0000_0000_0000 <= left * 1000000 <= 0x10_0000_0000_0000) by (nonlinear_arith)
                requires
                    -0x1_0000_0000 <= left <= 0x1_0000_0000,
            ;
            assert(0 <= self.aggression * max <= 0x10_0000_0000_0000) by (nonlinear_arith)
                requires
                    0 <= self.aggression <= 100000,
                    0 <= max <= 0x1_0000_0000,
            ;
        }
        let altitude_target = if data.sub_kind == EntitySubKind::Submarine {
            if left * 1000000 > self.aggression as i64 * max {
                Some(AltitudeTarget::Surface)
            } else {
                Some(AltitudeTarget::Deepest)
            }
        } else {
            None
        };
        let aim = match solution {
            Some(_) => Some(target),
            None => None,
        };
        cmds.push(
            Command::Control(
                Control {
                    heading: movement,
                    speed: (data.speed as i64 * 4 / 5) as i32,
                    altitude_target,
                    aim,
                    active: 2 * left >= max,
                },
            ),
        );
        if rolls.act < self.aggression {
            match solution {
                Some((i, dev)) => {
                    if (dev as u32) * 6 < TURN {
                        cmds.push(Command::Fire { index: i, x: target.x, y: target.y });
                    }
                },
                None => {
                    if data.level < self.level_ambition && s.upgrade_options.len() > 0 {
                        let pick = rolls.pick % s.upgrade_options.len();
                        cmds.push(Command::Upgrade { entity_type: s.upgrade_options[pick] });
                    }
                },
            }
        }
        (cmds, false)
    }

    /// Decides one tick from the snapshot `s` with fresh random draws: the result is
    /// what `decide` gives for some draws within their ranges.
    pub fn update(&mut self, s: &Snapshot) -> (r: (Vec<Command>, bool))
        requires
            old(self).wf(),
            s.spawn_options@.len() > 0,
            table_ok(s.table@),
            deviations_ok(*s),
        ensures
            final(self).wf(),
            final(self).aggression_spec() == old(self).aggression_spec(),
            final(self).level_ambition_spec() == old(self).level_ambition_spec(),
            final(self).aim_bias_spec() == old(self).aim_bias_spec(),
            final(self).spawned_spec() == (old(self).spawned_spec() || own_vessel(*s)),
            exists|rolls: Rolls|
                rolls.act < 1000000 && rolls.quit < 3 && outcome(r.0@, r.1, *s, *old(self), rolls),
    {
        let rolls = Rolls {
            act: random_below(1000000) as u32,
            quit: random_below(3) as u32,
            pick: random_below(0x1_0000_0000) as usize,
        };
        let r = self.decide(s, rolls);
        assert(outcome(r.0@, r.1, *s, *old(self), rolls));
        r
    }


    /// A bot with a random personality: aggression biased toward small values, an
    /// aim offset within a small disk, and an upgrade ambition.
    pub fn new() -> (r: Bot)
        ensures
            r.wf(),
            !r.spawned_spec(),
            exists|a: int, bx: int, by: int, level: int| #[trigger] r.drawn_from(a, bx, by, level),
    {
        let a = random_below(1001) as u32;
        let (bx, by) = draw_aim_bias();
        let level = random_below((MAX_LEVEL - 1) as u64) as u8;
        let r = Bot::from_draws(a, bx, by, level);
        assert(r.drawn_from(a as int, bx as int, by as int, level as int));
        r
    }
}

} // verus!
