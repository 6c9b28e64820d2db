use vstd::prelude::*;

use crate::entity::{Altitude, Armament, EntityData, EntityKind, EntitySubKind, Turret, within_azimuth_spec};

verus! {

/// Whether an armament of sub-kind `sub` can hurt a hostile of kind `kind` at `alt`.
pub open spec fn relevant_spec(kind: EntityKind, alt: Altitude, sub: EntitySubKind) -> bool {
    match kind {
        EntityKind::Aircraft | EntityKind::Weapon => alt == Altitude::Airborne && sub
            == EntitySubKind::Sam,
        EntityKind::Boat => if alt == Altitude::Submerged {
            sub == EntitySubKind::Torpedo || sub == EntitySubKind::Plane || sub
                == EntitySubKind::Heli || sub == EntitySubKind::DepthCharge
        } else {
            sub == EntitySubKind::Torpedo || sub == EntitySubKind::Plane || sub
                == EntitySubKind::Heli || sub == EntitySubKind::DepthCharge || sub
                == EntitySubKind::Rocket || sub == EntitySubKind::Missile || sub
                == EntitySubKind::Shell
        },
        _ => false,
    }
}

pub fn is_relevant(kind: EntityKind, alt: Altitude, sub: EntitySubKind) -> (r: bool)
    ensures
        r == relevant_spec(kind, alt, sub),
{
    match kind {
        EntityKind::Aircraft | EntityKind::Weapon => alt == Altitude::Airborne && sub
            == EntitySubKind::Sam,
        EntityKind::Boat => {
            let any = sub == EntitySubKind::Torpedo || sub == EntitySubKind::Plane || sub
                == EntitySubKind::Heli || sub == EntitySubKind::DepthCharge;
            if alt == Altitude::Submerged {
                any
            } else {
                any || sub == EntitySubKind::Rocket || sub == EntitySubKind::Missile || sub
                    == EntitySubKind::Shell
            }
        },
        _ => false,
    }
}

/// The vessel's side of a targeting decision: its armaments and turrets, their
/// reload timers, the entity table, and the hostile's bearing relative to the vessel.
pub struct Loadout<'a> {
    pub armaments: &'a Vec<Armament>,
    pub turrets: &'a Vec<Turret>,
    pub reloads: &'a Vec<u32>,
    pub table: &'a Vec<EntityData>,
    pub bearing: u16,
}

/// Whether armament `i` is ready, can strike a hostile of `kind` at `alt`, and (if
/// turret-mounted) has the hostile's bearing within its turret's arc; `deviations` gives its aim error.
pub open spec fn qualifies(
    l: Loadout,
    kind: EntityKind,
    alt: Altitude,
    deviations: Seq<u16>,
    i: int,
) -> bool {
    let a = l.armaments@[i];
    &&& 0 <= i < l.armaments@.len()
    &&& i < l.reloads@.len() && l.reloads@[i] == 0
    &&& i < deviations.len()
    &&& a.entity_type < l.table@.len()
    &&& (l.table@[a.entity_type as int].kind == EntityKind::Weapon
        || l.table@[a.entity_type as int].kind == EntityKind::Aircraft)
    &&& relevant_spec(kind, alt, l.table@[a.entity_type as int].sub_kind)
    &&& match a.turret {
        None => true,
        Some(t) => t < l.turrets@.len() && within_azimuth_spec(l.turrets@[t as int], l.bearing),
    }
}

/// Aim error of armament `i`: none for vertical launchers and aircraft.
pub open spec fn effective_deviation(l: Loadout, deviations: Seq<u16>, i: int) -> u16 {
    let a = l.armaments@[i];
    if a.vertical || l.table@[a.entity_type as int].kind == EntityKind::Aircraft {
        0
    } else {
        deviations[i]
    }
}

/// `i` is the first qualifying armament of least aim error.
pub open spec fn is_best(l: Loadout, kind: EntityKind, alt: Altitude, deviations: Seq<u16>, i: int) -> bool {
    &&& qualifies(l, kind, alt, deviations, i)
    &&& forall|j: int|
        0 <= j < l.armaments@.len() && qualifies(l, kind, alt, deviations, j) ==> effective_deviation(
            l,
            deviations,
            i,
        ) <= effective_deviation(l, deviations, j)
    &&& forall|j: int|
        0 <= j < i && qualifies(l, kind, alt, deviations, j) ==> effective_deviation(
            l,
            deviations,
            i,
        ) < effective_deviation(l, deviations, j)
}

/// The chosen armament is reloaded, and a turret-mounted one has the hostile's
/// bearing within its turret's arc.
pub proof fn lemma_best_is_ready(l: Loadout, kind: EntityKind, alt: Altitude, deviations: Seq<u16>, i: int)
    requires
        is_best(l, kind, alt, deviations, i),
    ensures
        l.reloads@[i] == 0,
        l.armaments@[i].turret matches Some(t) ==> t < l.turrets@.len() && within_azimuth_spec(
            l.turrets@[t as int],
            l.bearing,
        ),
{
}

/// At most one armament is the first of least aim error.
pub proof fn lemma_best_unique(
    l: Loadout,
    kind: EntityKind,
    alt: Altitude,
    deviations: Seq<u16>,
    i: int,
    j: int,
)
    requires
        is_best(l, kind, alt, deviations, i),
        is_best(l, kind, alt, deviations, j),
    ensures
        i == j,
{
}

/// Picks the armament to fire at a hostile of `kind` at `alt`: among the ready,
/// relevant armaments whose turret's arc holds the hostile's bearing, the first of least aim
/// error. Returns its index and that error.
pub fn best_firing_solution(l: &Loadout, kind: EntityKind, alt: Altitude, deviations: &Vec<u16>) -> (r:
    Option<(usize, u16)>)
    ensures
        r.is_none() <==> forall|i: int|
            0 <= i < l.armaments@.len() ==> !qualifies(*l, kind, alt, deviations@, i),
        r matches Some((i, dev)) ==> is_best(*l, kind, alt, deviations@, i as int) && dev
            == effective_deviation(*l, deviations@, i as int),
{
    let mut best: Option<(usize, u16)> = None;
    let n = l.armaments.len();
    let mut i: usize = 0;
    while i < n
        invariant
            n == l.armaments@.len(),
            0 <= i <= n,
            best.is_none() <==> forall|k: int| 0 <= k < i ==> !qualifies(*l, kind, alt, deviations@, k),
            best matches Some((b, dev)) ==> {
                &&& b < i
                &&& dev == effective_deviation(*l, deviations@, b as int)
                &&& qualifies(*l, kind, alt, deviations@, b as int)
                &&& forall|j: int|
                    0 <= j < i && qualifies(*l, kind, alt, deviations@, j) ==> dev
                        <= effective_deviation(*l, deviations@, j)
                &&& forall|j: int|
                    0 <= j < b && qualifies(*l, kind, alt, deviations@, j) ==> dev
                        < effective_deviation(*l, deviations@, j)
            },
        decreases n - i,
    {
        let a = l.armaments[i];
        let ok = i < l.reloads.len() && l.reloads[i] == 0 && i < deviations.len() && a.entity_type
            < l.table.len();
        if ok {
            let ad = &l.table[a.entity_type];
            let kind_ok = ad.kind == EntityKind::Weapon || ad.kind == EntityKind::Aircraft;
            if kind_ok && is_relevant(kind, alt, ad.sub_kind) {
                let arc_ok = match a.turret {
                    None => true,
                    Some(t) => t < l.turrets.len() && l.turrets[t].within_azimuth(l.bearing),
                };
                if arc_ok {
                    let dev = if a.vertical || ad.kind == EntityKind::Aircraft {
                        0
                    } else {
                        deviations[i]
                    };
                    let better = match best {
                        None => true,
                        Some((_, d)) => dev < d,
                    };
                    if better {
                        best = Some((i, dev));
                    }
                }
            }
        }
        assert(qualifies(*l, kind, alt, deviations@, i as int) ==> best.is_some());
        proof {
            if best is Some {
                let b = best.unwrap().0;
                assert(qualifies(*l, kind, alt, deviations@, b as int));
            }
        }
        i = i + 1;
    }
    best
}

} // verus!
