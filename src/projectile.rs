//! The projectile flight model: a fired projectile is a closed-form function
//! of elapsed time, launch origin and target, re-resolved at every evaluation.
use vstd::prelude::*;

use crate::physics::{body_in_bounds, norm_sq, physics_wf, trunc_div, COORD_LIMIT};
use crate::protocol::{index_of, lemma_index_of, ToClient};
use crate::registry::{Body, MassRegistry};
use crate::world::{has_id, Vec3, RADIUS_LIMIT};

verus! {

/// Length of a unit direction vector in the fixed-point scale.
pub const DIRECTION_SCALE: i64 = 1000;

/// The displayed position advances by `PROGRESS_PER_MS / PROGRESS_SCALE` of
/// the flight vector per millisecond.
pub const PROGRESS_PER_MS: i128 = 3;

pub const PROGRESS_SCALE: i128 = 4000;

/// A projectile closer than this to its impact site has hit.
pub const IMPACT_DISTANCE: i64 = 500;

/// A fired projectile. `launch_time` is wall-clock milliseconds since the
/// epoch at the firing client; `local_impact_direction` is a unit vector in
/// the target's frame, scaled by `DIRECTION_SCALE`.
#[derive(Clone, Copy, Debug, PartialEq, Eq, Structural)]
pub struct ProjectileFlight {
    pub launch_time: u128,
    pub from_mass_id: u64,
    pub to_mass_id: u64,
    pub local_impact_direction: Vec3,
}

/// What one evaluation of a flight finds.
#[derive(Clone, Copy, Debug, PartialEq, Eq, Structural)]
pub enum FlightOutcome {
    /// Still on its way, shown at this position.
    InFlight(Vec3),
    /// Reached its target at this position; the flight is over.
    Impacted(Vec3),
    /// The target is gone; the flight is over without effect.
    Orphaned,
    /// The origin is gone while the target is live: a broken invariant of
    /// the simulation, reported and the flight retired.
    OriginLost,
}

/// What the simulation reports of new projectiles.
#[derive(Clone, Copy, Debug, PartialEq, Eq, Structural)]
pub enum FromSimulation {
    /// A projectile now flies, at this place in the list of flights.
    ProjectileSpawned(u64),
}

pub open spec fn clamp(v: int, lo: int, hi: int) -> int {
    if v < lo {
        lo
    } else if v > hi {
        hi
    } else {
        v
    }
}

/// One coordinate of the impact site: the target's surface in the aimed
/// direction, each direction component held to the unit range.
pub open spec fn site_coord(center: int, dir: int, radius: int) -> int {
    center + trunc_div(
        clamp(dir, -DIRECTION_SCALE as int, DIRECTION_SCALE as int) * radius,
        DIRECTION_SCALE as int,
    )
}

pub open spec fn impact_site(target: Body, dir: Vec3) -> (int, int, int) {
    (
        site_coord(target.position.x as int, dir.x as int, target.radius as int),
        site_coord(target.position.y as int, dir.y as int, target.radius as int),
        site_coord(target.position.z as int, dir.z as int, target.radius as int),
    )
}

/// Milliseconds since launch; a launch stamped in the future counts as now.
pub open spec fn elapsed_ms(f: ProjectileFlight, now: u128) -> int {
    if now >= f.launch_time {
        now - f.launch_time
    } else {
        0
    }
}

/// One coordinate of the displayed position: the origin plus the elapsed
/// share of the vector from origin to impact site.
pub open spec fn progress_coord(origin: int, site: int, e: int) -> int {
    origin + trunc_div((site - origin) * PROGRESS_PER_MS * e, PROGRESS_SCALE as int)
}

pub open spec fn to_vec3(p: (int, int, int)) -> Vec3 {
    Vec3 { x: p.0 as i64, y: p.1 as i64, z: p.2 as i64 }
}

/// The evaluation of flight `f` at time `now` against the live masses.
pub open spec fn flight_outcome(reg: Seq<(u64, Body)>, f: ProjectileFlight, now: u128) -> FlightOutcome {
    if !has_id(reg, f.to_mass_id) {
        FlightOutcome::Orphaned
    } else if !has_id(reg, f.from_mass_id) {
        FlightOutcome::OriginLost
    } else {
        let o = reg[index_of(reg, f.from_mass_id)].1.position;
        let site = impact_site(reg[index_of(reg, f.to_mass_id)].1, f.local_impact_direction);
        let e = elapsed_ms(f, now);
        if PROGRESS_PER_MS * e >= PROGRESS_SCALE {
            FlightOutcome::Impacted(to_vec3(site))
        } else {
            let pos = (
                progress_coord(o.x as int, site.0, e),
                progress_coord(o.y as int, site.1, e),
                progress_coord(o.z as int, site.2, e),
            );
            if norm_sq((site.0 - pos.0, site.1 - pos.1, site.2 - pos.2)) <= IMPACT_DISTANCE
                * IMPACT_DISTANCE {
                FlightOutcome::Impacted(to_vec3(pos))
            } else {
                FlightOutcome::InFlight(to_vec3(pos))
            }
        }
    }
}

/// Whether a flight goes on after this outcome.
pub open spec fn continues(o: FlightOutcome) -> bool {
    o is InFlight
}

/// A flight whose target is not live is orphaned, whatever the time and
/// however long it has flown.
pub proof fn lemma_orphan_idempotent(reg: Seq<(u64, Body)>, f: ProjectileFlight, now: u128)
    requires
        !has_id(reg, f.to_mass_id),
    ensures
        flight_outcome(reg, f, now) == FlightOutcome::Orphaned,
        !continues(flight_outcome(reg, f, now)),
{
}

fn trunc_div_exec(a: i128, b: i128) -> (q: i128)
    requires
        b > 0,
        -0x1000_0000_0000_0000_0000_0000_0000 <= a <= 0x1000_0000_0000_0000_0000_0000_0000,
    ensures
        q == trunc_div(a as int, b as int),
{
    if a >= 0 {
        a / b
    } else {
        -((-a) / b)
    }
}

proof fn lemma_trunc_div_bound(a: int, b: int, l: int)
    requires
        b > 0,
        -l <= a <= l,
    ensures
        -l <= trunc_div(a, b) <= l,
{
    if a >= 0 {
        assert(a / b <= a) by (nonlinear_arith)
            requires
                b > 0,
                a >= 0,
        ;
        assert(a / b >= 0) by (nonlinear_arith)
            requires
                b > 0,
                a >= 0,
        ;
    } else {
        let c = -a;
        assert(c / b <= c) by (nonlinear_arith)
            requires
                b > 0,
                c >= 0,
        ;
        assert(c / b >= 0) by (nonlinear_arith)
            requires
                b > 0,
                c >= 0,
        ;
    }
}

fn site_coord_exec(center: i64, dir: i64, radius: u64) -> (r: i64)
    requires
        -COORD_LIMIT <= center <= COORD_LIMIT,
        radius <= RADIUS_LIMIT,
    ensures
        r == site_coord(center as int, dir as int, radius as int),
        -3 * COORD_LIMIT <= r <= 3 * COORD_LIMIT,
{
    let d: i128 = if dir < -DIRECTION_SCALE {
        -(DIRECTION_SCALE as i128)
    } else if dir > DIRECTION_SCALE {
        DIRECTION_SCALE as i128
    } else {
        dir as i128
    };
    proof {
        assert(-1000 * RADIUS_LIMIT <= d * radius <= 1000 * RADIUS_LIMIT) by (nonlinear_arith)
            requires
                -1000 <= d <= 1000,
                0 <= radius <= RADIUS_LIMIT,
        ;
        lemma_trunc_div_bound(d * radius, 1000, 1000 * RADIUS_LIMIT);
        assert(trunc_div(d * radius, 1000) <= RADIUS_LIMIT) by {
            if d * radius >= 0 {
                assert((d * radius) / 1000 <= RADIUS_LIMIT) by (nonlinear_arith)
                    requires
                        0 <= d * radius <= 1000 * RADIUS_LIMIT,
                ;
            } else {
                let c = -(d * radius);
                assert(c / 1000 >= 0) by (nonlinear_arith)
                    requires
                        c >= 0,
                ;
            }
        }
        assert(trunc_div(d * radius, 1000) >= -RADIUS_LIMIT) by {
            if d * radius >= 0 {
                assert((d * radius) / 1000 >= 0) by (nonlinear_arith)
                    requires
                        d * radius >= 0,
                ;
            } else {
                let c = -(d * radius);
                assert(c / 1000 <= RADIUS_LIMIT) by (nonlinear_arith)
                    requires
                        0 <= c <= 1000 * RADIUS_LIMIT,
                ;
            }
        }
    }
    let off = trunc_div_exec(d * (radius as i128), DIRECTION_SCALE as i128);
    (center as i128 + off) as i64
}

fn progress_coord_exec(origin: i64, site: i64, e: i128) -> (r: i64)
    requires
        -COORD_LIMIT <= origin <= COORD_LIMIT,
        -3 * COORD_LIMIT <= site <= 3 * COORD_LIMIT,
        0 <= e,
        PROGRESS_PER_MS * e < PROGRESS_SCALE,
    ensures
        r == progress_coord(origin as int, site as int, e as int),
{
    let v = (site as i128) - (origin as i128);
    let ghost l = 4 * COORD_LIMIT as int;
    proof {
        assert(-l * 4000 <= v * 3 * e <= l * 4000) by (nonlinear_arith)
            requires
                -l <= v <= l,
                0 <= e,
                3 * e < 4000,
        ;
        assert(trunc_div(v * 3 * e, 4000) <= l) by {
            if v * 3 * e >= 0 {
                assert((v * 3 * e) / 4000 <= l) by (nonlinear_arith)
                    requires
                        0 <= v * 3 * e <= l * 4000,
                ;
            } else {
                let c = -(v * 3 * e);
                assert(c / 4000 >= 0) by (nonlinear_arith)
                    requires
                        c >= 0,
                ;
            }
        }
        assert(trunc_div(v * 3 * e, 4000) >= -l) by {
            if v * 3 * e >= 0 {
                assert((v * 3 * e) / 4000 >= 0) by (nonlinear_arith)
                    requires
                        v * 3 * e >= 0,
                ;
            } else {
                let c = -(v * 3 * e);
                assert(c / 4000 <= l) by (nonlinear_arith)
                    requires
                        0 <= c <= l * 4000,
                ;
            }
        }
    }
    let step = trunc_div_exec(v * PROGRESS_PER_MS * e, PROGRESS_SCALE);
    (origin as i128 + step) as i64
}

/// Evaluates a flight at time `now`: resolves origin and target afresh and
/// aims at the target's current surface.
pub fn evaluate_flight(registry: &MassRegistry, flight: &ProjectileFlight, now: u128) -> (r:
    FlightOutcome)
    requires
        physics_wf(registry@),
    ensures
        r == flight_outcome(registry@, *flight, now),
{
    let ids = vec![flight.from_mass_id, flight.to_mass_id];
    let handles = match registry.lookup_many(&ids) {
        Ok(h) => h,
        Err(_) => {
            return match registry.lookup(flight.to_mass_id) {
                None => FlightOutcome::Orphaned,
                Some(_) => {
                    proof {
                        assert(ids@ =~= seq![flight.from_mass_id, flight.to_mass_id]);
                        crate::registry::lemma_missing_two(
                            registry@,
                            flight.from_mass_id,
                            flight.to_mass_id,
                        );
                    }
                    FlightOutcome::OriginLost
                },
            };
        },
    };
    let o = registry.masses[handles[0]].1;
    let t = registry.masses[handles[1]].1;
    proof {
        lemma_index_of(registry@, flight.from_mass_id);
        lemma_index_of(registry@, flight.to_mass_id);
        assert(body_in_bounds(registry@[handles@[0] as int].1));
        assert(body_in_bounds(registry@[handles@[1] as int].1));
    }
    let dir = flight.local_impact_direction;
    let sx = site_coord_exec(t.position.x, dir.x, t.radius);
    let sy = site_coord_exec(t.position.y, dir.y, t.radius);
    let sz = site_coord_exec(t.position.z, dir.z, t.radius);
    let site = Vec3 { x: sx, y: sy, z: sz };
    let e: u128 = if now >= flight.launch_time {
        now - flight.launch_time
    } else {
        0
    };
    if e >= 1334 {
        return FlightOutcome::Impacted(site);
    }
    let e = e as i128;
    let px = progress_coord_exec(o.position.x, sx, e);
    let py = progress_coord_exec(o.position.y, sy, e);
    let pz = progress_coord_exec(o.position.z, sz, e);
    let pos = Vec3 { x: px, y: py, z: pz };
    let dx = (sx as i128) - (px as i128);
    let dy = (sy as i128) - (py as i128);
    let dz = (sz as i128) - (pz as i128);
    proof {
        let l = 8 * COORD_LIMIT as int;
        assert(-l <= dx <= l && -l <= dy <= l && -l <= dz <= l) by {
            lemma_progress_bound(o.position.x as int, sx as int, e as int);
            lemma_progress_bound(o.position.y as int, sy as int, e as int);
            lemma_progress_bound(o.position.z as int, sz as int, e as int);
        }
        assert(0 <= dx * dx <= l * l) by (nonlinear_arith)
            requires
                -l <= dx <= l,
        ;
        assert(0 <= dy * dy <= l * l) by (nonlinear_arith)
            requires
                -l <= dy <= l,
        ;
        assert(0 <= dz * dz <= l * l) by (nonlinear_arith)
            requires
                -l <= dz <= l,
        ;
    }
    let limit = (IMPACT_DISTANCE as i128) * (IMPACT_DISTANCE as i128);
    if dx * dx + dy * dy + dz * dz <= limit {
        FlightOutcome::Impacted(pos)
    } else {
        FlightOutcome::InFlight(pos)
    }
}

proof fn lemma_progress_bound(origin: int, site: int, e: int)
    requires
        -COORD_LIMIT <= origin <= COORD_LIMIT,
        -3 * COORD_LIMIT <= site <= 3 * COORD_LIMIT,
        0 <= e,
        PROGRESS_PER_MS * e < PROGRESS_SCALE,
    ensures
        -8 * COORD_LIMIT <= site - progress_coord(origin, site, e) <= 8 * COORD_LIMIT,
{
    let v = site - origin;
    let l = 4 * COORD_LIMIT as int;
    assert(-l * 4000 <= v * 3 * e <= l * 4000) by (nonlinear_arith)
        requires
            -l <= v <= l,
            0 <= e,
            3 * e < 4000,
    ;
    if v * 3 * e >= 0 {
        assert(0 <= (v * 3 * e) / 4000 <= l) by (nonlinear_arith)
            requires
                0 <= v * 3 * e <= l * 4000,
        ;
    } else {
        let c = -(v * 3 * e);
        assert(0 <= c / 4000 <= l) by (nonlinear_arith)
            requires
                0 <= c <= l * 4000,
        ;
    }
}

/// The result of advancing one flight.
#[derive(Clone, Copy, Debug, PartialEq, Eq, Structural)]
pub struct FlightUpdate {
    pub flight: ProjectileFlight,
    pub outcome: FlightOutcome,
}

/// The flights that go on after an evaluation at `now`.
pub open spec fn surviving_flights(reg: Seq<(u64, Body)>, fs: Seq<ProjectileFlight>, now: u128) -> Seq<
    ProjectileFlight,
> {
    fs.filter(|f: ProjectileFlight| continues(flight_outcome(reg, f, now)))
}

/// Evaluates every flight at `now` and retires those that hit, lost their
/// target or lost their origin; each outcome is reported once, in order.
pub fn move_projectiles(
    registry: &MassRegistry,
    projectiles: &mut Vec<ProjectileFlight>,
    now: u128,
) -> (r: Vec<FlightUpdate>)
    requires
        physics_wf(registry@),
    ensures
        r@.len() == old(projectiles)@.len(),
        forall|k: int|
            0 <= k < r@.len() ==> #[trigger] r@[k] == (FlightUpdate {
                flight: old(projectiles)@[k],
                outcome: flight_outcome(registry@, old(projectiles)@[k], now),
            }),
        final(projectiles)@ == surviving_flights(registry@, old(projectiles)@, now),
{
    let ghost start = projectiles@;
    let mut updates: Vec<FlightUpdate> = Vec::new();
    let mut kept: Vec<ProjectileFlight> = Vec::new();
    let mut k: usize = 0;
    while k < projectiles.len()
        invariant
            projectiles@ == start,
            k <= start.len(),
            physics_wf(registry@),
            updates@.len() == k,
            forall|q: int|
                0 <= q < k ==> #[trigger] updates@[q] == (FlightUpdate {
                    flight: start[q],
                    outcome: flight_outcome(registry@, start[q], now),
                }),
            kept@ == surviving_flights(registry@, start.subrange(0, k as int), now),
        decreases start.len() - k,
    {
        let f = projectiles[k];
        let outcome = evaluate_flight(registry, &f, now);
        proof {
            assert(start.subrange(0, k + 1).drop_last() =~= start.subrange(0, k as int));
            reveal(Seq::filter);
        }
        match outcome {
            FlightOutcome::InFlight(_) => {
                kept.push(f);
            },
            _ => {},
        }
        proof {
            assert(kept@ =~= surviving_flights(registry@, start.subrange(0, k + 1), now));
        }
        updates.push(FlightUpdate { flight: f, outcome });
        k = k + 1;
    }
    proof {
        assert(start.subrange(0, k as int) =~= start);
    }
    *projectiles = kept;
    updates
}

/// Starts the flight a `ProjectileFired` message announces; other messages
/// start nothing.
pub fn handle_projectile_fired(projectiles: &mut Vec<ProjectileFlight>, message: &ToClient) -> (r:
    Option<FromSimulation>)
    ensures
        match message {
            ToClient::ProjectileFired(f) => final(projectiles)@ == old(projectiles)@.push(*f) && r
                == Some(FromSimulation::ProjectileSpawned(old(projectiles)@.len() as u64)),
            _ => final(projectiles)@ == old(projectiles)@ && r == None::<FromSimulation>,
        },
{
    match message {
        ToClient::ProjectileFired(f) => {
            let index = projectiles.len() as u64;
            projectiles.push(*f);
            Some(FromSimulation::ProjectileSpawned(index))
        },
        _ => None,
    }
}

/// One party of a collision reported by the collision volumes.
#[derive(Clone, Copy, Debug, PartialEq, Eq, Structural)]
pub enum CollisionBody {
    Mass(u64),
    /// A projectile, by its place in the list of flights.
    Projectile(u64),
}

/// The projectile and the mass of a collision, if exactly one party is a
/// projectile.
pub open spec fn projectile_hit(e0: CollisionBody, e1: CollisionBody) -> Option<(u64, u64)> {
    match (e0, e1) {
        (CollisionBody::Projectile(p), CollisionBody::Mass(m)) => Some((p, m)),
        (CollisionBody::Mass(m), CollisionBody::Projectile(p)) => Some((p, m)),
        _ => None,
    }
}

/// A collision between a projectile and its own target is an impact: the
/// flight is retired and returned. Any other collision changes nothing.
pub fn handle_projectile_collision(
    projectiles: &mut Vec<ProjectileFlight>,
    e0: CollisionBody,
    e1: CollisionBody,
) -> (r: Option<ProjectileFlight>)
    ensures
        match projectile_hit(e0, e1) {
            Some((p, m)) => if p < old(projectiles)@.len() && old(projectiles)@[p as int].to_mass_id
                == m {
                r == Some(old(projectiles)@[p as int]) && final(projectiles)@ == old(
                    projectiles,
                )@.remove(p as int)
            } else {
                r is None && final(projectiles)@ == old(projectiles)@
            },
            None => r is None && final(projectiles)@ == old(projectiles)@,
        },
{
    let (p, m) = match (e0, e1) {
        (CollisionBody::Projectile(p), CollisionBody::Mass(m)) => (p, m),
        (CollisionBody::Mass(m), CollisionBody::Projectile(p)) => (p, m),
        _ => return None,
    };
    if p < projectiles.len() as u64 && projectiles[p as usize].to_mass_id == m {
        Some(projectiles.remove(p as usize))
    } else {
        None
    }
}

} // verus!
