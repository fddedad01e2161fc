//! Preset worlds, and the checks that bring a descriptor into the simulation.
use vstd::prelude::*;

use crate::physics::{body_in_bounds, physics_wf, total_mass, COORD_LIMIT, MASS_LIMIT, SPEED_LIMIT};
use crate::registry::{init_valid, MassRegistry};
use crate::world::{
    ids_unique, inhabitable_ids, Color, InitData, MassInitData, MassMotion, Vec3, RADIUS_LIMIT,
};

verus! {

/// The first identifier of the preset worlds.
pub const FIRST_MASS_ID: u64 = 2000;

fn uninhabitable_cubic_mass(k: u64) -> (r: MassInitData)
    requires
        k < 6,
    ensures
        !r.inhabitable,
        r.radius <= RADIUS_LIMIT,
{
    let axis = k / 2;
    let side: i64 = if k % 2 == 0 { 1 } else { -1 };
    let f = 20 + k as i64;
    let (a, b, c): (i64, i64, i64) = if axis == 0 {
        (1, 0, 0)
    } else if axis == 1 {
        (0, 1, 0)
    } else {
        (0, 0, 1)
    };
    let reach: i64 = if side > 0 { 9000 } else { -9000 };
    let scaled_reach: i64 = if side > 0 { 9000 * f / 20 } else { -(9000 * f / 20) };
    let position = if axis == 0 {
        Vec3 { x: scaled_reach, y: 0, z: 0 }
    } else if axis == 1 {
        Vec3 { x: 0, y: scaled_reach, z: 0 }
    } else {
        Vec3 { x: 0, y: 0, z: reach }
    };
    let speed: i64 = if side > 0 { 150 } else { -150 };
    let scaled_speed: i64 = if side > 0 { 150 * f / 20 } else { -(150 * f / 20) };
    let velocity = if axis == 0 {
        Vec3 { x: 0, y: scaled_speed, z: 0 }
    } else if axis == 1 {
        Vec3 { x: 0, y: 0, z: scaled_speed }
    } else {
        Vec3 { x: speed, y: 0, z: 0 }
    };
    let radius: u64 = if a == 1 { 500 } else { 25 * (20 + k) };
    let color = if side > 0 {
        Color { r: 1000 * a as u32, g: 1000 * b as u32, b: 1000 * c as u32, a: 800 }
    } else {
        Color { r: 500 * (1 - a) as u32, g: 500 * (1 - b) as u32, b: 500 * (1 - c) as u32, a: 800 }
    };
    MassInitData { inhabitable: false, motion: MassMotion { position, velocity }, color, radius }
}

fn inhabitable_mass(axis: u64, distance: i64) -> (r: MassInitData)
    requires
        axis < 3,
        0 <= distance <= COORD_LIMIT,
    ensures
        r.inhabitable,
        r.radius == 1000,
        r.motion.velocity == Vec3::zero_spec(),
        r.motion.position == (if axis == 0 {
            Vec3 { x: distance, y: 0, z: 0 }
        } else if axis == 1 {
            Vec3 { x: 0, y: distance, z: 0 }
        } else {
            Vec3 { x: 0, y: 0, z: distance }
        }),
{
    let position = if axis == 0 {
        Vec3 { x: distance, y: 0, z: 0 }
    } else if axis == 1 {
        Vec3 { x: 0, y: distance, z: 0 }
    } else {
        Vec3 { x: 0, y: 0, z: distance }
    };
    let tweak = (axis + 1) as u32;
    let color = Color { r: 17000, g: 19000 / tweak, b: 23000 * tweak, a: 1000 };
    MassInitData {
        inhabitable: true,
        motion: MassMotion { position, velocity: Vec3::zero() },
        color,
        radius: 1000,
    }
}

/// Six uninhabitable masses in pairs on the three axes, circling the
/// origin, and three inhabitable masses at rest 20 units out along the axes.
pub fn cubic() -> (r: InitData)
    ensures
        init_valid(r.masses@),
        r.masses@.len() == 9,
        forall|k: int| 0 <= k < 9 ==> (#[trigger] r.masses@[k]).0 == FIRST_MASS_ID + k,
        forall|k: int| 0 <= k < 9 ==> (#[trigger] r.masses@[k]).1.inhabitable == (k >= 6),
{
    let mut masses: Vec<(u64, MassInitData)> = Vec::new();
    let mut k: u64 = 0;
    while k < 9
        invariant
            k <= 9,
            masses@.len() == k,
            forall|q: int| 0 <= q < k ==> (#[trigger] masses@[q]).0 == FIRST_MASS_ID + q,
            forall|q: int| 0 <= q < k ==> (#[trigger] masses@[q]).1.inhabitable == (q >= 6),
            forall|q: int| 0 <= q < k ==> (#[trigger] masses@[q]).1.radius <= RADIUS_LIMIT,
        decreases 9 - k,
    {
        let data = if k < 6 {
            uninhabitable_cubic_mass(k)
        } else {
            inhabitable_mass(k - 6, 20000)
        };
        masses.push((FIRST_MASS_ID + k, data));
        k = k + 1;
    }
    InitData { masses }
}

/// Two inhabitable masses, 6 units either side of the origin, moving in
/// opposite directions.
pub fn testing_no_unhinhabited() -> (r: InitData)
    ensures
        init_valid(r.masses@),
        r.masses@ == seq![
            (
                0u64,
                MassInitData {
                    inhabitable: true,
                    motion: MassMotion {
                        position: Vec3 { x: 6000, y: 0, z: 0 },
                        velocity: Vec3 { x: 0, y: 500, z: 0 },
                    },
                    color: Color { r: 1000, g: 0, b: 0, a: 1000 },
                    radius: 1000,
                },
            ),
            (
                1u64,
                MassInitData {
                    inhabitable: true,
                    motion: MassMotion {
                        position: Vec3 { x: -6000i64, y: 0, z: 0 },
                        velocity: Vec3 { x: 0, y: -500i64, z: 0 },
                    },
                    color: Color { r: 0, g: 0, b: 1000, a: 1000 },
                    radius: 1000,
                },
            ),
        ],
{
    let position = Vec3 { x: 6000, y: 0, z: 0 };
    let velocity = Vec3 { x: 0, y: 500, z: 0 };
    let radius: u64 = 1000;
    let mut masses: Vec<(u64, MassInitData)> = Vec::new();
    masses.push(
        (
            0,
            MassInitData {
                inhabitable: true,
                motion: MassMotion { position, velocity },
                color: Color { r: 1000, g: 0, b: 0, a: 1000 },
                radius,
            },
        ),
    );
    masses.push(
        (
            1,
            MassInitData {
                inhabitable: true,
                motion: MassMotion {
                    position: Vec3 { x: -position.x, y: -position.y, z: -position.z },
                    velocity: Vec3 { x: -velocity.x, y: -velocity.y, z: -velocity.z },
                },
                color: Color { r: 0, g: 0, b: 1000, a: 1000 },
                radius,
            },
        ),
    );
    proof {
        assert(masses@ =~= seq![masses@[0], masses@[1]]);
    }
    InitData { masses }
}

/// The mass a standalone game puts its player on: the first inhabitable
/// mass of the descriptor.
pub fn first_inhabitable(init_data: &InitData) -> (r: Option<u64>)
    ensures
        match r {
            Some(id) => inhabitable_ids(init_data.masses@).len() > 0 && id == inhabitable_ids(
                init_data.masses@,
            )[0],
            None => inhabitable_ids(init_data.masses@).len() == 0,
        },
{
    let mut i: usize = 0;
    while i < init_data.masses.len()
        invariant
            i <= init_data.masses@.len(),
            inhabitable_ids(init_data.masses@.subrange(0, i as int)).len() == 0,
        decreases init_data.masses@.len() - i,
    {
        proof {
            assert(init_data.masses@.subrange(0, i + 1).drop_last() =~= init_data.masses@.subrange(
                0,
                i as int,
            ));
        }
        if init_data.masses[i].1.inhabitable {
            proof {
                lemma_inhabitable_prefix(init_data.masses@, i as int + 1);
                let p = init_data.masses@.subrange(0, i + 1);
                assert(p.last() == init_data.masses@[i as int]);
                assert(inhabitable_ids(p) == inhabitable_ids(init_data.masses@.subrange(0, i as int)).push(
                    init_data.masses@[i as int].0,
                ));
                assert(inhabitable_ids(p)[0] == init_data.masses@[i as int].0);
            }
            return Some(init_data.masses[i].0);
        }
        i = i + 1;
    }
    proof {
        assert(init_data.masses@.subrange(0, i as int) =~= init_data.masses@);
    }
    None
}

/// The inhabitable identifiers of a prefix start those of the whole.
proof fn lemma_inhabitable_prefix(s: Seq<(u64, MassInitData)>, n: int)
    requires
        0 <= n <= s.len(),
    ensures
        inhabitable_ids(s.subrange(0, n)).len() <= inhabitable_ids(s).len(),
        forall|k: int|
            0 <= k < inhabitable_ids(s.subrange(0, n)).len() ==> inhabitable_ids(s)[k]
                == #[trigger] inhabitable_ids(s.subrange(0, n))[k],
    decreases s.len() - n,
{
    if n < s.len() {
        lemma_inhabitable_prefix(s, n + 1);
        assert(s.subrange(0, n + 1).drop_last() =~= s.subrange(0, n));
        let a = inhabitable_ids(s.subrange(0, n));
        let b = inhabitable_ids(s.subrange(0, n + 1));
        assert(b == a || b == a.push(s[n].0));
        assert forall|k: int| 0 <= k < a.len() implies inhabitable_ids(s)[k] == #[trigger] a[k] by {
            assert(b[k] == a[k]);
        }
    } else {
        assert(s.subrange(0, n) =~= s);
    }
}

/// Whether a registry is within the bounds the physics can advance.
pub fn physics_ready(registry: &MassRegistry) -> (r: bool)
    requires
        registry.wf(),
    ensures
        r == physics_wf(registry@),
{
    let n = registry.masses.len();
    let mut total: u128 = 0;
    let mut i: usize = 0;
    while i < n
        invariant
            n == registry@.len(),
            ids_unique(registry@),
            i <= n,
            total == total_mass(registry@.subrange(0, i as int)),
            total <= MASS_LIMIT,
            forall|k: int| 0 <= k < i ==> body_in_bounds(#[trigger] registry@[k].1),
        decreases n - i,
    {
        let b = registry.masses[i].1;
        proof {
            assert(registry@.subrange(0, i + 1).drop_last() =~= registry@.subrange(0, i as int));
        }
        let in_bounds = -COORD_LIMIT <= b.position.x && b.position.x <= COORD_LIMIT
            && -COORD_LIMIT <= b.position.y && b.position.y <= COORD_LIMIT
            && -COORD_LIMIT <= b.position.z && b.position.z <= COORD_LIMIT
            && -SPEED_LIMIT <= b.velocity.x && b.velocity.x <= SPEED_LIMIT
            && -SPEED_LIMIT <= b.velocity.y && b.velocity.y <= SPEED_LIMIT
            && -SPEED_LIMIT <= b.velocity.z && b.velocity.z <= SPEED_LIMIT
            && b.radius <= RADIUS_LIMIT;
        if !in_bounds || b.mass > MASS_LIMIT - total {
            proof {
                if in_bounds {
                    lemma_total_prefix(registry@, i as int + 1);
                }
            }
            return false;
        }
        total = total + b.mass;
        i = i + 1;
    }
    proof {
        assert(registry@.subrange(0, i as int) =~= registry@);
    }
    true
}

/// The total mass of a prefix never exceeds that of the whole.
proof fn lemma_total_prefix(s: Seq<(u64, crate::registry::Body)>, n: int)
    requires
        0 <= n <= s.len(),
    ensures
        total_mass(s.subrange(0, n)) <= total_mass(s),
    decreases s.len() - n,
{
    if n < s.len() {
        lemma_total_prefix(s, n + 1);
        assert(s.subrange(0, n + 1).drop_last() =~= s.subrange(0, n));
    } else {
        assert(s.subrange(0, n) =~= s);
    }
}

} // verus!
