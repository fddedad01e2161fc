//! Decisions a client takes on local input: steering and firing.
use vstd::prelude::*;

use crate::projectile::ProjectileFlight;
use crate::world::Vec3;

verus! {

/// The keys that steer an inhabited mass; every other key is `Other`.
#[derive(Clone, Copy, Debug, PartialEq, Eq, Structural)]
pub enum Key {
    /// Pitch up.
    W,
    /// Pitch down.
    S,
    /// Yaw left.
    A,
    /// Yaw right.
    D,
    /// Roll left.
    Z,
    /// Roll right.
    X,
    Other,
}

/// How many of the keys are `k`.
pub open spec fn count_key(keys: Seq<Key>, k: Key) -> int {
    keys.filter(|x: Key| x == k).len() as int
}

/// Steering in whole nudges about the local x (pitch), y (yaw) and z (roll)
/// axes.
#[derive(Clone, Copy, Debug, PartialEq, Eq, Structural)]
pub struct Steering {
    pub pitch: i64,
    pub yaw: i64,
    pub roll: i64,
}

pub open spec fn steering_of(keys: Seq<Key>) -> Steering {
    Steering {
        pitch: (count_key(keys, Key::W) - count_key(keys, Key::S)) as i64,
        yaw: (count_key(keys, Key::A) - count_key(keys, Key::D)) as i64,
        roll: (count_key(keys, Key::X) - count_key(keys, Key::Z)) as i64,
    }
}

/// The steering that the pressed keys ask for, or nothing when they cancel
/// out or none steers.
pub fn control(keys: &Vec<Key>) -> (r: Option<Steering>)
    requires
        keys@.len() <= i32::MAX,
    ensures
        match r {
            Some(s) => s == steering_of(keys@) && s != (Steering { pitch: 0, yaw: 0, roll: 0 }),
            None => steering_of(keys@) == (Steering { pitch: 0, yaw: 0, roll: 0 }),
        },
{
    let mut w: i64 = 0;
    let mut s: i64 = 0;
    let mut a: i64 = 0;
    let mut d: i64 = 0;
    let mut z: i64 = 0;
    let mut x: i64 = 0;
    let mut i: usize = 0;
    while i < keys.len()
        invariant
            i <= keys@.len() <= i32::MAX,
            w == count_key(keys@.subrange(0, i as int), Key::W),
            s == count_key(keys@.subrange(0, i as int), Key::S),
            a == count_key(keys@.subrange(0, i as int), Key::A),
            d == count_key(keys@.subrange(0, i as int), Key::D),
            z == count_key(keys@.subrange(0, i as int), Key::Z),
            x == count_key(keys@.subrange(0, i as int), Key::X),
            0 <= w <= i && 0 <= s <= i && 0 <= a <= i && 0 <= d <= i && 0 <= z <= i && 0 <= x <= i,
        decreases keys@.len() - i,
    {
        proof {
            assert(keys@.subrange(0, i + 1).drop_last() =~= keys@.subrange(0, i as int));
            reveal(Seq::filter);
        }
        match keys[i] {
            Key::W => w = w + 1,
            Key::S => s = s + 1,
            Key::A => a = a + 1,
            Key::D => d = d + 1,
            Key::Z => z = z + 1,
            Key::X => x = x + 1,
            Key::Other => {},
        }
        i = i + 1;
    }
    proof {
        assert(keys@.subrange(0, i as int) =~= keys@);
    }
    let steering = Steering { pitch: w - s, yaw: a - d, roll: x - z };
    if steering.pitch == 0 && steering.yaw == 0 && steering.roll == 0 {
        None
    } else {
        Some(steering)
    }
}

/// Window size in pixels: half size for debug builds.
pub fn set_resolution(debug_build: bool) -> (r: (u32, u32))
    ensures
        r == (if debug_build {
            (640u32, 360u32)
        } else {
            (1280u32, 720u32)
        }),
{
    let (width, height): (u32, u32) = (1280, 720);
    if debug_build {
        (width / 2, height / 2)
    } else {
        (width, height)
    }
}

/// What the ray cast along the inhabited mass's forward axis found.
#[derive(Clone, Copy, Debug, PartialEq, Eq, Structural)]
pub enum RayHit {
    Nothing,
    /// An uninhabitable mass, which can be shot at.
    Target(u64),
    /// Something that cannot be shot at.
    Other,
}

/// The response to the aim: whether the sights show (`None`: leave them as
/// they are) and the flight fired, if any.
#[derive(Clone, Copy, Debug, PartialEq, Eq, Structural)]
pub struct Engagement {
    pub sights_visible: Option<bool>,
    pub fired: Option<ProjectileFlight>,
}

/// Sights show while a target is in line; the fire key then launches a
/// projectile from the shooter's mass at the target, aimed at
/// `local_impact_direction` on its surface.
pub fn handle_projectile_engagement(
    from_mass_id: u64,
    hit: RayHit,
    fire_pressed: bool,
    launch_time: u128,
    local_impact_direction: Vec3,
) -> (r: Engagement)
    ensures
        r == (match hit {
            RayHit::Nothing => Engagement { sights_visible: None, fired: None },
            RayHit::Other => Engagement { sights_visible: Some(false), fired: None },
            RayHit::Target(to_mass_id) => Engagement {
                sights_visible: Some(true),
                fired: if fire_pressed {
                    Some(
                        ProjectileFlight {
                            launch_time,
                            from_mass_id,
                            to_mass_id,
                            local_impact_direction,
                        },
                    )
                } else {
                    None
                },
            },
        }),
{
    match hit {
        RayHit::Nothing => Engagement { sights_visible: None, fired: None },
        RayHit::Other => Engagement { sights_visible: Some(false), fired: None },
        RayHit::Target(to_mass_id) => {
            let fired = if fire_pressed {
                Some(ProjectileFlight { launch_time, from_mass_id, to_mass_id, local_impact_direction })
            } else {
                None
            };
            Engagement { sights_visible: Some(true), fired }
        },
    }
}

} // verus!
