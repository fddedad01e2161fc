use mass_gathering::physics::{
    detect_collisions, freefall, gravity_substep, handle_despawn_mass, handle_mass_collisions,
    merge_bodies, merge_masses, tick, DespawnMassEvent,
};
use mass_gathering::protocol::PhysicsConfig;
use mass_gathering::registry::{Body, MassRegistry};
use mass_gathering::systems::physics_ready;
use mass_gathering::world::{mass_to_radius, radius_to_mass, Color, Rotation, Vec3};

fn body(position: (i64, i64, i64), velocity: (i64, i64, i64), radius: u64) -> Body {
    Body {
        position: Vec3::new(position.0, position.1, position.2),
        velocity: Vec3::new(velocity.0, velocity.1, velocity.2),
        mass: radius_to_mass(radius),
        radius,
        inhabitable: false,
        color: Color { r: 1000, g: 1000, b: 1000, a: 1000 },
        rotation: Rotation { x: 0, y: 0, z: 0, w: 0x3f80_0000 },
    }
}

fn momentum(b: &Body) -> (i128, i128, i128) {
    let m = b.mass as i128;
    (
        m * b.velocity.x as i128,
        m * b.velocity.y as i128,
        m * b.velocity.z as i128,
    )
}

#[test]
fn radius_and_mass_round_trip() {
    assert_eq!(radius_to_mass(1000), 4_000_000_000);
    assert_eq!(radius_to_mass(0), 0);
    assert_eq!(mass_to_radius(radius_to_mass(1000)), 1000);
    assert_eq!(mass_to_radius(radius_to_mass(2500)), 2500);
    assert_eq!(mass_to_radius(4_000_000_000 - 1), 999);
    assert_eq!(mass_to_radius(0), 0);
    assert_eq!(mass_to_radius(3), 0);
    for m in [5u128, 4_000, 123_456_789, 36_000_000_000] {
        let r = mass_to_radius(m);
        assert!(radius_to_mass(r) <= m);
        assert!(m < radius_to_mass(r + 1));
    }
    let big = mass_to_radius(u128::MAX);
    assert!(big > 0);
}

#[test]
fn merge_of_two_masses_conserves_mass_and_momentum() {
    // Radius 1 at the origin moving +x, radius 2 five units away moving -x.
    let small = body((0, 0, 0), (1000, 0, 0), 1000);
    let large = body((5000, 0, 0), (-1000, 0, 0), 2000);
    let mut registry = MassRegistry { masses: vec![(1, small), (2, large)] };
    assert!(physics_ready(&registry));
    let despawn = merge_masses(&mut registry, 1, 2);
    assert_eq!(despawn, Some(DespawnMassEvent { mass_id: 1 }));
    assert_eq!(registry.masses.len(), 1);
    let (id, merged) = registry.masses[0];
    assert_eq!(id, 2);
    // Combined mass is k·(1³ + 2³) with lengths in millimetres.
    assert_eq!(merged.mass, 4 * (1_000_000_000 + 8_000_000_000));
    // (1·m1 + (-1)·m2) / (m1 + m2) along x, rounded toward zero.
    assert_eq!(merged.velocity, Vec3::new(-777, 0, 0));
    assert_eq!(merged.position, Vec3::new(5000, 0, 0));
    assert_eq!(merged.radius, 2080);
    let before = (momentum(&small).0 + momentum(&large).0, momentum(&small).1 + momentum(&large).1);
    let after = momentum(&merged);
    assert!((before.0 - after.0).abs() < merged.mass as i128);
    assert_eq!(before.1, after.1);
}

#[test]
fn inhabitable_mass_survives_a_heavier_one() {
    let mut player = body((0, 0, 0), (0, 0, 0), 1000);
    player.inhabitable = true;
    let rock = body((1500, 0, 0), (0, 300, 0), 3000);
    let merged = merge_bodies(&player, &rock);
    assert!(merged.inhabitable);
    assert_eq!(merged.position, Vec3::new(0, 0, 0));
    let mut registry = MassRegistry { masses: vec![(7, player), (8, rock)] };
    assert_eq!(merge_masses(&mut registry, 8, 7), Some(DespawnMassEvent { mass_id: 8 }));
    assert_eq!(registry.masses[0].0, 7);
    assert_eq!(registry.masses[0].1.mass, player.mass + rock.mass);
}

#[test]
fn equal_masses_keep_the_smaller_identifier() {
    let a = body((0, 0, 0), (10, 0, 0), 1000);
    let b = body((1000, 0, 0), (-10, 0, 0), 1000);
    let mut registry = MassRegistry { masses: vec![(9, a), (4, b)] };
    assert_eq!(merge_masses(&mut registry, 9, 4), Some(DespawnMassEvent { mass_id: 9 }));
    assert_eq!(registry.masses.len(), 1);
    assert_eq!(registry.masses[0].0, 4);
    assert_eq!(registry.masses[0].1.velocity, Vec3::new(0, 0, 0));
}

#[test]
fn merge_of_missing_or_same_mass_does_nothing() {
    let a = body((0, 0, 0), (0, 0, 0), 1000);
    let mut registry = MassRegistry { masses: vec![(1, a)] };
    assert_eq!(merge_masses(&mut registry, 1, 1), None);
    assert_eq!(merge_masses(&mut registry, 1, 2), None);
    assert_eq!(registry.masses.len(), 1);
}

#[test]
fn sequence_of_merges_keeps_total_mass() {
    let mut registry = MassRegistry {
        masses: vec![
            (1, body((0, 0, 0), (5, 0, 0), 1000)),
            (2, body((1500, 0, 0), (0, 7, 0), 1000)),
            (3, body((3000, 0, 0), (0, 0, 9), 1200)),
            (4, body((900_000, 0, 0), (0, 0, 0), 1000)),
        ],
    };
    let total: u128 = registry.masses.iter().map(|(_, b)| b.mass).sum();
    let pairs = detect_collisions(&registry);
    assert_eq!(pairs, vec![(1, 2), (2, 3)]);
    let events = handle_mass_collisions(&mut registry, &pairs);
    // Mass 2 merges into mass 1 first; the pair (2, 3) then names a mass
    // that is gone and is passed over until the next tick.
    assert_eq!(events, vec![DespawnMassEvent { mass_id: 2 }]);
    assert_eq!(registry.masses.len(), 3);
    let after: u128 = registry.masses.iter().map(|(_, b)| b.mass).sum();
    assert_eq!(total, after);
    for e in &events {
        assert!(registry.masses.iter().all(|(id, _)| *id != e.mass_id));
    }
}

#[test]
fn despawn_is_idempotent() {
    let mut registry = MassRegistry {
        masses: vec![(1, body((0, 0, 0), (0, 0, 0), 10)), (2, body((50, 0, 0), (0, 0, 0), 10))],
    };
    handle_despawn_mass(&mut registry, DespawnMassEvent { mass_id: 1 });
    assert_eq!(registry.masses.len(), 1);
    handle_despawn_mass(&mut registry, DespawnMassEvent { mass_id: 1 });
    assert_eq!(registry.masses.len(), 1);
    assert_eq!(registry.masses[0].0, 2);
}

#[test]
fn gravity_pulls_masses_together() {
    let mut registry = MassRegistry {
        masses: vec![
            (1, body((0, 0, 0), (0, 0, 0), 10_000)),
            (2, body((20_000, 0, 0), (0, 0, 0), 10_000)),
        ],
    };
    gravity_substep(&mut registry, 16, false);
    // m · d · dt / d³ / 1000 = 4e12 · 20000 · 16 / 8e12 / 1000.
    assert_eq!(registry.masses[0].1.velocity, Vec3::new(160, 0, 0));
    assert_eq!(registry.masses[1].1.velocity, Vec3::new(-160, 0, 0));
    assert_eq!(registry.masses[0].1.position, Vec3::new(2, 0, 0));
    assert_eq!(registry.masses[1].1.position, Vec3::new(19_998, 0, 0));
}

#[test]
fn coincident_masses_do_not_blow_up() {
    let mut registry = MassRegistry {
        masses: vec![(1, body((0, 0, 0), (0, 0, 0), 1000)), (2, body((0, 0, 0), (0, 0, 0), 1000))],
    };
    gravity_substep(&mut registry, 16, false);
    assert_eq!(registry.masses[0].1.velocity, Vec3::new(0, 0, 0));
    assert!(physics_ready(&registry));
}

#[test]
fn zero_gravity_only_moves() {
    let mut registry = MassRegistry {
        masses: vec![
            (1, body((0, 0, 0), (1000, -2000, 0), 10_000)),
            (2, body((20_000, 0, 0), (0, 0, 0), 10_000)),
        ],
    };
    let config = PhysicsConfig { sims_per_frame: 3, zerog: true };
    freefall(&mut registry, &config, 100);
    assert_eq!(registry.masses[0].1.velocity, Vec3::new(1000, -2000, 0));
    assert_eq!(registry.masses[0].1.position, Vec3::new(300, -600, 0));
    assert_eq!(registry.masses[1].1.position, Vec3::new(20_000, 0, 0));
}

#[test]
fn tick_merges_touching_masses() {
    let mut registry = MassRegistry {
        masses: vec![
            (1, body((0, 0, 0), (0, 0, 0), 1000)),
            (2, body((1500, 0, 0), (0, 0, 0), 1000)),
            (3, body((800_000, 0, 0), (0, 0, 0), 1000)),
        ],
    };
    let config = PhysicsConfig { sims_per_frame: 1, zerog: false };
    let report = tick(&mut registry, &config, 16);
    assert_eq!(report.collisions, vec![(1, 2)]);
    assert_eq!(report.despawned, vec![DespawnMassEvent { mass_id: 2 }]);
    assert_eq!(registry.masses.len(), 2);
    assert_eq!(registry.masses[0].1.mass, 2 * radius_to_mass(1000));
}

#[test]
fn physics_bounds_are_checked() {
    let far = body((i64::MAX, 0, 0), (0, 0, 0), 10);
    let registry = MassRegistry { masses: vec![(1, far)] };
    assert!(!physics_ready(&registry));
    let heavy = body((0, 0, 0), (0, 0, 0), 2_000_000);
    let registry = MassRegistry { masses: vec![(1, heavy)] };
    assert!(!physics_ready(&registry));
}
