use mass_gathering::controls::{
    control, handle_projectile_engagement, set_resolution, Engagement, Key, RayHit, Steering,
};
use mass_gathering::projectile::{
    evaluate_flight, handle_projectile_collision, handle_projectile_fired, move_projectiles,
    CollisionBody, FlightOutcome, FromSimulation, ProjectileFlight,
};
use mass_gathering::protocol::ToClient;
use mass_gathering::registry::{Body, MassRegistry};
use mass_gathering::world::{radius_to_mass, Color, Rotation, Vec3};

fn body(x: i64, radius: u64) -> Body {
    Body {
        position: Vec3::new(x, 0, 0),
        velocity: Vec3::zero(),
        mass: radius_to_mass(radius),
        radius,
        inhabitable: false,
        color: Color { r: 0, g: 0, b: 0, a: 1000 },
        rotation: Rotation { x: 0, y: 0, z: 0, w: 0x3f80_0000 },
    }
}

fn flight(launch_time: u128) -> ProjectileFlight {
    ProjectileFlight {
        launch_time,
        from_mass_id: 1,
        to_mass_id: 2,
        local_impact_direction: Vec3::new(-1000, 0, 0),
    }
}

fn two_masses() -> MassRegistry {
    MassRegistry { masses: vec![(1, body(0, 1000)), (2, body(100_000, 2000))] }
}

#[test]
fn flight_advances_toward_target_surface() {
    let registry = two_masses();
    // Impact site: 100000 - 2000 = 98000; after 1000 ms, 3/4 of the way.
    assert_eq!(
        evaluate_flight(&registry, &flight(5_000), 6_000),
        FlightOutcome::InFlight(Vec3::new(73_500, 0, 0))
    );
    assert_eq!(
        evaluate_flight(&registry, &flight(5_000), 5_000),
        FlightOutcome::InFlight(Vec3::new(0, 0, 0))
    );
    assert_eq!(
        evaluate_flight(&registry, &flight(5_000), 7_000),
        FlightOutcome::Impacted(Vec3::new(98_000, 0, 0))
    );
}

#[test]
fn launch_in_the_future_counts_as_now() {
    let registry = two_masses();
    assert_eq!(
        evaluate_flight(&registry, &flight(9_000), 1_000),
        FlightOutcome::InFlight(Vec3::new(0, 0, 0))
    );
}

#[test]
fn close_to_the_site_is_an_impact() {
    let registry = MassRegistry { masses: vec![(1, body(0, 10)), (2, body(1_000, 10))] };
    // 990 · 3 · 1300 / 4000 = 965: 25 short of the site.
    assert_eq!(
        evaluate_flight(&registry, &flight(0), 1_300),
        FlightOutcome::Impacted(Vec3::new(965, 0, 0))
    );
}

#[test]
fn missing_target_is_orphaned_at_any_time() {
    let registry = MassRegistry { masses: vec![(1, body(0, 1000))] };
    for now in [0u128, 1, 999, 1_000_000, u128::MAX] {
        assert_eq!(evaluate_flight(&registry, &flight(500), now), FlightOutcome::Orphaned);
    }
    let empty = MassRegistry::new();
    assert_eq!(evaluate_flight(&empty, &flight(500), 600), FlightOutcome::Orphaned);
}

#[test]
fn missing_origin_is_reported() {
    let registry = MassRegistry { masses: vec![(2, body(0, 1000))] };
    assert_eq!(evaluate_flight(&registry, &flight(0), 10), FlightOutcome::OriginLost);
}

#[test]
fn removed_target_orphans_once_and_stops() {
    let mut registry = two_masses();
    let mut projectiles = vec![flight(1_000)];
    let first = move_projectiles(&registry, &mut projectiles, 1_001);
    assert_eq!(first.len(), 1);
    assert!(matches!(first[0].outcome, FlightOutcome::InFlight(_)));
    assert_eq!(projectiles.len(), 1);
    registry.remove(2);
    let second = move_projectiles(&registry, &mut projectiles, 1_002);
    assert_eq!(second.len(), 1);
    assert_eq!(second[0].outcome, FlightOutcome::Orphaned);
    assert!(projectiles.is_empty());
    let third = move_projectiles(&registry, &mut projectiles, 1_003);
    assert!(third.is_empty());
}

#[test]
fn fired_message_starts_a_flight() {
    let mut projectiles = Vec::new();
    let r = handle_projectile_fired(&mut projectiles, &ToClient::ProjectileFired(flight(3)));
    assert_eq!(r, Some(FromSimulation::ProjectileSpawned(0)));
    let r = handle_projectile_fired(&mut projectiles, &ToClient::ProjectileFired(flight(4)));
    assert_eq!(r, Some(FromSimulation::ProjectileSpawned(1)));
    let r = handle_projectile_fired(
        &mut projectiles,
        &ToClient::SetGameState(mass_gathering::protocol::GameState::Running),
    );
    assert_eq!(r, None);
    assert_eq!(projectiles, vec![flight(3), flight(4)]);
}

#[test]
fn collision_with_target_is_an_impact() {
    let mut projectiles = vec![flight(1), flight(2)];
    assert_eq!(
        handle_projectile_collision(&mut projectiles, CollisionBody::Mass(2), CollisionBody::Projectile(1)),
        Some(flight(2))
    );
    assert_eq!(projectiles, vec![flight(1)]);
    assert_eq!(
        handle_projectile_collision(&mut projectiles, CollisionBody::Projectile(0), CollisionBody::Mass(1)),
        None
    );
    assert_eq!(
        handle_projectile_collision(&mut projectiles, CollisionBody::Mass(2), CollisionBody::Mass(1)),
        None
    );
    assert_eq!(
        handle_projectile_collision(&mut projectiles, CollisionBody::Projectile(5), CollisionBody::Mass(2)),
        None
    );
    assert_eq!(projectiles.len(), 1);
}

#[test]
fn keys_become_steering() {
    assert_eq!(
        control(&vec![Key::W, Key::A, Key::Other, Key::X]),
        Some(Steering { pitch: 1, yaw: 1, roll: 1 })
    );
    assert_eq!(
        control(&vec![Key::S, Key::D, Key::Z]),
        Some(Steering { pitch: -1, yaw: -1, roll: -1 })
    );
    assert_eq!(control(&vec![Key::W, Key::S]), None);
    assert_eq!(control(&vec![]), None);
}

#[test]
fn resolution_halves_for_debug_builds() {
    assert_eq!(set_resolution(true), (640, 360));
    assert_eq!(set_resolution(false), (1280, 720));
}

#[test]
fn engagement_fires_only_at_targets() {
    let dir = Vec3::new(0, 1000, 0);
    assert_eq!(
        handle_projectile_engagement(1, RayHit::Target(5), true, 77, dir),
        Engagement {
            sights_visible: Some(true),
            fired: Some(ProjectileFlight {
                launch_time: 77,
                from_mass_id: 1,
                to_mass_id: 5,
                local_impact_direction: dir,
            }),
        }
    );
    assert_eq!(
        handle_projectile_engagement(1, RayHit::Target(5), false, 77, dir),
        Engagement { sights_visible: Some(true), fired: None }
    );
    assert_eq!(
        handle_projectile_engagement(1, RayHit::Other, true, 77, dir),
        Engagement { sights_visible: Some(false), fired: None }
    );
    assert_eq!(
        handle_projectile_engagement(1, RayHit::Nothing, true, 77, dir),
        Engagement { sights_visible: None, fired: None }
    );
}
