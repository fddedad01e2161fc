use mass_gathering::client::ClientState;
use mass_gathering::physics::DespawnMassEvent;
use mass_gathering::protocol::{ClientData, GameState, Lobby, Outbound, PhysicsConfig, ToClient, ToServer};
use mass_gathering::projectile::ProjectileFlight;
use mass_gathering::registry::MassRegistry;
use mass_gathering::server::{
    populate_unassigned_masses, setup_physics, Server, ServerCliArgs, ServerEvent, UnassignedMasses,
};
use mass_gathering::systems::{cubic, first_inhabitable, testing_no_unhinhabited};
use mass_gathering::world::{InitData, Rotation, Vec3};

fn config() -> PhysicsConfig {
    PhysicsConfig { sims_per_frame: 2, zerog: false }
}

fn rotation() -> Rotation {
    Rotation { x: 1, y: 2, z: 3, w: 4 }
}

/// The messages client `id` receives, in order.
fn delivered(out: Vec<Outbound>, id: u64) -> Vec<ToClient> {
    out.into_iter()
        .filter_map(|o| match o {
            Outbound::SendTo { client_id, message } if client_id == id => Some(message),
            Outbound::Broadcast(message) => Some(message),
            Outbound::BroadcastExcept { client_id, message } if client_id != id => Some(message),
            _ => None,
        })
        .collect()
}

#[test]
fn cli_speed_becomes_substeps() {
    let args = ServerCliArgs { speed: 4, system: String::new(), zerog: true };
    assert_eq!(setup_physics(&args), PhysicsConfig { sims_per_frame: 4, zerog: true });
}

#[test]
fn inhabitable_masses_are_unassigned_at_start() {
    let mut unassigned = UnassignedMasses(vec![1]);
    populate_unassigned_masses(&mut unassigned, &cubic());
    assert_eq!(unassigned.0, vec![1, 2006, 2007, 2008]);
    assert_eq!(first_inhabitable(&cubic()), Some(2006));
    assert_eq!(first_inhabitable(&InitData { masses: vec![] }), None);
}

#[test]
fn presets_describe_valid_worlds() {
    let world = cubic();
    assert_eq!(world.masses.len(), 9);
    assert_eq!(world.masses[2].1.radius, 550);
    assert_eq!(world.masses[8].1.motion.position, Vec3::new(0, 0, 20_000));
    let two = testing_no_unhinhabited();
    assert_eq!(two.masses.len(), 2);
    assert_eq!(two.masses[1].1.motion.position, Vec3::new(-6000, 0, 0));
    let registry = MassRegistry::from_init(&world);
    assert_eq!(registry.masses.len(), 9);
}

#[test]
fn late_joiner_gets_snapshot_config_and_lobby() {
    let mut server = Server::new(cubic(), config());
    let first = server.handle_client_connected(10);
    let second = server.handle_client_connected(11);
    assert_eq!(delivered(first, 10).len(), 3);
    assert_eq!(delivered(second, 11).len(), 4);
    let third = server.handle_client_connected(12);
    let messages = delivered(third, 12);
    assert!(matches!(messages[0], ToClient::Init(_)));
    assert!(matches!(messages[1], ToClient::SetPhysicsConfig(_)));
    let mut client = ClientState::new(12);
    let replies = client.process_server_messages(messages);
    assert_eq!(replies, vec![ToServer::Ready]);
    assert_eq!(client.lobby.len(), 3);
    assert_eq!(client.lobby.clients, server.lobby.clients);
    assert_eq!(client.registry.masses.len(), 9);
    let mut ids: Vec<u64> = client.registry.masses.iter().map(|(id, _)| *id).collect();
    ids.dedup();
    assert_eq!(ids.len(), 9);
    assert_eq!(client.inhabited_mass_id, Some(2006));
    assert_eq!(client.physics_config, Some(config()));
}

#[test]
fn game_runs_when_every_slot_is_taken() {
    let mut server = Server::new(testing_no_unhinhabited(), config());
    assert_eq!(server.game_state, GameState::Stopped);
    server.handle_client_connected(1);
    let out = server.handle_client_message(1, ToServer::Ready);
    assert_eq!(server.game_state, GameState::Waiting);
    assert!(matches!(
        out.as_slice(),
        [Outbound::SendTo { client_id: 1, message: ToClient::SetGameState(GameState::Waiting) }]
    ));
    server.handle_client_connected(2);
    let out = server.handle_client_message(2, ToServer::Ready);
    assert_eq!(server.game_state, GameState::Running);
    assert!(matches!(out.as_slice(), [Outbound::Broadcast(ToClient::SetGameState(GameState::Running))]));
    server.handle_client_message(1, ToServer::Ready);
    assert_eq!(server.game_state, GameState::Running);
}

#[test]
fn client_beyond_capacity_is_told_to_wait() {
    let mut server = Server::new(cubic(), config());
    for id in [1, 2, 3] {
        server.handle_client_connected(id);
    }
    for id in [1, 2, 3] {
        server.handle_client_message(id, ToServer::Ready);
    }
    assert_eq!(server.game_state, GameState::Running);
    let lobby_before = server.lobby.clients.clone();
    let out = server.handle_client_connected(4);
    assert!(matches!(
        out.as_slice(),
        [Outbound::SendTo { client_id: 4, message: ToClient::SetGameState(GameState::Waiting) }]
    ));
    assert_eq!(server.lobby.clients, lobby_before);
    assert!(server.unassigned_masses.0.is_empty());
    assert!(server.lobby.get(4).is_none());
    assert!(server.handle_client_message(4, ToServer::Ready).is_empty());
    assert_eq!(server.game_state, GameState::Running);
}

#[test]
fn rotations_and_fire_are_relayed() {
    let mut server = Server::new(testing_no_unhinhabited(), config());
    server.handle_client_connected(1);
    server.handle_client_connected(2);
    let out = server.handle_client_message(1, ToServer::Rotation(rotation()));
    assert!(matches!(
        out.as_slice(),
        [Outbound::BroadcastExcept {
            client_id: 1,
            message: ToClient::InhabitantRotation { client_id: 1, .. }
        }]
    ));
    let own_mass = server.lobby.get(1).unwrap().inhabited_mass_id;
    let shot = ProjectileFlight {
        launch_time: 5,
        from_mass_id: own_mass,
        to_mass_id: 99,
        local_impact_direction: Vec3::zero(),
    };
    let out = server.handle_client_message(1, ToServer::ProjectileFired(shot));
    assert!(matches!(out.as_slice(), [Outbound::Broadcast(ToClient::ProjectileFired(f))] if *f == shot));
    let stolen = ProjectileFlight { from_mass_id: own_mass + 100, ..shot };
    assert!(server.handle_client_message(1, ToServer::ProjectileFired(stolen)).is_empty());
    assert!(server.handle_client_message(9, ToServer::Rotation(rotation())).is_empty());
}

#[test]
fn disconnect_ends_the_match() {
    let mut server = Server::new(cubic(), config());
    let reaction = server.handle_server_events(&vec![
        ServerEvent::ClientConnected(1),
        ServerEvent::ClientDisconnected(1),
        ServerEvent::ClientConnected(2),
    ]);
    assert!(reaction.quit);
    assert_eq!(reaction.outbound.len(), 3);
    assert_eq!(server.lobby.len(), 1);
    let reaction = server.handle_server_events(&vec![ServerEvent::ClientConnected(2)]);
    assert!(!reaction.quit);
    assert_eq!(server.lobby.len(), 2);
}

#[test]
fn same_client_connecting_twice_keeps_one_mass() {
    let mut server = Server::new(cubic(), config());
    server.handle_client_connected(1);
    let out = server.handle_client_connected(1);
    assert_eq!(out.len(), 1);
    assert_eq!(server.lobby.len(), 1);
    assert_eq!(server.unassigned_masses.0.len(), 2);
}

#[test]
fn client_applies_rotation_of_known_clients() {
    let mut server = Server::new(testing_no_unhinhabited(), config());
    server.handle_client_connected(1);
    let out = server.handle_client_connected(2);
    let mut client = ClientState::new(2);
    client.process_server_messages(delivered(out, 2));
    let mass_of_1 = client.lobby.get(1).unwrap().inhabited_mass_id;
    assert!(client.rotate_inhabitable_masses(1, rotation()));
    let h = client.registry.lookup(mass_of_1).unwrap();
    assert_eq!(client.registry.masses[h].1.rotation, rotation());
    assert!(!client.rotate_inhabitable_masses(7, rotation()));
    assert!(client.rotate_client_inhabited_mass(Rotation { x: 9, y: 9, z: 9, w: 9 }));
    let mine = client.registry.lookup(client.inhabited_mass_id.unwrap()).unwrap();
    assert_eq!(client.registry.masses[mine].1.rotation, Rotation { x: 9, y: 9, z: 9, w: 9 });
}

#[test]
fn client_ignores_unbuildable_snapshot() {
    let mut client = ClientState::new(1);
    let bad = InitData { masses: vec![(1, cubic().masses[0].1), (1, cubic().masses[1].1)] };
    assert_eq!(client.process_server_message(ToClient::Init(bad)), None);
    assert_eq!(client.registry.masses.len(), 0);
    assert_eq!(client.process_server_message(ToClient::SetGameState(GameState::Waiting)), None);
    assert_eq!(client.game_state, GameState::Waiting);
}

#[test]
fn lobby_insert_replaces_existing_entry() {
    let mut lobby = Lobby::new();
    assert_eq!(lobby.insert(5, ClientData { inhabited_mass_id: 1 }), None);
    assert_eq!(lobby.insert(6, ClientData { inhabited_mass_id: 2 }), None);
    assert_eq!(
        lobby.insert(5, ClientData { inhabited_mass_id: 3 }),
        Some(ClientData { inhabited_mass_id: 1 })
    );
    assert_eq!(lobby.len(), 2);
    assert_eq!(lobby.get(5), Some(ClientData { inhabited_mass_id: 3 }));
    assert_eq!(lobby.get(7), None);
}

#[test]
fn lookup_many_names_every_missing_id() {
    let registry = MassRegistry::from_init(&cubic());
    assert_eq!(registry.lookup_many(&vec![2000, 2008]), Ok(vec![0, 8]));
    assert_eq!(registry.lookup_many(&vec![1, 2000, 3]), Err(vec![1, 3]));
    assert_eq!(registry.lookup(2003), Some(3));
    assert_eq!(registry.lookup(42), None);
}

#[test]
fn despawn_releases_the_clients_mass() {
    let mut server = Server::new(testing_no_unhinhabited(), config());
    let out = server.handle_client_connected(1);
    let mut client = ClientState::new(1);
    client.process_server_messages(delivered(out, 1));
    let mine = client.inhabited_mass_id.unwrap();
    let other = if mine == 0 { 1 } else { 0 };
    client.handle_despawn_mass(DespawnMassEvent { mass_id: other });
    assert_eq!(client.registry.masses.len(), 1);
    assert_eq!(client.inhabited_mass_id, Some(mine));
    client.handle_despawn_mass(DespawnMassEvent { mass_id: mine });
    assert!(client.registry.masses.is_empty());
    assert_eq!(client.inhabited_mass_id, None);
}
