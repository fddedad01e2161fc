//! Simulation core and replication protocol of a multiplayer game of
//! gravitating masses.
//!
//! A server holds the authoritative world: masses under mutual gravity that
//! merge on contact, projectiles that fly toward live targets, and a lobby of
//! clients, each inhabiting one mass. Clients rebuild their copy of the world
//! only from the server's messages.
pub mod client;
pub mod controls;
pub mod physics;
pub mod projectile;
pub mod protocol;
pub mod registry;
pub mod server;
pub mod systems;
pub mod world;
