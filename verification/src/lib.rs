//! Transition rules of a multiplayer growth arena: players move, eat food to
//! grow, and larger players eat smaller ones.
//!
//! The state is a [`World`]: the registry of players and the registry of
//! food. Each event is one function on it: [`client_connected`],
//! [`client_disconnected`], [`player_moved`] and, on the scheduler's tick,
//! [`spawn_food`]. Positions and radii are whole world units.

pub mod entities;
pub mod geometry;
pub mod movement;
pub mod random;
pub mod resolver;
pub mod session;
pub mod spawner;
pub mod world;

pub use entities::{Color, Food, FoodSpawnSchedule, Identity, Player, ScheduleAt};
pub use geometry::Position;
pub use movement::{player_moved, MoveOutcome};
pub use resolver::{check_food_collisions, check_player_collisions};
pub use session::{client_connected, client_disconnected, ConnectOutcome, DisconnectOutcome};
pub use spawner::{init, spawn_food, SpawnOutcome};
pub use world::World;
