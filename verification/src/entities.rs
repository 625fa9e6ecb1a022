//! The records of the game and the constants of its rules.

use crate::geometry::Position;
use vstd::prelude::*;

verus! {

/// Radius of a player that has just spawned, in world units.
pub const PLAYER_START_SIZE: u32 = 20;

/// Radius of a piece of food, in world units.
pub const FOOD_RADIUS: u32 = 5;

/// The largest number of food items that may exist at one time.
pub const MAX_FOOD_COUNT: u64 = 100;

/// Food is placed at coordinates from `-WORLD_SIZE` up to, but not
/// including, `WORLD_SIZE`.
pub const WORLD_SIZE: i32 = 500;

/// Seconds between two runs of the food spawner.
pub const FOOD_SPAWN_INTERVAL_SECONDS: u64 = 2;

/// Horizontal coordinate at which players spawn.
pub const SPAWN_X: i32 = 250;

/// Vertical coordinate at which players spawn.
pub const SPAWN_Y: i32 = 250;

/// Two colliding players leave each other alone unless their radii differ by
/// more than this.
pub const SIZE_MARGIN: u32 = 5;

/// The largest number of food items that one run of the spawner creates.
pub const MAX_SPAWN_BATCH: u64 = 3;

/// A stable, opaque 256-bit identifier of a caller, as two 128-bit words.
#[derive(Clone, Copy, Debug, PartialEq, Eq, Structural)]
pub struct Identity {
    pub hi: u128,
    pub lo: u128,
}

/// An RGB colour, one byte per channel.
#[derive(Clone, Copy, Debug, PartialEq, Eq, Structural)]
pub struct Color {
    pub r: u8,
    pub g: u8,
    pub b: u8,
}

/// One participant, connected now or at some earlier time.
#[derive(Clone, Copy, Debug, PartialEq, Eq, Structural)]
pub struct Player {
    pub identity: Identity,
    pub online: bool,
    pub color: Color,
    pub position: Position,
    pub score: u32,
    pub radius: u32,
}

/// A consumable item lying in the world.
#[derive(Clone, Copy, Debug, PartialEq, Eq, Structural)]
pub struct Food {
    pub id: u64,
    pub position: Position,
    pub color: Color,
}

/// When a scheduled task is due.
#[derive(Clone, Copy, Debug, PartialEq, Eq, Structural)]
pub enum ScheduleAt {
    /// Again and again, with this many microseconds in between.
    Interval { micros: i64 },
    /// Once, at this many microseconds since the Unix epoch.
    Time { micros: i64 },
}

/// The descriptor that asks the scheduler to run the food spawner.
#[derive(Clone, Copy, Debug, PartialEq, Eq, Structural)]
pub struct FoodSpawnSchedule {
    pub scheduled_id: u64,
    pub scheduled_at: ScheduleAt,
}

/// The point at which players spawn: the centre of the playing field.
pub open spec fn spawn_point() -> Position {
    Position { x: SPAWN_X, y: SPAWN_Y }
}

/// The state of a player who has just spawned with the given colour: online,
/// at the spawn point, with no score and the starting radius.
pub open spec fn spawn_state(identity: Identity, color: Color) -> Player {
    Player {
        identity,
        online: true,
        color,
        position: spawn_point(),
        score: 0,
        radius: PLAYER_START_SIZE,
    }
}

impl Player {
    /// A freshly spawned player.
    pub fn spawn(identity: Identity, color: Color) -> (player: Player)
        ensures
            player == spawn_state(identity, color),
    {
        Player {
            identity,
            online: true,
            color,
            position: Position { x: SPAWN_X, y: SPAWN_Y },
            score: 0,
            radius: PLAYER_START_SIZE,
        }
    }
}

} // verus!
