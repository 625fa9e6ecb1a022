//! The periodic task that puts new food into the world, up to the cap.

use crate::entities::{
    Food, FoodSpawnSchedule, Identity, ScheduleAt, FOOD_SPAWN_INTERVAL_SECONDS, MAX_FOOD_COUNT,
    MAX_SPAWN_BATCH, WORLD_SIZE,
};
use crate::geometry::Position;
use crate::random::{random_color, random_in_range};
use crate::world::World;
use spacetimedb::StdbRng;
use vstd::prelude::*;

verus! {

/// How a run of the food spawner ended.
#[derive(Clone, Copy, Debug, PartialEq, Eq, Structural)]
pub enum SpawnOutcome {
    /// The caller was not the system itself; nothing was done.
    Rejected,
    /// The world already held as much food as it may; nothing was done.
    Full,
    /// This many food items were created.
    Spawned { count: u64 },
}

/// Whether a point lies in the part of the world where food is placed.
pub open spec fn in_world(position: Position) -> bool {
    &&& -WORLD_SIZE <= position.x < WORLD_SIZE
    &&& -WORLD_SIZE <= position.y < WORLD_SIZE
}

/// The number of items that a run creates when the world holds
/// `current_count` and the batch size drawn is `sample`: the sample, cut
/// down to the room that is left under the cap.
pub open spec fn batch_size(sample: u64, current_count: u64) -> int {
    if sample <= MAX_FOOD_COUNT - current_count {
        sample as int
    } else {
        MAX_FOOD_COUNT - current_count
    }
}

/// Whether the id counter can still number the largest batch that a run of
/// the spawner may create in this world.
pub open spec fn ids_suffice(world: World) -> bool {
    world.foods().len() < MAX_FOOD_COUNT ==> world.next_food_id() + batch_size(
        MAX_SPAWN_BATCH,
        world.foods().len() as u64,
    ) <= u64::MAX
}

/// The descriptor of the food spawner's schedule, as it is handed to the
/// scheduler when the system starts: an id still to be given, and a run
/// every `FOOD_SPAWN_INTERVAL_SECONDS`.
pub fn init() -> (schedule: FoodSpawnSchedule)
    ensures
        schedule == (FoodSpawnSchedule {
            scheduled_id: 0,
            scheduled_at: ScheduleAt::Interval { micros: 2_000_000 },
        }),
{
    let spawn_interval: i64 = (FOOD_SPAWN_INTERVAL_SECONDS * 1_000_000) as i64;
    FoodSpawnSchedule { scheduled_id: 0, scheduled_at: ScheduleAt::Interval { micros: spawn_interval } }
}

/// Cuts a drawn batch size down to the room left under the food cap.
pub fn spawn_batch_size(sample: u64, current_food_count: u64) -> (count: u64)
    requires
        current_food_count <= MAX_FOOD_COUNT,
    ensures
        count == batch_size(sample, current_food_count),
{
    let room: u64 = MAX_FOOD_COUNT - current_food_count;
    if sample <= room {
        sample
    } else {
        room
    }
}

/// Tells whether the id counter can still number the largest batch that a
/// run of the spawner may create in this world.
pub fn can_number_batch(world: &World) -> (ok: bool)
    requires
        world.wf(),
    ensures
        ok == ids_suffice(*world),
{
    let current_food_count: u64 = world.food_count();
    if current_food_count < MAX_FOOD_COUNT {
        let largest: u64 = spawn_batch_size(MAX_SPAWN_BATCH, current_food_count);
        world.food_id_counter() <= u64::MAX - largest
    } else {
        true
    }
}

/// One run of the food spawner. Only the system itself may start a run: a
/// `sender` other than `module_identity` is rejected. With room under the
/// cap, a batch of one to three items, cut down to that room, is created;
/// each item gets the next id, a position inside the world and a colour of
/// its own.
pub fn spawn_food(
    world: &mut World,
    sender: Identity,
    module_identity: Identity,
    _arg: FoodSpawnSchedule,
    rng: &StdbRng,
) -> (outcome: SpawnOutcome)
    requires
        old(world).wf(),
        sender == module_identity ==> ids_suffice(*old(world)),
    ensures
        final(world).wf(),
        final(world).players() == old(world).players(),
        sender != module_identity ==> {
            &&& outcome == SpawnOutcome::Rejected
            &&& final(world).foods() == old(world).foods()
            &&& final(world).next_food_id() == old(world).next_food_id()
        },
        sender == module_identity && old(world).foods().len() >= MAX_FOOD_COUNT ==> {
            &&& outcome == SpawnOutcome::Full
            &&& final(world).foods() == old(world).foods()
            &&& final(world).next_food_id() == old(world).next_food_id()
        },
        sender == module_identity && old(world).foods().len() < MAX_FOOD_COUNT ==> {
            &&& outcome matches SpawnOutcome::Spawned { count }
            &&& 1 <= count <= batch_size(MAX_SPAWN_BATCH, old(world).foods().len() as u64)
            &&& final(world).foods().len() == old(world).foods().len() + count
            &&& final(world).foods().take(old(world).foods().len() as int) == old(world).foods()
            &&& final(world).next_food_id() == old(world).next_food_id() + count
            &&& forall|k: int|
                old(world).foods().len() <= k < final(world).foods().len() ==> {
                    &&& (#[trigger] final(world).foods()[k]).id == old(world).next_food_id() + (k
                        - old(world).foods().len())
                    &&& in_world(final(world).foods()[k].position)
                }
        },
{
    if !(sender == module_identity) {
        return SpawnOutcome::Rejected;
    }
    let current_food_count: u64 = world.food_count();
    if current_food_count >= MAX_FOOD_COUNT {
        return SpawnOutcome::Full;
    }
    let sample: i32 = random_in_range(rng, 1, MAX_SPAWN_BATCH as i32);
    let spawn_count: u64 = spawn_batch_size(sample as u64, current_food_count);
    let mut spawned: u64 = 0;
    while spawned < spawn_count
        invariant
            world.wf(),
            world.players() == old(world).players(),
            current_food_count == old(world).foods().len(),
            spawned <= spawn_count,
            1 <= spawn_count <= batch_size(MAX_SPAWN_BATCH, current_food_count),
            current_food_count < MAX_FOOD_COUNT,
            old(world).next_food_id() + spawn_count <= u64::MAX,
            world.foods().len() == current_food_count + spawned,
            world.foods().take(current_food_count as int) == old(world).foods(),
            world.next_food_id() == old(world).next_food_id() + spawned,
            forall|k: int|
                current_food_count <= k < world.foods().len() ==> {
                    &&& (#[trigger] world.foods()[k]).id == old(world).next_food_id() + (k
                        - current_food_count)
                    &&& in_world(world.foods()[k].position)
                },
        decreases spawn_count - spawned,
    {
        let x: i32 = random_in_range(rng, -WORLD_SIZE, WORLD_SIZE - 1);
        let y: i32 = random_in_range(rng, -WORLD_SIZE, WORLD_SIZE - 1);
        let color = random_color(rng);
        let ghost earlier = world.foods();
        let assigned = world.insert_food(Food { id: 0, position: Position { x, y }, color });
        assert(assigned.is_some());
        assert(world.foods().take(current_food_count as int) =~= earlier.take(
            current_food_count as int,
        ));
        spawned += 1;
    }
    SpawnOutcome::Spawned { count: spawn_count }
}

} // verus!
