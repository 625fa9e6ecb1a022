//! The move of a player and what follows from it.

use crate::entities::{Identity, Player};
use crate::geometry::Position;
use crate::resolver::{
    check_food_collisions, check_player_collisions, fed, food_reach, growth_fits, resolved,
};
use crate::world::{food_beyond, food_within, lemma_replaced, lookup_player, replaced, World};
use spacetimedb::StdbRng;
use vstd::prelude::*;

verus! {

/// How a move ended.
#[derive(Clone, Copy, Debug, PartialEq, Eq, Structural)]
pub enum MoveOutcome {
    /// The caller has no player record; nothing was done.
    UnknownPlayer,
    /// The player stands at the new position and has eaten this many food
    /// items there.
    Moved { foods_eaten: u32 },
}

/// The record of a player who has moved to `position` and eaten `count`
/// food items there.
pub open spec fn arrived(player: Player, position: Position, count: int) -> Player {
    let moved = Player { position, ..player };
    if count > 0 {
        fed(moved, player.score, count)
    } else {
        moved
    }
}

/// A player moves. The position is taken as it is given. Then the food
/// within the player's reach is eaten and the player grows by it, and then
/// the collisions with the other players are resolved against the grown
/// player. A caller without a record changes nothing.
pub fn player_moved(
    world: &mut World,
    sender: Identity,
    position: Position,
    rng: &StdbRng,
) -> (outcome: MoveOutcome)
    requires
        old(world).wf(),
        lookup_player(old(world).players(), sender) matches Some(player) ==> growth_fits(
            player,
            player.score,
            food_within(old(world).foods(), position, food_reach(player.radius)).len() as int,
        ),
    ensures
        final(world).wf(),
        final(world).next_food_id() == old(world).next_food_id(),
        match lookup_player(old(world).players(), sender) {
            None => {
                &&& outcome == MoveOutcome::UnknownPlayer
                &&& final(world).players() == old(world).players()
                &&& final(world).foods() == old(world).foods()
            },
            Some(player) => {
                let count = food_within(
                    old(world).foods(),
                    position,
                    food_reach(player.radius),
                ).len();
                let mover = arrived(player, position, count as int);
                &&& outcome == MoveOutcome::Moved { foods_eaten: count as u32 }
                &&& final(world).foods() == food_beyond(
                    old(world).foods(),
                    position,
                    food_reach(player.radius),
                )
                &&& resolved(
                    replaced(old(world).players(), mover),
                    final(world).players(),
                    mover,
                    position,
                )
            },
        },
{
    match world.find_player(sender) {
        Some(player) => {
            let moved = Player { position, ..player };
            world.update_player(moved);
            proof {
                lemma_replaced(old(world).players(), moved);
            }
            let eaten = check_food_collisions(world, sender, position, player.score);
            let foods_eaten: u32 = match eaten {
                Some(count) => count,
                None => 0,
            };
            proof {
                let mover = arrived(player, position, foods_eaten as int);
                assert(world.players() =~= replaced(old(world).players(), mover));
                lemma_replaced(old(world).players(), mover);
            }
            check_player_collisions(world, sender, position, rng);
            MoveOutcome::Moved { foods_eaten }
        },
        None => MoveOutcome::UnknownPlayer,
    }
}

} // verus!
