//! What a move sets off: the food pass, in which the mover eats and grows,
//! and the player pass, in which the smaller of two colliding players is reset.

use crate::entities::{
    spawn_point, spawn_state, Identity, Player, FOOD_RADIUS, PLAYER_START_SIZE, SIZE_MARGIN,
};
use crate::geometry::{touching, within_reach, Position};
use crate::random::random_color;
use crate::world::{
    distinct_identities, food_beyond, food_within, has_player, lemma_player_of, lookup_player,
    replaced, World,
};
use spacetimedb::StdbRng;
use vstd::prelude::*;

verus! {

/// How far from its centre a player of this radius picks food up.
pub open spec fn food_reach(radius: u32) -> int {
    radius + FOOD_RADIUS
}

/// The record of a player who has eaten `count` food items: the score is
/// counted on from `score`, the radius grows by one unit per item.
pub open spec fn fed(player: Player, score: u32, count: int) -> Player {
    Player { score: (score + count) as u32, radius: (player.radius + count) as u32, ..player }
}

/// Whether the score and the radius after eating `count` items still fit
/// their 32 bits.
pub open spec fn growth_fits(player: Player, score: u32, count: int) -> bool {
    score + count <= u32::MAX && player.radius + count <= u32::MAX
}

/// The distance within which two players of these radii collide: the larger
/// of the two radii, not their sum.
pub open spec fn collision_reach(a: u32, b: u32) -> int {
    if a >= b {
        a as int
    } else {
        b as int
    }
}

/// Whether the mover, standing at `position`, collides with `other`: another
/// player, online, at most the larger radius away.
pub open spec fn meets(mover: Player, position: Position, other: Player) -> bool {
    &&& other.identity != mover.identity
    &&& other.online
    &&& within_reach(position, other.position, collision_reach(mover.radius, other.radius))
}

/// Whether the mover eats `other`: they collide and the mover's radius is
/// larger by more than the margin.
pub open spec fn eats(mover: Player, position: Position, other: Player) -> bool {
    meets(mover, position, other) && mover.radius - other.radius > SIZE_MARGIN
}

/// Whether `other` eats the mover: they collide and the mover's radius is
/// smaller by more than the margin.
pub open spec fn eaten_by(mover: Player, position: Position, other: Player) -> bool {
    meets(mover, position, other) && other.radius - mover.radius > SIZE_MARGIN
}

/// Whether any of the players eats the mover.
pub open spec fn mover_eaten(players: Seq<Player>, mover: Player, position: Position) -> bool {
    exists|i: int| 0 <= i < players.len() && eaten_by(mover, position, #[trigger] players[i])
}

/// What the player pass makes of one record: the mover's own record is reset
/// if anyone eats the mover, another's record is reset if the mover eats it,
/// and a reset record is the spawn state in some colour; every other record
/// stays as it is.
pub open spec fn resolved_record(
    players: Seq<Player>,
    mover: Player,
    position: Position,
    before: Player,
    after: Player,
) -> bool {
    if before.identity == mover.identity {
        if mover_eaten(players, mover, position) {
            after == spawn_state(before.identity, after.color)
        } else {
            after == before
        }
    } else if eats(mover, position, before) {
        after == spawn_state(before.identity, after.color)
    } else {
        after == before
    }
}

/// Whether `after` is what the player pass leaves of `before`, for a mover
/// standing at `position`.
pub open spec fn resolved(
    before: Seq<Player>,
    after: Seq<Player>,
    mover: Player,
    position: Position,
) -> bool {
    &&& after.len() == before.len()
    &&& forall|i: int|
        0 <= i < before.len() ==> resolved_record(
            before,
            mover,
            position,
            #[trigger] before[i],
            after[i],
        )
}

/// The food pass of a move. Every food item at most the player's radius
/// plus the food radius away from `player_position` is taken out of the
/// world in one pass. If there was any, the player's score becomes
/// `current_score` plus their number and the radius grows by their number.
/// Returns how many were eaten, or `None` if `sender` has no record, in
/// which case nothing changes.
pub fn check_food_collisions(
    world: &mut World,
    sender: Identity,
    player_position: Position,
    current_score: u32,
) -> (eaten: Option<u32>)
    requires
        old(world).wf(),
        lookup_player(old(world).players(), sender) matches Some(player) ==> growth_fits(
            player,
            current_score,
            food_within(old(world).foods(), player_position, food_reach(player.radius)).len() as int,
        ),
    ensures
        final(world).wf(),
        final(world).next_food_id() == old(world).next_food_id(),
        match lookup_player(old(world).players(), sender) {
            None => {
                &&& eaten is None
                &&& final(world).players() == old(world).players()
                &&& final(world).foods() == old(world).foods()
            },
            Some(player) => {
                let count = food_within(
                    old(world).foods(),
                    player_position,
                    food_reach(player.radius),
                ).len();
                &&& eaten == Some(count as u32)
                &&& final(world).foods() == food_beyond(
                    old(world).foods(),
                    player_position,
                    food_reach(player.radius),
                )
                &&& final(world).players() == if count > 0 {
                    replaced(old(world).players(), fed(player, current_score, count as int))
                } else {
                    old(world).players()
                }
            },
        },
{
    let player = match world.find_player(sender) {
        Some(player) => player,
        None => {
            return None;
        },
    };
    let collision_distance: u64 = player.radius as u64 + FOOD_RADIUS as u64;
    let foods_eaten: u32 = world.remove_food_within(player_position, collision_distance);
    if foods_eaten > 0 {
        if let Some(player) = world.find_player(sender) {
            let updated = world.update_player(
                Player {
                    score: current_score + foods_eaten,
                    radius: player.radius + foods_eaten,
                    ..player
                },
            );
            assert(updated);
        }
    }
    Some(foods_eaten)
}

/// The player pass of a move. The mover is the record of `sender` as it
/// stands when the pass begins. Every other online player at most the
/// larger of the two radii away from `player_position` collides with the
/// mover; where the radii differ by more than the margin, the smaller of the
/// two is reset to the spawn state in a fresh colour. The larger one gains
/// nothing. Returns `false`, and changes nothing, if `sender` has no record.
pub fn check_player_collisions(
    world: &mut World,
    sender: Identity,
    player_position: Position,
    rng: &StdbRng,
) -> (ran: bool)
    requires
        old(world).wf(),
    ensures
        final(world).wf(),
        final(world).foods() == old(world).foods(),
        final(world).next_food_id() == old(world).next_food_id(),
        match lookup_player(old(world).players(), sender) {
            None => !ran && final(world).players() == old(world).players(),
            Some(mover) => ran && resolved(
                old(world).players(),
                final(world).players(),
                mover,
                player_position,
            ),
        },
{
    let player = match world.find_player(sender) {
        Some(player) => player,
        None => {
            return false;
        },
    };
    let others = world.player_list();
    let ghost before = world.players();
    let ghost mut reset = false;
    proof {
        assert(player.identity == sender) by {
            let k = choose|k: int| 0 <= k < before.len() && (#[trigger] before[k]).identity == sender;
            lemma_player_of(before, k);
        }
    }
    let mut i: usize = 0;
    while i < others.len()
        invariant
            world.wf(),
            world.foods() == old(world).foods(),
            world.next_food_id() == old(world).next_food_id(),
            before == old(world).players(),
            distinct_identities(before),
            has_player(before, sender),
            others@ == before,
            player.identity == sender,
            i <= others.len(),
            world.players().len() == before.len(),
            reset == exists|j: int| 0 <= j < i && eaten_by(player, player_position, #[trigger] before[j]),
            forall|k: int|
                0 <= k < before.len() ==> (#[trigger] world.players()[k]).identity
                    == before[k].identity,
            forall|k: int|
                0 <= k < before.len() ==> #[trigger] world.players()[k] == if before[k].identity
                    == sender {
                    if reset {
                        spawn_state(sender, world.players()[k].color)
                    } else {
                        before[k]
                    }
                } else if k < i && eats(player, player_position, before[k]) {
                    spawn_state(before[k].identity, world.players()[k].color)
                } else {
                    before[k]
                },
        decreases others.len() - i,
    {
        let other_player = others[i];
        let ghost current = world.players();
        let ghost was_reset = reset;
        let mut eaten: Option<Identity> = None;
        if !(other_player.identity == sender) && other_player.online {
            let collision_distance: u64 = if player.radius >= other_player.radius {
                player.radius as u64
            } else {
                other_player.radius as u64
            };
            if touching(player_position, other_player.position, collision_distance) {
                if player.radius > other_player.radius {
                    if player.radius - other_player.radius > SIZE_MARGIN {
                        eaten = Some(other_player.identity);
                    }
                } else if other_player.radius - player.radius > SIZE_MARGIN {
                    eaten = Some(sender);
                }
            }
        }
        proof {
            assert(eaten == if eats(player, player_position, other_player) {
                Some(other_player.identity)
            } else if eaten_by(player, player_position, other_player) {
                Some(sender)
            } else {
                None::<Identity>
            });
            if eaten_by(player, player_position, other_player) {
                reset = true;
            }
            assert(reset == exists|j: int|
                0 <= j < i + 1 && eaten_by(player, player_position, #[trigger] before[j])) by {
                if was_reset {
                    let j = choose|j: int|
                        0 <= j < i && eaten_by(player, player_position, #[trigger] before[j]);
                    assert(0 <= j < i + 1 && eaten_by(player, player_position, before[j]));
                } else if reset {
                    assert(eaten_by(player, player_position, before[i as int]));
                }
            }
        }
        if let Some(identity) = eaten {
            let color = random_color(rng);
            proof {
                if identity == sender {
                    let k = choose|k: int|
                        0 <= k < before.len() && (#[trigger] before[k]).identity == sender;
                    assert(current[k].identity == identity);
                } else {
                    assert(current[i as int].identity == identity);
                }
                assert(has_player(current, identity));
            }
            let updated = world.update_player(Player::spawn(identity, color));
            assert(updated);
            assert(world.players() == replaced(current, spawn_state(identity, color)));
        }
        i += 1;
    }
    proof {
        let after = world.players();
        assert forall|k: int| 0 <= k < before.len() implies resolved_record(
            before,
            player,
            player_position,
            #[trigger] before[k],
            after[k],
        ) by {
            assert(after[k].identity == before[k].identity);
            if before[k].identity == sender {
                if reset {
                    let j = choose|j: int|
                        0 <= j < i && eaten_by(player, player_position, #[trigger] before[j]);
                    assert(eaten_by(player, player_position, before[j]));
                }
            }
        }
    }
    true
}

/// Tells whether `sender` can make the move to `position`: the score and the
/// radius that the food within reach there would bring still fit their 32
/// bits. A caller without a record can always make the move, which changes
/// nothing.
pub fn move_fits(world: &World, sender: Identity, position: Position) -> (fits: bool)
    requires
        world.wf(),
    ensures
        fits == (lookup_player(world.players(), sender) matches Some(player) ==> growth_fits(
            player,
            player.score,
            food_within(world.foods(), position, food_reach(player.radius)).len() as int,
        )),
{
    match world.find_player(sender) {
        Some(player) => {
            let reach: u64 = player.radius as u64 + FOOD_RADIUS as u64;
            let count: u32 = world.count_food_within(position, reach);
            count <= u32::MAX - player.score && count <= u32::MAX - player.radius
        },
        None => true,
    }
}

/// A player who eats food grows by exactly what was eaten: the radius rises
/// by one unit per item, and so strictly, and the score rises by the number
/// of items. Nothing else about the player changes.
pub proof fn lemma_eating_grows(player: Player, count: int)
    requires
        count > 0,
        growth_fits(player, player.score, count),
    ensures
        fed(player, player.score, count).radius == player.radius + count,
        fed(player, player.score, count).radius > player.radius,
        fed(player, player.score, count).score == player.score + count,
        fed(player, player.score, count) == (Player {
            score: fed(player, player.score, count).score,
            radius: fed(player, player.score, count).radius,
            ..player
        }),
{
}

/// Two players whose radii differ by no more than the margin never eat one
/// another, wherever they stand.
pub proof fn lemma_similar_sizes_do_not_eat(mover: Player, position: Position, other: Player)
    requires
        mover.radius - other.radius <= SIZE_MARGIN,
        other.radius - mover.radius <= SIZE_MARGIN,
    ensures
        !eats(mover, position, other),
        !eaten_by(mover, position, other),
{
}

/// Where every player's radius is within the margin of the mover's, the
/// player pass changes nothing, however the players overlap.
pub proof fn lemma_pass_among_similar_sizes(
    before: Seq<Player>,
    after: Seq<Player>,
    mover: Player,
    position: Position,
)
    requires
        resolved(before, after, mover, position),
        forall|i: int|
            0 <= i < before.len() ==> (#[trigger] before[i]).radius - mover.radius <= SIZE_MARGIN
                && mover.radius - before[i].radius <= SIZE_MARGIN,
    ensures
        after == before,
{
    assert forall|i: int| 0 <= i < before.len() implies after[i] == before[i] by {
        assert(resolved_record(before, mover, position, before[i], after[i]));
        lemma_similar_sizes_do_not_eat(mover, position, before[i]);
        if mover_eaten(before, mover, position) {
            let j = choose|j: int|
                0 <= j < before.len() && eaten_by(mover, position, #[trigger] before[j]);
            lemma_similar_sizes_do_not_eat(mover, position, before[j]);
        }
    }
    assert(after =~= before);
}

/// Whatever record the player pass changes, it leaves in the spawn state:
/// online, at the spawn point, with no score and the starting radius, under
/// the identity it had.
pub proof fn lemma_eaten_player_respawns(
    before: Seq<Player>,
    after: Seq<Player>,
    mover: Player,
    position: Position,
    i: int,
)
    requires
        resolved(before, after, mover, position),
        0 <= i < before.len(),
        after[i] != before[i],
    ensures
        after[i].identity == before[i].identity,
        after[i].online,
        after[i].position == spawn_point(),
        after[i].score == 0,
        after[i].radius == PLAYER_START_SIZE,
        before[i].identity == mover.identity ==> mover_eaten(before, mover, position),
        before[i].identity != mover.identity ==> eats(mover, position, before[i]),
{
    assert(resolved_record(before, mover, position, before[i], after[i]));
}

} // verus!
