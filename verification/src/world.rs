//! The two registries, players by identity and food by id, with what holds of
//! them at all times.

use crate::entities::{Food, Identity, Player, MAX_FOOD_COUNT, PLAYER_START_SIZE};
use crate::geometry::{touching, within_reach, Position};
use vstd::prelude::*;

verus! {

/// No two records carry the same identity.
pub open spec fn distinct_identities(players: Seq<Player>) -> bool {
    forall|i: int, j: int|
        0 <= i < j < players.len() ==> (#[trigger] players[i]).identity != (
        #[trigger] players[j]).identity
}

/// Some record carries this identity.
pub open spec fn has_player(players: Seq<Player>, identity: Identity) -> bool {
    exists|i: int| 0 <= i < players.len() && (#[trigger] players[i]).identity == identity
}

/// The record that carries this identity, where there is one.
pub open spec fn player_of(players: Seq<Player>, identity: Identity) -> Player {
    players[choose|i: int| 0 <= i < players.len() && (#[trigger] players[i]).identity == identity]
}

/// The record of this identity, if there is one.
pub open spec fn lookup_player(players: Seq<Player>, identity: Identity) -> Option<Player> {
    if has_player(players, identity) {
        Some(player_of(players, identity))
    } else {
        None
    }
}

/// The records with the one of `player`'s identity exchanged for `player`.
pub open spec fn replaced(players: Seq<Player>, player: Player) -> Seq<Player> {
    players.map_values(
        |p: Player|
            if p.identity == player.identity {
                player
            } else {
                p
            },
    )
}

/// No two food items carry the same id.
pub open spec fn distinct_food_ids(foods: Seq<Food>) -> bool {
    forall|i: int, j: int|
        0 <= i < j < foods.len() ==> (#[trigger] foods[i]).id != (#[trigger] foods[j]).id
}

/// Some food item carries this id.
pub open spec fn has_food(foods: Seq<Food>, id: u64) -> bool {
    exists|i: int| 0 <= i < foods.len() && (#[trigger] foods[i]).id == id
}

/// Picks the food items that lie at most `reach` from `position`.
pub open spec fn in_reach_of(position: Position, reach: int) -> spec_fn(Food) -> bool {
    |food: Food| within_reach(position, food.position, reach)
}

/// Picks the food items that lie further than `reach` from `position`.
pub open spec fn out_of_reach_of(position: Position, reach: int) -> spec_fn(Food) -> bool {
    |food: Food| !within_reach(position, food.position, reach)
}

/// The food items at most `reach` from `position`, in their order.
pub open spec fn food_within(foods: Seq<Food>, position: Position, reach: int) -> Seq<Food> {
    foods.filter(in_reach_of(position, reach))
}

/// The food items further than `reach` from `position`, in their order.
pub open spec fn food_beyond(foods: Seq<Food>, position: Position, reach: int) -> Seq<Food> {
    foods.filter(out_of_reach_of(position, reach))
}

/// Among records with distinct identities, each is the one found under its
/// own identity.
pub proof fn lemma_player_of(players: Seq<Player>, i: int)
    requires
        distinct_identities(players),
        0 <= i < players.len(),
    ensures
        has_player(players, players[i].identity),
        player_of(players, players[i].identity) == players[i],
        lookup_player(players, players[i].identity) == Some(players[i]),
{
    let identity = players[i].identity;
    let k = choose|k: int| 0 <= k < players.len() && (#[trigger] players[k]).identity == identity;
    assert(k == i);
}

/// Exchanging a record keeps the identities distinct, and the new record is
/// then the one found under its identity.
pub proof fn lemma_replaced(players: Seq<Player>, player: Player)
    requires
        distinct_identities(players),
        has_player(players, player.identity),
    ensures
        distinct_identities(replaced(players, player)),
        lookup_player(replaced(players, player), player.identity) == Some(player),
{
    let after = replaced(players, player);
    let i = choose|i: int| 0 <= i < players.len() && (#[trigger] players[i]).identity
        == player.identity;
    assert forall|a: int, b: int| 0 <= a < b < after.len() implies (#[trigger] after[a]).identity
        != (#[trigger] after[b]).identity by {
        assert(players[a].identity != players[b].identity);
    }
    assert(after[i] == player);
    lemma_player_of(after, i);
}

/// The world never holds more food than the cap allows.
pub proof fn lemma_food_within_cap(world: World)
    requires
        world.wf(),
    ensures
        0 <= world.foods().len() <= MAX_FOOD_COUNT,
{
}

/// The registries of the game: every player that ever connected, and the
/// food that lies in the world.
pub struct World {
    players: Vec<Player>,
    foods: Vec<Food>,
    next_food_id: u64,
}

impl World {
    /// The player records, in the order in which they are walked.
    pub closed spec fn players(&self) -> Seq<Player> {
        self.players@
    }

    /// The food items, in the order in which they are walked.
    pub closed spec fn foods(&self) -> Seq<Food> {
        self.foods@
    }

    /// The id that the next food item created without one will get.
    pub closed spec fn next_food_id(&self) -> u64 {
        self.next_food_id
    }

    /// What holds of the registries at all times: one record per identity,
    /// no radius below the starting one, one item per food id, every id
    /// positive and below the counter, and no more food than the cap allows.
    pub open spec fn wf(&self) -> bool {
        &&& distinct_identities(self.players())
        &&& forall|i: int|
            0 <= i < self.players().len() ==> (#[trigger] self.players()[i]).radius
                >= PLAYER_START_SIZE
        &&& distinct_food_ids(self.foods())
        &&& self.next_food_id() > 0
        &&& forall|i: int|
            0 <= i < self.foods().len() ==> 0 < (#[trigger] self.foods()[i]).id
                < self.next_food_id()
        &&& self.foods().len() <= MAX_FOOD_COUNT
    }

    /// Whether `insert_food` takes this item: there is room under the cap,
    /// an id can still be given, and an id that the item brings is not in use.
    pub open spec fn accepts_food(&self, food: Food) -> bool {
        &&& self.foods().len() < MAX_FOOD_COUNT
        &&& if food.id == 0 {
            self.next_food_id() < u64::MAX
        } else {
            food.id < u64::MAX && !has_food(self.foods(), food.id)
        }
    }

    /// The id under which `insert_food` stores this item: its own, or the
    /// counter's where it brings none.
    pub open spec fn id_for(&self, food: Food) -> u64 {
        if food.id == 0 {
            self.next_food_id()
        } else {
            food.id
        }
    }

    /// An empty world.
    pub fn new() -> (world: World)
        ensures
            world.wf(),
            world.players() == Seq::<Player>::empty(),
            world.foods() == Seq::<Food>::empty(),
            world.next_food_id() == 1,
    {
        World { players: Vec::new(), foods: Vec::new(), next_food_id: 1 }
    }

    /// Looks a player up by identity.
    pub fn find_player(&self, identity: Identity) -> (found: Option<Player>)
        requires
            self.wf(),
        ensures
            found == lookup_player(self.players(), identity),
    {
        let mut i: usize = 0;
        while i < self.players.len()
            invariant
                self.wf(),
                i <= self.players.len(),
                forall|k: int| 0 <= k < i ==> (#[trigger] self.players@[k]).identity != identity,
            decreases self.players.len() - i,
        {
            if self.players[i].identity == identity {
                proof {
                    lemma_player_of(self.players@, i as int);
                }
                return Some(self.players[i]);
            }
            i += 1;
        }
        None
    }

    /// Adds a record for an identity that has none yet. A record whose
    /// identity is taken, or whose radius is below the starting one, is
    /// turned down and nothing changes.
    pub fn insert_player(&mut self, player: Player) -> (inserted: bool)
        requires
            old(self).wf(),
        ensures
            final(self).wf(),
            inserted == (!has_player(old(self).players(), player.identity) && player.radius
                >= PLAYER_START_SIZE),
            inserted ==> final(self).players() == old(self).players().push(player),
            !inserted ==> final(self).players() == old(self).players(),
            final(self).foods() == old(self).foods(),
            final(self).next_food_id() == old(self).next_food_id(),
    {
        if player.radius < PLAYER_START_SIZE {
            return false;
        }
        if self.find_player(player.identity).is_some() {
            return false;
        }
        self.players.push(player);
        true
    }

    /// Exchanges the record of `player`'s identity for `player`. Where the
    /// identity has no record, or the new radius is below the starting one,
    /// nothing changes.
    pub fn update_player(&mut self, player: Player) -> (updated: bool)
        requires
            old(self).wf(),
        ensures
            final(self).wf(),
            updated == (has_player(old(self).players(), player.identity) && player.radius
                >= PLAYER_START_SIZE),
            updated ==> final(self).players() == replaced(old(self).players(), player),
            !updated ==> final(self).players() == old(self).players(),
            final(self).foods() == old(self).foods(),
            final(self).next_food_id() == old(self).next_food_id(),
    {
        if player.radius < PLAYER_START_SIZE {
            return false;
        }
        let mut i: usize = 0;
        while i < self.players.len()
            invariant
                old(self).wf(),
                player.radius >= PLAYER_START_SIZE,
                i <= self.players.len(),
                *self == *old(self),
                forall|k: int| 0 <= k < i ==> (#[trigger] self.players@[k]).identity != player.identity,
            decreases self.players.len() - i,
        {
            if self.players[i].identity == player.identity {
                self.players[i] = player;
                assert(self.players@ =~= replaced(old(self).players@, player)) by {
                    assert forall|k: int| 0 <= k < self.players@.len() implies self.players@[k]
                        == replaced(old(self).players@, player)[k] by {
                        if k != i {
                            assert(old(self).players@[k].identity != old(self).players@[i as int].identity);
                        }
                    }
                }
                assert(distinct_identities(self.players@)) by {
                    assert forall|a: int, b: int| 0 <= a < b < self.players@.len() implies (
                    #[trigger] self.players@[a]).identity != (#[trigger] self.players@[b]).identity by {
                        assert(old(self).players@[a].identity != old(self).players@[b].identity);
                    }
                }
                return true;
            }
            i += 1;
        }
        false
    }

    /// The player records, copied out in the order in which they are kept.
    pub fn player_list(&self) -> (list: Vec<Player>)
        ensures
            list@ == self.players(),
    {
        let mut list: Vec<Player> = Vec::new();
        let mut i: usize = 0;
        while i < self.players.len()
            invariant
                i <= self.players.len(),
                list@ == self.players@.take(i as int),
            decreases self.players.len() - i,
        {
            list.push(self.players[i]);
            assert(self.players@.take(i + 1) =~= self.players@.take(i as int).push(
                self.players@[i as int],
            ));
            i += 1;
        }
        assert(self.players@.take(i as int) =~= self.players@);
        list
    }

    /// The id that the next food item created without one will get.
    pub fn food_id_counter(&self) -> (id: u64)
        ensures
            id == self.next_food_id(),
    {
        self.next_food_id
    }

    /// The number of food items in the world.
    pub fn food_count(&self) -> (count: u64)
        requires
            self.wf(),
        ensures
            count == self.foods().len(),
            count <= MAX_FOOD_COUNT,
    {
        self.foods.len() as u64
    }

    /// The food items, copied out in the order in which they are kept.
    pub fn food_list(&self) -> (list: Vec<Food>)
        ensures
            list@ == self.foods(),
    {
        let mut list: Vec<Food> = Vec::new();
        let mut i: usize = 0;
        while i < self.foods.len()
            invariant
                i <= self.foods.len(),
                list@ == self.foods@.take(i as int),
            decreases self.foods.len() - i,
        {
            list.push(self.foods[i]);
            assert(self.foods@.take(i + 1) =~= self.foods@.take(i as int).push(
                self.foods@[i as int],
            ));
            i += 1;
        }
        assert(self.foods@.take(i as int) =~= self.foods@);
        list
    }

    /// Counts the food items that lie at most `reach` from `position`.
    pub fn count_food_within(&self, position: Position, reach: u64) -> (count: u32)
        requires
            self.wf(),
        ensures
            count == food_within(self.foods(), position, reach as int).len(),
    {
        let mut count: u32 = 0;
        let mut i: usize = 0;
        while i < self.foods.len()
            invariant
                self.wf(),
                i <= self.foods.len(),
                count <= i,
                count == food_within(self.foods@.take(i as int), position, reach as int).len(),
            decreases self.foods.len() - i,
        {
            let food = self.foods[i];
            proof {
                let before = self.foods@.take(i as int);
                assert(self.foods@.take(i + 1) =~= before.push(food));
                before.lemma_filter_push(food, in_reach_of(position, reach as int));
            }
            if touching(position, food.position, reach) {
                count += 1;
            }
            i += 1;
        }
        assert(self.foods@.take(i as int) =~= self.foods@);
        count
    }

    /// Takes out of the world, in one pass, every food item that lies at
    /// most `reach` from `position`, and returns how many there were.
    pub fn remove_food_within(&mut self, position: Position, reach: u64) -> (removed: u32)
        requires
            old(self).wf(),
        ensures
            final(self).wf(),
            final(self).foods() == food_beyond(old(self).foods(), position, reach as int),
            removed == food_within(old(self).foods(), position, reach as int).len(),
            removed + final(self).foods().len() == old(self).foods().len(),
            final(self).players() == old(self).players(),
            final(self).next_food_id() == old(self).next_food_id(),
    {
        let mut kept: Vec<Food> = Vec::new();
        let mut removed: u32 = 0;
        let mut i: usize = 0;
        while i < self.foods.len()
            invariant
                *self == *old(self),
                self.wf(),
                i <= self.foods.len(),
                kept@ == food_beyond(self.foods@.take(i as int), position, reach as int),
                removed == food_within(self.foods@.take(i as int), position, reach as int).len(),
                removed + kept.len() == i,
                distinct_food_ids(kept@),
                forall|a: int|
                    0 <= a < kept.len() ==> exists|k: int|
                        0 <= k < i && self.foods@[k] == #[trigger] kept@[a],
            decreases self.foods.len() - i,
        {
            let food = self.foods[i];
            proof {
                let before = self.foods@.take(i as int);
                assert(self.foods@.take(i + 1) =~= before.push(food));
                before.lemma_filter_push(food, in_reach_of(position, reach as int));
                before.lemma_filter_push(food, out_of_reach_of(position, reach as int));
            }
            if touching(position, food.position, reach) {
                removed += 1;
            } else {
                let ghost earlier = kept@;
                kept.push(food);
                assert forall|a: int| 0 <= a < kept.len() implies exists|k: int|
                    0 <= k < i + 1 && self.foods@[k] == #[trigger] kept@[a] by {
                    if a < earlier.len() {
                        let k = choose|k: int| 0 <= k < i && self.foods@[k] == earlier[a];
                        assert(self.foods@[k] == kept@[a]);
                    } else {
                        assert(self.foods@[i as int] == kept@[a]);
                    }
                }
                assert(distinct_food_ids(kept@)) by {
                    assert forall|a: int, b: int| 0 <= a < b < kept@.len() implies (
                    #[trigger] kept@[a]).id != (#[trigger] kept@[b]).id by {
                        if b < earlier.len() {
                            assert(earlier[a].id != earlier[b].id);
                        } else {
                            let k = choose|k: int| 0 <= k < i && self.foods@[k] == earlier[a];
                            assert(self.foods@[k].id != self.foods@[i as int].id);
                        }
                    }
                }
            }
            i += 1;
        }
        proof {
            assert(self.foods@.take(i as int) =~= self.foods@);
            assert forall|a: int| 0 <= a < kept@.len() implies 0 < (#[trigger] kept@[a]).id
                < self.next_food_id by {
                let k = choose|k: int| 0 <= k < i && self.foods@[k] == kept@[a];
                assert(0 < self.foods@[k].id < self.next_food_id);
            }
        }
        self.foods = kept;
        removed
    }

    /// Tells whether a food item carries this id.
    fn food_id_in_use(&self, id: u64) -> (used: bool)
        ensures
            used == has_food(self.foods(), id),
    {
        let mut i: usize = 0;
        while i < self.foods.len()
            invariant
                i <= self.foods.len(),
                forall|k: int| 0 <= k < i ==> (#[trigger] self.foods@[k]).id != id,
            decreases self.foods.len() - i,
        {
            if self.foods[i].id == id {
                return true;
            }
            i += 1;
        }
        false
    }

    /// Puts a food item into the world and returns the id under which it is
    /// kept. An item with id 0 gets the counter's next id; any other id is
    /// kept as it is. The counter then stands above every id in use. An
    /// item that `accepts_food` turns down changes nothing.
    pub fn insert_food(&mut self, food: Food) -> (assigned: Option<u64>)
        requires
            old(self).wf(),
        ensures
            final(self).wf(),
            final(self).players() == old(self).players(),
            assigned.is_some() == old(self).accepts_food(food),
            assigned matches Some(id) ==> {
                &&& id == old(self).id_for(food)
                &&& final(self).foods() == old(self).foods().push(
                    Food { id, position: food.position, color: food.color },
                )
                &&& final(self).next_food_id() == if id < old(self).next_food_id() {
                    old(self).next_food_id()
                } else {
                    (id + 1) as u64
                }
            },
            assigned is None ==> {
                &&& final(self).foods() == old(self).foods()
                &&& final(self).next_food_id() == old(self).next_food_id()
            },
    {
        if self.foods.len() as u64 >= MAX_FOOD_COUNT {
            return None;
        }
        let id: u64 = if food.id == 0 {
            self.next_food_id
        } else {
            food.id
        };
        if id == u64::MAX {
            return None;
        }
        if food.id != 0 && self.food_id_in_use(id) {
            return None;
        }
        self.foods.push(Food { id, position: food.position, color: food.color });
        assert(distinct_food_ids(self.foods@)) by {
            assert forall|a: int, b: int| 0 <= a < b < self.foods@.len() implies (
            #[trigger] self.foods@[a]).id != (#[trigger] self.foods@[b]).id by {
                if b < old(self).foods@.len() {
                    assert(old(self).foods@[a].id != old(self).foods@[b].id);
                } else {
                    assert(old(self).foods@[a].id != id);
                }
            }
        }
        if id >= self.next_food_id {
            self.next_food_id = id + 1;
        }
        assert forall|k: int| 0 <= k < self.foods@.len() implies 0 < (#[trigger] self.foods@[k]).id
            < self.next_food_id by {
            if k < old(self).foods@.len() {
                assert(self.foods@[k] == old(self).foods@[k]);
            }
        }
        Some(id)
    }
}

} // verus!
