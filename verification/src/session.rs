//! Connects and disconnects.

use crate::entities::{spawn_state, Color, Identity, Player};
use crate::random::random_color;
use crate::world::{
    distinct_identities, has_player, lemma_player_of, lookup_player, player_of, replaced, World,
};
use spacetimedb::StdbRng;
use vstd::prelude::*;

verus! {

/// How a connect ended.
#[derive(Clone, Copy, Debug, PartialEq, Eq, Structural)]
pub enum ConnectOutcome {
    /// The caller had a record, which is online again.
    Reconnected,
    /// The caller had none; a new player was created.
    Created,
}

/// How a disconnect ended.
#[derive(Clone, Copy, Debug, PartialEq, Eq, Structural)]
pub enum DisconnectOutcome {
    /// The caller's record is offline now.
    Disconnected,
    /// The caller has no player record; nothing was done.
    UnknownPlayer,
}

/// The records with the presence flag of `identity`'s record set to
/// `online`, and nothing else changed.
pub open spec fn with_presence(
    players: Seq<Player>,
    identity: Identity,
    online: bool,
) -> Seq<Player> {
    players.map_values(
        |p: Player|
            if p.identity == identity {
                Player { online, ..p }
            } else {
                p
            },
    )
}

/// The records after `sender` connects: the sender's record online again,
/// or, where there was none, a new record in the spawn state and in the
/// colour drawn for it.
pub open spec fn connected(players: Seq<Player>, sender: Identity, color: Color) -> Seq<Player> {
    if has_player(players, sender) {
        with_presence(players, sender, true)
    } else {
        players.push(spawn_state(sender, color))
    }
}

/// The records after `sender` disconnects: the sender's record, if there is
/// one, offline.
pub open spec fn disconnected(players: Seq<Player>, sender: Identity) -> Seq<Player> {
    with_presence(players, sender, false)
}

/// A client connects. A caller who has a record is online again, with
/// nothing else changed; any other caller gets a new record in the spawn
/// state with a random colour.
pub fn client_connected(
    world: &mut World,
    sender: Identity,
    rng: &StdbRng,
) -> (outcome: ConnectOutcome)
    requires
        old(world).wf(),
    ensures
        final(world).wf(),
        final(world).foods() == old(world).foods(),
        final(world).next_food_id() == old(world).next_food_id(),
        has_player(old(world).players(), sender) ==> {
            &&& outcome == ConnectOutcome::Reconnected
            &&& final(world).players() == with_presence(old(world).players(), sender, true)
        },
        !has_player(old(world).players(), sender) ==> {
            &&& outcome == ConnectOutcome::Created
            &&& final(world).players() == old(world).players().push(
                spawn_state(sender, final(world).players().last().color),
            )
        },
        final(world).players() == connected(
            old(world).players(),
            sender,
            final(world).players().last().color,
        ),
{
    match world.find_player(sender) {
        Some(player) => {
            world.update_player(Player { online: true, ..player });
            proof {
                lemma_presence_is_replacement(old(world).players(), sender, true);
            }
            ConnectOutcome::Reconnected
        },
        None => {
            let color = random_color(rng);
            world.insert_player(Player::spawn(sender, color));
            ConnectOutcome::Created
        },
    }
}

/// A client disconnects. The caller's record goes offline, with nothing else
/// changed. A caller without a record changes nothing.
pub fn client_disconnected(world: &mut World, sender: Identity) -> (outcome: DisconnectOutcome)
    requires
        old(world).wf(),
    ensures
        final(world).wf(),
        final(world).foods() == old(world).foods(),
        final(world).next_food_id() == old(world).next_food_id(),
        final(world).players() == disconnected(old(world).players(), sender),
        outcome == if has_player(old(world).players(), sender) {
            DisconnectOutcome::Disconnected
        } else {
            DisconnectOutcome::UnknownPlayer
        },
{
    match world.find_player(sender) {
        Some(player) => {
            world.update_player(Player { online: false, ..player });
            proof {
                lemma_presence_is_replacement(old(world).players(), sender, false);
            }
            DisconnectOutcome::Disconnected
        },
        None => {
            assert(world.players() =~= disconnected(world.players(), sender));
            DisconnectOutcome::UnknownPlayer
        },
    }
}

/// Setting the presence flag of a record amounts to exchanging that record
/// for the one with the flag set.
proof fn lemma_presence_is_replacement(players: Seq<Player>, identity: Identity, online: bool)
    requires
        distinct_identities(players),
        has_player(players, identity),
    ensures
        with_presence(players, identity, online) == replaced(
            players,
            Player { online, ..player_of(players, identity) },
        ),
        player_of(players, identity).identity == identity,
{
    let i = choose|i: int| 0 <= i < players.len() && (#[trigger] players[i]).identity == identity;
    lemma_player_of(players, i);
    let player = Player { online, ..player_of(players, identity) };
    assert forall|k: int| 0 <= k < players.len() implies with_presence(players, identity, online)[k]
        == replaced(players, player)[k] by {
        if players[k].identity == identity {
            lemma_player_of(players, k);
        }
    }
    assert(with_presence(players, identity, online) =~= replaced(players, player));
}

/// One connect or disconnect, as it reaches the session handlers. A
/// connect carries the colour that a new record would get.
pub enum SessionEvent {
    Connect { sender: Identity, color: Color },
    Disconnect { sender: Identity },
}

impl SessionEvent {
    /// The caller whom the event concerns.
    pub open spec fn sender(self) -> Identity {
        match self {
            SessionEvent::Connect { sender, .. } => sender,
            SessionEvent::Disconnect { sender } => sender,
        }
    }
}

/// The records after one session event.
pub open spec fn after_event(players: Seq<Player>, event: SessionEvent) -> Seq<Player> {
    match event {
        SessionEvent::Connect { sender, color } => connected(players, sender, color),
        SessionEvent::Disconnect { sender } => disconnected(players, sender),
    }
}

/// The records after a run of session events, taken in their order.
pub open spec fn after_events(players: Seq<Player>, events: Seq<SessionEvent>) -> Seq<Player>
    decreases events.len(),
{
    if events.len() == 0 {
        players
    } else {
        after_event(after_events(players, events.drop_last()), events.last())
    }
}

/// One session event keeps the identities distinct, sets the presence of
/// its sender's record, and leaves every other caller's record as it was.
pub proof fn lemma_after_event(players: Seq<Player>, event: SessionEvent)
    requires
        distinct_identities(players),
    ensures
        distinct_identities(after_event(players, event)),
        forall|identity: Identity|
            identity != event.sender() ==> lookup_player(after_event(players, event), identity)
                == lookup_player(players, identity),
        match event {
            SessionEvent::Connect { sender, .. } => lookup_player(
                after_event(players, event),
                sender,
            ) matches Some(player) && player.online,
            SessionEvent::Disconnect { sender } => {
                &&& has_player(after_event(players, event), sender) == has_player(players, sender)
                &&& lookup_player(after_event(players, event), sender) matches Some(player)
                    ==> !player.online
            },
        },
{
    let after = after_event(players, event);
    let sender = event.sender();
    let appended = event is Connect && !has_player(players, sender);
    // Every old record keeps its place and its identity.
    assert(after.len() >= players.len());
    assert forall|k: int| 0 <= k < players.len() implies (#[trigger] after[k]).identity
        == players[k].identity && (players[k].identity != sender ==> after[k] == players[k]) by {}
    assert forall|a: int, b: int| 0 <= a < b < after.len() implies (#[trigger] after[a]).identity
        != (#[trigger] after[b]).identity by {
        if b < players.len() {
            assert(players[a].identity != players[b].identity);
        } else {
            assert(players[a].identity != sender);
        }
    }
    assert forall|identity: Identity| identity != sender implies lookup_player(after, identity)
        == lookup_player(players, identity) by {
        if has_player(players, identity) {
            let k = choose|k: int| 0 <= k < players.len() && (#[trigger] players[k]).identity
                == identity;
            lemma_player_of(players, k);
            assert(after[k] == players[k]);
            lemma_player_of(after, k);
        } else if has_player(after, identity) {
            let k = choose|k: int| 0 <= k < after.len() && (#[trigger] after[k]).identity
                == identity;
            if k < players.len() {
                assert(players[k].identity == identity);
            }
        }
    }
    if has_player(players, sender) {
        let k = choose|k: int| 0 <= k < players.len() && (#[trigger] players[k]).identity == sender;
        assert(after[k].identity == sender);
        lemma_player_of(after, k);
    } else if appended {
        let k = players.len() as int;
        assert(after[k] == spawn_state(sender, event->Connect_color));
        lemma_player_of(after, k);
    } else {
        if has_player(after, sender) {
            let k = choose|k: int| 0 <= k < after.len() && (#[trigger] after[k]).identity == sender;
            assert(players[k].identity == sender);
        }
    }
}

/// However many connects and disconnects are handled, no two records ever
/// carry the same identity.
pub proof fn lemma_one_record_per_identity(players: Seq<Player>, events: Seq<SessionEvent>)
    requires
        distinct_identities(players),
    ensures
        distinct_identities(after_events(players, events)),
    decreases events.len(),
{
    if events.len() > 0 {
        lemma_one_record_per_identity(players, events.drop_last());
        lemma_after_event(after_events(players, events.drop_last()), events.last());
    }
}

/// After any run of connects and disconnects, the presence flag of a caller
/// tells which of the two the caller's most recent event was: after a
/// connect the caller has a record and it is online; after a disconnect the
/// caller's record, if there is one, is offline.
pub proof fn lemma_presence_follows_last_event(
    players: Seq<Player>,
    events: Seq<SessionEvent>,
    last: int,
)
    requires
        distinct_identities(players),
        0 <= last < events.len(),
        forall|j: int| last < j < events.len() ==> (#[trigger] events[j]).sender() != events[last].sender(),
    ensures
        match events[last] {
            SessionEvent::Connect { sender, .. } => lookup_player(
                after_events(players, events),
                sender,
            ) matches Some(player) && player.online,
            SessionEvent::Disconnect { sender } => lookup_player(
                after_events(players, events),
                sender,
            ) matches Some(player) ==> !player.online,
        },
    decreases events.len(),
{
    let earlier = events.drop_last();
    lemma_one_record_per_identity(players, earlier);
    lemma_after_event(after_events(players, earlier), events.last());
    if last < events.len() - 1 {
        assert(earlier[last] == events[last]);
        assert forall|j: int| last < j < earlier.len() implies (#[trigger] earlier[j]).sender()
            != earlier[last].sender() by {
            assert(earlier[j] == events[j]);
        }
        lemma_presence_follows_last_event(players, earlier, last);
        assert(events.last() == events[events.len() - 1]);
        assert(events.last().sender() != events[last].sender());
    }
}

} // verus!
