//! Properties of the engine that hold across operations.

use vstd::prelude::*;
use crate::error::RoomError;
use crate::game::{GameSession, play_error, play_post, next_seat};
use crate::room::{Room, Phase, start_post, room_play_post};
use crate::rooms::Rooms;
use crate::card::Card;

verus! {

/// Every live room seats each member once, and its host is one of them.
/// Each operation on `Rooms` keeps the store well formed, so this holds after
/// any sequence of creates, joins and leaves.
pub proof fn lemma_members_unique_host_seated(rooms: Rooms, id: u64)
    requires
        rooms.wf(),
        rooms@.contains_key(id),
    ensures
        rooms@[id].members@.no_duplicates(),
        rooms@[id].members@.contains(rooms@[id].host),
{
    rooms.lemma_rooms_wf(id);
}

/// The host's `start` succeeds exactly when the room is in the lobby, has at
/// least the minimum of members and all of them are ready; a refused start
/// changes nothing.
pub proof fn lemma_start_iff(room: Room, room2: Room, seed: u64, r: Result<(), RoomError>)
    requires
        room.wf(),
        start_post(room, room2, room.host, seed, r),
    ensures
        r.is_ok() <==> (room.phase == Phase::Lobby && room.members.len() >= room.config.min_players
            && room.all_ready()),
        r.is_err() ==> room2 == room,
        r.is_ok() ==> room2.phase == Phase::InGame,
{
}

/// Throughout a game, the hands, the table and the undealt deck hold the
/// room's deck exactly: no card is lost or duplicated.
pub proof fn lemma_cards_conserved(room: Room)
    requires
        room.wf(),
        room.game.is_some(),
    ensures
        room.game.unwrap().cards() == room.config.deck@.to_multiset(),
{
}

/// Only the player whose turn it is can play, and a successful play passes the
/// turn to the next seat, wrapping past the last.
pub proof fn lemma_play_turn(g: GameSession, g2: GameSession, user: u64, id: u32, r: Result<Card, RoomError>)
    requires
        g.wf(),
        play_post(g, g2, user, id, r),
    ensures
        r.is_ok() ==> user == g.players@[g.turn as int],
        r.is_ok() ==> g2.turn == (g.turn + 1) % (g.players.len() as int),
        r.is_ok() ==> g2.cards() == g.cards(),
{
    let t = g.turn as int;
    let n = g.players.len() as int;
    if t + 1 < n {
        assert((t + 1) % n == t + 1) by (nonlinear_arith)
            requires 0 <= t + 1 < n;
    } else {
        assert(t + 1 == n);
        assert(n % n == 0) by (nonlinear_arith)
            requires n > 0;
    }
    assert(r.is_ok() ==> g2.turn == next_seat(t, n));
    if r.is_ok() {
        assert(g2.cards() =~= g.cards()) by {
            crate::game::lemma_play_post_cards(g, g2, user, id, r);
        }
    }
}

/// Two different players claiming the same turn of the same game cannot both
/// succeed: when one of the plays would go through, the other is refused with
/// `NotYourTurn`. Room updates run one at a time inside the store, so the
/// second of two such calls sees the first one's result.
pub proof fn lemma_one_play_per_turn(g: GameSession, a: u64, b: u64, ida: u32, idb: u32)
    requires
        g.wf(),
        a != b,
    ensures
        !(play_error(g, a, ida).is_none() && play_error(g, b, idb).is_none()),
        play_error(g, a, ida).is_none() ==> play_error(g, b, idb) == Some(RoomError::NotYourTurn),
{
}

/// The same holds for plays on a room: two different players' plays judged
/// against one room state never both go through, and when one would, the
/// other is refused with `NotYourTurn`.
pub proof fn lemma_room_one_play_per_turn(
    room: Room,
    room_a: Room,
    room_b: Room,
    a: u64,
    b: u64,
    ida: u32,
    idb: u32,
    ra: Result<Card, RoomError>,
    rb: Result<Card, RoomError>,
)
    requires
        room.wf(),
        a != b,
        room_play_post(room, room_a, a, ida, ra),
        room_play_post(room, room_b, b, idb, rb),
    ensures
        !(ra.is_ok() && rb.is_ok()),
        ra.is_ok() ==> rb == Err::<Card, RoomError>(RoomError::NotYourTurn),
{
    if room.phase == Phase::InGame {
        lemma_one_play_per_turn(room.game.unwrap(), a, b, ida, idb);
    }
}

} // verus!
