//! A room and its lifecycle: Lobby, then InGame, then Finished.

use vstd::prelude::*;
use crate::card::{Card, Rule};
use crate::error::RoomError;
use crate::game::{GameSession, position_of, play_post, forfeit_post, lemma_remove_no_dup, shuffled, dealt_hand};

verus! {

#[derive(Clone, Copy, Debug, PartialEq, Eq, Structural)]
pub enum Phase {
    Lobby,
    InGame,
    Finished,
}

/// How a room is set up when it is created.
pub struct RoomConfig {
    /// Most members the room admits.
    pub capacity: usize,
    /// Fewest members a game starts with.
    pub min_players: usize,
    /// Cards dealt to each player.
    pub hand_size: usize,
    pub rule: Rule,
    /// The full deck the game is dealt from.
    pub deck: Vec<Card>,
}

impl RoomConfig {
    /// A room admits someone, a game needs someone, and the deck covers a
    /// full hand for every seat.
    pub open spec fn wf(&self) -> bool {
        &&& self.capacity >= 1
        &&& self.min_players >= 1
        &&& self.hand_size >= 1
        &&& self.capacity * self.hand_size <= self.deck.len()
    }
}

pub struct Room {
    pub id: u64,
    pub host: u64,
    /// Members in seating order.
    pub members: Vec<u64>,
    /// `ready[i]` is the ready flag of `members[i]`.
    pub ready: Vec<bool>,
    pub phase: Phase,
    pub config: RoomConfig,
    pub game: Option<GameSession>,
}

/// A public summary of a room, for listings.
#[derive(Clone, Copy, Debug, PartialEq, Eq, Structural)]
pub struct RoomSummary {
    pub id: u64,
    pub host: u64,
    pub members: usize,
    pub phase: Phase,
}

impl Room {
    pub open spec fn wf(&self) -> bool {
        &&& self.config.wf()
        &&& self.members.len() == self.ready.len()
        &&& 1 <= self.members.len() <= self.config.capacity
        &&& self.members@.no_duplicates()
        &&& self.members@.contains(self.host)
        &&& (self.phase == Phase::Lobby <==> self.game.is_none())
        &&& self.game matches Some(g) ==> {
            &&& g.wf()
            &&& g.cards() == self.config.deck@.to_multiset()
            &&& (self.phase == Phase::InGame ==> g.players@ == self.members@ && !g.finished)
            &&& (self.phase == Phase::Finished ==> g.finished)
        }
    }

    /// Whether every member has set the ready flag.
    pub open spec fn all_ready(&self) -> bool {
        forall|i: int| 0 <= i < self.ready.len() ==> self.ready@[i]
    }

    /// A fresh room in the lobby, hosted by and holding only `host`.
    pub fn new(id: u64, host: u64, config: RoomConfig) -> (r: Room)
        requires
            config.wf(),
        ensures
            r.wf(),
            r.id == id,
            r.host == host,
            r.members@ == seq![host],
            r.ready@ == seq![false],
            r.phase == Phase::Lobby,
            r.config == config,
    {
        let r = Room {
            id,
            host,
            members: vec![host],
            ready: vec![false],
            phase: Phase::Lobby,
            config,
            game: None,
        };
        assert(r.members@ =~= seq![host]);
        assert(r.ready@ =~= seq![false]);
        r
    }

    pub fn is_member(&self, user: u64) -> (r: bool)
        ensures
            r == self.members@.contains(user),
    {
        position_of(&self.members, user).is_some()
    }

    pub fn summary(&self) -> (r: RoomSummary)
        ensures
            r == (RoomSummary {
                id: self.id,
                host: self.host,
                members: self.members.len(),
                phase: self.phase,
            }),
    {
        RoomSummary { id: self.id, host: self.host, members: self.members.len(), phase: self.phase }
    }
}

/// The error `join` meets, if any.
pub open spec fn join_error(room: Room, user: u64) -> Option<RoomError> {
    if room.phase != Phase::Lobby {
        Some(RoomError::WrongPhase)
    } else if room.members@.contains(user) {
        Some(RoomError::AlreadyJoined)
    } else if room.members.len() >= room.config.capacity {
        Some(RoomError::RoomFull)
    } else {
        None
    }
}

/// What `join` does: on success the user takes the next seat, not ready.
pub open spec fn join_post(room: Room, room2: Room, user: u64, r: Result<(), RoomError>) -> bool {
    &&& room2.wf()
    &&& room2.id == room.id
    &&& match join_error(room, user) {
        Some(e) => r == Err::<(), RoomError>(e) && room2 == room,
        None => {
            &&& r == Ok::<(), RoomError>(())
            &&& room2.members@ == room.members@.push(user)
            &&& room2.ready@ == room.ready@.push(false)
            &&& room2.host == room.host
            &&& room2.phase == room.phase
            &&& room2.config == room.config
            &&& room2.game == room.game
        },
    }
}

/// The error `set_ready` meets, if any.
pub open spec fn ready_error(room: Room, user: u64) -> Option<RoomError> {
    if !room.members@.contains(user) {
        Some(RoomError::NotAMember)
    } else if room.phase != Phase::Lobby {
        Some(RoomError::WrongPhase)
    } else {
        None
    }
}

/// What `set_ready` does: on success the user's flag becomes `flag`.
pub open spec fn ready_post(room: Room, room2: Room, user: u64, flag: bool, r: Result<(), RoomError>) -> bool {
    &&& room2.wf()
    &&& room2.id == room.id
    &&& match ready_error(room, user) {
        Some(e) => r == Err::<(), RoomError>(e) && room2 == room,
        None => {
            &&& r == Ok::<(), RoomError>(())
            &&& room2.ready@ == room.ready@.update(room.members@.index_of(user), flag)
            &&& room2.members == room.members
            &&& room2.host == room.host
            &&& room2.phase == room.phase
            &&& room2.config == room.config
            &&& room2.game == room.game
        },
    }
}

/// The error `start` meets, if any.
pub open spec fn start_error(room: Room, requester: u64) -> Option<RoomError> {
    if requester != room.host {
        Some(RoomError::NotHost)
    } else if room.phase != Phase::Lobby {
        Some(RoomError::WrongPhase)
    } else if room.members.len() < room.config.min_players {
        Some(RoomError::NotEnoughPlayers)
    } else if !room.all_ready() {
        Some(RoomError::NotAllReady)
    } else {
        None
    }
}

/// What `start` does: on success a game dealt from the room's deck,
/// shuffled with `seed`, to the members in seating order: seat `i` gets the
/// `i`-th block of `hand_size` cards, the rest stays in the deck, and the
/// first seat moves first.
pub open spec fn start_post(room: Room, room2: Room, requester: u64, seed: u64, r: Result<(), RoomError>) -> bool {
    &&& room2.wf()
    &&& room2.id == room.id
    &&& match start_error(room, requester) {
        Some(e) => r == Err::<(), RoomError>(e) && room2 == room,
        None => {
            let pile = shuffled(room.config.deck@, seed);
            let h = room.config.hand_size;
            &&& r == Ok::<(), RoomError>(())
            &&& room2.phase == Phase::InGame
            &&& room2.members == room.members
            &&& room2.ready == room.ready
            &&& room2.host == room.host
            &&& room2.config == room.config
            &&& room2.game matches Some(g) && {
                &&& g.players@ == room.members@
                &&& g.turn == 0
                &&& g.table@.len() == 0
                &&& !g.finished
                &&& g.rule == room.config.rule
                &&& forall|i: int| 0 <= i < g.hands.len() ==> #[trigger] g.hand(i) == dealt_hand(pile, h as nat, i)
                &&& g.deck@ == pile.subrange(room.members.len() * h, room.config.deck.len() as int)
            }
        },
    }
}

/// What a play does to a room: the game moves as `play_post` says, and the
/// room finishes with it.
pub open spec fn room_play_post(room: Room, room2: Room, user: u64, id: u32, r: Result<Card, RoomError>) -> bool {
    &&& room2.wf()
    &&& room2.id == room.id
    &&& if room.phase != Phase::InGame {
        r == Err::<Card, RoomError>(RoomError::WrongPhase) && room2 == room
    } else {
        &&& play_post(room.game.unwrap(), room2.game.unwrap(), user, id, r)
        &&& room2.phase == (if room2.game.unwrap().finished { Phase::Finished } else { Phase::InGame })
        &&& room2.members == room.members
        &&& room2.ready == room.ready
        &&& room2.host == room.host
        &&& room2.config == room.config
    }
}

/// Where the host passes when `user` leaves `room`: to the first remaining
/// seat if they were host, else nowhere.
pub open spec fn host_after_leave(room: Room, user: u64) -> u64 {
    if room.host == user {
        room.members@.remove(room.members@.index_of(user))[0]
    } else {
        room.host
    }
}

/// What `leave` does. A member who is not alone gives up their seat and
/// ready flag; the host passes on if they held it; in a running game their
/// hand is forfeited, and the game ends when one player is left. The last
/// member gets `Ok(true)` with the room untouched: it is to be closed.
pub open spec fn leave_post(room: Room, room2: Room, user: u64, r: Result<bool, RoomError>) -> bool {
    let p = room.members@.index_of(user);
    &&& room2.wf()
    &&& room2.id == room.id
    &&& if !room.members@.contains(user) {
        r == Err::<bool, RoomError>(RoomError::NotAMember) && room2 == room
    } else if room.members.len() == 1 {
        r == Ok::<bool, RoomError>(true) && room2 == room
    } else {
        &&& r == Ok::<bool, RoomError>(false)
        &&& room2.members@ == room.members@.remove(p)
        &&& room2.ready@ == room.ready@.remove(p)
        &&& room2.host == host_after_leave(room, user)
        &&& room2.config == room.config
        &&& if room.phase == Phase::InGame {
            &&& room2.game matches Some(g2) && forfeit_post(room.game.unwrap(), g2, user)
            &&& room2.phase == (if room.members.len() == 2 { Phase::Finished } else { Phase::InGame })
        } else {
            room2.game == room.game && room2.phase == room.phase
        }
    }
}

impl Room {
    pub fn leave(&mut self, user: u64) -> (r: Result<bool, RoomError>)
        requires
            old(self).wf(),
        ensures
            leave_post(*old(self), *final(self), user, r),
    {
        let p = match position_of(&self.members, user) {
            None => {
                return Err(RoomError::NotAMember);
            },
            Some(p) => p,
        };
        if self.members.len() == 1 {
            return Ok(true);
        }
        proof {
            self.members@.index_of_first_ensures(user);
            assert(self.members@.index_of(user) == p as int);
            lemma_remove_no_dup(self.members@, p as int);
        }
        self.members.remove(p);
        self.ready.remove(p);
        if self.host == user {
            self.host = self.members[0];
        }
        if self.phase == Phase::InGame {
            let mut g = self.game.take().unwrap();
            g.forfeit(user);
            if g.finished {
                self.phase = Phase::Finished;
            }
            self.game = Some(g);
        }
        proof {
            assert(self.members@.contains(self.members@[0]));
        }
        Ok(false)
    }

    pub fn join(&mut self, user: u64) -> (r: Result<(), RoomError>)
        requires
            old(self).wf(),
        ensures
            join_post(*old(self), *final(self), user, r),
    {
        if self.phase != Phase::Lobby {
            return Err(RoomError::WrongPhase);
        }
        if self.is_member(user) {
            return Err(RoomError::AlreadyJoined);
        }
        if self.members.len() >= self.config.capacity {
            return Err(RoomError::RoomFull);
        }
        let ghost m0 = self.members@;
        self.members.push(user);
        self.ready.push(false);
        proof {
            assert forall|a: int, b: int| 0 <= a < b < self.members@.len() implies self.members@[a]
                != self.members@[b] by {
                if b == m0.len() {
                    assert(m0.contains(self.members@[a]));
                }
            }
            assert(m0.contains(self.host));
            let j = choose|j: int| 0 <= j < m0.len() && m0[j] == self.host;
            assert(self.members@[j] == self.host);
        }
        Ok(())
    }

    pub fn set_ready(&mut self, user: u64, flag: bool) -> (r: Result<(), RoomError>)
        requires
            old(self).wf(),
        ensures
            ready_post(*old(self), *final(self), user, flag, r),
    {
        let p = match position_of(&self.members, user) {
            None => {
                return Err(RoomError::NotAMember);
            },
            Some(p) => p,
        };
        if self.phase != Phase::Lobby {
            return Err(RoomError::WrongPhase);
        }
        proof {
            self.members@.index_of_first_ensures(user);
            assert(self.members@.index_of(user) == p as int);
        }
        self.ready.set(p, flag);
        Ok(())
    }

    pub fn start(&mut self, requester: u64, seed: u64) -> (r: Result<(), RoomError>)
        requires
            old(self).wf(),
        ensures
            start_post(*old(self), *final(self), requester, seed, r),
    {
        if requester != self.host {
            return Err(RoomError::NotHost);
        }
        if self.phase != Phase::Lobby {
            return Err(RoomError::WrongPhase);
        }
        if self.members.len() < self.config.min_players {
            return Err(RoomError::NotEnoughPlayers);
        }
        let mut i: usize = 0;
        while i < self.ready.len()
            invariant
                i <= self.ready.len(),
                forall|j: int| 0 <= j < i ==> self.ready@[j],
                *self == *old(self),
                old(self).wf(),
                requester == old(self).host,
                old(self).phase == Phase::Lobby,
                old(self).members.len() >= old(self).config.min_players,
            decreases self.ready.len() - i,
        {
            if !self.ready[i] {
                assert(!self.all_ready());
                return Err(RoomError::NotAllReady);
            }
            i += 1;
        }
        proof {
            assert(self.members.len() * self.config.hand_size <= self.config.capacity
                * self.config.hand_size) by (nonlinear_arith)
                requires self.members.len() <= self.config.capacity;
        }
        let g = GameSession::deal(
            &self.members,
            &self.config.deck,
            self.config.hand_size,
            seed,
            self.config.rule,
        );
        self.game = Some(g);
        self.phase = Phase::InGame;
        Ok(())
    }

    pub fn play(&mut self, user: u64, card_id: u32) -> (r: Result<Card, RoomError>)
        requires
            old(self).wf(),
        ensures
            room_play_post(*old(self), *final(self), user, card_id, r),
    {
        if self.phase != Phase::InGame {
            return Err(RoomError::WrongPhase);
        }
        let mut g = self.game.take().unwrap();
        let r = g.play(user, card_id);
        if g.finished {
            self.phase = Phase::Finished;
        }
        self.game = Some(g);
        r
    }
}

} // verus!
