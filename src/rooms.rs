//! All live rooms, keyed by room id. Every change to a room happens inside
//! the store's `with_mut`, so operations on one room are serialized.

use vstd::prelude::*;
use crate::card::Card;
use crate::error::RoomError;
use crate::game::PlayerView;
use crate::room::{Room, RoomConfig, RoomSummary, Phase, join_post, ready_post, start_post, room_play_post, leave_post};
use crate::store::{DataTable, probe};

verus! {

/// A room after an update, with the update's answer.
pub type Step<R> = (Room, Result<R, RoomError>);

/// How many ids `create` tries before it gives up.
pub const MAX_ID_TRIES: u64 = 1024;

pub struct Rooms {
    table: DataTable<Room>,
    next_id: u64,
}

impl View for Rooms {
    type V = Map<u64, Room>;

    closed spec fn view(&self) -> Map<u64, Room> {
        self.table@
    }
}

/// `m2` is `m` with the entry under `id` replaced.
pub open spec fn updated_at(m: Map<u64, Room>, m2: Map<u64, Room>, id: u64) -> bool {
    m2.contains_key(id) && m2 == m.insert(id, m2[id])
}

impl Rooms {
    pub closed spec fn wf(&self) -> bool {
        &&& self.table.wf()
        &&& forall|id: u64| #[trigger] self.table@.contains_key(id) ==> self.table@[id].wf()
            && self.table@[id].id == id
    }

    /// Where the search for the next fresh id begins.
    pub closed spec fn cursor(&self) -> u64 {
        self.next_id
    }

    /// Every stored room is well formed and stored under its own id.
    pub proof fn lemma_rooms_wf(&self, id: u64)
        requires
            self.wf(),
            self@.contains_key(id),
        ensures
            self@[id].wf(),
            self@[id].id == id,
    {
    }

    pub fn new() -> (r: Rooms)
        ensures
            r.wf(),
            r@ == Map::<u64, Room>::empty(),
    {
        Rooms { table: DataTable::new(), next_id: 1 }
    }

    /// Opens a room hosted by `host` under a fresh id.
    pub fn create(&mut self, host: u64, config: RoomConfig) -> (r: Result<u64, RoomError>)
        requires
            old(self).wf(),
            config.wf(),
        ensures
            final(self).wf(),
            match r {
                Ok(id) => {
                    &&& !old(self)@.contains_key(id)
                    &&& updated_at(old(self)@, final(self)@, id)
                    &&& final(self)@[id].host == host
                    &&& final(self)@[id].members@ == seq![host]
                    &&& final(self)@[id].ready@ == seq![false]
                    &&& final(self)@[id].phase == Phase::Lobby
                    &&& final(self)@[id].config == config
                },
                Err(e) => e == RoomError::Exhausted && final(self)@ == old(self)@ && forall|i: u64|
                    i < MAX_ID_TRIES ==> old(self)@.contains_key(#[trigger] probe(old(self).cursor(), i)),
            },
    {
        let id = match self.table.fresh_id(self.next_id, MAX_ID_TRIES) {
            Ok(id) => id,
            Err(e) => {
                return Err(e);
            },
        };
        let room = Room::new(id, host, config);
        self.table.insert(id, room);
        self.next_id = id.wrapping_add(1);
        assert(self.table@ == old(self).table@.insert(id, self.table@[id]));
        Ok(id)
    }

    /// The room under `id`, if any.
    pub fn get(&self, id: u64) -> (r: Option<&Room>)
        ensures
            match r {
                Some(room) => self@.contains_key(id) && *room == self@[id],
                None => !self@.contains_key(id),
            },
    {
        self.table.get(id)
    }

    /// Seats `user` in room `id`.
    pub fn join(&mut self, id: u64, user: u64) -> (r: Result<(), RoomError>)
        requires
            old(self).wf(),
        ensures
            final(self).wf(),
            !old(self)@.contains_key(id) ==> r == Err::<(), RoomError>(RoomError::RoomNotFound)
                && final(self)@ == old(self)@,
            old(self)@.contains_key(id) ==> updated_at(old(self)@, final(self)@, id) && join_post(
                old(self)@[id],
                final(self)@[id],
                user,
                r,
            ),
    {
        let out = self.table.with_mut(
            id,
            (|room: Room| -> (o: Step<()>)
                requires
                    room.wf(),
                ensures
                    join_post(room, o.0, user, o.1),
                {
                    let mut room = room;
                    let x = room.join(user);
                    (room, x)
                }),
        );
        match out {
            None => Err(RoomError::RoomNotFound),
            Some(x) => x,
        }
    }

    /// Sets the ready flag of `user` in room `id`.
    pub fn set_ready(&mut self, id: u64, user: u64, flag: bool) -> (r: Result<(), RoomError>)
        requires
            old(self).wf(),
        ensures
            final(self).wf(),
            !old(self)@.contains_key(id) ==> r == Err::<(), RoomError>(RoomError::RoomNotFound)
                && final(self)@ == old(self)@,
            old(self)@.contains_key(id) ==> updated_at(old(self)@, final(self)@, id) && ready_post(
                old(self)@[id],
                final(self)@[id],
                user,
                flag,
                r,
            ),
    {
        let out = self.table.with_mut(
            id,
            (|room: Room| -> (o: Step<()>)
                requires
                    room.wf(),
                ensures
                    ready_post(room, o.0, user, flag, o.1),
                {
                    let mut room = room;
                    let x = room.set_ready(user, flag);
                    (room, x)
                }),
        );
        match out {
            None => Err(RoomError::RoomNotFound),
            Some(x) => x,
        }
    }

    /// Starts the game in room `id`, dealing with `seed`.
    pub fn start(&mut self, id: u64, requester: u64, seed: u64) -> (r: Result<(), RoomError>)
        requires
            old(self).wf(),
        ensures
            final(self).wf(),
            !old(self)@.contains_key(id) ==> r == Err::<(), RoomError>(RoomError::RoomNotFound)
                && final(self)@ == old(self)@,
            old(self)@.contains_key(id) ==> updated_at(old(self)@, final(self)@, id) && start_post(
                old(self)@[id],
                final(self)@[id],
                requester,
                seed,
                r,
            ),
    {
        let out = self.table.with_mut(
            id,
            (|room: Room| -> (o: Step<()>)
                requires
                    room.wf(),
                ensures
                    start_post(room, o.0, requester, seed, o.1),
                {
                    let mut room = room;
                    let x = room.start(requester, seed);
                    (room, x)
                }),
        );
        match out {
            None => Err(RoomError::RoomNotFound),
            Some(x) => x,
        }
    }

    /// Plays card `card_id` for `user` in room `id`.
    pub fn play(&mut self, id: u64, user: u64, card_id: u32) -> (r: Result<Card, RoomError>)
        requires
            old(self).wf(),
        ensures
            final(self).wf(),
            !old(self)@.contains_key(id) ==> r == Err::<Card, RoomError>(RoomError::RoomNotFound)
                && final(self)@ == old(self)@,
            old(self)@.contains_key(id) ==> updated_at(old(self)@, final(self)@, id)
                && room_play_post(old(self)@[id], final(self)@[id], user, card_id, r),
    {
        let out = self.table.with_mut(
            id,
            (|room: Room| -> (o: Step<Card>)
                requires
                    room.wf(),
                ensures
                    room_play_post(room, o.0, user, card_id, o.1),
                {
                    let mut room = room;
                    let x = room.play(user, card_id);
                    (room, x)
                }),
        );
        match out {
            None => Err(RoomError::RoomNotFound),
            Some(x) => x,
        }
    }

    /// Takes `user` out of room `id`; a room left empty is closed.
    pub fn leave(&mut self, id: u64, user: u64) -> (r: Result<(), RoomError>)
        requires
            old(self).wf(),
        ensures
            final(self).wf(),
            !old(self)@.contains_key(id) ==> r == Err::<(), RoomError>(RoomError::RoomNotFound)
                && final(self)@ == old(self)@,
            old(self)@.contains_key(id) && !old(self)@[id].members@.contains(user) ==> r == Err::<
                (),
                RoomError,
            >(RoomError::NotAMember) && final(self)@ == old(self)@,
            old(self)@.contains_key(id) && old(self)@[id].members@ == seq![user] ==> r == Ok::<
                (),
                RoomError,
            >(()) && final(self)@ == old(self)@.remove(id),
            old(self)@.contains_key(id) && old(self)@[id].members@.contains(user)
                && old(self)@[id].members.len() >= 2 ==> r == Ok::<(), RoomError>(())
                && updated_at(old(self)@, final(self)@, id) && leave_post(
                old(self)@[id],
                final(self)@[id],
                user,
                Ok(false),
            ),
    {
        let out = self.table.with_mut(
            id,
            (|room: Room| -> (o: Step<bool>)
                requires
                    room.wf(),
                ensures
                    leave_post(room, o.0, user, o.1),
                {
                    let mut room = room;
                    let x = room.leave(user);
                    (room, x)
                }),
        );
        match out {
            None => Err(RoomError::RoomNotFound),
            Some(Err(e)) => Err(e),
            Some(Ok(false)) => Ok(()),
            Some(Ok(true)) => {
                self.table.remove(id);
                assert(self.table@ =~= old(self).table@.remove(id));
                Ok(())
            },
        }
    }

    /// Closes room `id` whatever its phase, handing it back.
    pub fn close(&mut self, id: u64) -> (r: Result<Room, RoomError>)
        requires
            old(self).wf(),
        ensures
            final(self).wf(),
            final(self)@ == old(self)@.remove(id),
            match r {
                Ok(room) => old(self)@.contains_key(id) && room == old(self)@[id],
                Err(e) => e == RoomError::RoomNotFound && !old(self)@.contains_key(id),
            },
    {
        match self.table.remove(id) {
            Some(room) => Ok(room),
            None => Err(RoomError::RoomNotFound),
        }
    }

    /// How many rooms are live.
    pub fn len(&self) -> (r: usize)
        requires
            self.wf(),
        ensures
            r == self@.dom().len(),
    {
        self.table.len()
    }

    /// A summary of every live room, each once, as of the call.
    pub fn list(&self) -> (r: Vec<RoomSummary>)
        requires
            self.wf(),
        ensures
            r.len() == self@.dom().len(),
            forall|i: int| 0 <= i < r.len() ==> self@.contains_key(#[trigger] r@[i].id)
                && r@[i] == summary_of(self@[r@[i].id]),
            forall|i: int, j: int| 0 <= i < j < r.len() ==> r@[i].id != r@[j].id,
    {
        proof {
            self.table.lemma_keys();
        }
        let ids = self.table.ids();
        let mut r: Vec<RoomSummary> = Vec::new();
        let mut i: usize = 0;
        while i < ids.len()
            invariant
                i <= ids.len(),
                ids@ == self.table.keys(),
                self.wf(),
                self.table.keys().no_duplicates(),
                forall|k: u64| self@.contains_key(k) <==> self.table.keys().contains(k),
                r.len() == i,
                forall|j: int| 0 <= j < i ==> (#[trigger] r@[j]).id == ids@[j] && r@[j] == summary_of(self@[ids@[j]]),
            decreases ids.len() - i,
        {
            let id = ids[i];
            assert(self.table.keys().contains(id));
            let room = self.table.get(id).unwrap();
            assert(self.table@.contains_key(id));
            assert(room.id == id);
            r.push(room.summary());
            i += 1;
        }
        assert forall|j: int| 0 <= j < r.len() implies self@.contains_key(#[trigger] r@[j].id) by {
            assert(self.table.keys().contains(ids@[j]));
        }
        r
    }

    /// The game in room `id` as `user` sees it: their own hand and only the
    /// sizes of the others' hands.
    pub fn view_for(&self, id: u64, user: u64) -> (r: Result<PlayerView, RoomError>)
        requires
            self.wf(),
        ensures
            !self@.contains_key(id) ==> r == Err::<PlayerView, RoomError>(RoomError::RoomNotFound),
            self@.contains_key(id) && self@[id].game.is_none() ==> r == Err::<PlayerView, RoomError>(RoomError::WrongPhase),
            self@.contains_key(id) && self@[id].game.is_some() ==> match r {
                Ok(v) => {
                    let g = self@[id].game.unwrap();
                    let p = g.players@.index_of(user);
                    &&& g.players@.contains(user)
                    &&& v.hand@ == g.hand(p)
                    &&& v.hand_sizes.len() == g.hands.len()
                    &&& forall|i: int| 0 <= i < g.hands.len() ==> v.hand_sizes@[i] == g.hand(i).len()
                    &&& v.table@ == g.table@
                    &&& v.current == g.players@[g.turn as int]
                    &&& v.finished == g.finished
                },
                Err(e) => e == RoomError::NotAMember && !self@[id].game.unwrap().players@.contains(user),
            },
    {
        match self.table.get(id) {
            None => Err(RoomError::RoomNotFound),
            Some(room) => match &room.game {
                None => Err(RoomError::WrongPhase),
                Some(g) => match g.view_for(user) {
                    None => Err(RoomError::NotAMember),
                    Some(v) => Ok(v),
                },
            },
        }
    }
}

/// The public summary of `room`.
pub open spec fn summary_of(room: Room) -> RoomSummary {
    RoomSummary { id: room.id, host: room.host, members: room.members.len(), phase: room.phase }
}

} // verus!
