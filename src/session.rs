//! The session registry: which users are connected, and the events waiting
//! for each of them. Delivery is best effort: an event for a user who is not
//! connected is dropped, and the sender is told so.

use vstd::prelude::*;
use std::collections::HashMap;
use crate::card::{Card, copy_cards};
use crate::game::{GameSession, Standing};

verus! {

broadcast use vstd::std_specs::hash::group_hash_axioms;

/// An event that reads the same for every recipient.
#[derive(Clone, Copy, Debug, PartialEq, Eq, Structural)]
pub enum Notice {
    MembershipChanged { room: u64 },
    CardPlayed { room: u64, player: u64, card: Card },
    GameFinished { room: u64, winner: u64 },
    PlayerLeft { room: u64, player: u64 },
}

/// An event waiting for delivery to one user.
pub enum Event {
    Notice(Notice),
    /// The start of a game, carrying the recipient's own hand only.
    GameStarted { room: u64, hand: Vec<Card> },
}

/// Whether `e` announces the start of game `room` with hand `hand`.
pub open spec fn is_start_for(e: Event, room: u64, hand: Seq<Card>) -> bool {
    match e {
        Event::GameStarted { room: r, hand: h } => r == room && h@ == hand,
        _ => false,
    }
}

/// The delivery channel of one connected user and the events queued on it.
pub struct Outbox {
    pub channel: u64,
    pub pending: Vec<Event>,
}

pub struct Registry {
    users: HashMap<u64, Outbox>,
}

impl View for Registry {
    type V = Map<u64, Outbox>;

    closed spec fn view(&self) -> Map<u64, Outbox> {
        self.users@
    }
}

/// How many times `u` occurs in `users`.
pub open spec fn occurrences(users: Seq<u64>, u: u64) -> nat
    decreases users.len(),
{
    if users.len() == 0 {
        0
    } else {
        occurrences(users.drop_last(), u) + if users.last() == u { 1nat } else { 0nat }
    }
}

/// How many of `users` (counted with repetition) are registered in `m`.
pub open spec fn reachable(m: Map<u64, Outbox>, users: Seq<u64>) -> nat
    decreases users.len(),
{
    if users.len() == 0 {
        0
    } else {
        reachable(m, users.drop_last()) + if m.contains_key(users.last()) { 1nat } else { 0nat }
    }
}

impl Registry {
    pub fn new() -> (r: Registry)
        ensures
            r@ == Map::<u64, Outbox>::empty(),
    {
        Registry { users: HashMap::new() }
    }

    /// Connects `user` on `channel`, replacing any channel they had; events
    /// queued on the old one are dropped.
    pub fn register(&mut self, user: u64, channel: u64)
        ensures
            final(self)@.contains_key(user),
            final(self)@[user].channel == channel,
            final(self)@[user].pending@ == Seq::<Event>::empty(),
            final(self)@.remove(user) == old(self)@.remove(user),
    {
        self.users.insert(user, Outbox { channel, pending: Vec::new() });
        assert(self.users@.remove(user) =~= old(self).users@.remove(user));
    }

    /// Disconnects `user`; tells whether they were connected.
    pub fn unregister(&mut self, user: u64) -> (r: bool)
        ensures
            r == old(self)@.contains_key(user),
            final(self)@ == old(self)@.remove(user),
    {
        let r = self.users.remove(&user);
        r.is_some()
    }

    pub fn is_connected(&self, user: u64) -> (r: bool)
        ensures
            r == self@.contains_key(user),
    {
        self.users.contains_key(&user)
    }

    /// Queues `event` for `user`. Without a connection the event is dropped
    /// and `false` comes back.
    pub fn send(&mut self, user: u64, event: Event) -> (r: bool)
        ensures
            r == old(self)@.contains_key(user),
            !r ==> final(self)@ == old(self)@,
            r ==> final(self)@.dom() == old(self)@.dom() && final(self)@[user].channel == old(
                self,
            )@[user].channel && final(self)@[user].pending@ == old(self)@[user].pending@.push(event)
                && final(self)@.remove(user) == old(self)@.remove(user),
    {
        match self.users.remove(&user) {
            None => {
                assert(self.users@ =~= old(self).users@);
                false
            },
            Some(mut outbox) => {
                outbox.pending.push(event);
                self.users.insert(user, outbox);
                assert(self.users@.dom() =~= old(self).users@.dom());
                assert(self.users@.remove(user) =~= old(self).users@.remove(user));
                true
            },
        }
    }

    /// Queues `notice` for each of `users` in turn, as `send` would; answers
    /// how many deliveries were queued.
    pub fn broadcast(&mut self, users: &Vec<u64>, notice: Notice) -> (r: usize)
        requires
            users.len() < usize::MAX,
        ensures
            r == reachable(old(self)@, users@),
            final(self)@.dom() == old(self)@.dom(),
            forall|u: u64| #[trigger] final(self)@.contains_key(u) ==> final(self)@[u].channel == old(
                self,
            )@[u].channel && final(self)@[u].pending@ == old(self)@[u].pending@ + Seq::new(
                occurrences(users@, u),
                |i: int| Event::Notice(notice),
            ),
    {
        let mut n: usize = 0;
        let mut i: usize = 0;
        while i < users.len()
            invariant
                i <= users.len(),
                users.len() < usize::MAX,
                n <= i,
                n == reachable(old(self)@, users@.subrange(0, i as int)),
                self@.dom() == old(self)@.dom(),
                forall|u: u64| #[trigger] self@.contains_key(u) ==> self@[u].channel == old(self)@[u].channel
                    && self@[u].pending@ == old(self)@[u].pending@ + Seq::new(
                    occurrences(users@.subrange(0, i as int), u),
                    |k: int| Event::Notice(notice),
                ),
            decreases users.len() - i,
        {
            let ghost before = self@;
            let u = users[i];
            let sent = self.send(u, Event::Notice(notice));
            proof {
                let s0 = users@.subrange(0, i as int);
                let s1 = users@.subrange(0, i + 1);
                assert(s1.drop_last() =~= s0);
                assert(s1.last() == u);
                assert forall|v: u64| #[trigger] self@.contains_key(v) implies self@[v].channel == old(
                    self,
                )@[v].channel && self@[v].pending@ == old(self)@[v].pending@ + Seq::new(
                    occurrences(s1, v),
                    |k: int| Event::Notice(notice),
                ) by {
                    assert(before.contains_key(v));
                    if v == u {
                        assert(old(self)@[v].pending@ + Seq::new(occurrences(s1, v), |k: int| Event::Notice(notice))
                            =~= (old(self)@[v].pending@ + Seq::new(occurrences(s0, v), |k: int| Event::Notice(notice))).push(
                            Event::Notice(notice),
                        ));
                    } else {
                        assert(before.remove(u).contains_key(v));
                        assert(self@.remove(u)[v] == self@[v]);
                        assert(before.remove(u)[v] == before[v]);
                    }
                }
            }
            if sent {
                n += 1;
            }
            i += 1;
        }
        assert(users@.subrange(0, users.len() as int) =~= users@);
        n
    }

    /// Queues for each player of `game` the start of game `room` with that
    /// player's own hand; answers how many were connected.
    pub fn announce_start(&mut self, room: u64, game: &GameSession) -> (r: usize)
        requires
            game.wf(),
        ensures
            r == reachable(old(self)@, game.players@),
            final(self)@.dom() == old(self)@.dom(),
            forall|u: u64| #[trigger] final(self)@.contains_key(u) && !game.players@.contains(u)
                ==> final(self)@[u] == old(self)@[u],
            forall|i: int| 0 <= i < game.players.len() && #[trigger] old(self)@.contains_key(game.players@[i]) ==> {
                let u = game.players@[i];
                &&& final(self)@[u].channel == old(self)@[u].channel
                &&& final(self)@[u].pending.len() == old(self)@[u].pending.len() + 1
                &&& final(self)@[u].pending@.drop_last() == old(self)@[u].pending@
                &&& is_start_for(final(self)@[u].pending@.last(), room, game.hand(i))
            },
    {
        let mut n: usize = 0;
        let mut i: usize = 0;
        while i < game.players.len()
            invariant
                i <= game.players.len(),
                n <= i,
                n == reachable(old(self)@, game.players@.subrange(0, i as int)),
                game.wf(),
                self@.dom() == old(self)@.dom(),
                forall|u: u64| #[trigger] self@.contains_key(u) && !game.players@.subrange(0, i as int).contains(u)
                    ==> self@[u] == old(self)@[u],
                forall|j: int| 0 <= j < i && #[trigger] old(self)@.contains_key(game.players@[j]) ==> {
                    let u = game.players@[j];
                    &&& self@[u].channel == old(self)@[u].channel
                    &&& self@[u].pending.len() == old(self)@[u].pending.len() + 1
                    &&& self@[u].pending@.drop_last() == old(self)@[u].pending@
                    &&& is_start_for(self@[u].pending@.last(), room, game.hand(j))
                },
            decreases game.players.len() - i,
        {
            let ghost before = self@;
            let u = game.players[i];
            let hand = copy_cards(&game.hands[i]);
            let sent = self.send(u, Event::GameStarted { room, hand });
            proof {
                let s0 = game.players@.subrange(0, i as int);
                let s1 = game.players@.subrange(0, i + 1);
                assert(s1.drop_last() =~= s0);
                assert(s1.last() == u);
                assert(sent == old(self)@.contains_key(u));
                assert forall|v: u64| #[trigger] self@.contains_key(v) && !game.players@.subrange(0, i + 1).contains(v)
                    implies self@[v] == old(self)@[v] by {
                    assert(!game.players@.subrange(0, i as int).contains(v)) by {
                        if game.players@.subrange(0, i as int).contains(v) {
                            let j = choose|j: int| 0 <= j < i && game.players@.subrange(0, i as int)[j] == v;
                            assert(game.players@.subrange(0, i + 1)[j] == v);
                        }
                    }
                    assert(game.players@.subrange(0, i + 1)[i as int] == u);
                    if sent {
                        assert(self@.remove(u)[v] == self@[v]);
                        assert(before.remove(u)[v] == before[v]);
                    }
                }
                assert forall|j: int| 0 <= j < i + 1 && #[trigger] old(self)@.contains_key(game.players@[j]) implies {
                    let w = game.players@[j];
                    &&& self@[w].channel == old(self)@[w].channel
                    &&& self@[w].pending.len() == old(self)@[w].pending.len() + 1
                    &&& self@[w].pending@.drop_last() == old(self)@[w].pending@
                    &&& is_start_for(self@[w].pending@.last(), room, game.hand(j))
                } by {
                    let w = game.players@[j];
                    if j == i {
                        assert(!game.players@.subrange(0, i as int).contains(u)) by {
                            if game.players@.subrange(0, i as int).contains(u) {
                                let k = choose|k: int| 0 <= k < i && game.players@.subrange(0, i as int)[k] == u;
                                assert(game.players@[k] == game.players@[i as int]);
                            }
                        }
                        assert(before[u] == old(self)@[u]);
                        assert(self@[u].pending@.drop_last() =~= before[u].pending@);
                    } else {
                        assert(w != u);
                        assert(self@.remove(u)[w] == self@[w]);
                        assert(before.remove(u)[w] == before[w]);
                    }
                }
            }
            if sent {
                n += 1;
            }
            i += 1;
        }
        assert(game.players@.subrange(0, game.players.len() as int) =~= game.players@);
        n
    }

    /// Takes the events queued for `user`, oldest first.
    pub fn drain(&mut self, user: u64) -> (r: Vec<Event>)
        ensures
            !old(self)@.contains_key(user) ==> r@.len() == 0 && final(self)@ == old(self)@,
            old(self)@.contains_key(user) ==> {
                &&& r@ == old(self)@[user].pending@
                &&& final(self)@.dom() == old(self)@.dom()
                &&& final(self)@[user].channel == old(self)@[user].channel
                &&& final(self)@[user].pending@.len() == 0
                &&& final(self)@.remove(user) == old(self)@.remove(user)
            },
    {
        match self.users.remove(&user) {
            None => {
                assert(self.users@ =~= old(self).users@);
                Vec::new()
            },
            Some(outbox) => {
                let Outbox { channel, pending } = outbox;
                self.users.insert(user, Outbox { channel, pending: Vec::new() });
                assert(self.users@.dom() =~= old(self).users@.dom());
                assert(self.users@.remove(user) =~= old(self).users@.remove(user));
                pending
            },
        }
    }
}

/// The notices a successful play of `card` by `player` in room `room`
/// produces: the play itself, then, when it ended the game, the finish with
/// the first of `standings` as winner.
pub fn play_notices(room: u64, player: u64, card: Card, finished: bool, standings: &Vec<Standing>) -> (r: Vec<Notice>)
    ensures
        !finished || standings.len() == 0 ==> r@ == seq![Notice::CardPlayed { room, player, card }],
        finished && standings.len() > 0 ==> r@ == seq![
            Notice::CardPlayed { room, player, card },
            Notice::GameFinished { room, winner: standings@[0].player },
        ],
{
    let mut r: Vec<Notice> = Vec::new();
    r.push(Notice::CardPlayed { room, player, card });
    if finished && standings.len() > 0 {
        r.push(Notice::GameFinished { room, winner: standings[0].player });
    }
    assert(r@ =~= seq![Notice::CardPlayed { room, player, card }] || r@ =~= seq![
        Notice::CardPlayed { room, player, card },
        Notice::GameFinished { room, winner: standings@[0].player },
    ]);
    r
}

/// The notices `player` leaving room `room` produces: the departure, then,
/// when it ended the game, the finish with the first of `standings` as winner.
pub fn leave_notices(room: u64, player: u64, ended: bool, standings: &Vec<Standing>) -> (r: Vec<Notice>)
    ensures
        !ended || standings.len() == 0 ==> r@ == seq![Notice::PlayerLeft { room, player }],
        ended && standings.len() > 0 ==> r@ == seq![
            Notice::PlayerLeft { room, player },
            Notice::GameFinished { room, winner: standings@[0].player },
        ],
{
    let mut r: Vec<Notice> = Vec::new();
    r.push(Notice::PlayerLeft { room, player });
    if ended && standings.len() > 0 {
        r.push(Notice::GameFinished { room, winner: standings[0].player });
    }
    assert(r@ =~= seq![Notice::PlayerLeft { room, player }] || r@ =~= seq![
        Notice::PlayerLeft { room, player },
        Notice::GameFinished { room, winner: standings@[0].player },
    ]);
    r
}

} // verus!
