//! The game session engine: hands, table, turn order and card play.

use vstd::prelude::*;
use vstd::multiset::Multiset;
use vstd::seq_lib::*;
use vstd::wrapping::u64_specs;
use crate::card::{Card, Rule, legal_spec, is_legal, copy_cards, find_card, first_with_id, holds_id};
use crate::error::RoomError;

verus! {

broadcast use vstd::multiset::group_multiset_axioms, vstd::seq_lib::group_to_multiset_ensures;

/// The cards held in a sequence of hands, counted with multiplicity.
pub open spec fn hands_ms(hands: Seq<Vec<Card>>) -> Multiset<Card>
    decreases hands.len(),
{
    if hands.len() == 0 {
        Multiset::empty()
    } else {
        hands_ms(hands.drop_last()).add(hands.last()@.to_multiset())
    }
}

pub proof fn lemma_hands_ms_push(hands: Seq<Vec<Card>>, h: Vec<Card>)
    ensures
        hands_ms(hands.push(h)) == hands_ms(hands).add(h@.to_multiset()),
{
    assert(hands.push(h).drop_last() =~= hands);
}

pub proof fn lemma_hands_ms_remove(hands: Seq<Vec<Card>>, i: int)
    requires
        0 <= i < hands.len(),
    ensures
        hands_ms(hands) == hands_ms(hands.remove(i)).add(hands[i]@.to_multiset()),
    decreases hands.len(),
{
    if i == hands.len() - 1 {
        assert(hands.remove(i) =~= hands.drop_last());
    } else {
        let d = hands.drop_last();
        lemma_hands_ms_remove(d, i);
        assert(hands.remove(i).drop_last() =~= d.remove(i));
        assert(hands.remove(i).last() == hands.last());
        assert(hands_ms(hands) =~= hands_ms(hands.remove(i)).add(hands[i]@.to_multiset()));
    }
}

pub proof fn lemma_hands_ms_insert(hands: Seq<Vec<Card>>, i: int, h: Vec<Card>)
    requires
        0 <= i <= hands.len(),
    ensures
        hands_ms(hands.insert(i, h)) == hands_ms(hands).add(h@.to_multiset()),
{
    lemma_hands_ms_remove(hands.insert(i, h), i);
    assert(hands.insert(i, h).remove(i) =~= hands);
}

/// A live game, embedded in a room once it has started.
pub struct GameSession {
    /// Turn order: the room's seating order at the start, minus those who left.
    pub players: Vec<u64>,
    /// `hands[i]` is the hand of `players[i]`.
    pub hands: Vec<Vec<Card>>,
    /// Played cards, oldest first; the last one is the top.
    pub table: Vec<Card>,
    /// Cards dealt to nobody.
    pub deck: Vec<Card>,
    /// Index into `players` of the player whose turn it is.
    pub turn: usize,
    pub finished: bool,
    pub rule: Rule,
}

impl GameSession {
    /// Every card of the session, wherever it lies.
    pub open spec fn cards(&self) -> Multiset<Card> {
        hands_ms(self.hands@).add(self.table@.to_multiset()).add(self.deck@.to_multiset())
    }

    pub open spec fn wf(&self) -> bool {
        &&& self.players.len() == self.hands.len()
        &&& self.players.len() >= 1
        &&& self.turn < self.players.len()
        &&& self.players@.no_duplicates()
    }

    /// The hand of player `i`.
    pub open spec fn hand(&self, i: int) -> Seq<Card> {
        self.hands@[i]@
    }
}

/// Seeded linear congruential step, as the shuffle computes it.
pub open spec fn lcg_next(state: u64) -> u64 {
    u64_specs::wrapping_add(u64_specs::wrapping_mul(state, 6364136223846793005u64), 1442695040888963407u64)
}

/// The position a shuffle step with generator state `state` draws from `len`
/// remaining cards.
pub open spec fn draw_index(state: u64, len: nat) -> int {
    ((state >> 33u64) % (len as u64)) as int
}

/// Shuffling `remaining` onto `out` from generator state `state`: each step
/// advances the state, takes the drawn card out of `remaining` and appends it.
pub open spec fn shuffle_from(remaining: Seq<Card>, state: u64, out: Seq<Card>) -> Seq<Card>
    decreases remaining.len(),
{
    if remaining.len() == 0 {
        out
    } else {
        let s2 = lcg_next(state);
        let j = draw_index(s2, remaining.len());
        if 0 <= j < remaining.len() {
            shuffle_from(remaining.remove(j), s2, out.push(remaining[j]))
        } else {
            out
        }
    }
}

/// `deck` shuffled with `seed`.
#[verifier::opaque]
pub open spec fn shuffled(deck: Seq<Card>, seed: u64) -> Seq<Card> {
    shuffle_from(deck, seed, Seq::empty())
}

/// The hand of seat `i` when hands of `h` cards are dealt from `pile`.
pub open spec fn dealt_hand(pile: Seq<Card>, h: nat, i: int) -> Seq<Card> {
    pile.subrange(i * h, i * h + h)
}

/// A permutation of `deck` drawn deterministically from `seed`.
pub fn shuffle(deck: &Vec<Card>, seed: u64) -> (r: Vec<Card>)
    ensures
        r@ == shuffled(deck@, seed),
        r@.to_multiset() == deck@.to_multiset(),
        r.len() == deck.len(),
{
    let mut remaining = copy_cards(deck);
    let mut out: Vec<Card> = Vec::new();
    let mut state: u64 = seed;
    proof {
        reveal(shuffled);
    }
    while remaining.len() > 0
        invariant
            out@.to_multiset().add(remaining@.to_multiset()) == deck@.to_multiset(),
            out.len() + remaining.len() == deck.len(),
            shuffle_from(remaining@, state, out@) == shuffled(deck@, seed),
        decreases remaining.len(),
    {
        state = state.wrapping_mul(6364136223846793005u64).wrapping_add(1442695040888963407u64);
        let j: usize = ((state >> 33u64) % (remaining.len() as u64)) as usize;
        let ghost before = remaining@;
        let ghost out_before = out@;
        let c = remaining.remove(j);
        out.push(c);
        proof {
            assert(j as int == draw_index(state, before.len()));
            to_multiset_remove(before, j as int);
            assert(out@.to_multiset().add(remaining@.to_multiset()) =~= out_before.to_multiset().add(
                before.to_multiset(),
            ));
        }
    }
    out
}

impl GameSession {
    /// Deals `deck`, shuffled with `seed`, to `players`: seat `i` takes the
    /// `i`-th block of `hand_size` cards of the shuffled pile and what is left
    /// stays in the deck. The first seated player moves first.
    pub fn deal(players: &Vec<u64>, deck: &Vec<Card>, hand_size: usize, seed: u64, rule: Rule) -> (r:
        GameSession)
        requires
            players.len() >= 1,
            players@.no_duplicates(),
            players.len() * hand_size <= deck.len(),
        ensures
            r.wf(),
            r.players@ == players@,
            r.cards() == deck@.to_multiset(),
            forall|i: int| 0 <= i < r.hands.len() ==> #[trigger] r.hand(i) == dealt_hand(
                shuffled(deck@, seed),
                hand_size as nat,
                i,
            ),
            r.deck@ == shuffled(deck@, seed).subrange(players.len() * hand_size, deck.len() as int),
            r.table@.len() == 0,
            r.turn == 0,
            !r.finished,
            r.rule == rule,
    {
        let pile = shuffle(deck, seed);
        let ghost p = pile@;
        let n = players.len();
        let mut hands: Vec<Vec<Card>> = Vec::new();
        let mut who: Vec<u64> = Vec::new();
        let mut i: usize = 0;
        let mut at: usize = 0;
        proof {
            assert(p.subrange(0, p.len() as int) =~= p);
            assert(hands_ms(hands@) =~= Multiset::empty());
            assert(hands_ms(hands@).add(p.to_multiset()) =~= p.to_multiset());
            assert(0 * hand_size == 0);
        }
        while i < n
            invariant
                pile@ == p,
                p == shuffled(deck@, seed),
                p.len() == deck.len(),
                n == players.len(),
                n * hand_size <= deck.len(),
                i <= n,
                at == i * hand_size,
                hands.len() == i,
                who@ == players@.subrange(0, i as int),
                hands_ms(hands@).add(p.subrange(at as int, p.len() as int).to_multiset()) == deck@.to_multiset(),
                forall|j: int| 0 <= j < i ==> #[trigger] hands@[j]@ == dealt_hand(p, hand_size as nat, j),
            decreases n - i,
        {
            proof {
                lemma_block_fits(i as int, n as int, hand_size as int);
            }
            let hand = copy_range(&pile, at, at + hand_size);
            proof {
                lemma_deal_step(hands@, hand, p, at as int, hand_size as int);
            }
            let ghost hs = hands@;
            hands.push(hand);
            who.push(players[i]);
            proof {
                assert forall|j: int| 0 <= j < i + 1 implies #[trigger] hands@[j]@ == dealt_hand(
                    p,
                    hand_size as nat,
                    j,
                ) by {
                    if j < i {
                        assert(hands@[j] == hs[j]);
                    }
                }
                assert(who@ =~= players@.subrange(0, i + 1));
            }
            at = at + hand_size;
            i += 1;
        }
        let rest = copy_range(&pile, at, pile.len());
        assert(who@ =~= players@);
        let r = GameSession { players: who, hands, table: Vec::new(), deck: rest, turn: 0, finished: false, rule };
        assert(r.cards() =~= deck@.to_multiset());
        r
    }
}

/// The block of seat `i` ends within the cards of `n` seats.
proof fn lemma_block_fits(i: int, n: int, h: int)
    requires
        0 <= i < n,
        0 <= h,
    ensures
        i * h + h <= n * h,
        (i + 1) * h == i * h + h,
{
    assert(i * h + h <= n * h) by (nonlinear_arith)
        requires i < n, 0 <= h;
    assert((i + 1) * h == i * h + h) by (nonlinear_arith);
}

/// Dealing the next block of `pile` into a new hand keeps every card.
proof fn lemma_deal_step(hands: Seq<Vec<Card>>, hand: Vec<Card>, pile: Seq<Card>, at: int, h: int)
    requires
        0 <= at,
        0 <= h,
        at + h <= pile.len(),
        hand@ == pile.subrange(at, at + h),
    ensures
        hands_ms(hands.push(hand)).add(pile.subrange(at + h, pile.len() as int).to_multiset())
            == hands_ms(hands).add(pile.subrange(at, pile.len() as int).to_multiset()),
{
    let rest0 = pile.subrange(at, pile.len() as int);
    let rest1 = pile.subrange(at + h, pile.len() as int);
    assert(rest0 =~= hand@ + rest1);
    lemma_multiset_commutative(hand@, rest1);
    lemma_hands_ms_push(hands, hand);
    assert(hands_ms(hands.push(hand)).add(rest1.to_multiset()) =~= hands_ms(hands).add(rest0.to_multiset()));
}

/// A copy of the cards of `v` from `lo` up to `hi`.
pub fn copy_range(v: &Vec<Card>, lo: usize, hi: usize) -> (r: Vec<Card>)
    requires
        lo <= hi <= v.len(),
    ensures
        r@ == v@.subrange(lo as int, hi as int),
{
    let mut r: Vec<Card> = Vec::new();
    let mut k: usize = lo;
    while k < hi
        invariant
            lo <= k <= hi,
            hi <= v.len(),
            r@ == v@.subrange(lo as int, k as int),
        decreases hi - k,
    {
        r.push(v[k]);
        assert(r@ =~= v@.subrange(lo as int, k + 1));
        k += 1;
    }
    r
}

/// The position of the card with identifier `id` that a play takes from `hand`.
pub open spec fn pick(hand: Seq<Card>, id: u32) -> int {
    choose|k: int| first_with_id(hand, id, k)
}

pub proof fn lemma_pick(hand: Seq<Card>, id: u32, k: int)
    requires
        first_with_id(hand, id, k),
    ensures
        pick(hand, id) == k,
{
    let p = pick(hand, id);
    assert(first_with_id(hand, id, p));
    if p < k {
        assert(hand[p].id != id);
    } else if k < p {
        assert(hand[k].id != id);
    }
}

/// A hand holding identifier `id` at `j` has a first such card.
pub proof fn lemma_first_exists(hand: Seq<Card>, id: u32, j: int)
    requires
        0 <= j < hand.len(),
        hand[j].id == id,
    ensures
        exists|k: int| first_with_id(hand, id, k),
    decreases j,
{
    if exists|i: int| 0 <= i < j && hand[i].id == id {
        let i = choose|i: int| 0 <= i < j && hand[i].id == id;
        lemma_first_exists(hand, id, i);
    } else {
        assert(first_with_id(hand, id, j));
    }
}

/// Hands count the same cards when they read the same.
pub proof fn lemma_hands_ms_views(a: Seq<Vec<Card>>, b: Seq<Vec<Card>>)
    requires
        a.len() == b.len(),
        forall|i: int| 0 <= i < a.len() ==> a[i]@ == b[i]@,
    ensures
        hands_ms(a) == hands_ms(b),
    decreases a.len(),
{
    if a.len() > 0 {
        lemma_hands_ms_views(a.drop_last(), b.drop_last());
    }
}

/// The error a play by `user` of card `id` meets in `g`, if any.
pub open spec fn play_error(g: GameSession, user: u64, id: u32) -> Option<RoomError> {
    if g.finished {
        Some(RoomError::WrongPhase)
    } else if g.players@[g.turn as int] != user {
        Some(RoomError::NotYourTurn)
    } else if !holds_id(g.hand(g.turn as int), id) {
        Some(RoomError::CardNotInHand)
    } else if !legal_spec(
        g.rule,
        g.hand(g.turn as int)[pick(g.hand(g.turn as int), id)],
        g.hand(g.turn as int),
        g.table@,
    ) {
        Some(RoomError::IllegalMove)
    } else {
        None
    }
}

/// How a play by `user` of card `id` leaves game `g` as `g2` with answer `r`:
/// refused with no change, or the card picked from the hand of the player at
/// the turn is moved onto the table and the turn passes on.
pub open spec fn play_post(g: GameSession, g2: GameSession, user: u64, id: u32, r: Result<Card, RoomError>) -> bool {
    match play_error(g, user, id) {
        Some(e) => r == Err::<Card, RoomError>(e) && g2 == g,
        None => {
            let t = g.turn as int;
            let h = g.hand(t);
            let k = pick(h, id);
            &&& r == Ok::<Card, RoomError>(h[k])
            &&& g2.hand(t) == h.remove(k)
            &&& forall|i: int| 0 <= i < g.hands.len() && i != t ==> g2.hand(i) == g.hand(i)
            &&& g2.hands.len() == g.hands.len()
            &&& g2.table@ == g.table@.push(h[k])
            &&& g2.turn == next_seat(t, g.players.len() as int)
            &&& g2.finished == (h.len() == 1)
            &&& g2.players == g.players
            &&& g2.deck == g.deck
            &&& g2.rule == g.rule
        },
    }
}

/// A play that goes through keeps every card of the session.
pub proof fn lemma_play_post_cards(g: GameSession, g2: GameSession, user: u64, id: u32, r: Result<Card, RoomError>)
    requires
        g.wf(),
        play_post(g, g2, user, id, r),
        r.is_ok(),
    ensures
        g2.cards() == g.cards(),
{
    let t = g.turn as int;
    let h = g.hand(t);
    let k = pick(h, id);
    let c = h[k];
    let j = choose|j: int| 0 <= j < h.len() && h[j].id == id;
    lemma_first_exists(h, id, j);
    assert(first_with_id(h, id, k));
    lemma_hands_ms_remove(g.hands@, t);
    lemma_hands_ms_remove(g2.hands@, t);
    assert forall|i: int| 0 <= i < g.hands.len() - 1 implies g2.hands@.remove(t)[i]@ == g.hands@.remove(t)[i]@ by {
        let i0 = if i < t { i } else { i + 1 };
        assert(g2.hand(i0) == g.hand(i0));
    }
    lemma_hands_ms_views(g2.hands@.remove(t), g.hands@.remove(t));
    to_multiset_remove(h, k);
    assert(g2.cards() =~= g.cards());
}

/// The seat after `t` among `n`, wrapping past the last.
pub open spec fn next_seat(t: int, n: int) -> int {
    if t + 1 < n {
        t + 1
    } else {
        0
    }
}

/// Where the turn stands after the player at `p` leaves a table of `n`
/// whose turn was at `t`.
pub open spec fn seat_after_leave(t: int, p: int, n: int) -> int {
    if p < t {
        t - 1
    } else if p == t && t == n - 1 {
        0
    } else {
        t
    }
}

/// How `user` leaving game `g` leaves it as `g2`: their seat and hand are
/// gone, the hand lies on the table, and the turn stays with its player.
pub open spec fn forfeit_post(g: GameSession, g2: GameSession, user: u64) -> bool {
    let p = g.players@.index_of(user);
    &&& g2.wf()
    &&& g2.cards() == g.cards()
    &&& g2.players@ == g.players@.remove(p)
    &&& g2.hands@ == g.hands@.remove(p)
    &&& g2.table@ == g.table@ + g.hand(p)
    &&& g2.turn == seat_after_leave(g.turn as int, p, g.players.len() as int)
    &&& g2.finished == (g.finished || g.players.len() == 2)
    &&& g2.deck == g.deck
    &&& g2.rule == g.rule
}

/// A sequence without duplicates keeps none after a removal.
pub proof fn lemma_remove_no_dup(s: Seq<u64>, i: int)
    requires
        s.no_duplicates(),
        0 <= i < s.len(),
    ensures
        s.remove(i).no_duplicates(),
        forall|x: u64| s.remove(i).contains(x) <==> (s.contains(x) && x != s[i]),
{
    let t = s.remove(i);
    assert forall|a: int, b: int| 0 <= a < b < t.len() implies t[a] != t[b] by {
        let a0 = if a < i { a } else { a + 1 };
        let b0 = if b < i { b } else { b + 1 };
        assert(s[a0] == t[a]);
        assert(s[b0] == t[b]);
    }
    assert forall|x: u64| t.contains(x) <==> (s.contains(x) && x != s[i]) by {
        if t.contains(x) {
            let j = choose|j: int| 0 <= j < t.len() && t[j] == x;
            let j0 = if j < i { j } else { j + 1 };
            assert(s[j0] == x);
        }
        if s.contains(x) && x != s[i] {
            let j = choose|j: int| 0 <= j < s.len() && s[j] == x;
            let j2 = if j < i { j } else { j - 1 };
            assert(t[j2] == x);
        }
    }
}

/// The position of `x` in `v`, if it is there.
pub fn position_of(v: &Vec<u64>, x: u64) -> (r: Option<usize>)
    ensures
        r.is_none() <==> !v@.contains(x),
        r matches Some(i) ==> i < v.len() && v@[i as int] == x,
{
    let mut i: usize = 0;
    while i < v.len()
        invariant
            i <= v.len(),
            forall|j: int| 0 <= j < i ==> v@[j] != x,
        decreases v.len() - i,
    {
        if v[i] == x {
            return Some(i);
        }
        i += 1;
    }
    None
}

/// What one player may see of a game: their own hand, and only the sizes of
/// the others' hands.
pub struct PlayerView {
    pub hand: Vec<Card>,
    pub hand_sizes: Vec<usize>,
    pub table: Vec<Card>,
    pub current: u64,
    pub finished: bool,
}

impl GameSession {
    /// Plays card `card_id` from the hand of `user`: the card leaves the hand,
    /// goes on top of the table, and the turn passes to the next seat. The game
    /// finishes when the hand becomes empty.
    pub fn play(&mut self, user: u64, card_id: u32) -> (r: Result<Card, RoomError>)
        requires
            old(self).wf(),
        ensures
            final(self).wf(),
            final(self).cards() == old(self).cards(),
            play_post(*old(self), *final(self), user, card_id, r),
    {
        if self.finished {
            return Err(RoomError::WrongPhase);
        }
        let t = self.turn;
        if self.players[t] != user {
            return Err(RoomError::NotYourTurn);
        }
        let k = match find_card(&self.hands[t], card_id) {
            None => {
                return Err(RoomError::CardNotInHand);
            },
            Some(k) => k,
        };
        proof {
            lemma_pick(self.hand(t as int), card_id, k as int);
        }
        let c = self.hands[t][k];
        if !is_legal(self.rule, c, &self.hands[t], &self.table) {
            return Err(RoomError::IllegalMove);
        }
        let ghost g0 = *self;
        let mut hand = self.hands.remove(t);
        hand.remove(k);
        let empty = hand.len() == 0;
        let ghost mid = self.hands@;
        self.hands.insert(t, hand);
        self.table.push(c);
        self.turn = if t + 1 < self.players.len() {
            t + 1
        } else {
            0
        };
        if empty {
            self.finished = true;
        }
        proof {
            lemma_hands_ms_remove(g0.hands@, t as int);
            lemma_hands_ms_insert(mid, t as int, hand);
            to_multiset_remove(g0.hand(t as int), k as int);
            assert(self.hands@ =~= g0.hands@.update(t as int, hand));
            assert(self.cards() =~= g0.cards());
        }
        Ok(c)
    }

    /// Folds the hand of `user`, who leaves a running game, onto the table and
    /// drops them from the turn order. The turn stays with the player it
    /// pointed at, or passes on if it pointed at the one leaving. A single
    /// remaining player ends the game.
    pub fn forfeit(&mut self, user: u64)
        requires
            old(self).wf(),
            old(self).players@.contains(user),
            old(self).players.len() >= 2,
        ensures
            forfeit_post(*old(self), *final(self), user),
    {
        let p = position_of(&self.players, user).unwrap();
        proof {
            self.players@.index_of_first_ensures(user);
            assert(self.players@.index_of(user) == p as int);
        }
        let ghost g0 = *self;
        let hand = self.hands.remove(p);
        self.players.remove(p);
        let mut i: usize = 0;
        while i < hand.len()
            invariant
                i <= hand.len(),
                self.table@ == g0.table@ + hand@.subrange(0, i as int),
                self.players@ == g0.players@.remove(p as int),
                self.hands@ == g0.hands@.remove(p as int),
                hand == g0.hands@[p as int],
                self.turn == g0.turn,
                self.finished == g0.finished,
                self.deck == g0.deck,
                self.rule == g0.rule,
            decreases hand.len() - i,
        {
            self.table.push(hand[i]);
            proof {
                assert(hand@.subrange(0, i + 1) =~= hand@.subrange(0, i as int).push(hand@[i as int]));
                assert(self.table@ =~= g0.table@ + hand@.subrange(0, i + 1));
            }
            i += 1;
        }
        assert(hand@.subrange(0, hand.len() as int) =~= hand@);
        let n = self.players.len();
        if p < self.turn {
            self.turn = self.turn - 1;
        } else if p == self.turn && self.turn == n {
            self.turn = 0;
        }
        if n == 1 {
            self.finished = true;
        }
        proof {
            lemma_hands_ms_remove(g0.hands@, p as int);
            lemma_multiset_commutative(g0.table@, hand@);
            assert(self.cards() =~= g0.cards());
            lemma_remove_no_dup(g0.players@, p as int);
        }
    }

    /// The game as player `user` sees it, if they take part.
    pub fn view_for(&self, user: u64) -> (r: Option<PlayerView>)
        requires
            self.wf(),
        ensures
            r.is_none() <==> !self.players@.contains(user),
            r matches Some(v) ==> {
                let p = self.players@.index_of(user);
                &&& v.hand@ == self.hand(p)
                &&& v.hand_sizes.len() == self.hands.len()
                &&& forall|i: int| 0 <= i < self.hands.len() ==> v.hand_sizes@[i] == self.hand(i).len()
                &&& v.table@ == self.table@
                &&& v.current == self.players@[self.turn as int]
                &&& v.finished == self.finished
            },
    {
        match position_of(&self.players, user) {
            None => None,
            Some(p) => {
                proof {
                    self.players@.index_of_first_ensures(user);
                }
                let mut sizes: Vec<usize> = Vec::new();
                let mut i: usize = 0;
                while i < self.hands.len()
                    invariant
                        i <= self.hands.len(),
                        sizes.len() == i,
                        forall|j: int| 0 <= j < i ==> sizes@[j] == self.hand(j).len(),
                    decreases self.hands.len() - i,
                {
                    sizes.push(self.hands[i].len());
                    i += 1;
                }
                Some(PlayerView {
                    hand: copy_cards(&self.hands[p]),
                    hand_sizes: sizes,
                    table: copy_cards(&self.table),
                    current: self.players[self.turn],
                    finished: self.finished,
                })
            },
        }
    }
}

/// Whether `p` has a line in `r`.
pub open spec fn ranked(r: Seq<Standing>, p: u64) -> bool {
    exists|k: int| 0 <= k < r.len() && r[k].player == p
}

/// One line of the final standings.
#[derive(Clone, Copy, Debug, PartialEq, Eq, Structural)]
pub struct Standing {
    pub player: u64,
    /// Cards left in the player's hand.
    pub cards: usize,
}

impl GameSession {
    /// Cards left in the hand of seat `i`.
    pub open spec fn left(&self, i: int) -> nat {
        self.hands@[i]@.len()
    }

    /// The players ranked by the cards left in their hands, fewest first;
    /// players with as many cards keep their seating order.
    pub fn standings(&self) -> (r: Vec<Standing>)
        requires
            self.wf(),
        ensures
            r.len() == self.players.len(),
            forall|k: int| 0 <= k < r.len() ==> {
                let j = self.players@.index_of(#[trigger] r@[k].player);
                &&& self.players@.contains(r@[k].player)
                &&& 0 <= j < self.players.len()
                &&& self.players@[j] == r@[k].player
                &&& r@[k].cards == self.left(j)
            },
            forall|j: int| 0 <= j < self.players.len() ==> ranked(r@, #[trigger] self.players@[j]),
            forall|a: int, b: int| 0 <= a < b < r.len() ==> r@[a].cards <= r@[b].cards,
            forall|a: int, b: int| 0 <= a < b < r.len() && r@[a].cards == r@[b].cards
                ==> self.players@.index_of(r@[a].player) < self.players@.index_of(r@[b].player),
    {
        let n = self.players.len();
        let mut order: Vec<usize> = Vec::new();
        let mut i: usize = 0;
        while i < n
            invariant
                self.wf(),
                n == self.players.len(),
                i <= n,
                order.len() == i,
                forall|k: int| 0 <= k < i ==> order@[k] < i,
                forall|j: usize| j < i ==> order@.contains(j),
                forall|a: int, b: int| 0 <= a < b < i ==> self.left(order@[a] as int) <= self.left(
                    order@[b] as int,
                ),
                forall|a: int, b: int| 0 <= a < b < i && self.left(order@[a] as int) == self.left(
                    order@[b] as int,
                ) ==> order@[a] < order@[b],
            decreases n - i,
        {
            let size = self.hands[i].len();
            let mut pos: usize = 0;
            while pos < order.len() && self.hands[order[pos]].len() <= size
                invariant
                    self.wf(),
                    n == self.players.len(),
                    i < n,
                    order.len() == i,
                    size == self.left(i as int),
                    pos <= order.len(),
                    forall|k: int| 0 <= k < i ==> order@[k] < i,
                    forall|k: int| 0 <= k < pos ==> self.left(order@[k] as int) <= size,
                decreases order.len() - pos,
            {
                pos += 1;
            }
            let ghost o0 = order@;
            order.insert(pos, i);
            proof {
                assert forall|k: int| pos < k <= i implies self.left(order@[k] as int) > size by {
                    assert(order@[k] == o0[k - 1]);
                    if pos < o0.len() {
                        assert(self.left(o0[pos as int] as int) > size);
                        if k - 1 > pos {
                            assert(self.left(o0[pos as int] as int) <= self.left(o0[k - 1] as int));
                        }
                    }
                }
                assert forall|j: usize| j < i + 1 implies order@.contains(j) by {
                    if j == i {
                        assert(order@[pos as int] == i);
                    } else {
                        assert(o0.contains(j));
                        let k = choose|k: int| 0 <= k < o0.len() && o0[k] == j;
                        if k < pos {
                            assert(order@[k] == j);
                        } else {
                            assert(order@[k + 1] == j);
                        }
                    }
                }
            }
            i += 1;
        }
        let mut r: Vec<Standing> = Vec::new();
        let mut k: usize = 0;
        while k < n
            invariant
                self.wf(),
                n == self.players.len(),
                order.len() == n,
                forall|m: int| 0 <= m < n ==> order@[m] < n,
                forall|j: usize| j < n ==> order@.contains(j),
                forall|a: int, b: int| 0 <= a < b < n ==> self.left(order@[a] as int) <= self.left(
                    order@[b] as int,
                ),
                forall|a: int, b: int| 0 <= a < b < n && self.left(order@[a] as int) == self.left(
                    order@[b] as int,
                ) ==> order@[a] < order@[b],
                k <= n,
                r.len() == k,
                forall|m: int| 0 <= m < k ==> (#[trigger] r@[m]).player == self.players@[order@[m] as int]
                    && r@[m].cards == self.left(order@[m] as int),
            decreases n - k,
        {
            let j = order[k];
            r.push(Standing { player: self.players[j], cards: self.hands[j].len() });
            k += 1;
        }
        proof {
            assert forall|m: int| 0 <= m < n implies self.players@.index_of(r@[m].player) == order@[m] as int by {
                let j = order@[m] as int;
                assert(self.players@[j] == r@[m].player);
                let q = self.players@.index_of(r@[m].player);
                assert(0 <= q < n && self.players@[q] == r@[m].player);
            }
            assert forall|j: int| 0 <= j < n implies ranked(r@, #[trigger] self.players@[j]) by {
                assert(order@.contains(j as usize));
                let m = choose|m: int| 0 <= m < n && order@[m] == j as usize;
                assert(0 <= m < r.len());
                assert(r@[m].player == self.players@[j]);
            }
        }
        r
    }
}

} // verus!
