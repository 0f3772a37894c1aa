use card_rooms::card::{find_card, is_legal, Card, Rule};
use card_rooms::error::{ErrorKind, RoomError};
use card_rooms::game::{shuffle, GameSession, Standing};
use card_rooms::hello_world;
use card_rooms::room::{Phase, Room, RoomConfig};
use card_rooms::rooms::Rooms;
use card_rooms::session::{leave_notices, play_notices, Event, Notice, Registry};
use card_rooms::store::DataTable;

const A: u64 = 1;
const B: u64 = 2;
const C: u64 = 3;

fn deck(n: u32) -> Vec<Card> {
    (0..n)
        .map(|i| Card { id: i, rank: (i % 13) as u8, suit: (i / 13) as u8 })
        .collect()
}

fn config(capacity: usize, min_players: usize, hand_size: usize, rule: Rule) -> RoomConfig {
    RoomConfig { capacity, min_players, hand_size, rule, deck: deck(52) }
}

fn sorted_ids(cards: &[Card]) -> Vec<u32> {
    let mut v: Vec<u32> = cards.iter().map(|c| c.id).collect();
    v.sort();
    v
}

/// All cards of a game, sorted by id.
fn all_ids(g: &GameSession) -> Vec<u32> {
    let mut v: Vec<Card> = Vec::new();
    for h in &g.hands {
        v.extend(h.iter().copied());
    }
    v.extend(g.table.iter().copied());
    v.extend(g.deck.iter().copied());
    sorted_ids(&v)
}

fn started_room(rooms: &mut Rooms, players: &[u64], rule: Rule) -> u64 {
    let id = rooms.create(players[0], config(4, 2, 5, rule)).unwrap();
    for &p in &players[1..] {
        rooms.join(id, p).unwrap();
    }
    for &p in players {
        rooms.set_ready(id, p, true).unwrap();
    }
    rooms.start(id, players[0], 42).unwrap();
    id
}

#[test]
fn hello_world_answers() {
    assert_eq!(hello_world(), "Hello, world!");
}

#[test]
fn two_player_game_scenario() {
    let mut rooms = Rooms::new();
    let id = rooms.create(A, config(4, 2, 5, Rule::Free)).unwrap();
    rooms.join(id, B).unwrap();
    rooms.set_ready(id, A, true).unwrap();
    rooms.set_ready(id, B, true).unwrap();
    rooms.start(id, A, 7).unwrap();
    assert_eq!(rooms.get(id).unwrap().phase, Phase::InGame);

    let va = rooms.view_for(id, A).unwrap();
    let vb = rooms.view_for(id, B).unwrap();
    assert_eq!(va.hand.len(), 5);
    assert_eq!(vb.hand.len(), 5);
    assert_eq!(va.hand_sizes, vec![5, 5]);
    let g = rooms.get(id).unwrap().game.as_ref().unwrap();
    assert_eq!(va.hand, g.hands[0]);
    assert_eq!(vb.hand, g.hands[1]);
    for c in &va.hand {
        assert!(!vb.hand.contains(c));
    }
    assert_eq!(va.current, A);

    assert_eq!(rooms.play(id, A, 999), Err(RoomError::CardNotInHand));
    let b_card = vb.hand[0].id;
    assert_eq!(rooms.play(id, B, b_card), Err(RoomError::NotYourTurn));

    let a_card = va.hand[0];
    assert_eq!(rooms.play(id, A, a_card.id), Ok(a_card));
    let va2 = rooms.view_for(id, A).unwrap();
    assert_eq!(va2.table, vec![a_card]);
    assert_eq!(va2.hand.len(), 4);
    assert_eq!(va2.current, B);
}

#[test]
fn host_leaves_lobby() {
    let mut rooms = Rooms::new();
    let id = rooms.create(A, config(4, 2, 5, Rule::Free)).unwrap();
    rooms.join(id, B).unwrap();
    assert_eq!(rooms.leave(id, A), Ok(()));
    let room = rooms.get(id).unwrap();
    assert_eq!(room.host, B);
    assert_eq!(room.members, vec![B]);
    assert_eq!(room.ready, vec![false]);
}

#[test]
fn last_member_leaving_closes_room() {
    let mut rooms = Rooms::new();
    let id = started_room(&mut rooms, &[A, B], Rule::Free);
    assert_eq!(rooms.leave(id, A), Ok(()));
    assert_eq!(rooms.get(id).unwrap().phase, Phase::Finished);
    assert_eq!(rooms.leave(id, B), Ok(()));
    assert!(rooms.get(id).is_none());
    assert_eq!(rooms.len(), 0);
    assert_eq!(rooms.join(id, C), Err(RoomError::RoomNotFound));
    assert_eq!(rooms.set_ready(id, B, true), Err(RoomError::RoomNotFound));
    assert_eq!(rooms.start(id, B, 1), Err(RoomError::RoomNotFound));
    assert_eq!(rooms.play(id, B, 0), Err(RoomError::RoomNotFound));
    assert_eq!(rooms.leave(id, B), Err(RoomError::RoomNotFound));
    assert!(matches!(rooms.view_for(id, B), Err(RoomError::RoomNotFound)));
}

#[test]
fn members_stay_unique_and_host_seated() {
    let mut rooms = Rooms::new();
    let id = rooms.create(A, config(3, 2, 5, Rule::Free)).unwrap();
    assert_eq!(rooms.join(id, A), Err(RoomError::AlreadyJoined));
    rooms.join(id, B).unwrap();
    assert_eq!(rooms.join(id, B), Err(RoomError::AlreadyJoined));
    rooms.join(id, C).unwrap();
    assert_eq!(rooms.join(id, 4), Err(RoomError::RoomFull));
    rooms.leave(id, B).unwrap();
    rooms.join(id, B).unwrap();
    rooms.leave(id, A).unwrap();
    let room = rooms.get(id).unwrap();
    assert_eq!(room.members, vec![C, B]);
    assert_eq!(room.host, C);
    assert_eq!(rooms.leave(id, A), Err(RoomError::NotAMember));
}

#[test]
fn start_errors_leave_room_unchanged() {
    let mut rooms = Rooms::new();
    let id = rooms.create(A, config(4, 2, 5, Rule::Free)).unwrap();
    assert_eq!(rooms.start(id, B, 1), Err(RoomError::NotHost));
    assert_eq!(rooms.start(id, A, 1), Err(RoomError::NotEnoughPlayers));
    rooms.join(id, B).unwrap();
    rooms.set_ready(id, A, true).unwrap();
    assert_eq!(rooms.start(id, A, 1), Err(RoomError::NotAllReady));
    let room = rooms.get(id).unwrap();
    assert_eq!(room.phase, Phase::Lobby);
    assert!(room.game.is_none());
    assert_eq!(room.ready, vec![true, false]);
    rooms.set_ready(id, B, true).unwrap();
    assert_eq!(rooms.start(id, A, 1), Ok(()));
    assert_eq!(rooms.start(id, A, 1), Err(RoomError::WrongPhase));
    assert_eq!(rooms.join(id, C), Err(RoomError::WrongPhase));
    assert_eq!(rooms.set_ready(id, A, false), Err(RoomError::WrongPhase));
    assert_eq!(rooms.set_ready(id, C, false), Err(RoomError::NotAMember));
}

#[test]
fn play_in_lobby_is_wrong_phase() {
    let mut rooms = Rooms::new();
    let id = rooms.create(A, config(4, 2, 5, Rule::Free)).unwrap();
    assert_eq!(rooms.play(id, A, 0), Err(RoomError::WrongPhase));
    assert!(matches!(rooms.view_for(id, A), Err(RoomError::WrongPhase)));
}

#[test]
fn cards_are_conserved_through_a_game() {
    let mut rooms = Rooms::new();
    let id = started_room(&mut rooms, &[A, B, C], Rule::Free);
    let full: Vec<u32> = (0..52).collect();
    assert_eq!(all_ids(rooms.get(id).unwrap().game.as_ref().unwrap()), full);
    for _ in 0..4 {
        let g = rooms.get(id).unwrap().game.as_ref().unwrap();
        let who = g.players[g.turn];
        let card = g.hands[g.turn][0].id;
        rooms.play(id, who, card).unwrap();
        assert_eq!(all_ids(rooms.get(id).unwrap().game.as_ref().unwrap()), full);
    }
    rooms.leave(id, B).unwrap();
    let g = rooms.get(id).unwrap().game.as_ref().unwrap();
    assert_eq!(g.players, vec![A, C]);
    assert_eq!(all_ids(g), full);
}

#[test]
fn turn_wraps_past_last_seat() {
    let mut rooms = Rooms::new();
    let id = started_room(&mut rooms, &[A, B, C], Rule::Free);
    let mut expected = vec![B, C, A, B];
    for _ in 0..4 {
        let g = rooms.get(id).unwrap().game.as_ref().unwrap();
        let who = g.players[g.turn];
        let card = g.hands[g.turn][0].id;
        rooms.play(id, who, card).unwrap();
        let g = rooms.get(id).unwrap().game.as_ref().unwrap();
        assert_eq!(g.players[g.turn], expected.remove(0));
    }
}

#[test]
fn one_of_two_plays_on_same_turn() {
    let mut rooms = Rooms::new();
    let id = started_room(&mut rooms, &[A, B], Rule::Free);
    let a_card = g_card_after(&rooms, id, 0);
    let b_card = g_card_after(&rooms, id, 1);
    // Both claim the opening turn; the store applies them one at a time.
    assert_eq!(rooms.play(id, B, b_card), Err(RoomError::NotYourTurn));
    assert!(rooms.play(id, A, a_card).is_ok());
    // A second claim on the slot that has just been used is refused.
    let a_next = g_card_after(&rooms, id, 0);
    assert_eq!(rooms.play(id, A, a_next), Err(RoomError::NotYourTurn));
    let g = rooms.get(id).unwrap().game.as_ref().unwrap();
    assert_eq!(g.table.len(), 1);
}

fn g_card_after(rooms: &Rooms, id: u64, seat: usize) -> u32 {
    rooms.get(id).unwrap().game.as_ref().unwrap().hands[seat][0].id
}

#[test]
fn game_finishes_when_hand_empties() {
    let mut rooms = Rooms::new();
    let cfg = RoomConfig { capacity: 2, min_players: 2, hand_size: 1, rule: Rule::Free, deck: deck(4) };
    let id = rooms.create(A, cfg).unwrap();
    rooms.join(id, B).unwrap();
    rooms.set_ready(id, A, true).unwrap();
    rooms.set_ready(id, B, true).unwrap();
    rooms.start(id, A, 3).unwrap();
    let card = g_card_after(&rooms, id, 0);
    rooms.play(id, A, card).unwrap();
    let room = rooms.get(id).unwrap();
    assert_eq!(room.phase, Phase::Finished);
    assert!(room.game.as_ref().unwrap().finished);
    let card = g_card_after(&rooms, id, 1);
    assert_eq!(rooms.play(id, B, card), Err(RoomError::WrongPhase));
}

#[test]
fn illegal_move_is_refused() {
    let mut g = GameSession {
        players: vec![A, B],
        hands: vec![
            vec![Card { id: 1, rank: 2, suit: 0 }, Card { id: 2, rank: 9, suit: 1 }],
            vec![Card { id: 3, rank: 4, suit: 2 }],
        ],
        table: vec![Card { id: 0, rank: 9, suit: 3 }],
        deck: vec![],
        turn: 0,
        finished: false,
        rule: Rule::MatchTop,
    };
    assert_eq!(g.play(A, 1), Err(RoomError::IllegalMove));
    assert_eq!(g.hands[0].len(), 2);
    assert_eq!(g.play(A, 2), Ok(Card { id: 2, rank: 9, suit: 1 }));
    assert_eq!(g.turn, 1);
    assert_eq!(g.play(B, 3), Err(RoomError::IllegalMove));
}

#[test]
fn legality_rules() {
    let top = Card { id: 0, rank: 5, suit: 1 };
    let same_rank = Card { id: 1, rank: 5, suit: 2 };
    let same_suit = Card { id: 2, rank: 7, suit: 1 };
    let other = Card { id: 3, rank: 8, suit: 3 };
    let table = vec![top];
    let hand = vec![same_rank, same_suit, other];
    assert!(is_legal(Rule::MatchTop, same_rank, &hand, &table));
    assert!(is_legal(Rule::MatchTop, same_suit, &hand, &table));
    assert!(!is_legal(Rule::MatchTop, other, &hand, &table));
    assert!(is_legal(Rule::MatchTop, other, &hand, &vec![]));
    assert!(is_legal(Rule::Free, other, &hand, &table));
}

#[test]
fn find_card_takes_first_match() {
    let hand = vec![Card { id: 4, rank: 0, suit: 0 }, Card { id: 7, rank: 1, suit: 0 }, Card { id: 7, rank: 2, suit: 0 }];
    assert_eq!(find_card(&hand, 7), Some(1));
    assert_eq!(find_card(&hand, 5), None);
}

#[test]
fn forfeit_moves_hand_to_table_and_keeps_turn() {
    let mut g = GameSession {
        players: vec![A, B, C],
        hands: vec![
            vec![Card { id: 1, rank: 0, suit: 0 }],
            vec![Card { id: 2, rank: 0, suit: 0 }, Card { id: 3, rank: 0, suit: 0 }],
            vec![Card { id: 4, rank: 0, suit: 0 }],
        ],
        table: vec![Card { id: 0, rank: 0, suit: 0 }],
        deck: vec![],
        turn: 2,
        finished: false,
        rule: Rule::Free,
    };
    g.forfeit(B);
    assert_eq!(g.players, vec![A, C]);
    assert_eq!(sorted_ids(&g.table), vec![0, 2, 3]);
    assert_eq!(g.turn, 1);
    assert!(!g.finished);
    g.forfeit(C);
    assert_eq!(g.players, vec![A]);
    assert_eq!(g.turn, 0);
    assert!(g.finished);
}

#[test]
fn shuffle_is_a_seeded_permutation() {
    let d = deck(20);
    let s1 = shuffle(&d, 11);
    let s2 = shuffle(&d, 11);
    assert_eq!(s1, s2);
    assert_eq!(sorted_ids(&s1), (0..20).collect::<Vec<u32>>());
    assert_ne!(s1, d);
}

#[test]
fn deal_fills_hands_from_the_deck() {
    let d = deck(10);
    let g = GameSession::deal(&vec![A, B, C], &d, 3, 5, Rule::Free);
    assert_eq!(g.hands.iter().map(|h| h.len()).collect::<Vec<_>>(), vec![3, 3, 3]);
    assert_eq!(g.deck.len(), 1);
    assert_eq!(g.turn, 0);
    assert!(g.table.is_empty());
    assert_eq!(all_ids(&g), (0..10).collect::<Vec<u32>>());
}

#[test]
fn deal_hands_out_blocks_of_the_shuffled_pile() {
    let d = deck(10);
    let pile = shuffle(&d, 5);
    let g = GameSession::deal(&vec![A, B, C], &d, 3, 5, Rule::Free);
    assert_eq!(g.hands[0], pile[0..3].to_vec());
    assert_eq!(g.hands[1], pile[3..6].to_vec());
    assert_eq!(g.hands[2], pile[6..9].to_vec());
    assert_eq!(g.deck, pile[9..10].to_vec());
}

#[test]
fn shuffle_depends_on_seed() {
    let d = deck(20);
    assert_ne!(shuffle(&d, 1), shuffle(&d, 2));
    assert!(shuffle(&vec![], 3).is_empty());
}

#[test]
fn listing_summarizes_rooms() {
    let mut rooms = Rooms::new();
    let r1 = rooms.create(A, config(4, 2, 5, Rule::Free)).unwrap();
    let r2 = rooms.create(B, config(4, 2, 5, Rule::Free)).unwrap();
    rooms.join(r2, C).unwrap();
    assert_ne!(r1, r2);
    let mut list = rooms.list();
    list.sort_by_key(|s| s.id);
    assert_eq!(list.len(), 2);
    let s1 = list.iter().find(|s| s.id == r1).unwrap();
    let s2 = list.iter().find(|s| s.id == r2).unwrap();
    assert_eq!((s1.host, s1.members, s1.phase), (A, 1, Phase::Lobby));
    assert_eq!((s2.host, s2.members, s2.phase), (B, 2, Phase::Lobby));
}

#[test]
fn store_operations() {
    let mut t: DataTable<u32> = DataTable::new();
    assert_eq!(t.insert(5, 10), None);
    assert_eq!(t.insert(5, 11), Some(10));
    assert_eq!(t.get(5), Some(&11));
    assert_eq!(t.get(6), None);
    assert!(t.contains(5));
    assert_eq!(t.with_mut(5, |v| (v + 1, v * 2)), Some(22));
    assert_eq!(t.get(5), Some(&12));
    assert_eq!(t.with_mut(6, |v| (v, v)), None);
    assert_eq!(t.len(), 1);
    assert_eq!(t.ids(), vec![5]);
    assert_eq!(t.fresh_id(5, 3), Ok(6));
    assert_eq!(t.remove(5), Some(12));
    assert_eq!(t.remove(5), None);
    assert_eq!(t.len(), 0);
}

#[test]
fn fresh_id_exhausted() {
    let mut t: DataTable<u32> = DataTable::new();
    t.insert(u64::MAX, 0);
    t.insert(0, 0);
    assert_eq!(t.fresh_id(u64::MAX, 2), Err(RoomError::Exhausted));
    assert_eq!(t.fresh_id(u64::MAX, 3), Ok(1));
    assert_eq!(t.fresh_id(7, 0), Err(RoomError::Exhausted));
}

#[test]
fn error_kinds() {
    assert_eq!(RoomError::RoomNotFound.kind(), ErrorKind::NotFound);
    assert_eq!(RoomError::RoomFull.kind(), ErrorKind::Conflict);
    assert_eq!(RoomError::AlreadyJoined.kind(), ErrorKind::Conflict);
    assert_eq!(RoomError::WrongPhase.kind(), ErrorKind::Conflict);
    assert_eq!(RoomError::NotHost.kind(), ErrorKind::Conflict);
    assert_eq!(RoomError::NotEnoughPlayers.kind(), ErrorKind::Conflict);
    assert_eq!(RoomError::NotAllReady.kind(), ErrorKind::Conflict);
    assert_eq!(RoomError::NotYourTurn.kind(), ErrorKind::Forbidden);
    assert_eq!(RoomError::NotAMember.kind(), ErrorKind::Forbidden);
    assert_eq!(RoomError::IllegalMove.kind(), ErrorKind::InvalidMove);
    assert_eq!(RoomError::CardNotInHand.kind(), ErrorKind::InvalidMove);
    assert_eq!(RoomError::Exhausted.kind(), ErrorKind::Exhausted);
}

#[test]
fn room_value_operations() {
    let mut room = Room::new(9, A, config(2, 2, 5, Rule::Free));
    assert!(room.is_member(A));
    assert_eq!(room.join(B), Ok(()));
    assert_eq!(room.join(C), Err(RoomError::RoomFull));
    let s = room.summary();
    assert_eq!((s.id, s.host, s.members, s.phase), (9, A, 2, Phase::Lobby));
    assert_eq!(room.leave(C), Err(RoomError::NotAMember));
    assert_eq!(room.leave(B), Ok(false));
    assert_eq!(room.leave(A), Ok(true));
    assert_eq!(room.members, vec![A]);
}

#[test]
fn registry_send_and_drain() {
    let mut reg = Registry::new();
    assert!(!reg.send(A, Event::Notice(Notice::MembershipChanged { room: 1 })));
    reg.register(A, 100);
    assert!(reg.is_connected(A));
    assert!(reg.send(A, Event::Notice(Notice::MembershipChanged { room: 1 })));
    let got = reg.drain(A);
    assert_eq!(got.len(), 1);
    assert!(matches!(got[0], Event::Notice(Notice::MembershipChanged { room: 1 })));
    assert!(reg.drain(A).is_empty());
    reg.send(A, Event::Notice(Notice::PlayerLeft { room: 1, player: B }));
    reg.register(A, 101);
    assert!(reg.drain(A).is_empty());
    assert!(reg.unregister(A));
    assert!(!reg.unregister(A));
    assert!(reg.drain(A).is_empty());
}

#[test]
fn registry_broadcast_counts_connected() {
    let mut reg = Registry::new();
    reg.register(A, 1);
    reg.register(C, 3);
    let n = reg.broadcast(&vec![A, B, C, A], Notice::GameFinished { room: 4, winner: A });
    assert_eq!(n, 3);
    assert_eq!(reg.drain(A).len(), 2);
    assert_eq!(reg.drain(C).len(), 1);
    assert!(reg.drain(B).is_empty());
}

#[test]
fn game_start_announces_own_hand() {
    let mut rooms = Rooms::new();
    let id = started_room(&mut rooms, &[A, B], Rule::Free);
    let mut reg = Registry::new();
    reg.register(A, 1);
    let g = rooms.get(id).unwrap().game.as_ref().unwrap();
    assert_eq!(reg.announce_start(id, g), 1);
    let got = reg.drain(A);
    assert_eq!(got.len(), 1);
    match &got[0] {
        Event::GameStarted { room, hand } => {
            assert_eq!(*room, id);
            assert_eq!(hand, &g.hands[0]);
        }
        _ => panic!("expected a game start"),
    }
}

#[test]
fn standings_rank_by_cards_left_stably() {
    let c = |id: u32| Card { id, rank: 0, suit: 0 };
    let g = GameSession {
        players: vec![A, B, C, 4],
        hands: vec![vec![c(1), c(2)], vec![], vec![c(3)], vec![c(4), c(5)]],
        table: vec![],
        deck: vec![],
        turn: 0,
        finished: true,
        rule: Rule::Free,
    };
    assert_eq!(
        g.standings(),
        vec![
            Standing { player: B, cards: 0 },
            Standing { player: C, cards: 1 },
            Standing { player: A, cards: 2 },
            Standing { player: 4, cards: 2 },
        ]
    );
}

#[test]
fn play_notices_announce_finish() {
    let card = Card { id: 1, rank: 2, suit: 3 };
    let st = vec![Standing { player: B, cards: 0 }, Standing { player: A, cards: 3 }];
    assert_eq!(play_notices(7, A, card, false, &st), vec![Notice::CardPlayed { room: 7, player: A, card }]);
    assert_eq!(
        play_notices(7, B, card, true, &st),
        vec![Notice::CardPlayed { room: 7, player: B, card }, Notice::GameFinished { room: 7, winner: B }]
    );
}

#[test]
fn closing_a_room_removes_it() {
    let mut rooms = Rooms::new();
    let id = rooms.create(A, config(4, 2, 5, Rule::Free)).unwrap();
    let room = rooms.close(id).unwrap();
    assert_eq!(room.host, A);
    assert!(rooms.get(id).is_none());
    assert!(matches!(rooms.close(id), Err(RoomError::RoomNotFound)));
}

#[test]
fn leave_notices_announce_forfeit_finish() {
    let st = vec![Standing { player: B, cards: 2 }];
    assert_eq!(leave_notices(7, A, false, &st), vec![Notice::PlayerLeft { room: 7, player: A }]);
    assert_eq!(
        leave_notices(7, A, true, &st),
        vec![Notice::PlayerLeft { room: 7, player: A }, Notice::GameFinished { room: 7, winner: B }]
    );
}

#[test]
fn announce_start_counts_connected_players() {
    let mut rooms = Rooms::new();
    let id = started_room(&mut rooms, &[A, B, C], Rule::Free);
    let mut reg = Registry::new();
    reg.register(A, 1);
    reg.register(C, 3);
    reg.register(9, 9);
    let g = rooms.get(id).unwrap().game.as_ref().unwrap();
    assert_eq!(reg.announce_start(id, g), 2);
    assert_eq!(reg.drain(C).len(), 1);
    assert!(reg.drain(9).is_empty());
}
