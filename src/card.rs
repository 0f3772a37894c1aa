//! Cards and the pluggable legality rule.

use vstd::prelude::*;

verus! {

/// An immutable playing card: an identifier plus its rank and suit.
#[derive(Clone, Copy, Debug, PartialEq, Eq, Structural)]
pub struct Card {
    pub id: u32,
    pub rank: u8,
    pub suit: u8,
}

/// The legality rule a room plays by. New variants plug in here without
/// touching the turn or lifecycle logic.
#[derive(Clone, Copy, Debug, PartialEq, Eq, Structural)]
pub enum Rule {
    /// Any card in hand may be played.
    Free,
    /// The card must share the rank or the suit of the table's top card;
    /// any card may open an empty table.
    MatchTop,
}

/// Whether `card`, taken from `hand`, may be played onto `table` under `rule`.
pub open spec fn legal_spec(rule: Rule, card: Card, hand: Seq<Card>, table: Seq<Card>) -> bool {
    match rule {
        Rule::Free => true,
        Rule::MatchTop => table.len() == 0 || table.last().rank == card.rank
            || table.last().suit == card.suit,
    }
}

/// Decides the legality rule for one candidate play.
pub fn is_legal(rule: Rule, card: Card, hand: &Vec<Card>, table: &Vec<Card>) -> (r: bool)
    ensures
        r == legal_spec(rule, card, hand@, table@),
{
    match rule {
        Rule::Free => true,
        Rule::MatchTop => {
            if table.len() == 0 {
                true
            } else {
                let top = table[table.len() - 1];
                top.rank == card.rank || top.suit == card.suit
            }
        },
    }
}

/// A copy of a sequence of cards.
pub fn copy_cards(v: &Vec<Card>) -> (r: Vec<Card>)
    ensures
        r@ == v@,
{
    let mut r: Vec<Card> = Vec::new();
    let mut i: usize = 0;
    while i < v.len()
        invariant
            i <= v.len(),
            r@ == v@.subrange(0, i as int),
        decreases v.len() - i,
    {
        r.push(v[i]);
        i += 1;
    }
    assert(r@ =~= v@);
    r
}

/// The position of the first card of `hand` whose identifier is `id`, if any.
pub open spec fn first_with_id(hand: Seq<Card>, id: u32, k: int) -> bool {
    0 <= k < hand.len() && hand[k].id == id && forall|j: int| 0 <= j < k ==> hand[j].id != id
}

/// Whether `hand` holds a card with identifier `id`.
pub open spec fn holds_id(hand: Seq<Card>, id: u32) -> bool {
    exists|j: int| 0 <= j < hand.len() && hand[j].id == id
}

/// Finds the first card of `hand` with identifier `id`.
pub fn find_card(hand: &Vec<Card>, id: u32) -> (r: Option<usize>)
    ensures
        r.is_none() <==> !holds_id(hand@, id),
        r matches Some(k) ==> first_with_id(hand@, id, k as int),
{
    let mut i: usize = 0;
    while i < hand.len()
        invariant
            i <= hand.len(),
            forall|j: int| 0 <= j < i ==> hand@[j].id != id,
        decreases hand.len() - i,
    {
        if hand[i].id == id {
            return Some(i);
        }
        i += 1;
    }
    None
}

} // verus!
