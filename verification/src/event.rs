use vstd::prelude::*;

use crate::card_book::CardBook;
use crate::matching::{Card, Inventory};

verus! {

/// One executed match: the traded suit, the resting side's price, and the
/// two parties.
#[derive(Debug)]
pub struct Trade {
    pub card: Card,
    pub price: usize,
    pub buyer: String,
    pub seller: String,
}

/// A snapshot of all four books, with the trade that caused it, if any.
#[derive(Debug)]
pub struct Update {
    pub spades: CardBook,
    pub clubs: CardBook,
    pub diamonds: CardBook,
    pub hearts: CardBook,
    pub trade: Option<Trade>,
}

/// One player's holdings as reported at round end.
#[derive(Debug)]
pub struct PlayerInventory {
    pub player_name: String,
    pub spades: usize,
    pub clubs: usize,
    pub diamonds: usize,
    pub hearts: usize,
}

/// One player's balance as reported at round end.
#[derive(Debug)]
pub struct PlayerPoints {
    pub player_name: String,
    pub points: i32,
}

/// The round-end report: how many cards of each suit were dealt, every
/// player's holdings and balance, and the revealed goal and common suits.
#[derive(Debug)]
pub struct EndRoundUpdate {
    pub card_count: Inventory,
    pub player_inventories: Vec<PlayerInventory>,
    pub player_points: Vec<PlayerPoints>,
    pub goal_suit: Card,
    pub common_suit: Card,
}

/// The balances reported when a game ends.
#[derive(Debug)]
pub struct EndGamePointsUpdate {
    pub player_points: Vec<PlayerPoints>,
}

/// What the engine asks the broadcaster to fan out.
#[derive(Debug)]
pub enum Event {
    Update(Update),
    DealCards(Vec<PlayerInventory>),
    EndRound,
}

} // verus!
