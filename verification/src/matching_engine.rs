use vstd::prelude::*;
use vstd::pervasive::VecAdditionalExecFns;

use crate::card_book::{
    book_wf, prices_in_range, remove_player, sorted_asc, sorted_desc, unique_players, upsert_ask,
    upsert_bid, CardBook, CardBookV,
};
use crate::event::Update;
use crate::api::HTTPResponse;
use crate::event::{EndRoundUpdate, PlayerInventory, PlayerPoints, Trade};
use crate::matching::{Card, Direction, Inventory, Order};
use crate::text;
use crate::rng;

verus! {

/// Points handed to every player on registration.
pub const STARTING_BALANCE: i32 = 500;

/// The sum of a balance column.
pub open spec fn sum_points(s: Seq<i32>) -> int
    decreases s.len(),
{
    if s.len() == 0 {
        0
    } else {
        sum_points(s.drop_last()) + s.last()
    }
}

/// How many cards of suit `c` all inventories hold together.
pub open spec fn suit_total(invs: Seq<Inventory>, c: Card) -> int
    decreases invs.len(),
{
    if invs.len() == 0 {
        0
    } else {
        suit_total(invs.drop_last(), c) + invs.last().spec_get(c)
    }
}

/// Overwriting one balance moves the sum by the difference.
pub proof fn lemma_sum_points_update(s: Seq<i32>, i: int, v: i32)
    requires
        0 <= i < s.len(),
    ensures
        sum_points(s.update(i, v)) == sum_points(s) - s[i] + v,
    decreases s.len(),
{
    if i == s.len() - 1 {
        assert(s.update(i, v).drop_last() =~= s.drop_last());
    } else {
        assert(s.update(i, v).drop_last() =~= s.drop_last().update(i, v));
        assert(s.update(i, v).last() == s.last());
        lemma_sum_points_update(s.drop_last(), i, v);
    }
}

/// Overwriting one inventory moves each suit's total by the difference.
pub proof fn lemma_suit_total_update(invs: Seq<Inventory>, i: int, inv: Inventory, c: Card)
    requires
        0 <= i < invs.len(),
    ensures
        suit_total(invs.update(i, inv), c) == suit_total(invs, c) - invs[i].spec_get(c)
            + inv.spec_get(c),
    decreases invs.len(),
{
    if i == invs.len() - 1 {
        assert(invs.update(i, inv).drop_last() =~= invs.drop_last());
    } else {
        assert(invs.update(i, inv).drop_last() =~= invs.drop_last().update(i, inv));
        assert(invs.update(i, inv).last() == invs.last());
        lemma_suit_total_update(invs.drop_last(), i, inv, c);
    }
}

/// A fresh copy of a balance column.
fn clone_points(v: &Vec<i32>) -> (r: Vec<i32>)
    ensures
        r@ == v@,
{
    let mut r: Vec<i32> = Vec::new();
    let n = v.len();
    let mut i: usize = 0;
    while i < n
        invariant
            i <= n,
            n == v@.len(),
            r@ == v@.take(i as int),
        decreases n - i,
    {
        r.push(v[i]);
        proof {
            assert(r@ =~= v@.take(i + 1));
        }
        i = i + 1;
    }
    proof {
        assert(v@.take(n as int) =~= v@);
    }
    r
}

/// Each balance credited with ten points per goal-suit card held.
pub open spec fn payout_points(points: Seq<i32>, invs: Seq<Inventory>, goal: Card) -> Seq<i32> {
    Seq::new(points.len(), |i: int| (points[i] + 10 * invs[i].spec_get(goal)) as i32)
}

/// The running result of the round-end winner scan.
pub struct WinnerScan {
    pub winner: Option<int>,
    pub count: int,
    pub tied: Seq<int>,
}

/// The winner fold over the first `i` players, exactly as the round-end
/// scan runs it: a strictly higher goal-card count takes the lead and
/// clears the tied list; a count equal to the leader's joins the list.
/// With no players, or all counts zero, nobody leads.
pub open spec fn scan_winners(invs: Seq<Inventory>, goal: Card, i: int) -> WinnerScan
    decreases i,
{
    if i <= 0 {
        WinnerScan { winner: None, count: 0, tied: Seq::empty() }
    } else {
        let prev = scan_winners(invs, goal, i - 1);
        let g = invs[i - 1].spec_get(goal) as int;
        if g >= prev.count {
            if g == prev.count {
                WinnerScan { winner: prev.winner, count: prev.count, tied: prev.tied.push(i - 1) }
            } else {
                WinnerScan { winner: Some(i - 1), count: g, tied: Seq::empty() }
            }
        } else {
            prev
        }
    }
}

/// Each listed balance credited with the split, in list order.
pub open spec fn add_split(points: Seq<i32>, tied: Seq<int>, split: int) -> Seq<i32>
    decreases tied.len(),
{
    if tied.len() == 0 {
        points
    } else {
        let rest = add_split(points, tied.drop_last(), split);
        rest.update(tied.last(), (rest[tied.last()] + split) as i32)
    }
}

/// What the leader scan promises: the leader, if any, holds the leading
/// count, which is positive; every tied index holds it too; tied indices
/// are strictly increasing positions before `i`.
pub proof fn lemma_scan_winners_props(invs: Seq<Inventory>, goal: Card, i: int)
    requires
        0 <= i <= invs.len(),
    ensures
        ({
            let s = scan_winners(invs, goal, i);
            &&& s.count >= 0
            &&& (s.winner is None ==> s.count == 0)
            &&& (s.winner matches Some(w) ==> 0 <= w < i && invs[w].spec_get(goal) == s.count
                && s.count > 0)
            &&& forall|a: int|
                0 <= a < s.tied.len() ==> 0 <= #[trigger] s.tied[a] < i && invs[s.tied[a]].spec_get(
                    goal,
                ) == s.count
            &&& forall|a: int, b: int| 0 <= a < b < s.tied.len() ==> s.tied[a] < s.tied[b]
        }),
    decreases i,
{
    if i > 0 {
        lemma_scan_winners_props(invs, goal, i - 1);
    }
}

/// Splitting the pot credits each listed balance once: the listed entries
/// rise by the split, the rest stand, and the sum rises by one split per
/// entry.
pub proof fn lemma_add_split_props(points: Seq<i32>, tied: Seq<int>, split: int)
    requires
        split >= 0,
        forall|a: int| 0 <= a < tied.len() ==> 0 <= #[trigger] tied[a] < points.len(),
        forall|a: int, b: int| 0 <= a < b < tied.len() ==> tied[a] < tied[b],
        forall|a: int| 0 <= a < tied.len() ==> points[#[trigger] tied[a]] + split <= i32::MAX,
    ensures
        ({
            let r = add_split(points, tied, split);
            &&& r.len() == points.len()
            &&& forall|a: int|
                0 <= a < tied.len() ==> r[#[trigger] tied[a]] == points[tied[a]] + split
            &&& forall|x: int| 0 <= x < points.len() && !tied.contains(x) ==> r[x] == points[x]
            &&& sum_points(r) == sum_points(points) + tied.len() * split
        }),
    decreases tied.len(),
{
    if tied.len() > 0 {
        let t = tied.last();
        let front = tied.drop_last();
        assert(forall|a: int| 0 <= a < front.len() ==> front[a] == #[trigger] tied[a]);
        lemma_add_split_props(points, front, split);
        let rest = add_split(points, front, split);
        assert(!front.contains(t)) by {
            if front.contains(t) {
                let a = choose|a: int| 0 <= a < front.len() && front[a] == t;
                assert(tied[a] < tied[tied.len() - 1]);
            }
        }
        assert(rest[t] == points[t]);
        let r = add_split(points, tied, split);
        lemma_sum_points_update(rest, t, (rest[t] + split) as i32);
        assert(sum_points(r) == sum_points(points) + front.len() * split + split);
        assert(tied.len() * split == front.len() * split + split) by (nonlinear_arith)
            requires
                tied.len() == front.len() + 1,
        ;
        assert forall|a: int|
            0 <= a < tied.len() implies r[#[trigger] tied[a]] == points[tied[a]] + split by {
            if a < tied.len() - 1 {
                assert(tied[a] < t);
                assert(rest[tied[a]] == points[tied[a]] + split);
            }
        }
        assert forall|x: int|
            0 <= x < points.len() && !tied.contains(x) implies r[x] == points[x] by {
            assert(!front.contains(x)) by {
                if front.contains(x) {
                    let a = choose|a: int| 0 <= a < front.len() && front[a] == x;
                    assert(tied[a] == x);
                }
            }
            assert(x != t);
        }
    }
}

/// Crediting the per-card payouts raises the sum of balances by ten per
/// goal-suit card in play.
pub proof fn lemma_sum_payout(points: Seq<i32>, invs: Seq<Inventory>, goal: Card)
    requires
        invs.len() == points.len(),
        forall|i: int|
            0 <= i < points.len() ==> #[trigger] points[i] + 10 * invs[i].spec_get(goal)
                <= i32::MAX,
    ensures
        payout_points(points, invs, goal).len() == points.len(),
        sum_points(payout_points(points, invs, goal)) == sum_points(points) + 10 * suit_total(
            invs,
            goal,
        ),
    decreases points.len(),
{
    if points.len() > 0 {
        lemma_sum_payout(points.drop_last(), invs.drop_last(), goal);
        assert(payout_points(points, invs, goal).drop_last() =~= payout_points(
            points.drop_last(),
            invs.drop_last(),
            goal,
        ));
        assert(payout_points(points, invs, goal).last() == (points.last() + 10 * invs.last().spec_get(
            goal,
        )) as i32);
    }
}

/// A partial deal total never exceeds the whole deal's total.
pub proof fn lemma_suit_total_take_le(invs: Seq<Inventory>, goal: Card, i: int)
    requires
        0 <= i <= invs.len(),
    ensures
        0 <= suit_total(invs.take(i), goal) <= suit_total(invs, goal),
    decreases invs.len() - i,
{
    lemma_suit_total_nonneg(invs.take(i), goal);
    if i == invs.len() {
        assert(invs.take(i) =~= invs);
    } else {
        assert(invs.take(i + 1).drop_last() =~= invs.take(i));
        assert(invs.take(i + 1).last() == invs[i]);
        lemma_suit_total_take_le(invs, goal, i + 1);
    }
}

pub proof fn lemma_suit_total_nonneg(invs: Seq<Inventory>, goal: Card)
    ensures
        suit_total(invs, goal) >= 0,
    decreases invs.len(),
{
    if invs.len() > 0 {
        lemma_suit_total_nonneg(invs.drop_last(), goal);
    }
}

/// Debiting a fixed ante from every balance lowers the sum by one ante
/// per player.
pub proof fn lemma_sum_points_ante(s1: Seq<i32>, s2: Seq<i32>, ante: int)
    requires
        s2.len() == s1.len(),
        forall|j: int| 0 <= j < s1.len() ==> #[trigger] s2[j] == s1[j] - ante,
    ensures
        sum_points(s2) == sum_points(s1) - ante * s1.len(),
    decreases s1.len(),
{
    if s1.len() == 0 {
        assert(ante * s1.len() == 0) by (nonlinear_arith)
            requires
                s1.len() == 0,
        ;
    } else {
        assert(forall|j: int|
            0 <= j < s1.drop_last().len() ==> #[trigger] s2.drop_last()[j] == s1.drop_last()[j]
                - ante);
        lemma_sum_points_ante(s1.drop_last(), s2.drop_last(), ante);
        assert(s2[s1.len() - 1] == s1[s1.len() - 1] - ante);
        assert(s2.last() == s1.last() - ante);
        assert(sum_points(s2) == sum_points(s2.drop_last()) + s2.last());
        assert(sum_points(s1) == sum_points(s1.drop_last()) + s1.last());
        assert(ante * s1.len() == ante * s1.drop_last().len() + ante) by (nonlinear_arith)
            requires
                s1.len() == s1.drop_last().len() + 1,
        ;
    }
}

/// The law of pot conservation: over a round's settlement, the points the
/// pot loses are exactly the points the balances gain — ten per goal-suit
/// card, plus what `spec_distributed` names for the leader or the ties;
/// what the tie division rounds away stays in nobody's balance, so the
/// distribution never exceeds the remaining pot.
pub proof fn lemma_pot_conservation(pre: MatchingEngine, post: MatchingEngine)
    requires
        pre.lengths_ok(),
        end_round_rel(pre, post),
        10 * suit_total(pre.player_inventories@, pre.goal_suit) <= pre.pot,
        pre.pot <= i32::MAX,
        forall|i: int|
            0 <= i < pre.player_points@.len() ==> #[trigger] pre.player_points@[i] + 10
                * pre.player_inventories@[i].spec_get(pre.goal_suit) + pre.pot <= i32::MAX,
    ensures
        post.pot == pre.pot - 10 * suit_total(pre.player_inventories@, pre.goal_suit),
        sum_points(post.player_points@) == sum_points(pre.player_points@) + 10 * suit_total(
            pre.player_inventories@,
            pre.goal_suit,
        ) + spec_distributed(pre),
        0 <= spec_distributed(pre) <= pre.pot - 10 * suit_total(
            pre.player_inventories@,
            pre.goal_suit,
        ),
{
    let goal = pre.goal_suit;
    let n = pre.num_players();
    let paid = payout_points(pre.player_points@, pre.player_inventories@, goal);
    let scan = scan_winners(pre.player_inventories@, goal, n);
    let pot1 = pre.pot - 10 * suit_total(pre.player_inventories@, goal);
    lemma_suit_total_nonneg(pre.player_inventories@, goal);
    lemma_sum_payout(pre.player_points@, pre.player_inventories@, goal);
    lemma_scan_winners_props(pre.player_inventories@, goal, n);
    match scan.winner {
        Option::None => {},
        Option::Some(w) => {
            if scan.tied.len() == 0 {
                assert(pre.player_points@[w] + 10 * pre.player_inventories@[w].spec_get(goal)
                    + pre.pot <= i32::MAX);
                assert(paid[w] == (pre.player_points@[w] + 10 * pre.player_inventories@[w].spec_get(
                    goal,
                )) as i32);
                lemma_sum_points_update(paid, w, (paid[w] + pot1) as i32);
            } else {
                let k1 = scan.tied.len() as int + 1;
                let split = pot1 / k1;
                assert(k1 * split <= pot1 && split >= 0) by (nonlinear_arith)
                    requires
                        split == pot1 / k1,
                        pot1 >= 0,
                        k1 >= 1,
                ;
                assert(k1 * split == (scan.tied.len() as int) * split + split) by (nonlinear_arith)
                    requires
                        k1 == scan.tied.len() as int + 1,
                ;
                assert forall|a: int|
                    0 <= a < scan.tied.len() implies paid[#[trigger] scan.tied[a]] + split
                    <= i32::MAX by {
                    let t = scan.tied[a];
                    assert(pre.player_inventories@[t].spec_get(goal) == scan.count);
                    assert(pre.player_points@[t] + 10 * pre.player_inventories@[t].spec_get(goal)
                        + pre.pot <= i32::MAX);
                    assert(paid[t] == (pre.player_points@[t] + 10
                        * pre.player_inventories@[t].spec_get(goal)) as i32);
                }
                lemma_add_split_props(paid, scan.tied, split);
            }
        },
    }
}

/// How the engine answers one order, decided before any state changes.
pub enum OrderOutcome {
    /// The name is not registered.
    UnknownPlayer,
    /// A cancellation (no price): the resting quote, if any, is dropped.
    Cancelled,
    /// The limit price is outside 1..=99.
    InvalidPrice,
    /// A buy whose limit price exceeds the player's points.
    InsufficientFunds,
    /// A sell of a suit the player holds none of.
    NoInventory,
    /// The order would cross the player's own resting quote.
    SelfTrade,
    /// The order rests on the book without crossing.
    Rested,
    /// The order crosses the best opposing quote and trades.
    Traded,
}

/// The exchange core: the four books, the registered players with their
/// balances and holdings, and the running round's state.
pub struct MatchingEngine {
    pub player_names: Vec<String>,
    pub starting_balance: i32,
    pub goal_suit: Card,
    pub common_suit: Card,
    pub player_points: Vec<i32>,
    pub spades_book: CardBook,
    pub clubs_book: CardBook,
    pub diamonds_book: CardBook,
    pub hearts_book: CardBook,
    pub pot: usize,
    pub ante: usize,
    pub player_inventories: Vec<Inventory>,
    pub initial_points: Vec<i32>,
    pub starting_inventory: Inventory,
}

/// Registration, balances, holdings, the round state and the pot are
/// untouched; only books may differ.
pub open spec fn same_players_state(pre: MatchingEngine, post: MatchingEngine) -> bool {
    &&& post.player_names == pre.player_names
    &&& post.starting_balance == pre.starting_balance
    &&& post.goal_suit == pre.goal_suit
    &&& post.common_suit == pre.common_suit
    &&& post.player_points == pre.player_points
    &&& post.pot == pre.pot
    &&& post.ante == pre.ante
    &&& post.player_inventories == pre.player_inventories
    &&& post.initial_points == pre.initial_points
    &&& post.starting_inventory == pre.starting_inventory
}

/// All four books are untouched.
pub open spec fn same_books(pre: MatchingEngine, post: MatchingEngine) -> bool {
    &&& post.spades_book@ == pre.spades_book@
    &&& post.clubs_book@ == pre.clubs_book@
    &&& post.diamonds_book@ == pre.diamonds_book@
    &&& post.hearts_book@ == pre.hearts_book@
}

/// What the pot hands out at round end beyond the per-card payouts: the
/// whole remaining pot to a sole leader; one share of the remaining pot,
/// divided by one more than the number of later ties, to each later tie
/// (the first leader keeps only the payouts, and the division's remainder
/// stays unawarded); nothing when nobody holds a goal card.
pub open spec fn spec_distributed(pre: MatchingEngine) -> int {
    let scan = scan_winners(pre.player_inventories@, pre.goal_suit, pre.num_players());
    let pot1 = pre.pot - 10 * suit_total(pre.player_inventories@, pre.goal_suit);
    match scan.winner {
        None => 0,
        Some(w) => {
            if scan.tied.len() == 0 {
                pot1
            } else {
                (scan.tied.len() as int) * (pot1 / (scan.tied.len() as int + 1))
            }
        },
    }
}

/// How `end_round` reshapes balances and pot: every balance gains ten per
/// goal-suit card; the pot drops by the total of those payouts; the
/// remaining pot goes whole to a sole leader, or in shares to the later
/// ties.
pub open spec fn end_round_rel(pre: MatchingEngine, post: MatchingEngine) -> bool {
    let n = pre.num_players();
    let goal = pre.goal_suit;
    let total = suit_total(pre.player_inventories@, goal);
    let paid = payout_points(pre.player_points@, pre.player_inventories@, goal);
    let scan = scan_winners(pre.player_inventories@, goal, n);
    let pot1 = pre.pot - 10 * total;
    &&& post.pot == pot1
    &&& post.player_points@ == match scan.winner {
        None => paid,
        Some(w) => {
            if scan.tied.len() == 0 {
                paid.update(w, (paid[w] + pot1) as i32)
            } else {
                add_split(paid, scan.tied, pot1 / (scan.tied.len() as int + 1))
            }
        },
    }
}

impl MatchingEngine {
    /// The registered name at ledger position `i`.
    pub open spec fn name_at(self, i: int) -> Seq<char> {
        self.player_names@[i]@
    }

    pub open spec fn num_players(self) -> int {
        self.player_names@.len() as int
    }

    pub open spec fn has_player(self, name: Seq<char>) -> bool {
        exists|i: int| 0 <= i < self.num_players() && self.name_at(i) == name
    }

    /// The ledger position of a registered name.
    pub open spec fn player_index(self, name: Seq<char>) -> int {
        choose|i: int| 0 <= i < self.num_players() && self.name_at(i) == name
    }

    /// The book that trades the given suit.
    pub open spec fn book_of(self, c: Card) -> CardBookV {
        match c {
            Card::Spade => self.spades_book@,
            Card::Club => self.clubs_book@,
            Card::Diamond => self.diamonds_book@,
            Card::Heart => self.hearts_book@,
        }
    }

    /// The ledger columns line up with the list of names.
    pub open spec fn lengths_ok(self) -> bool {
        &&& self.player_points@.len() == self.num_players()
        &&& self.player_inventories@.len() == self.num_players()
        &&& self.initial_points@.len() == self.num_players()
    }

    /// Registered names never repeat.
    pub open spec fn names_unique(self) -> bool {
        forall|i: int, j: int|
            0 <= i < j < self.num_players() ==> self.name_at(i) != self.name_at(j)
    }

    /// Every quote in `b` was placed by a registered player.
    pub open spec fn entries_registered(self, b: CardBookV) -> bool {
        &&& forall|k: int| 0 <= k < b.bids.len() ==> self.has_player(#[trigger] b.bids[k].player)
        &&& forall|k: int| 0 <= k < b.asks.len() ==> self.has_player(#[trigger] b.asks[k].player)
    }

    /// Every resting ask on suit `c` is backed by a card its seller still
    /// holds; this is what lets a match debit the seller without
    /// underflowing.
    pub open spec fn asks_covered(self, b: CardBookV, c: Card) -> bool {
        forall|k: int|
            0 <= k < b.asks.len() ==> self.player_inventories@[self.player_index(
                #[trigger] b.asks[k].player,
            )].spec_get(c) >= 1
    }

    /// The engine invariant: aligned ledgers, unique names, well-formed
    /// books whose quotes all belong to registered players, and every ask
    /// covered by a card.
    pub open spec fn wf(self) -> bool {
        &&& self.lengths_ok()
        &&& self.names_unique()
        &&& book_wf(self.spades_book@)
        &&& book_wf(self.clubs_book@)
        &&& book_wf(self.diamonds_book@)
        &&& book_wf(self.hearts_book@)
        &&& self.entries_registered(self.spades_book@)
        &&& self.entries_registered(self.clubs_book@)
        &&& self.entries_registered(self.diamonds_book@)
        &&& self.entries_registered(self.hearts_book@)
        &&& self.asks_covered(self.spades_book@, Card::Spade)
        &&& self.asks_covered(self.clubs_book@, Card::Club)
        &&& self.asks_covered(self.diamonds_book@, Card::Diamond)
        &&& self.asks_covered(self.hearts_book@, Card::Heart)
    }

    /// Machine-limit headroom on balances: one trade moves a balance by at
    /// most 99 points, so a 100-point margin rules overflow out.
    pub open spec fn points_margin_ok(self) -> bool {
        forall|i: int|
            0 <= i < self.player_points@.len() ==> i32::MIN + 100 <= #[trigger] self.player_points@[i]
                <= i32::MAX - 100
    }

    /// Machine-limit headroom on holdings: a trade adds at most one card.
    pub open spec fn inv_headroom_ok(self) -> bool {
        forall|i: int|
            0 <= i < self.player_inventories@.len() ==> {
                let inv = #[trigger] self.player_inventories@[i];
                inv.spades < usize::MAX && inv.clubs < usize::MAX && inv.diamonds < usize::MAX
                    && inv.hearts < usize::MAX
            }
    }

    /// The price of the quote an arriving order would cross: the best ask
    /// for a buy, the best bid for a sell.
    pub open spec fn resting_price(self, card: Card, dir: Direction) -> int {
        match dir {
            Direction::Buy => self.book_of(card).asks[0].price,
            Direction::Sell => self.book_of(card).bids[0].price,
        }
    }

    /// The player whose quote an arriving order would cross.
    pub open spec fn resting_player(self, card: Card, dir: Direction) -> Seq<char> {
        match dir {
            Direction::Buy => self.book_of(card).asks[0].player,
            Direction::Sell => self.book_of(card).bids[0].player,
        }
    }

    /// The engine's whole decision on one order, check by check: an unknown name
    /// is refused; no price means cancellation; a price outside 1..=99 is
    /// refused; a buy needs points to cover its limit price and a sell a
    /// card of the suit; a crossing order trades unless it would cross the
    /// player's own quote; anything else rests.
    pub open spec fn spec_outcome(
        self,
        card: Card,
        dir: Direction,
        price: Option<usize>,
        name: Seq<char>,
    ) -> OrderOutcome {
        if !self.has_player(name) {
            OrderOutcome::UnknownPlayer
        } else if price is None {
            OrderOutcome::Cancelled
        } else {
            let p = price->0 as int;
            if !(1 <= p <= 99) {
                OrderOutcome::InvalidPrice
            } else {
                match dir {
                    Direction::Buy => {
                        if self.player_points@[self.player_index(name)] < p {
                            OrderOutcome::InsufficientFunds
                        } else {
                            let asks = self.book_of(card).asks;
                            if asks.len() > 0 && p >= asks[0].price {
                                if asks[0].player == name {
                                    OrderOutcome::SelfTrade
                                } else {
                                    OrderOutcome::Traded
                                }
                            } else {
                                OrderOutcome::Rested
                            }
                        }
                    },
                    Direction::Sell => {
                        if self.player_inventories@[self.player_index(name)].spec_get(card) == 0 {
                            OrderOutcome::NoInventory
                        } else {
                            let bids = self.book_of(card).bids;
                            if bids.len() > 0 && p <= bids[0].price {
                                if bids[0].player == name {
                                    OrderOutcome::SelfTrade
                                } else {
                                    OrderOutcome::Traded
                                }
                            } else {
                                OrderOutcome::Rested
                            }
                        }
                    },
                }
            }
        }
    }

    /// A registered name's ledger position is the one place it occurs.
    pub proof fn lemma_index_unique(self, i: int, name: Seq<char>)
        requires
            self.names_unique(),
            0 <= i < self.num_players(),
            self.name_at(i) == name,
        ensures
            self.has_player(name),
            self.player_index(name) == i,
    {
        assert(self.has_player(name));
        let j = self.player_index(name);
        if j < i {
            assert(self.name_at(j) != self.name_at(i));
        } else if j > i {
            assert(self.name_at(i) != self.name_at(j));
        }
    }

    /// The ledger position of a name, scanned in registration order.
    fn find_player(&self, name: &String) -> (r: Option<usize>)
        ensures
            match r {
                Some(i) => i < self.player_names@.len() && self.name_at(i as int) == name@,
                None => forall|j: int| 0 <= j < self.player_names@.len() ==> self.name_at(j) != name@,
            },
    {
        let n = self.player_names.len();
        let mut i: usize = 0;
        while i < n
            invariant
                i <= n,
                n == self.player_names@.len(),
                forall|j: int| 0 <= j < i ==> self.name_at(j) != name@,
            decreases n - i,
        {
            if self.player_names[i] == *name {
                return Some(i);
            }
            i = i + 1;
        }
        None
    }

    pub fn new(starting_balance: i32) -> (r: Self)
        ensures
            r.player_names@.len() == 0,
            r.player_points@.len() == 0,
            r.player_inventories@.len() == 0,
            r.initial_points@.len() == 0,
            r.starting_balance == starting_balance,
            r.goal_suit == Card::Spade,
            r.common_suit == Card::Club,
            r.pot == 0,
            r.ante == 0,
            r.starting_inventory == (Inventory { spades: 0, clubs: 0, diamonds: 0, hearts: 0 }),
            r.book_of(Card::Spade).bids.len() == 0 && r.book_of(Card::Spade).asks.len() == 0,
            r.book_of(Card::Club).bids.len() == 0 && r.book_of(Card::Club).asks.len() == 0,
            r.book_of(Card::Diamond).bids.len() == 0 && r.book_of(Card::Diamond).asks.len() == 0,
            r.book_of(Card::Heart).bids.len() == 0 && r.book_of(Card::Heart).asks.len() == 0,
            r.book_of(Card::Spade).last_trade is None,
            r.book_of(Card::Club).last_trade is None,
            r.book_of(Card::Diamond).last_trade is None,
            r.book_of(Card::Heart).last_trade is None,
            r.wf(),
            r.points_margin_ok(),
            r.inv_headroom_ok(),
    {
        Self {
            player_names: Vec::new(),
            starting_balance,
            goal_suit: Card::Spade,
            common_suit: Card::Club,
            player_points: Vec::new(),
            spades_book: CardBook::new(),
            clubs_book: CardBook::new(),
            diamonds_book: CardBook::new(),
            hearts_book: CardBook::new(),
            pot: 0,
            ante: 0,
            player_inventories: Vec::new(),
            initial_points: Vec::new(),
            starting_inventory: Inventory::new(),
        }
    }

    /// Register a fresh player: the ledgers gain one row holding the
    /// starting balance and the dealt inventory.
    pub fn add_new_player_with_inventory(&mut self, player_name: String, inventory: Inventory)
        requires
            !old(self).has_player(player_name@),
        ensures
            final(self).player_names@ == old(self).player_names@.push(player_name),
            final(self).player_points@ == old(self).player_points@.push(
                old(self).starting_balance,
            ),
            final(self).player_inventories@ == old(self).player_inventories@.push(inventory),
            final(self).initial_points@ == old(self).initial_points@.push(
                old(self).starting_balance,
            ),
            same_books(*old(self), *final(self)),
            final(self).starting_balance == old(self).starting_balance,
            final(self).goal_suit == old(self).goal_suit,
            final(self).common_suit == old(self).common_suit,
            final(self).pot == old(self).pot,
            final(self).ante == old(self).ante,
            final(self).starting_inventory == old(self).starting_inventory,
            old(self).wf() ==> final(self).wf(),
    {
        let balance = self.starting_balance;
        self.player_names.push(player_name);
        self.player_points.push(balance);
        self.player_inventories.push(inventory);
        self.initial_points.push(balance);
        proof {
            if old(self).wf() {
                self.lemma_extend_wf(*old(self));
            }
        }
    }

    /// An engine with the same ledgers and books satisfies the same
    /// invariant, whatever happened to the round state around them.
    pub proof fn lemma_wf_same_core(pre: Self, post: Self)
        requires
            pre.wf(),
            post.player_names == pre.player_names,
            post.player_points == pre.player_points,
            post.player_inventories == pre.player_inventories,
            post.initial_points == pre.initial_points,
            same_books(pre, post),
        ensures
            post.wf(),
    {
        assert(forall|i: int| 0 <= i < post.num_players() ==> post.name_at(i) == pre.name_at(i));
        Self::lemma_book_ok_same_core(pre, post, post.spades_book@, Card::Spade);
        Self::lemma_book_ok_same_core(pre, post, post.clubs_book@, Card::Club);
        Self::lemma_book_ok_same_core(pre, post, post.diamonds_book@, Card::Diamond);
        Self::lemma_book_ok_same_core(pre, post, post.hearts_book@, Card::Heart);
    }

    proof fn lemma_book_ok_same_core(pre: Self, post: Self, b: CardBookV, c: Card)
        requires
            pre.lengths_ok(),
            pre.names_unique(),
            pre.entries_registered(b),
            pre.asks_covered(b, c),
            post.player_names == pre.player_names,
            post.player_inventories == pre.player_inventories,
        ensures
            post.entries_registered(b),
            post.asks_covered(b, c),
    {
        assert(forall|i: int| 0 <= i < post.num_players() ==> post.name_at(i) == pre.name_at(i));
        assert forall|k: int| 0 <= k < b.bids.len() implies post.has_player(
            #[trigger] b.bids[k].player,
        ) by {
            let i = pre.player_index(b.bids[k].player);
            assert(post.name_at(i) == b.bids[k].player);
        }
        assert forall|k: int| 0 <= k < b.asks.len() implies post.has_player(
            #[trigger] b.asks[k].player,
        ) && post.player_inventories@[post.player_index(b.asks[k].player)].spec_get(c) >= 1 by {
            let i = pre.player_index(b.asks[k].player);
            assert(post.name_at(i) == b.asks[k].player);
            post.lemma_index_unique(i, b.asks[k].player);
        }
    }

    /// Adding a row for an unseen name keeps the engine invariant: old
    /// quotes still point at their old ledger rows.
    proof fn lemma_extend_wf(self, pre: Self)
        requires
            pre.wf(),
            self.player_names@.len() == pre.player_names@.len() + 1,
            forall|i: int| 0 <= i < pre.num_players() ==> self.name_at(i) == pre.name_at(i),
            !pre.has_player(self.name_at(pre.num_players())),
            self.player_points@.len() == self.player_names@.len(),
            self.player_inventories@.len() == self.player_names@.len(),
            self.initial_points@.len() == self.player_names@.len(),
            forall|i: int|
                0 <= i < pre.num_players() ==> self.player_inventories@[i]
                    == pre.player_inventories@[i],
            same_books(pre, self),
        ensures
            self.wf(),
    {
        let new_name = self.name_at(pre.num_players());
        assert forall|i: int, j: int|
            0 <= i < j < self.num_players() implies self.name_at(i) != self.name_at(j) by {
            if j < pre.num_players() {
                assert(pre.name_at(i) != pre.name_at(j));
            } else {
                if pre.has_player(self.name_at(i)) {
                } else {
                    assert(pre.name_at(i) == self.name_at(i));
                    assert(pre.has_player(self.name_at(i)));
                }
            }
        }
        self.lemma_extend_book_ok(pre, self.spades_book@, Card::Spade);
        self.lemma_extend_book_ok(pre, self.clubs_book@, Card::Club);
        self.lemma_extend_book_ok(pre, self.diamonds_book@, Card::Diamond);
        self.lemma_extend_book_ok(pre, self.hearts_book@, Card::Heart);
    }

    proof fn lemma_extend_book_ok(self, pre: Self, b: CardBookV, c: Card)
        requires
            pre.lengths_ok(),
            pre.names_unique(),
            self.names_unique(),
            pre.entries_registered(b),
            pre.asks_covered(b, c),
            self.player_names@.len() == pre.player_names@.len() + 1,
            forall|i: int| 0 <= i < pre.num_players() ==> self.name_at(i) == pre.name_at(i),
            !pre.has_player(self.name_at(pre.num_players())),
            self.player_inventories@.len() == self.player_names@.len(),
            forall|i: int|
                0 <= i < pre.num_players() ==> self.player_inventories@[i]
                    == pre.player_inventories@[i],
        ensures
            self.entries_registered(b),
            self.asks_covered(b, c),
    {
        assert forall|k: int| 0 <= k < b.bids.len() implies self.has_player(
            #[trigger] b.bids[k].player,
        ) by {
            let i = pre.player_index(b.bids[k].player);
            assert(self.name_at(i) == b.bids[k].player);
        }
        assert forall|k: int| 0 <= k < b.asks.len() implies self.has_player(
            #[trigger] b.asks[k].player,
        ) && self.player_inventories@[self.player_index(b.asks[k].player)].spec_get(c) >= 1 by {
            let i = pre.player_index(b.asks[k].player);
            assert(self.name_at(i) == b.asks[k].player);
            self.lemma_index_unique(i, b.asks[k].player);
            assert(pre.player_index(b.asks[k].player) == i);
        }
    }

    /// Forget every registration and clear the books; the game is over.
    pub fn delete_all_players(&mut self)
        ensures
            final(self).player_names@.len() == 0,
            final(self).player_points@.len() == 0,
            final(self).player_inventories@.len() == 0,
            final(self).initial_points@.len() == 0,
            final(self).book_of(Card::Spade).bids.len() == 0,
            final(self).book_of(Card::Spade).asks.len() == 0,
            final(self).book_of(Card::Club).bids.len() == 0,
            final(self).book_of(Card::Club).asks.len() == 0,
            final(self).book_of(Card::Diamond).bids.len() == 0,
            final(self).book_of(Card::Diamond).asks.len() == 0,
            final(self).book_of(Card::Heart).bids.len() == 0,
            final(self).book_of(Card::Heart).asks.len() == 0,
            final(self).starting_balance == old(self).starting_balance,
            final(self).goal_suit == old(self).goal_suit,
            final(self).common_suit == old(self).common_suit,
            final(self).pot == old(self).pot,
            final(self).ante == old(self).ante,
            final(self).starting_inventory == old(self).starting_inventory,
            final(self).wf(),
    {
        self.player_names = Vec::new();
        self.player_points = Vec::new();
        self.player_inventories = Vec::new();
        self.initial_points = Vec::new();
        self.spades_book.reset_full_book();
        self.clubs_book.reset_full_book();
        self.diamonds_book.reset_full_book();
        self.hearts_book.reset_full_book();
    }

    /// Draw the next round's common suit; all other state stands.
    pub fn pick_new_common_suit(&mut self)
        ensures
            final(self).player_names == old(self).player_names,
            final(self).starting_balance == old(self).starting_balance,
            final(self).goal_suit == old(self).goal_suit,
            final(self).player_points == old(self).player_points,
            final(self).pot == old(self).pot,
            final(self).ante == old(self).ante,
            final(self).player_inventories == old(self).player_inventories,
            final(self).initial_points == old(self).initial_points,
            final(self).starting_inventory == old(self).starting_inventory,
            same_books(*old(self), *final(self)),
            old(self).wf() ==> final(self).wf(),
    {
        let idx = rng::random_suit_index();
        self.common_suit = match idx {
            0 => Card::Spade,
            1 => Card::Club,
            2 => Card::Diamond,
            _ => Card::Heart,
        };
        proof {
            if old(self).wf() {
                Self::lemma_wf_same_core(*old(self), *self);
            }
        }
    }

    /// A copy of one player's holdings.
    pub fn get_player_inventory(&self, player_name: &String) -> (r: Inventory)
        requires
            self.wf(),
            self.has_player(player_name@),
        ensures
            r == self.player_inventories@[self.player_index(player_name@)],
    {
        let idx = self.find_player(player_name);
        let i = idx.unwrap();
        proof {
            self.lemma_index_unique(i as int, player_name@);
        }
        self.player_inventories[i]
    }

    /// The engine invariant survives replacing one book's bid side, as
    /// long as the new side is well formed and quotes only registered
    /// players.
    proof fn lemma_wf_after_bid_change(pre: Self, post: Self, card: Card)
        requires
            pre.wf(),
            same_players_state(pre, post),
            post.book_of(card).asks == pre.book_of(card).asks,
            forall|c: Card| c != card ==> #[trigger] post.book_of(c) == pre.book_of(c),
            sorted_desc(post.book_of(card).bids),
            unique_players(post.book_of(card).bids),
            prices_in_range(post.book_of(card).bids),
            forall|k: int|
                0 <= k < post.book_of(card).bids.len() ==> pre.has_player(
                    #[trigger] post.book_of(card).bids[k].player,
                ),
        ensures
            post.wf(),
    {
        assert(forall|i: int| 0 <= i < post.num_players() ==> post.name_at(i) == pre.name_at(i));
        assert forall|c: Card| true implies post.entries_registered(#[trigger] post.book_of(c))
            && post.asks_covered(post.book_of(c), c) && book_wf(post.book_of(c)) by {
            if c != card {
                Self::lemma_book_ok_same_core(pre, post, post.book_of(c), c);
                assert(book_wf(pre.book_of(c)));
            } else {
                let b = post.book_of(c);
                assert forall|k: int| 0 <= k < b.bids.len() implies post.has_player(
                    #[trigger] b.bids[k].player,
                ) by {
                    let i = pre.player_index(b.bids[k].player);
                    assert(post.name_at(i) == b.bids[k].player);
                }
                assert forall|k: int| 0 <= k < b.asks.len() implies post.has_player(
                    #[trigger] b.asks[k].player,
                ) && post.player_inventories@[post.player_index(b.asks[k].player)].spec_get(c)
                    >= 1 by {
                    assert(pre.book_of(card).asks[k] == b.asks[k]);
                    let i = pre.player_index(b.asks[k].player);
                    assert(post.name_at(i) == b.asks[k].player);
                    post.lemma_index_unique(i, b.asks[k].player);
                    pre.lemma_index_unique(i, b.asks[k].player);
                }
            }
        }
        assert(post.book_of(Card::Spade) == post.spades_book@);
        assert(post.book_of(Card::Club) == post.clubs_book@);
        assert(post.book_of(Card::Diamond) == post.diamonds_book@);
        assert(post.book_of(Card::Heart) == post.hearts_book@);
    }

    /// The engine invariant survives replacing one book's ask side, as
    /// long as the new side is well formed, quotes only registered
    /// players, and every quote is backed by a held card.
    proof fn lemma_wf_after_ask_change(pre: Self, post: Self, card: Card)
        requires
            pre.wf(),
            same_players_state(pre, post),
            post.book_of(card).bids == pre.book_of(card).bids,
            forall|c: Card| c != card ==> #[trigger] post.book_of(c) == pre.book_of(c),
            sorted_asc(post.book_of(card).asks),
            unique_players(post.book_of(card).asks),
            prices_in_range(post.book_of(card).asks),
            forall|k: int|
                0 <= k < post.book_of(card).asks.len() ==> pre.has_player(
                    #[trigger] post.book_of(card).asks[k].player,
                ) && pre.player_inventories@[pre.player_index(post.book_of(card).asks[k].player)].spec_get(
                    card,
                ) >= 1,
        ensures
            post.wf(),
    {
        assert(forall|i: int| 0 <= i < post.num_players() ==> post.name_at(i) == pre.name_at(i));
        assert forall|c: Card| true implies post.entries_registered(#[trigger] post.book_of(c))
            && post.asks_covered(post.book_of(c), c) && book_wf(post.book_of(c)) by {
            if c != card {
                Self::lemma_book_ok_same_core(pre, post, post.book_of(c), c);
                assert(book_wf(pre.book_of(c)));
            } else {
                let b = post.book_of(c);
                assert forall|k: int| 0 <= k < b.bids.len() implies post.has_player(
                    #[trigger] b.bids[k].player,
                ) by {
                    assert(pre.book_of(card).bids[k] == b.bids[k]);
                    let i = pre.player_index(b.bids[k].player);
                    assert(post.name_at(i) == b.bids[k].player);
                }
                assert forall|k: int| 0 <= k < b.asks.len() implies post.has_player(
                    #[trigger] b.asks[k].player,
                ) && post.player_inventories@[post.player_index(b.asks[k].player)].spec_get(c)
                    >= 1 by {
                    let i = pre.player_index(b.asks[k].player);
                    assert(post.name_at(i) == b.asks[k].player);
                    post.lemma_index_unique(i, b.asks[k].player);
                    pre.lemma_index_unique(i, b.asks[k].player);
                }
            }
        }
        assert(post.book_of(Card::Spade) == post.spades_book@);
        assert(post.book_of(Card::Club) == post.clubs_book@);
        assert(post.book_of(Card::Diamond) == post.diamonds_book@);
        assert(post.book_of(Card::Heart) == post.hearts_book@);
    }

    /// Drop the player's resting bid on one suit.
    fn cancel_bid_on(&mut self, card: Card, name: String)
        requires
            old(self).wf(),
        ensures
            final(self).wf(),
            final(self).book_of(card).bids == remove_player(old(self).book_of(card).bids, name@),
            final(self).book_of(card).asks == old(self).book_of(card).asks,
            final(self).book_of(card).last_trade == old(self).book_of(card).last_trade,
            forall|c: Card| c != card ==> #[trigger] final(self).book_of(c) == old(self).book_of(c),
            same_players_state(*old(self), *final(self)),
    {
        match card {
            Card::Spade => self.spades_book.cancel_bid(name),
            Card::Club => self.clubs_book.cancel_bid(name),
            Card::Diamond => self.diamonds_book.cancel_bid(name),
            Card::Heart => self.hearts_book.cancel_bid(name),
        }
        proof {
            let pre = *old(self);
            let b0 = pre.book_of(card).bids;
            crate::card_book::lemma_remove_player_props(b0, name@);
            let b1 = self.book_of(card).bids;
            assert forall|k: int| 0 <= k < b1.len() implies pre.has_player(
                #[trigger] b1[k].player,
            ) by {
                let m = choose|m: int| 0 <= m < b0.len() && b0[m] == b1[k];
            }
            assert forall|k: int| 0 <= k < b1.len() implies 1 <= #[trigger] b1[k].price <= 99 by {
                let m = choose|m: int| 0 <= m < b0.len() && b0[m] == b1[k];
            }
            Self::lemma_wf_after_bid_change(pre, *self, card);
        }
    }

    /// Drop the player's resting ask on one suit.
    fn cancel_ask_on(&mut self, card: Card, name: String)
        requires
            old(self).wf(),
        ensures
            final(self).wf(),
            final(self).book_of(card).asks == remove_player(old(self).book_of(card).asks, name@),
            final(self).book_of(card).bids == old(self).book_of(card).bids,
            final(self).book_of(card).last_trade == old(self).book_of(card).last_trade,
            forall|c: Card| c != card ==> #[trigger] final(self).book_of(c) == old(self).book_of(c),
            same_players_state(*old(self), *final(self)),
    {
        match card {
            Card::Spade => self.spades_book.cancel_ask(name),
            Card::Club => self.clubs_book.cancel_ask(name),
            Card::Diamond => self.diamonds_book.cancel_ask(name),
            Card::Heart => self.hearts_book.cancel_ask(name),
        }
        proof {
            let pre = *old(self);
            let a0 = pre.book_of(card).asks;
            crate::card_book::lemma_remove_player_props(a0, name@);
            let a1 = self.book_of(card).asks;
            assert forall|k: int| 0 <= k < a1.len() implies pre.has_player(#[trigger] a1[k].player)
                && pre.player_inventories@[pre.player_index(a1[k].player)].spec_get(card) >= 1 by {
                let m = choose|m: int| 0 <= m < a0.len() && a0[m] == a1[k];
            }
            assert forall|k: int| 0 <= k < a1.len() implies 1 <= #[trigger] a1[k].price <= 99 by {
                let m = choose|m: int| 0 <= m < a0.len() && a0[m] == a1[k];
            }
            Self::lemma_wf_after_ask_change(pre, *self, card);
        }
    }

    /// Rest or reprice the player's bid on one suit.
    fn upsert_bid_on(&mut self, card: Card, price: usize, name: String)
        requires
            old(self).wf(),
            old(self).has_player(name@),
            1 <= price <= 99,
        ensures
            final(self).wf(),
            final(self).book_of(card).bids == upsert_bid(
                old(self).book_of(card).bids,
                price as int,
                name@,
            ),
            final(self).book_of(card).asks == old(self).book_of(card).asks,
            final(self).book_of(card).last_trade == old(self).book_of(card).last_trade,
            forall|c: Card| c != card ==> #[trigger] final(self).book_of(c) == old(self).book_of(c),
            same_players_state(*old(self), *final(self)),
    {
        match card {
            Card::Spade => self.spades_book.update_bid(price, name),
            Card::Club => self.clubs_book.update_bid(price, name),
            Card::Diamond => self.diamonds_book.update_bid(price, name),
            Card::Heart => self.hearts_book.update_bid(price, name),
        }
        proof {
            let pre = *old(self);
            let b0 = pre.book_of(card).bids;
            crate::card_book::lemma_upsert_bid_wf(b0, price as int, name@);
            let b1 = self.book_of(card).bids;
            let e = crate::card_book::BookEntryV { price: price as int, player: name@ };
            assert forall|k: int| 0 <= k < b1.len() implies pre.has_player(
                #[trigger] b1[k].player,
            ) by {
                if b1[k] != e {
                    let m = choose|m: int| 0 <= m < b0.len() && b0[m] == b1[k];
                }
            }
            assert forall|k: int| 0 <= k < b1.len() implies 1 <= #[trigger] b1[k].price <= 99 by {
                if b1[k] != e {
                    let m = choose|m: int| 0 <= m < b0.len() && b0[m] == b1[k];
                }
            }
            Self::lemma_wf_after_bid_change(pre, *self, card);
        }
    }

    /// Rest or reprice the player's ask on one suit. The seller must hold
    /// a card of the suit: that is what admission's inventory check
    /// guarantees, and what keeps every resting ask covered.
    fn upsert_ask_on(&mut self, card: Card, price: usize, name: String)
        requires
            old(self).wf(),
            old(self).has_player(name@),
            old(self).player_inventories@[old(self).player_index(name@)].spec_get(card) >= 1,
            1 <= price <= 99,
        ensures
            final(self).wf(),
            final(self).book_of(card).asks == upsert_ask(
                old(self).book_of(card).asks,
                price as int,
                name@,
            ),
            final(self).book_of(card).bids == old(self).book_of(card).bids,
            final(self).book_of(card).last_trade == old(self).book_of(card).last_trade,
            forall|c: Card| c != card ==> #[trigger] final(self).book_of(c) == old(self).book_of(c),
            same_players_state(*old(self), *final(self)),
    {
        match card {
            Card::Spade => self.spades_book.update_ask(price, name),
            Card::Club => self.clubs_book.update_ask(price, name),
            Card::Diamond => self.diamonds_book.update_ask(price, name),
            Card::Heart => self.hearts_book.update_ask(price, name),
        }
        proof {
            let pre = *old(self);
            let a0 = pre.book_of(card).asks;
            crate::card_book::lemma_upsert_ask_wf(a0, price as int, name@);
            let a1 = self.book_of(card).asks;
            let e = crate::card_book::BookEntryV { price: price as int, player: name@ };
            assert forall|k: int| 0 <= k < a1.len() implies pre.has_player(#[trigger] a1[k].player)
                && pre.player_inventories@[pre.player_index(a1[k].player)].spec_get(card) >= 1 by {
                if a1[k] != e {
                    let m = choose|m: int| 0 <= m < a0.len() && a0[m] == a1[k];
                }
            }
            assert forall|k: int| 0 <= k < a1.len() implies 1 <= #[trigger] a1[k].price <= 99 by {
                if a1[k] != e {
                    let m = choose|m: int| 0 <= m < a0.len() && a0[m] == a1[k];
                }
            }
            Self::lemma_wf_after_ask_change(pre, *self, card);
        }
    }

    /// The best resting ask on one suit, with its seller.
    fn best_ask_entry(&self, card: Card) -> (r: Option<(usize, String)>)
        ensures
            match r {
                Some(pr) => {
                    &&& self.book_of(card).asks.len() > 0
                    &&& pr.0 == self.book_of(card).asks[0].price
                    &&& pr.1@ == self.book_of(card).asks[0].player
                },
                None => self.book_of(card).asks.len() == 0,
            },
    {
        let book = match card {
            Card::Spade => &self.spades_book,
            Card::Club => &self.clubs_book,
            Card::Diamond => &self.diamonds_book,
            Card::Heart => &self.hearts_book,
        };
        if book.asks.len() > 0 {
            Some((book.asks[0].price, book.asks[0].player_name.clone()))
        } else {
            None
        }
    }

    /// The best resting bid on one suit, with its buyer.
    fn best_bid_entry(&self, card: Card) -> (r: Option<(usize, String)>)
        ensures
            match r {
                Some(pr) => {
                    &&& self.book_of(card).bids.len() > 0
                    &&& pr.0 == self.book_of(card).bids[0].price
                    &&& pr.1@ == self.book_of(card).bids[0].player
                },
                None => self.book_of(card).bids.len() == 0,
            },
    {
        let book = match card {
            Card::Spade => &self.spades_book,
            Card::Club => &self.clubs_book,
            Card::Diamond => &self.diamonds_book,
            Card::Heart => &self.hearts_book,
        };
        if book.bids.len() > 0 {
            Some((book.bids[0].price, book.bids[0].player_name.clone()))
        } else {
            None
        }
    }

    /// Clear every book's quotes after a match; last-trade prices stand.
    fn reset_all_quotes(&mut self)
        ensures
            forall|c: Card|
                {
                    &&& (#[trigger] final(self).book_of(c)).bids.len() == 0
                    &&& final(self).book_of(c).asks.len() == 0
                    &&& final(self).book_of(c).last_trade == old(self).book_of(c).last_trade
                },
            same_players_state(*old(self), *final(self)),
            old(self).lengths_ok() && old(self).names_unique() ==> final(self).wf(),
    {
        self.spades_book.reset_quotes();
        self.clubs_book.reset_quotes();
        self.diamonds_book.reset_quotes();
        self.hearts_book.reset_quotes();
        proof {
            assert forall|c: Card|
                {
                    &&& (#[trigger] self.book_of(c)).bids.len() == 0
                    &&& self.book_of(c).asks.len() == 0
                    &&& self.book_of(c).last_trade == old(self).book_of(c).last_trade
                } by {
                match c {
                    Card::Spade => {},
                    Card::Club => {},
                    Card::Diamond => {},
                    Card::Heart => {},
                }
            }
            assert(self.book_of(Card::Spade) == self.spades_book@);
            assert(self.book_of(Card::Club) == self.clubs_book@);
            assert(self.book_of(Card::Diamond) == self.diamonds_book@);
            assert(self.book_of(Card::Heart) == self.hearts_book@);
            if old(self).lengths_ok() && old(self).names_unique() {
                assert(self.lengths_ok());
                assert(forall|i: int|
                    0 <= i < self.num_players() ==> self.name_at(i) == old(self).name_at(i));
                assert(self.names_unique());
                assert(book_wf(self.spades_book@));
                assert(book_wf(self.clubs_book@));
                assert(book_wf(self.diamonds_book@));
                assert(book_wf(self.hearts_book@));
                assert(self.entries_registered(self.spades_book@));
                assert(self.entries_registered(self.clubs_book@));
                assert(self.entries_registered(self.diamonds_book@));
                assert(self.entries_registered(self.hearts_book@));
                assert(self.asks_covered(self.spades_book@, Card::Spade));
                assert(self.asks_covered(self.clubs_book@, Card::Club));
                assert(self.asks_covered(self.diamonds_book@, Card::Diamond));
                assert(self.asks_covered(self.hearts_book@, Card::Heart));
            }
        }
    }

    /// Record the executed price on the traded suit's book.
    fn set_last_trade_on(&mut self, card: Card, price: usize)
        ensures
            final(self).book_of(card).last_trade == Some(price as int),
            final(self).book_of(card).bids == old(self).book_of(card).bids,
            final(self).book_of(card).asks == old(self).book_of(card).asks,
            forall|c: Card| c != card ==> #[trigger] final(self).book_of(c) == old(self).book_of(c),
            same_players_state(*old(self), *final(self)),
            old(self).wf() ==> final(self).wf(),
    {
        match card {
            Card::Spade => self.spades_book.last_trade = Some(price),
            Card::Club => self.clubs_book.last_trade = Some(price),
            Card::Diamond => self.diamonds_book.last_trade = Some(price),
            Card::Heart => self.hearts_book.last_trade = Some(price),
        }
        proof {
            if old(self).wf() {
                let pre = *old(self);
                let post = *self;
                assert(forall|i: int|
                    0 <= i < post.num_players() ==> post.name_at(i) == pre.name_at(i));
                assert forall|c: Card| true implies post.entries_registered(
                    #[trigger] post.book_of(c),
                ) && post.asks_covered(post.book_of(c), c) && book_wf(post.book_of(c)) by {
                    assert(post.book_of(c).bids == pre.book_of(c).bids);
                    assert(post.book_of(c).asks == pre.book_of(c).asks);
                    Self::lemma_book_ok_same_core(
                        pre,
                        post,
                        CardBookV {
                            bids: pre.book_of(c).bids,
                            asks: pre.book_of(c).asks,
                            last_trade: post.book_of(c).last_trade,
                        },
                        c,
                    );
                    assert(post.book_of(c) == CardBookV {
                        bids: pre.book_of(c).bids,
                        asks: pre.book_of(c).asks,
                        last_trade: post.book_of(c).last_trade,
                    });
                }
                assert(post.book_of(Card::Spade) == post.spades_book@);
                assert(post.book_of(Card::Club) == post.clubs_book@);
                assert(post.book_of(Card::Diamond) == post.diamonds_book@);
                assert(post.book_of(Card::Heart) == post.hearts_book@);
            }
        }
    }

    /// A snapshot of the four books with no trade attached, as broadcast
    /// on the idle tick and after dealing.
    pub fn snapshot_book(&self) -> (u: Update)
        ensures
            u.spades@ == self.spades_book@,
            u.clubs@ == self.clubs_book@,
            u.diamonds@ == self.diamonds_book@,
            u.hearts@ == self.hearts_book@,
            u.trade is None,
    {
        Update {
            spades: self.spades_book.clone(),
            clubs: self.clubs_book.clone(),
            diamonds: self.diamonds_book.clone(),
            hearts: self.hearts_book.clone(),
            trade: None,
        }
    }

    /// Admit one order against the books and answer it with a typed
    /// status. The returned update, present exactly when the order was a
    /// limit order that succeeded, is the snapshot the caller broadcasts.
    ///
    /// The contract follows `spec_outcome` case by case: refusals leave
    /// the engine untouched; a cancellation drops one resting quote; a
    /// resting order upserts one side of one book; a match transfers the
    /// resting price in points and one card of the suit from seller to
    /// buyer, records the price as the suit's last trade, and clears every
    /// book's quotes. Points and cards are conserved throughout.
    pub fn process_order(&mut self, order: Order) -> (r: (HTTPResponse, Option<Update>))
        requires
            old(self).wf(),
            old(self).points_margin_ok(),
            old(self).inv_headroom_ok(),
        ensures
            final(self).wf(),
            sum_points(final(self).player_points@) == sum_points(old(self).player_points@),
            forall|c: Card|
                #[trigger] suit_total(final(self).player_inventories@, c) == suit_total(
                    old(self).player_inventories@,
                    c,
                ),
            ({
                let pre = *old(self);
                let post = *final(self);
                let name = order.player_name@;
                match pre.spec_outcome(order.card, order.direction, order.price, name) {
                    OrderOutcome::UnknownPlayer => {
                        &&& post == pre
                        &&& r.0.status@ == "UNKNOWN_PLAYER"@
                        &&& r.1 is None
                    },
                    OrderOutcome::InvalidPrice => {
                        &&& post == pre
                        &&& r.0.status@ == "INVALID_PRICE"@
                        &&& r.1 is None
                    },
                    OrderOutcome::InsufficientFunds => {
                        &&& post == pre
                        &&& r.0.status@ == "INSUFFICIENT_FUNDS"@
                        &&& r.1 is None
                    },
                    OrderOutcome::NoInventory => {
                        &&& post == pre
                        &&& r.0.status@ == "NO_INVENTORY"@
                        &&& r.1 is None
                    },
                    OrderOutcome::SelfTrade => {
                        &&& post == pre
                        &&& r.0.status@ == "SELF_TRADE"@
                        &&& r.1 is None
                    },
                    OrderOutcome::Cancelled => {
                        &&& r.0.status@ == "SUCCESS"@
                        &&& r.0.message@ == text::spec_order_ack(order.card, order.direction, None)
                        &&& r.1 is None
                        &&& match order.direction {
                            Direction::Buy => {
                                &&& post.book_of(order.card).bids == remove_player(
                                    pre.book_of(order.card).bids,
                                    name,
                                )
                                &&& post.book_of(order.card).asks == pre.book_of(order.card).asks
                            },
                            Direction::Sell => {
                                &&& post.book_of(order.card).asks == remove_player(
                                    pre.book_of(order.card).asks,
                                    name,
                                )
                                &&& post.book_of(order.card).bids == pre.book_of(order.card).bids
                            },
                        }
                        &&& post.book_of(order.card).last_trade == pre.book_of(
                            order.card,
                        ).last_trade
                        &&& forall|c: Card|
                            c != order.card ==> #[trigger] post.book_of(c) == pre.book_of(c)
                        &&& same_players_state(pre, post)
                    },
                    OrderOutcome::Rested => {
                        &&& r.0.status@ == "SUCCESS"@
                        &&& r.0.message@ == text::spec_order_ack(
                            order.card,
                            order.direction,
                            order.price,
                        )
                        &&& match order.direction {
                            Direction::Buy => {
                                &&& post.book_of(order.card).bids == upsert_bid(
                                    pre.book_of(order.card).bids,
                                    order.price->0 as int,
                                    name,
                                )
                                &&& post.book_of(order.card).asks == pre.book_of(order.card).asks
                            },
                            Direction::Sell => {
                                &&& post.book_of(order.card).asks == upsert_ask(
                                    pre.book_of(order.card).asks,
                                    order.price->0 as int,
                                    name,
                                )
                                &&& post.book_of(order.card).bids == pre.book_of(order.card).bids
                            },
                        }
                        &&& post.book_of(order.card).last_trade == pre.book_of(
                            order.card,
                        ).last_trade
                        &&& forall|c: Card|
                            c != order.card ==> #[trigger] post.book_of(c) == pre.book_of(c)
                        &&& same_players_state(pre, post)
                        &&& (r.1 matches Some(u) && {
                            &&& u.spades@ == post.spades_book@
                            &&& u.clubs@ == post.clubs_book@
                            &&& u.diamonds@ == post.diamonds_book@
                            &&& u.hearts@ == post.hearts_book@
                            &&& u.trade is None
                        })
                    },
                    OrderOutcome::Traded => {
                        let pstar = pre.resting_price(order.card, order.direction);
                        let cp = pre.resting_player(order.card, order.direction);
                        let buyer = if order.direction is Buy {
                            name
                        } else {
                            cp
                        };
                        let seller = if order.direction is Buy {
                            cp
                        } else {
                            name
                        };
                        let bi = pre.player_index(buyer);
                        let si = pre.player_index(seller);
                        &&& r.0.status@ == "SUCCESS"@
                        &&& r.0.message@ == text::spec_order_ack(
                            order.card,
                            order.direction,
                            order.price,
                        )
                        &&& 1 <= pstar <= 99
                        &&& bi != si
                        &&& 0 <= bi < pre.num_players() && 0 <= si < pre.num_players()
                        &&& pre.player_inventories@[si].spec_get(order.card) >= 1
                        &&& post.player_points@ == pre.player_points@.update(
                            bi,
                            (pre.player_points@[bi] - pstar) as i32,
                        ).update(si, (pre.player_points@[si] + pstar) as i32)
                        &&& post.player_inventories@ == pre.player_inventories@.update(
                            bi,
                            pre.player_inventories@[bi].spec_set(
                                order.card,
                                (pre.player_inventories@[bi].spec_get(order.card) + 1) as usize,
                            ),
                        ).update(
                            si,
                            pre.player_inventories@[si].spec_set(
                                order.card,
                                (pre.player_inventories@[si].spec_get(order.card) - 1) as usize,
                            ),
                        )
                        &&& forall|c: Card|
                            (#[trigger] post.book_of(c)).bids.len() == 0 && post.book_of(
                                c,
                            ).asks.len() == 0
                        &&& post.book_of(order.card).last_trade == Some(pstar)
                        &&& forall|c: Card|
                            c != order.card ==> (#[trigger] post.book_of(c)).last_trade
                                == pre.book_of(c).last_trade
                        &&& post.player_names == pre.player_names
                        &&& post.initial_points == pre.initial_points
                        &&& post.pot == pre.pot
                        &&& post.ante == pre.ante
                        &&& post.goal_suit == pre.goal_suit
                        &&& post.common_suit == pre.common_suit
                        &&& post.starting_balance == pre.starting_balance
                        &&& post.starting_inventory == pre.starting_inventory
                        &&& (r.1 matches Some(u) && {
                            &&& u.spades@ == post.spades_book@
                            &&& u.clubs@ == post.clubs_book@
                            &&& u.diamonds@ == post.diamonds_book@
                            &&& u.hearts@ == post.hearts_book@
                            &&& (u.trade matches Some(t) && {
                                &&& t.card == order.card
                                &&& t.price == pstar
                                &&& t.buyer@ == buyer
                                &&& t.seller@ == seller
                            })
                        })
                    },
                }
            }),
    {
        let ghost pre = *old(self);
        let idx_opt = self.find_player(&order.player_name);
        if idx_opt.is_none() {
            return (
                HTTPResponse {
                    status: String::from_str("UNKNOWN_PLAYER"),
                    message: String::from_str(
                        "Player does not exist. Please post to /register_testnet first with your chosen playerid in the headers and no body. You can choose anything on the testnet",
                    ),
                },
                None,
            );
        }
        let i = idx_opt.unwrap();
        proof {
            self.lemma_index_unique(i as int, order.player_name@);
        }
        let p = match order.price {
            None => {
                // a cancellation: drop the player's resting quote on this side
                let ack = text::order_ack(&order.card, &order.direction, None);
                match order.direction {
                    Direction::Buy => {
                        self.cancel_bid_on(order.card, order.player_name);
                    },
                    Direction::Sell => {
                        self.cancel_ask_on(order.card, order.player_name);
                    },
                }
                return (
                    HTTPResponse { status: String::from_str("SUCCESS"), message: ack },
                    None,
                );
            },
            Some(p) => p,
        };
        if p < 1 || p > 99 {
            return (
                HTTPResponse {
                    status: String::from_str("INVALID_PRICE"),
                    message: String::from_str(
                        "For the price, please send a number between 0 and 99",
                    ),
                },
                None,
            );
        }
        match order.direction {
            Direction::Buy => {
                if self.player_points[i] < p as i32 {
                    return (
                        HTTPResponse {
                            status: String::from_str("INSUFFICIENT_FUNDS"),
                            message: String::from_str(
                                "You don't have enough points to buy this card!",
                            ),
                        },
                        None,
                    );
                }
                let best = self.best_ask_entry(order.card);
                match best {
                    Some((pstar, seller)) => {
                        if p >= pstar {
                            if order.player_name == seller {
                                return (
                                    HTTPResponse {
                                        status: String::from_str("SELF_TRADE"),
                                        message: String::from_str(
                                            "You can't trade with yourself!",
                                        ),
                                    },
                                    None,
                                );
                            }
                            let u = self.execute_trade(order.card, i, pstar, &seller, true);
                            let ack = text::order_ack(&order.card, &order.direction, Some(p));
                            let t = Trade {
                                card: order.card,
                                price: pstar,
                                buyer: order.player_name,
                                seller,
                            };
                            let full = Update {
                                spades: u.spades,
                                clubs: u.clubs,
                                diamonds: u.diamonds,
                                hearts: u.hearts,
                                trade: Some(t),
                            };
                            return (
                                HTTPResponse { status: String::from_str("SUCCESS"), message: ack },
                                Some(full),
                            );
                        } else {
                            self.upsert_bid_on(order.card, p, order.player_name.clone());
                            let ack = text::order_ack(&order.card, &order.direction, Some(p));
                            let u = self.snapshot_book();
                            return (
                                HTTPResponse { status: String::from_str("SUCCESS"), message: ack },
                                Some(u),
                            );
                        }
                    },
                    None => {
                        self.upsert_bid_on(order.card, p, order.player_name.clone());
                        let ack = text::order_ack(&order.card, &order.direction, Some(p));
                        let u = self.snapshot_book();
                        return (
                            HTTPResponse { status: String::from_str("SUCCESS"), message: ack },
                            Some(u),
                        );
                    },
                }
            },
            Direction::Sell => {
                let holding = self.player_inventories[i].get(&order.card);
                if holding == 0 {
                    let mut msg = String::from_str("Card: ");
                    let cname = order.card.to_string();
                    msg.append(cname.as_str());
                    msg.append(", You don't have enough inventory to place this trade");
                    return (
                        HTTPResponse { status: String::from_str("NO_INVENTORY"), message: msg },
                        None,
                    );
                }
                let best = self.best_bid_entry(order.card);
                match best {
                    Some((pstar, buyer)) => {
                        if p <= pstar {
                            if order.player_name == buyer {
                                return (
                                    HTTPResponse {
                                        status: String::from_str("SELF_TRADE"),
                                        message: String::from_str(
                                            "You can't trade with yourself!",
                                        ),
                                    },
                                    None,
                                );
                            }
                            let u = self.execute_trade(order.card, i, pstar, &buyer, false);
                            let ack = text::order_ack(&order.card, &order.direction, Some(p));
                            let t = Trade {
                                card: order.card,
                                price: pstar,
                                buyer,
                                seller: order.player_name,
                            };
                            let full = Update {
                                spades: u.spades,
                                clubs: u.clubs,
                                diamonds: u.diamonds,
                                hearts: u.hearts,
                                trade: Some(t),
                            };
                            return (
                                HTTPResponse { status: String::from_str("SUCCESS"), message: ack },
                                Some(full),
                            );
                        } else {
                            self.upsert_ask_on(order.card, p, order.player_name.clone());
                            let ack = text::order_ack(&order.card, &order.direction, Some(p));
                            let u = self.snapshot_book();
                            return (
                                HTTPResponse { status: String::from_str("SUCCESS"), message: ack },
                                Some(u),
                            );
                        }
                    },
                    None => {
                        self.upsert_ask_on(order.card, p, order.player_name.clone());
                        let ack = text::order_ack(&order.card, &order.direction, Some(p));
                        let u = self.snapshot_book();
                        return (
                            HTTPResponse { status: String::from_str("SUCCESS"), message: ack },
                            Some(u),
                        );
                    },
                }
            },
        }
    }

    /// Clear every book fully, quotes and last-trade prices, as a round
    /// start does.
    fn reset_all_full(&mut self)
        ensures
            forall|c: Card|
                {
                    &&& (#[trigger] final(self).book_of(c)).bids.len() == 0
                    &&& final(self).book_of(c).asks.len() == 0
                    &&& final(self).book_of(c).last_trade is None
                },
            same_players_state(*old(self), *final(self)),
            old(self).lengths_ok() && old(self).names_unique() ==> final(self).wf(),
    {
        self.spades_book.reset_full_book();
        self.clubs_book.reset_full_book();
        self.diamonds_book.reset_full_book();
        self.hearts_book.reset_full_book();
        proof {
            assert forall|c: Card|
                {
                    &&& (#[trigger] self.book_of(c)).bids.len() == 0
                    &&& self.book_of(c).asks.len() == 0
                    &&& self.book_of(c).last_trade is None
                } by {
                match c {
                    Card::Spade => {},
                    Card::Club => {},
                    Card::Diamond => {},
                    Card::Heart => {},
                }
            }
            assert(self.book_of(Card::Spade) == self.spades_book@);
            assert(self.book_of(Card::Club) == self.clubs_book@);
            assert(self.book_of(Card::Diamond) == self.diamonds_book@);
            assert(self.book_of(Card::Heart) == self.hearts_book@);
            if old(self).lengths_ok() && old(self).names_unique() {
                assert(self.lengths_ok());
                assert forall|i: int, j: int|
                    0 <= i < j < self.num_players() implies self.name_at(i) != self.name_at(j) by {
                    assert(self.name_at(i) == old(self).name_at(i));
                    assert(self.name_at(j) == old(self).name_at(j));
                }
                assert(self.names_unique());
            }
        }
    }

    /// The counts the deal puts in play, fixed by the common suit and two
    /// coin flips: the common suit carries twelve cards; the flips pick
    /// which one of the other three carries eight (the first flip names
    /// the first odd-colour suit, the second the other, and the same-colour
    /// suit is left holding eight when both come up tails); the remaining
    /// two carry ten each.
    pub fn card_counts_from_draws(common: Card, first_eight: bool, second_eight: bool) -> (r:
        Inventory)
        ensures
            ({
                let (g, s1, s2) = common.spec_other_cards();
                &&& r.spec_get(common) == 12
                &&& first_eight ==> r.spec_get(s1) == 8 && r.spec_get(s2) == 10 && r.spec_get(g)
                    == 10
                &&& !first_eight && second_eight ==> r.spec_get(s1) == 10 && r.spec_get(s2) == 8
                    && r.spec_get(g) == 10
                &&& !first_eight && !second_eight ==> r.spec_get(s1) == 10 && r.spec_get(s2) == 10
                    && r.spec_get(g) == 8
                &&& r.spades + r.clubs + r.diamonds + r.hearts == 40
            }),
    {
        let (g, s1, s2) = common.get_other_cards();
        let mut counts = Inventory { spades: 10, clubs: 10, diamonds: 10, hearts: 10 };
        counts.set_count(common, 12);
        if first_eight {
            counts.set_count(s1, 8);
        } else if second_eight {
            counts.set_count(s2, 8);
        } else {
            counts.set_count(g, 8);
        }
        counts
    }

    /// Derive the goal suit from the common suit, fix the deal's card
    /// counts by two coin flips, and hand every registered player the
    /// testnet deal of three cards of each suit. Returns the counts.
    pub fn get_new_inventories(&mut self) -> (r: Inventory)
        requires
            old(self).wf(),
        ensures
            final(self).wf(),
            final(self).goal_suit == old(self).common_suit.spec_goal_suit(),
            final(self).player_inventories@.len() == old(self).player_inventories@.len(),
            forall|i: int|
                0 <= i < final(self).player_inventories@.len()
                    ==> final(self).player_inventories@[i] == (Inventory {
                    spades: 3,
                    clubs: 3,
                    diamonds: 3,
                    hearts: 3,
                }),
            final(self).player_names == old(self).player_names,
            final(self).player_points == old(self).player_points,
            final(self).initial_points == old(self).initial_points,
            final(self).common_suit == old(self).common_suit,
            final(self).pot == old(self).pot,
            final(self).ante == old(self).ante,
            final(self).starting_balance == old(self).starting_balance,
            final(self).starting_inventory == old(self).starting_inventory,
            same_books(*old(self), *final(self)),
            ({
                let (g, s1, s2) = old(self).common_suit.spec_other_cards();
                &&& r.spec_get(old(self).common_suit) == 12
                &&& (r.spec_get(s1) == 8 && r.spec_get(s2) == 10 && r.spec_get(g) == 10) || (
                r.spec_get(s1) == 10 && r.spec_get(s2) == 8 && r.spec_get(g) == 10) || (r.spec_get(
                    s1,
                ) == 10 && r.spec_get(s2) == 10 && r.spec_get(g) == 8)
                &&& r.spades + r.clubs + r.diamonds + r.hearts == 40
            }),
    {
        let goal = self.common_suit.get_goal_suit();
        self.goal_suit = goal;
        let first_eight = rng::coin_flip();
        let second_eight = rng::coin_flip();
        let counts = Self::card_counts_from_draws(self.common_suit, first_eight, second_eight);
        let n = self.player_names.len();
        let mut i: usize = 0;
        while i < n
            invariant
                i <= n,
                self.player_inventories@.len() == old(self).player_inventories@.len(),
                n <= self.player_inventories@.len(),
                forall|j: int|
                    0 <= j < i ==> self.player_inventories@[j] == (Inventory {
                        spades: 3,
                        clubs: 3,
                        diamonds: 3,
                        hearts: 3,
                    }),
                self.player_names == old(self).player_names,
                self.player_points == old(self).player_points,
                self.initial_points == old(self).initial_points,
                self.spades_book == old(self).spades_book,
                self.clubs_book == old(self).clubs_book,
                self.diamonds_book == old(self).diamonds_book,
                self.hearts_book == old(self).hearts_book,
                self.goal_suit == old(self).common_suit.spec_goal_suit(),
                self.common_suit == old(self).common_suit,
                self.pot == old(self).pot,
                self.ante == old(self).ante,
                self.starting_balance == old(self).starting_balance,
                self.starting_inventory == old(self).starting_inventory,
            decreases n - i,
        {
            self.player_inventories.set(i, Inventory { spades: 3, clubs: 3, diamonds: 3, hearts: 3 });
            i = i + 1;
        }
        proof {
            let pre = *old(self);
            let post = *self;
            assert(forall|i: int|
                0 <= i < post.num_players() ==> post.name_at(i) == pre.name_at(i));
            assert forall|i: int, j: int|
                0 <= i < j < post.num_players() implies post.name_at(i) != post.name_at(j) by {
                assert(pre.name_at(i) != pre.name_at(j));
            }
            assert forall|c: Card| true implies post.entries_registered(#[trigger] post.book_of(c))
                && post.asks_covered(post.book_of(c), c) && book_wf(post.book_of(c)) by {
                assert(post.book_of(c) == pre.book_of(c));
                let b = post.book_of(c);
                assert forall|k: int| 0 <= k < b.bids.len() implies post.has_player(
                    #[trigger] b.bids[k].player,
                ) by {
                    let w = pre.player_index(b.bids[k].player);
                    assert(post.name_at(w) == b.bids[k].player);
                }
                assert forall|k: int| 0 <= k < b.asks.len() implies post.has_player(
                    #[trigger] b.asks[k].player,
                ) && post.player_inventories@[post.player_index(b.asks[k].player)].spec_get(c)
                    >= 1 by {
                    let w = pre.player_index(b.asks[k].player);
                    assert(post.name_at(w) == b.asks[k].player);
                    post.lemma_index_unique(w, b.asks[k].player);
                    assert(post.player_inventories@[w].spec_get(c) >= 1);
                }
            }
            assert(post.book_of(Card::Spade) == post.spades_book@);
            assert(post.book_of(Card::Club) == post.clubs_book@);
            assert(post.book_of(Card::Diamond) == post.diamonds_book@);
            assert(post.book_of(Card::Heart) == post.hearts_book@);
        }
        counts
    }

    /// Open a round: seed the pot with two hundred points, snapshot every
    /// balance, collect the fifty-point ante into the pot, draw the new
    /// common suit and deal, and wipe all four books clean.
    pub fn start_round(&mut self, _round_number: usize)
        requires
            old(self).wf(),
            forall|i: int|
                0 <= i < old(self).player_points@.len() ==> i32::MIN + 50 <= #[trigger] old(self).player_points@[i],
            200 + 50 * old(self).player_names@.len() <= usize::MAX,
        ensures
            final(self).wf(),
            final(self).pot == 200 + 50 * old(self).num_players(),
            final(self).ante == 50,
            sum_points(final(self).player_points@) == sum_points(old(self).player_points@) - 50
                * old(self).num_players(),
            final(self).initial_points@ == old(self).player_points@,
            final(self).player_points@.len() == old(self).player_points@.len(),
            forall|i: int|
                0 <= i < final(self).player_points@.len() ==> #[trigger] final(self).player_points@[i] == old(self).player_points@[i] - 50,
            final(self).goal_suit == final(self).common_suit.spec_goal_suit(),
            final(self).player_inventories@.len() == old(self).player_inventories@.len(),
            forall|i: int|
                0 <= i < final(self).player_inventories@.len()
                    ==> final(self).player_inventories@[i] == (Inventory {
                    spades: 3,
                    clubs: 3,
                    diamonds: 3,
                    hearts: 3,
                }),
            forall|c: Card|
                {
                    &&& (#[trigger] final(self).book_of(c)).bids.len() == 0
                    &&& final(self).book_of(c).asks.len() == 0
                    &&& final(self).book_of(c).last_trade is None
                },
            final(self).player_names == old(self).player_names,
            final(self).starting_balance == old(self).starting_balance,
            ({
                let (g, s1, s2) = final(self).common_suit.spec_other_cards();
                let r = final(self).starting_inventory;
                &&& r.spec_get(final(self).common_suit) == 12
                &&& (r.spec_get(s1) == 8 && r.spec_get(s2) == 10 && r.spec_get(g) == 10) || (
                r.spec_get(s1) == 10 && r.spec_get(s2) == 8 && r.spec_get(g) == 10) || (r.spec_get(
                    s1,
                ) == 10 && r.spec_get(s2) == 10 && r.spec_get(g) == 8)
                &&& r.spades + r.clubs + r.diamonds + r.hearts == 40
            }),
    {
        self.pot = 200;
        self.ante = 50;
        self.initial_points = clone_points(&self.player_points);
        let n = self.player_points.len();
        let mut i: usize = 0;
        while i < n
            invariant
                i <= n,
                n == self.player_points@.len(),
                n == old(self).player_points@.len(),
                self.pot == 200 + 50 * i,
                200 + 50 * n <= usize::MAX,
                forall|j: int|
                    0 <= j < i ==> #[trigger] self.player_points@[j] == old(self).player_points@[j] - 50,
                forall|j: int|
                    i <= j < n ==> #[trigger] self.player_points@[j] == old(self).player_points@[j],
                forall|j: int|
                    0 <= j < n ==> i32::MIN + 50 <= #[trigger] old(self).player_points@[j],
                self.player_names == old(self).player_names,
                self.player_inventories == old(self).player_inventories,
                self.initial_points@ == old(self).player_points@,
                self.spades_book == old(self).spades_book,
                self.clubs_book == old(self).clubs_book,
                self.diamonds_book == old(self).diamonds_book,
                self.hearts_book == old(self).hearts_book,
                self.goal_suit == old(self).goal_suit,
                self.common_suit == old(self).common_suit,
                self.ante == 50,
                self.starting_balance == old(self).starting_balance,
                self.starting_inventory == old(self).starting_inventory,
            decreases n - i,
        {
            let p = self.player_points[i];
            self.player_points.set(i, p - 50);
            self.pot = self.pot + 50;
            i = i + 1;
        }
        proof {
            lemma_sum_points_ante(old(self).player_points@, self.player_points@, 50);
            let mid = *self;
            assert(forall|i: int|
                0 <= i < mid.num_players() ==> mid.name_at(i) == old(self).name_at(i));
            assert forall|i: int, j: int|
                0 <= i < j < mid.num_players() implies mid.name_at(i) != mid.name_at(j) by {
                assert(old(self).name_at(i) != old(self).name_at(j));
            }
            Self::lemma_book_ok_same_core(*old(self), mid, mid.spades_book@, Card::Spade);
            Self::lemma_book_ok_same_core(*old(self), mid, mid.clubs_book@, Card::Club);
            Self::lemma_book_ok_same_core(*old(self), mid, mid.diamonds_book@, Card::Diamond);
            Self::lemma_book_ok_same_core(*old(self), mid, mid.hearts_book@, Card::Heart);
            assert(mid.wf());
        }
        self.pick_new_common_suit();
        let counts = self.get_new_inventories();
        self.starting_inventory = counts;
        proof {
            let mid = *self;
            assert(forall|i: int|
                0 <= i < mid.num_players() ==> mid.name_at(i) == old(self).name_at(i));
            assert forall|i: int, j: int|
                0 <= i < j < mid.num_players() implies mid.name_at(i) != mid.name_at(j) by {
                assert(old(self).name_at(i) != old(self).name_at(j));
            }
            assert(mid.names_unique());
            assert(mid.lengths_ok());
        }
        self.reset_all_full();
    }

    /// Every player's holdings, one report row per ledger row, in
    /// registration order.
    pub fn player_inventory_list(&self) -> (r: Vec<PlayerInventory>)
        requires
            self.lengths_ok(),
        ensures
            r@.len() == self.num_players(),
            forall|i: int|
                0 <= i < r@.len() ==> {
                    let pi = #[trigger] r@[i];
                    &&& pi.player_name@ == self.name_at(i)
                    &&& pi.spades == self.player_inventories@[i].spades
                    &&& pi.clubs == self.player_inventories@[i].clubs
                    &&& pi.diamonds == self.player_inventories@[i].diamonds
                    &&& pi.hearts == self.player_inventories@[i].hearts
                },
    {
        let n = self.player_names.len();
        let mut r: Vec<PlayerInventory> = Vec::new();
        let mut i: usize = 0;
        while i < n
            invariant
                i <= n,
                n == self.num_players(),
                self.lengths_ok(),
                r@.len() == i,
                forall|j: int|
                    0 <= j < i ==> {
                        let pi = #[trigger] r@[j];
                        &&& pi.player_name@ == self.name_at(j)
                        &&& pi.spades == self.player_inventories@[j].spades
                        &&& pi.clubs == self.player_inventories@[j].clubs
                        &&& pi.diamonds == self.player_inventories@[j].diamonds
                        &&& pi.hearts == self.player_inventories@[j].hearts
                    },
            decreases n - i,
        {
            let inv = self.player_inventories[i];
            r.push(
                PlayerInventory {
                    player_name: self.player_names[i].clone(),
                    spades: inv.spades,
                    clubs: inv.clubs,
                    diamonds: inv.diamonds,
                    hearts: inv.hearts,
                },
            );
            i = i + 1;
        }
        r
    }

    /// Every player's balance, one report row per ledger row, in
    /// registration order.
    pub fn player_points_list(&self) -> (r: Vec<PlayerPoints>)
        requires
            self.lengths_ok(),
        ensures
            r@.len() == self.num_players(),
            forall|i: int|
                0 <= i < r@.len() ==> {
                    let pp = #[trigger] r@[i];
                    &&& pp.player_name@ == self.name_at(i)
                    &&& pp.points == self.player_points@[i]
                },
    {
        let n = self.player_names.len();
        let mut r: Vec<PlayerPoints> = Vec::new();
        let mut i: usize = 0;
        while i < n
            invariant
                i <= n,
                n == self.num_players(),
                self.lengths_ok(),
                r@.len() == i,
                forall|j: int|
                    0 <= j < i ==> {
                        let pp = #[trigger] r@[j];
                        &&& pp.player_name@ == self.name_at(j)
                        &&& pp.points == self.player_points@[j]
                    },
            decreases n - i,
        {
            r.push(
                PlayerPoints {
                    player_name: self.player_names[i].clone(),
                    points: self.player_points[i],
                },
            );
            i = i + 1;
        }
        r
    }

    /// The dealing broadcast: each player's own inventory, to be sent to
    /// that player alone, followed by a snapshot of the freshly cleared
    /// books for everyone.
    pub fn deal_cards(&self) -> (r: (Vec<PlayerInventory>, Update))
        requires
            self.lengths_ok(),
        ensures
            r.0@.len() == self.num_players(),
            forall|i: int|
                0 <= i < r.0@.len() ==> {
                    let pi = #[trigger] r.0@[i];
                    &&& pi.player_name@ == self.name_at(i)
                    &&& pi.spades == self.player_inventories@[i].spades
                    &&& pi.clubs == self.player_inventories@[i].clubs
                    &&& pi.diamonds == self.player_inventories@[i].diamonds
                    &&& pi.hearts == self.player_inventories@[i].hearts
                },
            r.1.spades@ == self.spades_book@,
            r.1.clubs@ == self.clubs_book@,
            r.1.diamonds@ == self.diamonds_book@,
            r.1.hearts@ == self.hearts_book@,
            r.1.trade is None,
    {
        (self.player_inventory_list(), self.snapshot_book())
    }

    /// The round-end broadcast: the dealt card counts, every player's
    /// holdings and balance, and the revealed goal and common suits.
    pub fn send_end_round_message(&self) -> (u: EndRoundUpdate)
        requires
            self.lengths_ok(),
        ensures
            u.card_count == self.starting_inventory,
            u.goal_suit == self.goal_suit,
            u.common_suit == self.common_suit,
            u.player_inventories@.len() == self.num_players(),
            forall|i: int|
                0 <= i < u.player_inventories@.len() ==> {
                    let pi = #[trigger] u.player_inventories@[i];
                    &&& pi.player_name@ == self.name_at(i)
                    &&& pi.spades == self.player_inventories@[i].spades
                    &&& pi.clubs == self.player_inventories@[i].clubs
                    &&& pi.diamonds == self.player_inventories@[i].diamonds
                    &&& pi.hearts == self.player_inventories@[i].hearts
                },
            u.player_points@.len() == self.num_players(),
            forall|i: int|
                0 <= i < u.player_points@.len() ==> {
                    let pp = #[trigger] u.player_points@[i];
                    &&& pp.player_name@ == self.name_at(i)
                    &&& pp.points == self.player_points@[i]
                },
    {
        EndRoundUpdate {
            card_count: self.starting_inventory,
            player_inventories: self.player_inventory_list(),
            player_points: self.player_points_list(),
            goal_suit: self.goal_suit,
            common_suit: self.common_suit,
        }
    }

    /// The terminal broadcast of a game; the registrations are dropped
    /// right after it is sent.
    pub fn end_game(&self) -> (m: String)
        ensures
            m@
                == "Testnet game is over. Restarting another game in 15 seconds. All player_names and player_ids will be reset so please send another post to /register_testnet to get a new player_name"@,
    {
        String::from_str(
            "Testnet game is over. Restarting another game in 15 seconds. All player_names and player_ids will be reset so please send another post to /register_testnet to get a new player_name",
        )
    }

    /// Close a round: credit every player ten points per goal-suit card
    /// held, debit the pot by the same payouts, then award the remaining
    /// pot — whole to a sole leader, or one share of it, divided by one
    /// more than the number of later ties, to each later tie, the leader
    /// and the division's remainder going unpaid, exactly the observable
    /// split the exchange always made. With no goal cards in play, the
    /// remaining pot stays where it is.
    pub fn end_round(&mut self)
        requires
            old(self).wf(),
            old(self).player_names@.len() < usize::MAX,
            10 * suit_total(old(self).player_inventories@, old(self).goal_suit) <= old(self).pot,
            old(self).pot <= i32::MAX,
            forall|i: int|
                0 <= i < old(self).player_points@.len() ==> #[trigger] old(self).player_points@[i]
                    + 10 * old(self).player_inventories@[i].spec_get(old(self).goal_suit) + old(
                    self,
                ).pot <= i32::MAX,
        ensures
            final(self).wf(),
            end_round_rel(*old(self), *final(self)),
            final(self).player_names == old(self).player_names,
            final(self).player_inventories == old(self).player_inventories,
            final(self).initial_points == old(self).initial_points,
            same_books(*old(self), *final(self)),
            final(self).goal_suit == old(self).goal_suit,
            final(self).common_suit == old(self).common_suit,
            final(self).ante == old(self).ante,
            final(self).starting_balance == old(self).starting_balance,
            final(self).starting_inventory == old(self).starting_inventory,
    {
        let ghost pre = *old(self);
        let ghost goalg = pre.goal_suit;
        let ghost paid = payout_points(pre.player_points@, pre.player_inventories@, goalg);
        let n = self.player_names.len();
        let goal = self.goal_suit;
        let mut winner: Option<usize> = None;
        let mut winner_count: usize = 0;
        let mut tied: Vec<usize> = Vec::new();
        let mut i: usize = 0;
        proof {
            assert(pre.player_inventories@.take(0) =~= Seq::<Inventory>::empty());
        }
        while i < n
            invariant
                i <= n,
                pre == *old(self),
                n == pre.num_players(),
                n < usize::MAX,
                goal == pre.goal_suit,
                goalg == pre.goal_suit,
                paid == payout_points(pre.player_points@, pre.player_inventories@, goalg),
                self.player_points@.len() == n,
                pre.player_points@.len() == n,
                pre.player_inventories@.len() == n,
                self.player_inventories == pre.player_inventories,
                self.player_names == pre.player_names,
                self.initial_points == pre.initial_points,
                self.spades_book == pre.spades_book,
                self.clubs_book == pre.clubs_book,
                self.diamonds_book == pre.diamonds_book,
                self.hearts_book == pre.hearts_book,
                self.goal_suit == pre.goal_suit,
                self.common_suit == pre.common_suit,
                self.ante == pre.ante,
                self.starting_balance == pre.starting_balance,
                self.starting_inventory == pre.starting_inventory,
                forall|j: int| 0 <= j < i ==> #[trigger] self.player_points@[j] == paid[j],
                forall|j: int|
                    i <= j < n ==> #[trigger] self.player_points@[j] == pre.player_points@[j],
                self.pot == pre.pot - 10 * suit_total(
                    pre.player_inventories@.take(i as int),
                    goalg,
                ),
                10 * suit_total(pre.player_inventories@, goalg) <= pre.pot,
                pre.pot <= i32::MAX,
                forall|j: int|
                    0 <= j < n ==> #[trigger] pre.player_points@[j] + 10
                        * pre.player_inventories@[j].spec_get(goalg) + pre.pot <= i32::MAX,
                tied@.len() <= i,
                ({
                    let s = scan_winners(pre.player_inventories@, goalg, i as int);
                    &&& (winner is None <==> s.winner is None)
                    &&& (winner matches Some(w) ==> s.winner == Some(w as int))
                    &&& winner_count == s.count
                    &&& tied@.map_values(|x: usize| x as int) == s.tied
                }),
            decreases n - i,
        {
            proof {
                lemma_suit_total_take_le(pre.player_inventories@, goalg, i as int);
                lemma_suit_total_take_le(pre.player_inventories@, goalg, i + 1);
                assert(pre.player_inventories@.take(i + 1).drop_last()
                    =~= pre.player_inventories@.take(i as int));
                assert(pre.player_inventories@.take(i + 1).last()
                    == pre.player_inventories@[i as int]);
            }
            let g = self.player_inventories[i].get(&goal);
            proof {
                assert(g == pre.player_inventories@[i as int].spec_get(goalg));
                assert(suit_total(pre.player_inventories@.take(i + 1), goalg) == suit_total(
                    pre.player_inventories@.take(i as int),
                    goalg,
                ) + g);
                assert(10 * g <= pre.pot);
                assert(paid[i as int] == (pre.player_points@[i as int] + 10
                    * pre.player_inventories@[i as int].spec_get(goalg)) as i32);
                assert(pre.player_points@[i as int] + 10 * g + pre.pot <= i32::MAX);
            }
            let ghost tied0 = tied@;
            let ghost s_here = scan_winners(pre.player_inventories@, goalg, i as int);
            let ghost s_next = scan_winners(pre.player_inventories@, goalg, i + 1);
            if g >= winner_count {
                if g == winner_count {
                    tied.push(i);
                    proof {
                        assert(tied@ == tied0.push(i));
                        assert(s_next.tied == s_here.tied.push(i as int));
                        assert(tied@.map_values(|x: usize| x as int) =~= s_next.tied);
                    }
                } else {
                    winner = Some(i);
                    winner_count = g;
                    tied = Vec::new();
                    proof {
                        assert(s_next.tied == Seq::<int>::empty());
                        assert(tied@.map_values(|x: usize| x as int) =~= s_next.tied);
                    }
                }
            } else {
                proof {
                    assert(s_next == s_here);
                }
            }
            let credit = g * 10;
            let p = self.player_points[i];
            self.player_points.set(i, p + credit as i32);
            self.pot = self.pot - credit;
            i = i + 1;
        }
        proof {
            assert(pre.player_inventories@.take(n as int) =~= pre.player_inventories@);
            assert(self.player_points@ =~= paid);
            lemma_scan_winners_props(pre.player_inventories@, goalg, n as int);
        }
        let ghost scan = scan_winners(pre.player_inventories@, goalg, n as int);
        let ghost pot1 = pre.pot - 10 * suit_total(pre.player_inventories@, goalg);
        match winner {
            None => {},
            Some(w) => {
                if tied.len() == 0 {
                    proof {
                        lemma_suit_total_nonneg(pre.player_inventories@, goalg);
                        assert(scan.tied.len() == 0) by {
                            assert(tied@.map_values(|x: usize| x as int).len() == 0);
                        }
                        assert(scan.winner == Some(w as int));
                        assert(w < n);
                        assert(self.pot == pot1);
                        assert(pre.player_points@[w as int] + 10
                            * pre.player_inventories@[w as int].spec_get(goalg) + pre.pot
                            <= i32::MAX);
                        assert(paid[w as int] == (pre.player_points@[w as int] + 10
                            * pre.player_inventories@[w as int].spec_get(goalg)) as i32);
                        assert(self.player_points@[w as int] == paid[w as int]);
                        assert(paid[w as int] + pot1 <= i32::MAX);
                    }
                    let p = self.player_points[w];
                    self.player_points.set(w, p + self.pot as i32);
                } else {
                    let m = tied.len();
                    let split = self.pot / (m + 1);
                    proof {
                        assert(scan.winner == Some(w as int));
                        assert(scan.tied.len() == m);
                        assert(self.pot == pot1);
                        assert(split <= pot1 && split >= 0) by (nonlinear_arith)
                            requires
                                split == pot1 / (m + 1),
                                pot1 >= 0,
                                m >= 0,
                        ;
                        lemma_suit_total_nonneg(pre.player_inventories@, goalg);
                        assert forall|a: int|
                            0 <= a < scan.tied.len() implies paid[#[trigger] scan.tied[a]] + split
                            <= i32::MAX by {
                            let t = scan.tied[a];
                            assert(pre.player_inventories@[t].spec_get(goalg) == scan.count);
                            assert(pre.player_points@[t] + 10 * pre.player_inventories@[t].spec_get(
                                goalg,
                            ) + pre.pot <= i32::MAX);
                            assert(paid[t] == (pre.player_points@[t] + 10
                                * pre.player_inventories@[t].spec_get(goalg)) as i32);
                        }
                        assert(scan.tied.take(0) =~= Seq::<int>::empty());
                    }
                    let mut k: usize = 0;
                    while k < m
                        invariant
                            k <= m,
                            pre == *old(self),
                            goalg == pre.goal_suit,
                            paid == payout_points(
                                pre.player_points@,
                                pre.player_inventories@,
                                goalg,
                            ),
                            scan == scan_winners(pre.player_inventories@, goalg, n as int),
                            pot1 == pre.pot - 10 * suit_total(pre.player_inventories@, goalg),
                            split as int == pot1 / (m as int + 1),
                            m == tied@.len(),
                            m == scan.tied.len(),
                            n == pre.num_players(),
                            self.player_points@.len() == n,
                            tied@.map_values(|x: usize| x as int) == scan.tied,
                            paid.len() == n,
                            pre.player_points@.len() == n,
                            pre.player_inventories@.len() == n,
                            forall|a: int|
                                0 <= a < scan.tied.len() ==> 0 <= #[trigger] scan.tied[a] < n,
                            forall|a: int, b: int|
                                0 <= a < b < scan.tied.len() ==> scan.tied[a] < scan.tied[b],
                            forall|a: int|
                                0 <= a < scan.tied.len() ==> paid[#[trigger] scan.tied[a]] + split
                                    <= i32::MAX,
                            0 <= split <= i32::MAX,
                            self.player_points@ == add_split(
                                paid,
                                scan.tied.take(k as int),
                                split as int,
                            ),
                            self.player_inventories == pre.player_inventories,
                            self.player_names == pre.player_names,
                            self.initial_points == pre.initial_points,
                            self.spades_book == pre.spades_book,
                            self.clubs_book == pre.clubs_book,
                            self.diamonds_book == pre.diamonds_book,
                            self.hearts_book == pre.hearts_book,
                            self.goal_suit == pre.goal_suit,
                            self.common_suit == pre.common_suit,
                            self.ante == pre.ante,
                            self.pot == pot1,
                            self.starting_balance == pre.starting_balance,
                            self.starting_inventory == pre.starting_inventory,
                        decreases m - k,
                    {
                        proof {
                            lemma_add_split_props(paid, scan.tied.take(k as int), split as int);
                            assert(forall|a: int|
                                0 <= a < k ==> scan.tied.take(k as int)[a] == #[trigger] scan.tied[a]);
                            assert(!scan.tied.take(k as int).contains(scan.tied[k as int])) by {
                                if scan.tied.take(k as int).contains(scan.tied[k as int]) {
                                    let a = choose|a: int|
                                        0 <= a < k && scan.tied.take(k as int)[a] == scan.tied[k as int];
                                    assert(scan.tied[a] < scan.tied[k as int]);
                                }
                            }
                            assert(scan.tied.take(k + 1).drop_last() =~= scan.tied.take(k as int));
                            assert(scan.tied.take(k + 1).last() == scan.tied[k as int]);
                        }
                        let t = tied[k];
                        proof {
                            assert(tied@.map_values(|x: usize| x as int)[k as int] == scan.tied[k as int]);
                            assert(t as int == scan.tied[k as int]);
                            assert(self.player_points@[t as int] == paid[t as int]);
                        }
                        let p = self.player_points[t];
                        self.player_points.set(t, p + split as i32);
                        proof {
                            assert(self.player_points@ =~= add_split(
                                paid,
                                scan.tied.take(k + 1),
                                split as int,
                            ));
                        }
                        k = k + 1;
                    }
                    proof {
                        assert(scan.tied.take(m as int) =~= scan.tied);
                    }
                }
            },
        }
        proof {
            let post = *self;
            assert(forall|i: int|
                0 <= i < post.num_players() ==> post.name_at(i) == pre.name_at(i));
            assert forall|i: int, j: int|
                0 <= i < j < post.num_players() implies post.name_at(i) != post.name_at(j) by {
                assert(pre.name_at(i) != pre.name_at(j));
            }
            Self::lemma_book_ok_same_core(pre, post, post.spades_book@, Card::Spade);
            Self::lemma_book_ok_same_core(pre, post, post.clubs_book@, Card::Club);
            Self::lemma_book_ok_same_core(pre, post, post.diamonds_book@, Card::Diamond);
            Self::lemma_book_ok_same_core(pre, post, post.hearts_book@, Card::Heart);
            assert(post.wf());
            assert(end_round_rel(pre, post));
        }
    }

    /// Settle a match: move one card of the suit and the resting price in
    /// points from the seller to the buyer, record the last trade, and
    /// clear every book's quotes. `own_idx` is the aggressor's ledger row;
    /// `other` names the resting party; `aggressor_buys` tells who buys.
    fn execute_trade(
        &mut self,
        card: Card,
        own_idx: usize,
        pstar: usize,
        other: &String,
        aggressor_buys: bool,
    ) -> (u: Update)
        requires
            old(self).wf(),
            old(self).points_margin_ok(),
            old(self).inv_headroom_ok(),
            own_idx < old(self).num_players(),
            old(self).name_at(own_idx as int) != other@,
            old(self).has_player(other@),
            1 <= pstar <= 99,
            ({
                let pre = *old(self);
                let buyer = if aggressor_buys {
                    pre.name_at(own_idx as int)
                } else {
                    other@
                };
                let seller = if aggressor_buys {
                    other@
                } else {
                    pre.name_at(own_idx as int)
                };
                pre.player_inventories@[pre.player_index(seller)].spec_get(card) >= 1
            }),
        ensures
            final(self).wf(),
            sum_points(final(self).player_points@) == sum_points(old(self).player_points@),
            forall|c: Card|
                #[trigger] suit_total(final(self).player_inventories@, c) == suit_total(
                    old(self).player_inventories@,
                    c,
                ),
            ({
                let pre = *old(self);
                let post = *final(self);
                let buyer = if aggressor_buys {
                    pre.name_at(own_idx as int)
                } else {
                    other@
                };
                let seller = if aggressor_buys {
                    other@
                } else {
                    pre.name_at(own_idx as int)
                };
                let bi = pre.player_index(buyer);
                let si = pre.player_index(seller);
                &&& bi != si
                &&& 0 <= bi < pre.num_players() && 0 <= si < pre.num_players()
                &&& post.player_points@ == pre.player_points@.update(
                    bi,
                    (pre.player_points@[bi] - pstar) as i32,
                ).update(si, (pre.player_points@[si] + pstar) as i32)
                &&& post.player_inventories@ == pre.player_inventories@.update(
                    bi,
                    pre.player_inventories@[bi].spec_set(
                        card,
                        (pre.player_inventories@[bi].spec_get(card) + 1) as usize,
                    ),
                ).update(
                    si,
                    pre.player_inventories@[si].spec_set(
                        card,
                        (pre.player_inventories@[si].spec_get(card) - 1) as usize,
                    ),
                )
                &&& forall|c: Card|
                    (#[trigger] post.book_of(c)).bids.len() == 0 && post.book_of(c).asks.len() == 0
                &&& post.book_of(card).last_trade == Some(pstar as int)
                &&& forall|c: Card|
                    c != card ==> (#[trigger] post.book_of(c)).last_trade == pre.book_of(
                        c,
                    ).last_trade
                &&& post.player_names == pre.player_names
                &&& post.initial_points == pre.initial_points
                &&& post.pot == pre.pot
                &&& post.ante == pre.ante
                &&& post.goal_suit == pre.goal_suit
                &&& post.common_suit == pre.common_suit
                &&& post.starting_balance == pre.starting_balance
                &&& post.starting_inventory == pre.starting_inventory
                &&& u.spades@ == post.spades_book@
                &&& u.clubs@ == post.clubs_book@
                &&& u.diamonds@ == post.diamonds_book@
                &&& u.hearts@ == post.hearts_book@
                &&& u.trade is None
            }),
    {
        let ghost pre = *old(self);
        let other_opt = self.find_player(other);
        let oi = other_opt.unwrap();
        proof {
            self.lemma_index_unique(oi as int, other@);
            self.lemma_index_unique(own_idx as int, pre.name_at(own_idx as int));
        }
        let (bi, si) = if aggressor_buys {
            (own_idx, oi)
        } else {
            (oi, own_idx)
        };
        // one card of the suit moves from the seller to the buyer
        let mut binv = self.player_inventories[bi];
        binv.change(card, true);
        self.player_inventories.set(bi, binv);
        let mut sinv = self.player_inventories[si];
        sinv.change(card, false);
        self.player_inventories.set(si, sinv);
        // the resting price moves from the buyer to the seller
        let bp = self.player_points[bi];
        self.player_points.set(bi, bp - pstar as i32);
        let sp = self.player_points[si];
        self.player_points.set(si, sp + pstar as i32);
        // the book remembers the price; every book's quotes are cleared
        self.set_last_trade_on(card, pstar);
        proof {
            assert(self.player_names == pre.player_names);
            assert forall|i: int, j: int|
                0 <= i < j < self.num_players() implies self.name_at(i) != self.name_at(j) by {
                assert(self.name_at(i) == pre.name_at(i));
                assert(self.name_at(j) == pre.name_at(j));
                assert(pre.name_at(i) != pre.name_at(j));
            }
            assert(self.names_unique());
            assert(self.lengths_ok());
        }
        self.reset_all_quotes();
        proof {
            lemma_sum_points_update(pre.player_points@, bi as int, (pre.player_points@[bi as int]
                - pstar) as i32);
            lemma_sum_points_update(
                pre.player_points@.update(bi as int, (pre.player_points@[bi as int] - pstar) as i32),
                si as int,
                (pre.player_points@[si as int] + pstar) as i32,
            );
            let binv1 = pre.player_inventories@[bi as int].spec_set(
                card,
                (pre.player_inventories@[bi as int].spec_get(card) + 1) as usize,
            );
            let sinv1 = pre.player_inventories@[si as int].spec_set(
                card,
                (pre.player_inventories@[si as int].spec_get(card) - 1) as usize,
            );
            assert forall|c: Card|
                #[trigger] suit_total(self.player_inventories@, c) == suit_total(
                    pre.player_inventories@,
                    c,
                ) by {
                lemma_suit_total_update(pre.player_inventories@, bi as int, binv1, c);
                lemma_suit_total_update(
                    pre.player_inventories@.update(bi as int, binv1),
                    si as int,
                    sinv1,
                    c,
                );
            }
        }
        self.snapshot_book()
    }
}

} // verus!
