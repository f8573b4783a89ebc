use figgie::matching::{Card, Direction, Inventory, Order};
use figgie::matching_engine::{MatchingEngine, STARTING_BALANCE};

fn testnet_inventory() -> Inventory {
    Inventory {
        spades: 3,
        clubs: 3,
        diamonds: 3,
        hearts: 3,
    }
}

/// Two registered players, a round on with clubs common (spades the goal),
/// fresh balances and empty books — the footing every scenario starts on.
fn two_player_round() -> MatchingEngine {
    let mut engine = MatchingEngine::new(STARTING_BALANCE);
    engine.add_new_player_with_inventory("Alice".to_string(), testnet_inventory());
    engine.add_new_player_with_inventory("Bob".to_string(), testnet_inventory());
    engine.common_suit = Card::Club;
    engine.goal_suit = Card::Spade;
    engine.pot = 300;
    engine.ante = 50;
    engine
}

fn limit(player: &str, card: Card, direction: Direction, price: usize) -> Order {
    Order {
        player_name: player.to_string(),
        card,
        direction,
        price: Some(price),
    }
}

fn cancel(player: &str, card: Card, direction: Direction) -> Order {
    Order {
        player_name: player.to_string(),
        card,
        direction,
        price: None,
    }
}

#[test]
fn resting_bid_then_uncrossed_ask() {
    let mut engine = two_player_round();
    let (resp, update) = engine.process_order(limit("Alice", Card::Spade, Direction::Buy, 20));
    assert_eq!(resp.status, "SUCCESS");
    assert_eq!(resp.message, "spade,buy,20");
    assert_eq!(engine.spades_book.bids.len(), 1);
    assert_eq!(engine.spades_book.bids[0].price, 20);
    assert_eq!(engine.spades_book.bids[0].player_name, "Alice");
    let u = update.expect("a resting order broadcasts an update");
    assert!(u.trade.is_none());

    let (resp, update) = engine.process_order(limit("Bob", Card::Spade, Direction::Sell, 30));
    assert_eq!(resp.status, "SUCCESS");
    assert_eq!(engine.spades_book.asks.len(), 1);
    assert_eq!(engine.spades_book.asks[0].price, 30);
    assert_eq!(engine.spades_book.asks[0].player_name, "Bob");
    // 20 bid against 30 ask does not cross
    assert_eq!(engine.spades_book.bids.len(), 1);
    assert_eq!(engine.spades_book.last_trade, None);
    let u = update.expect("a resting order broadcasts an update");
    assert!(u.trade.is_none());
}

#[test]
fn crossing_buy_trades_at_resting_price() {
    let mut engine = two_player_round();
    engine.process_order(limit("Alice", Card::Spade, Direction::Buy, 20));
    engine.process_order(limit("Bob", Card::Spade, Direction::Sell, 30));

    let (resp, update) = engine.process_order(limit("Alice", Card::Spade, Direction::Buy, 35));
    assert_eq!(resp.status, "SUCCESS");
    assert_eq!(resp.message, "spade,buy,35");
    // price improvement: the resting ask's 30, not the 35 limit
    assert_eq!(engine.player_points, vec![470, 530]);
    assert_eq!(engine.player_inventories[0].spades, 4);
    assert_eq!(engine.player_inventories[1].spades, 2);
    // every book's quotes are wiped; only the traded suit records a price
    assert!(engine.spades_book.bids.is_empty() && engine.spades_book.asks.is_empty());
    assert!(engine.clubs_book.bids.is_empty() && engine.clubs_book.asks.is_empty());
    assert!(engine.diamonds_book.bids.is_empty() && engine.diamonds_book.asks.is_empty());
    assert!(engine.hearts_book.bids.is_empty() && engine.hearts_book.asks.is_empty());
    assert_eq!(engine.spades_book.last_trade, Some(30));
    assert_eq!(engine.clubs_book.last_trade, None);

    let u = update.expect("a trade broadcasts an update");
    let t = u.trade.expect("the update names the trade");
    assert_eq!(t.card, Card::Spade);
    assert_eq!(t.price, 30);
    assert_eq!(t.buyer, "Alice");
    assert_eq!(t.seller, "Bob");
}

#[test]
fn crossing_sell_trades_at_resting_bid() {
    let mut engine = two_player_round();
    engine.process_order(limit("Alice", Card::Heart, Direction::Buy, 40));
    let (resp, update) = engine.process_order(limit("Bob", Card::Heart, Direction::Sell, 35));
    assert_eq!(resp.status, "SUCCESS");
    assert_eq!(engine.player_points, vec![460, 540]);
    assert_eq!(engine.player_inventories[0].hearts, 4);
    assert_eq!(engine.player_inventories[1].hearts, 2);
    assert_eq!(engine.hearts_book.last_trade, Some(40));
    let t = update.unwrap().trade.unwrap();
    assert_eq!(t.buyer, "Alice");
    assert_eq!(t.seller, "Bob");
    assert_eq!(t.price, 40);
}

#[test]
fn self_trade_rejected_and_state_unchanged() {
    let mut engine = two_player_round();
    let (resp, _) = engine.process_order(limit("Alice", Card::Club, Direction::Sell, 10));
    assert_eq!(resp.status, "SUCCESS");

    let (resp, update) = engine.process_order(limit("Alice", Card::Club, Direction::Buy, 15));
    assert_eq!(resp.status, "SELF_TRADE");
    assert!(update.is_none());
    assert_eq!(engine.player_points, vec![500, 500]);
    assert_eq!(engine.player_inventories[0], testnet_inventory());
    assert_eq!(engine.clubs_book.asks.len(), 1);
    assert_eq!(engine.clubs_book.asks[0].price, 10);
    assert_eq!(engine.clubs_book.asks[0].player_name, "Alice");
}

#[test]
fn insufficient_funds_rejected() {
    let mut engine = two_player_round();
    engine.player_points[0] = 5;
    let (resp, update) = engine.process_order(limit("Alice", Card::Heart, Direction::Buy, 50));
    assert_eq!(resp.status, "INSUFFICIENT_FUNDS");
    assert!(update.is_none());
    assert_eq!(engine.player_points[0], 5);
    assert!(engine.hearts_book.bids.is_empty());
}

#[test]
fn sell_without_inventory_rejected() {
    let mut engine = two_player_round();
    engine.player_inventories[0].diamonds = 0;
    let (resp, update) = engine.process_order(limit("Alice", Card::Diamond, Direction::Sell, 50));
    assert_eq!(resp.status, "NO_INVENTORY");
    assert!(update.is_none());
    assert!(engine.diamonds_book.asks.is_empty());
}

#[test]
fn cancel_with_no_resting_quote_is_success_no_op() {
    let mut engine = two_player_round();
    let (resp, update) = engine.process_order(cancel("Alice", Card::Heart, Direction::Buy));
    assert_eq!(resp.status, "SUCCESS");
    assert!(update.is_none());
    assert!(engine.hearts_book.bids.is_empty());
    assert!(engine.hearts_book.asks.is_empty());
    assert_eq!(engine.player_points, vec![500, 500]);
}

#[test]
fn cancel_removes_the_resting_quote() {
    let mut engine = two_player_round();
    engine.process_order(limit("Alice", Card::Heart, Direction::Buy, 20));
    engine.process_order(limit("Bob", Card::Heart, Direction::Sell, 60));
    let (resp, _) = engine.process_order(cancel("Alice", Card::Heart, Direction::Buy));
    assert_eq!(resp.status, "SUCCESS");
    assert!(engine.hearts_book.bids.is_empty());
    // the ask side is untouched by a bid cancellation
    assert_eq!(engine.hearts_book.asks.len(), 1);
}

#[test]
fn unknown_player_rejected() {
    let mut engine = two_player_round();
    let (resp, update) = engine.process_order(limit("Zed", Card::Spade, Direction::Buy, 20));
    assert_eq!(resp.status, "UNKNOWN_PLAYER");
    assert!(update.is_none());
}

#[test]
fn out_of_range_price_rejected_by_engine() {
    let mut engine = two_player_round();
    let (resp, _) = engine.process_order(limit("Alice", Card::Spade, Direction::Buy, 0));
    assert_eq!(resp.status, "INVALID_PRICE");
    let (resp, _) = engine.process_order(limit("Alice", Card::Spade, Direction::Buy, 100));
    assert_eq!(resp.status, "INVALID_PRICE");
    assert!(engine.spades_book.bids.is_empty());
}

#[test]
fn funds_checked_against_limit_price_debited_at_resting() {
    // a crossing buy at limit 50 against a resting 30 ask is checked
    // against 50 but debited 30
    let mut engine = two_player_round();
    engine.process_order(limit("Bob", Card::Spade, Direction::Sell, 30));
    engine.player_points[0] = 40;
    let (resp, _) = engine.process_order(limit("Alice", Card::Spade, Direction::Buy, 50));
    assert_eq!(resp.status, "INSUFFICIENT_FUNDS");
    engine.player_points[0] = 50;
    let (resp, _) = engine.process_order(limit("Alice", Card::Spade, Direction::Buy, 50));
    assert_eq!(resp.status, "SUCCESS");
    assert_eq!(engine.player_points[0], 20);
}

#[test]
fn points_and_cards_conserved_across_trades() {
    let mut engine = two_player_round();
    engine.process_order(limit("Alice", Card::Spade, Direction::Buy, 20));
    engine.process_order(limit("Bob", Card::Spade, Direction::Sell, 20));
    engine.process_order(limit("Bob", Card::Diamond, Direction::Buy, 7));
    engine.process_order(limit("Alice", Card::Diamond, Direction::Sell, 3));
    let total: i32 = engine.player_points.iter().sum();
    assert_eq!(total, 1000);
    let spades: usize = engine.player_inventories.iter().map(|i| i.spades).sum();
    let diamonds: usize = engine.player_inventories.iter().map(|i| i.diamonds).sum();
    assert_eq!(spades, 6);
    assert_eq!(diamonds, 6);
}

#[test]
fn start_round_seeds_pot_and_deals() {
    let mut engine = MatchingEngine::new(STARTING_BALANCE);
    engine.add_new_player_with_inventory("Alice".to_string(), testnet_inventory());
    engine.add_new_player_with_inventory("Bob".to_string(), testnet_inventory());
    engine.spades_book.update_bid(20, "Alice".to_string());
    engine.spades_book.last_trade = Some(44);
    engine.start_round(0);
    assert_eq!(engine.pot, 300);
    assert_eq!(engine.ante, 50);
    assert_eq!(engine.player_points, vec![450, 450]);
    assert_eq!(engine.initial_points, vec![500, 500]);
    assert_eq!(engine.player_inventories[0], testnet_inventory());
    assert_eq!(engine.player_inventories[1], testnet_inventory());
    assert!(engine.spades_book.bids.is_empty());
    assert_eq!(engine.spades_book.last_trade, None);
    assert_eq!(engine.goal_suit, engine.common_suit.get_goal_suit());
    // the deal: twelve of the common suit, one suit of eight, two of ten
    let counts = engine.starting_inventory;
    assert_eq!(counts.get(&engine.common_suit), 12);
    let (g, s1, s2) = engine.common_suit.get_other_cards();
    let mut others = vec![counts.get(&g), counts.get(&s1), counts.get(&s2)];
    others.sort();
    assert_eq!(others, vec![8, 10, 10]);
    assert_eq!(counts.spades + counts.clubs + counts.diamonds + counts.hearts, 40);
}

#[test]
fn end_round_sole_leader_takes_the_pot() {
    let mut engine = two_player_round();
    engine.player_inventories[0].spades = 4;
    engine.player_inventories[1].spades = 2;
    engine.player_points = vec![450, 450];
    engine.end_round();
    // payouts 40 and 20 leave 240 in the pot, all of it to Alice
    assert_eq!(engine.pot, 240);
    assert_eq!(engine.player_points, vec![450 + 40 + 240, 450 + 20]);
}

#[test]
fn end_round_tie_splits_by_one_more_than_the_ties() {
    let mut engine = two_player_round();
    // both hold three spades: Alice leads, Bob is the one later tie
    engine.player_points = vec![450, 450];
    engine.end_round();
    // payouts 30 each leave 240; Bob receives 240 / 2, Alice nothing more
    assert_eq!(engine.pot, 240);
    assert_eq!(engine.player_points, vec![480, 480 + 120]);
}

#[test]
fn end_round_three_way_scan() {
    let mut engine = two_player_round();
    engine.add_new_player_with_inventory("Carol".to_string(), testnet_inventory());
    engine.player_inventories[0].spades = 2;
    engine.player_inventories[1].spades = 3;
    engine.player_inventories[2].spades = 3;
    engine.player_points = vec![450, 450, 400];
    engine.pot = 350;
    engine.end_round();
    // payouts 20, 30, 30 leave 270; Bob leads, Carol is the one later
    // tie and takes 270 / 2 = 135; Bob takes nothing beyond the payout
    assert_eq!(engine.pot, 270);
    assert_eq!(engine.player_points, vec![470, 480, 430 + 135]);
}

#[test]
fn end_round_with_no_goal_cards_pays_nothing() {
    let mut engine = two_player_round();
    engine.player_inventories[0].spades = 0;
    engine.player_inventories[1].spades = 0;
    engine.player_points = vec![450, 450];
    engine.end_round();
    assert_eq!(engine.pot, 300);
    assert_eq!(engine.player_points, vec![450, 450]);
}

#[test]
fn end_round_report_reveals_the_suits() {
    let mut engine = two_player_round();
    engine.starting_inventory = Inventory {
        spades: 12,
        clubs: 8,
        diamonds: 10,
        hearts: 10,
    };
    let report = engine.send_end_round_message();
    assert_eq!(report.goal_suit, Card::Spade);
    assert_eq!(report.common_suit, Card::Club);
    assert_eq!(report.card_count.spades, 12);
    assert_eq!(report.player_inventories.len(), 2);
    assert_eq!(report.player_inventories[0].player_name, "Alice");
    assert_eq!(report.player_inventories[0].spades, 3);
    assert_eq!(report.player_points.len(), 2);
    assert_eq!(report.player_points[1].player_name, "Bob");
    assert_eq!(report.player_points[1].points, 500);
}

#[test]
fn deal_cards_lists_each_player_once() {
    let engine = two_player_round();
    let (hands, update) = engine.deal_cards();
    assert_eq!(hands.len(), 2);
    assert_eq!(hands[0].player_name, "Alice");
    assert_eq!(hands[1].player_name, "Bob");
    assert_eq!(hands[0].hearts, 3);
    assert!(update.trade.is_none());
    assert!(update.spades.bids.is_empty());
}

#[test]
fn snapshot_has_no_trade_and_copies_books() {
    let mut engine = two_player_round();
    engine.process_order(limit("Alice", Card::Spade, Direction::Buy, 20));
    let u = engine.snapshot_book();
    assert!(u.trade.is_none());
    assert_eq!(u.spades.bids.len(), 1);
    assert_eq!(u.spades.bids[0].player_name, "Alice");
}

#[test]
fn get_player_inventory_copies_the_row() {
    let mut engine = two_player_round();
    engine.player_inventories[1].clubs = 7;
    let inv = engine.get_player_inventory(&"Bob".to_string());
    assert_eq!(inv.clubs, 7);
    assert_eq!(inv.spades, 3);
}

#[test]
fn delete_all_players_clears_ledgers_and_books() {
    let mut engine = two_player_round();
    engine.process_order(limit("Alice", Card::Spade, Direction::Buy, 20));
    engine.delete_all_players();
    assert!(engine.player_names.is_empty());
    assert!(engine.player_points.is_empty());
    assert!(engine.player_inventories.is_empty());
    assert!(engine.spades_book.bids.is_empty());
}

#[test]
fn pick_new_common_suit_touches_nothing_else() {
    let mut engine = two_player_round();
    for _ in 0..20 {
        engine.pick_new_common_suit();
        assert!(matches!(
            engine.common_suit,
            Card::Spade | Card::Club | Card::Diamond | Card::Heart
        ));
    }
    assert_eq!(engine.player_points, vec![500, 500]);
    assert_eq!(engine.goal_suit, Card::Spade);
}

#[test]
fn end_game_message_announces_the_reset() {
    let engine = two_player_round();
    let m = engine.end_game();
    assert!(m.starts_with("Testnet game is over."));
}

#[test]
fn a_trade_wipes_unrelated_books_too() {
    let mut engine = two_player_round();
    engine.process_order(limit("Alice", Card::Heart, Direction::Buy, 11));
    engine.process_order(limit("Bob", Card::Club, Direction::Sell, 90));
    engine.process_order(limit("Alice", Card::Spade, Direction::Buy, 20));
    let (resp, _) = engine.process_order(limit("Bob", Card::Spade, Direction::Sell, 20));
    assert_eq!(resp.status, "SUCCESS");
    assert!(engine.hearts_book.bids.is_empty());
    assert!(engine.clubs_book.asks.is_empty());
    assert_eq!(engine.spades_book.last_trade, Some(20));
    assert_eq!(engine.hearts_book.last_trade, None);
    assert_eq!(engine.clubs_book.last_trade, None);
}

#[test]
fn a_whole_round_accounts_for_every_point() {
    let mut engine = MatchingEngine::new(STARTING_BALANCE);
    engine.add_new_player_with_inventory("Alice".to_string(), testnet_inventory());
    engine.add_new_player_with_inventory("Bob".to_string(), testnet_inventory());
    engine.start_round(0);
    // the seed mints two hundred points; the antes merely move
    let total: i32 = engine.player_points.iter().sum();
    assert_eq!(total as usize + engine.pot, 1000 + 200);
    // trade twice, then tilt the goal-suit holdings to a sole leader
    engine.process_order(limit("Alice", Card::Spade, Direction::Buy, 20));
    engine.process_order(limit("Bob", Card::Spade, Direction::Sell, 20));
    let goal = engine.goal_suit;
    engine.player_inventories[0].set_count(goal, 4);
    engine.player_inventories[1].set_count(goal, 2);
    engine.end_round();
    // a sole leader empties the remaining pot into the balances
    let total: i32 = engine.player_points.iter().sum();
    assert_eq!(total, 1200);
    assert_eq!(engine.pot, 240);
}
