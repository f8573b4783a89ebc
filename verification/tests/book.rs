use figgie::card_book::{BookEntry, CardBook};


fn side(v: &[BookEntry]) -> Vec<(usize, String)> {
    v.iter().map(|e| (e.price, e.player_name.clone())).collect()
}

#[test]
fn new_book_is_empty() {
    let book = CardBook::new();
    assert!(book.bids.is_empty());
    assert!(book.asks.is_empty());
    assert_eq!(book.last_trade, None);
}

#[test]
fn update_bid_sorts_descending() {
    let mut book = CardBook::new();
    book.update_bid(20, "alice".to_string());
    book.update_bid(35, "bob".to_string());
    book.update_bid(28, "carol".to_string());
    assert_eq!(
        side(&book.bids),
        vec![
            (35, "bob".to_string()),
            (28, "carol".to_string()),
            (20, "alice".to_string())
        ]
    );
}

#[test]
fn update_ask_sorts_ascending() {
    let mut book = CardBook::new();
    book.update_ask(40, "alice".to_string());
    book.update_ask(25, "bob".to_string());
    book.update_ask(33, "carol".to_string());
    assert_eq!(
        side(&book.asks),
        vec![
            (25, "bob".to_string()),
            (33, "carol".to_string()),
            (40, "alice".to_string())
        ]
    );
}

#[test]
fn bid_tie_keeps_first_inserter_in_front() {
    let mut book = CardBook::new();
    book.update_bid(30, "alice".to_string());
    book.update_bid(30, "bob".to_string());
    assert_eq!(
        side(&book.bids),
        vec![(30, "alice".to_string()), (30, "bob".to_string())]
    );
}

#[test]
fn raised_bid_queues_behind_equal_prices() {
    let mut book = CardBook::new();
    book.update_bid(30, "alice".to_string());
    book.update_bid(20, "bob".to_string());
    // bob raises to alice's price: the raise queues behind her
    book.update_bid(30, "bob".to_string());
    assert_eq!(
        side(&book.bids),
        vec![(30, "alice".to_string()), (30, "bob".to_string())]
    );
}

#[test]
fn lowered_bid_keeps_seniority_over_equal_prices() {
    let mut book = CardBook::new();
    book.update_bid(30, "alice".to_string());
    book.update_bid(20, "bob".to_string());
    // alice lowers onto bob's price: the stable re-sort leaves her first
    book.update_bid(20, "alice".to_string());
    assert_eq!(
        side(&book.bids),
        vec![(20, "alice".to_string()), (20, "bob".to_string())]
    );
}

#[test]
fn upsert_overwrites_not_duplicates() {
    let mut book = CardBook::new();
    book.update_bid(20, "alice".to_string());
    book.update_bid(25, "alice".to_string());
    assert_eq!(side(&book.bids), vec![(25, "alice".to_string())]);
    book.update_ask(60, "alice".to_string());
    book.update_ask(55, "alice".to_string());
    assert_eq!(side(&book.asks), vec![(55, "alice".to_string())]);
}

#[test]
fn unchanged_price_keeps_position() {
    let mut book = CardBook::new();
    book.update_bid(30, "alice".to_string());
    book.update_bid(30, "bob".to_string());
    book.update_bid(30, "alice".to_string());
    assert_eq!(
        side(&book.bids),
        vec![(30, "alice".to_string()), (30, "bob".to_string())]
    );
}

#[test]
fn cancel_bid_removes_only_that_player() {
    let mut book = CardBook::new();
    book.update_bid(20, "alice".to_string());
    book.update_bid(30, "bob".to_string());
    book.cancel_bid("alice".to_string());
    assert_eq!(side(&book.bids), vec![(30, "bob".to_string())]);
}

#[test]
fn cancel_of_absent_player_is_a_no_op() {
    let mut book = CardBook::new();
    book.update_ask(20, "alice".to_string());
    book.cancel_ask("bob".to_string());
    assert_eq!(side(&book.asks), vec![(20, "alice".to_string())]);
    book.cancel_bid("alice".to_string());
    assert!(book.bids.is_empty());
}

#[test]
fn best_bid_and_ask_read_the_top_of_book() {
    let mut book = CardBook::new();
    assert_eq!(book.get_best_bid(), (None, None));
    assert_eq!(book.get_best_ask(), (None, None));
    book.update_bid(20, "alice".to_string());
    book.update_bid(35, "bob".to_string());
    book.update_ask(50, "carol".to_string());
    book.update_ask(45, "dave".to_string());
    assert_eq!(book.get_best_bid(), (Some(35), Some("bob".to_string())));
    assert_eq!(book.get_best_ask(), (Some(45), Some("dave".to_string())));
}

#[test]
fn reset_quotes_keeps_last_trade() {
    let mut book = CardBook::new();
    book.update_bid(20, "alice".to_string());
    book.update_ask(50, "bob".to_string());
    book.last_trade = Some(33);
    book.reset_quotes();
    assert!(book.bids.is_empty());
    assert!(book.asks.is_empty());
    assert_eq!(book.last_trade, Some(33));
}

#[test]
fn reset_full_book_clears_last_trade() {
    let mut book = CardBook::new();
    book.update_bid(20, "alice".to_string());
    book.last_trade = Some(33);
    book.reset_full_book();
    assert!(book.bids.is_empty());
    assert!(book.asks.is_empty());
    assert_eq!(book.last_trade, None);
}

#[test]
fn book_clone_copies_both_sides() {
    let mut book = CardBook::new();
    book.update_bid(20, "alice".to_string());
    book.update_ask(50, "bob".to_string());
    book.last_trade = Some(40);
    let copy = book.clone();
    assert_eq!(side(&copy.bids), side(&book.bids));
    assert_eq!(side(&copy.asks), side(&book.asks));
    assert_eq!(copy.last_trade, Some(40));
}
