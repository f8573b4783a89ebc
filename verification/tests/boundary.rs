use figgie::admission::{parse_card, parse_direction, rate_limit_step, validate_cancel, validate_order};
use figgie::controller::{
    hotpath_step, round_controller_step, ControllerAction, ControllerState, HotpathAction,
    HotpathEvent,
};
use figgie::matching::{Card, Direction, Inventory, Order};
use figgie::text::{inventory_message, order_ack, usize_to_string};

#[test]
fn suits_and_directions_parse_their_wire_names() {
    assert_eq!(parse_card("spade"), Some(Card::Spade));
    assert_eq!(parse_card("club"), Some(Card::Club));
    assert_eq!(parse_card("diamond"), Some(Card::Diamond));
    assert_eq!(parse_card("heart"), Some(Card::Heart));
    assert_eq!(parse_card("joker"), None);
    assert_eq!(parse_card("Spade"), None);
    assert_eq!(parse_direction("buy"), Some(Direction::Buy));
    assert_eq!(parse_direction("sell"), Some(Direction::Sell));
    assert_eq!(parse_direction("hold"), None);
}

#[test]
fn order_validation_checks_direction_then_card_then_price() {
    assert!(validate_order("spade", "buy", 50).is_ok());
    let err = validate_order("joker", "hold", 0).unwrap_err();
    assert_eq!(err.status, "INVALID_DIRECTION");
    let err = validate_order("joker", "buy", 0).unwrap_err();
    assert_eq!(err.status, "INVALID_CARD");
    let err = validate_order("spade", "buy", 0).unwrap_err();
    assert_eq!(err.status, "INVALID_PRICE");
    let err = validate_order("spade", "buy", 100).unwrap_err();
    assert_eq!(err.status, "INVALID_PRICE");
    assert!(validate_order("spade", "buy", 1).is_ok());
    assert!(validate_order("spade", "buy", 99).is_ok());
}

#[test]
fn cancel_validation_checks_card_then_direction() {
    assert!(validate_cancel("heart", "sell").is_ok());
    let err = validate_cancel("joker", "hold").unwrap_err();
    assert_eq!(err.status, "INVALID_CARD");
    let err = validate_cancel("heart", "hold").unwrap_err();
    assert_eq!(err.status, "INVALID_DIRECTION");
}

#[test]
fn ten_requests_a_second_pass_the_eleventh_does_not() {
    let mut count: u8 = 0;
    for _ in 0..10 {
        let (next, passed) = rate_limit_step(count);
        assert!(passed);
        count = next;
    }
    let (_, passed) = rate_limit_step(count);
    assert!(!passed);
}

#[test]
fn decimal_rendering_is_exact() {
    assert_eq!(usize_to_string(0), "0");
    assert_eq!(usize_to_string(7), "7");
    assert_eq!(usize_to_string(10), "10");
    assert_eq!(usize_to_string(42), "42");
    assert_eq!(usize_to_string(99), "99");
    assert_eq!(usize_to_string(12345), "12345");
}

#[test]
fn order_ack_body_names_suit_direction_price() {
    assert_eq!(order_ack(&Card::Spade, &Direction::Buy, Some(35)), "spade,buy,35");
    assert_eq!(order_ack(&Card::Diamond, &Direction::Sell, Some(7)), "diamond,sell,7");
    assert_eq!(order_ack(&Card::Heart, &Direction::Buy, None), "heart,buy,cancelled");
}

#[test]
fn inventory_message_lists_the_four_counts() {
    let inv = Inventory {
        spades: 3,
        clubs: 0,
        diamonds: 12,
        hearts: 99,
    };
    assert_eq!(inventory_message(&inv), "3,0,12,99");
}

#[test]
fn suit_names_round_trip_through_to_string() {
    assert_eq!(Card::Spade.to_string(), "spade");
    assert_eq!(Card::Club.to_string(), "club");
    assert_eq!(Card::Diamond.to_string(), "diamond");
    assert_eq!(Card::Heart.to_string(), "heart");
    assert_eq!(Direction::Buy.to_string(), "buy");
    assert_eq!(Direction::Sell.to_string(), "sell");
    assert_eq!(parse_card(&Card::Heart.to_string()), Some(Card::Heart));
}

#[test]
fn goal_suit_pairs_by_colour() {
    assert_eq!(Card::Spade.get_goal_suit(), Card::Club);
    assert_eq!(Card::Club.get_goal_suit(), Card::Spade);
    assert_eq!(Card::Heart.get_goal_suit(), Card::Diamond);
    assert_eq!(Card::Diamond.get_goal_suit(), Card::Heart);
}

#[test]
fn other_cards_lead_with_the_goal_suit() {
    let (g, s1, s2) = Card::Club.get_other_cards();
    assert_eq!(g, Card::Spade);
    assert_eq!(s1, Card::Diamond);
    assert_eq!(s2, Card::Heart);
}

#[test]
fn inventory_count_and_change() {
    let mut inv = Inventory::new();
    inv.count(vec![Card::Spade, Card::Heart, Card::Spade, Card::Club]);
    assert_eq!(inv.spades, 2);
    assert_eq!(inv.clubs, 1);
    assert_eq!(inv.diamonds, 0);
    assert_eq!(inv.hearts, 1);
    inv.change(Card::Spade, true);
    assert_eq!(inv.get(&Card::Spade), 3);
    inv.change(Card::Spade, false);
    inv.change(Card::Spade, false);
    assert_eq!(inv.get(&Card::Spade), 1);
}

#[test]
fn controller_runs_rounds_in_order_then_winds_up() {
    let rounds = 4;
    let s0 = ControllerState::AwaitingRound { round: 0 };
    let (s1, a1) = round_controller_step(s0, rounds);
    assert_eq!(a1, ControllerAction::StartRound { round: 0 });
    assert_eq!(s1, ControllerState::RoundRunning { round: 0 });
    let (s2, a2) = round_controller_step(s1, rounds);
    assert_eq!(a2, ControllerAction::EndRound);
    assert_eq!(s2, ControllerState::AwaitingRound { round: 1 });
    // run the remaining rounds out
    let mut state = s2;
    for round in 1..rounds {
        let (next, action) = round_controller_step(state, rounds);
        assert_eq!(action, ControllerAction::StartRound { round });
        let (next, action) = round_controller_step(next, rounds);
        assert_eq!(action, ControllerAction::EndRound);
        state = next;
    }
    assert_eq!(state, ControllerState::GameEnding);
    let (s, a) = round_controller_step(state, rounds);
    assert_eq!(a, ControllerAction::EndGame);
    assert_eq!(s, ControllerState::AwaitingRound { round: 0 });
}

#[test]
fn hotpath_processes_orders_and_broadcasts_on_ticks() {
    let order = Order {
        player_name: "Alice".to_string(),
        card: Card::Spade,
        direction: Direction::Buy,
        price: Some(20),
    };
    match hotpath_step(HotpathEvent::Dequeued(order)) {
        HotpathAction::Process(o) => {
            assert_eq!(o.player_name, "Alice");
            assert_eq!(o.price, Some(20));
        },
        _ => panic!("an order must be processed"),
    }
    assert!(matches!(hotpath_step(HotpathEvent::IdleTick), HotpathAction::Broadcast));
    assert!(matches!(hotpath_step(HotpathEvent::Shutdown), HotpathAction::Exit));
}
