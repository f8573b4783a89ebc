use vstd::prelude::*;

use crate::api::HTTPResponse;
use crate::matching::{Card, Direction};

verus! {

/// Relies on str's PartialEq: two string slices are equal exactly when
/// their characters are.
#[verifier::external_body]
fn str_eq(a: &str, b: &str) -> (r: bool)
    ensures
        r == (a@ == b@),
{
    a == b
}

/// Which suit a request body names, if any.
pub open spec fn spec_parse_card(s: Seq<char>) -> Option<Card> {
    if s == "spade"@ {
        Some(Card::Spade)
    } else if s == "club"@ {
        Some(Card::Club)
    } else if s == "diamond"@ {
        Some(Card::Diamond)
    } else if s == "heart"@ {
        Some(Card::Heart)
    } else {
        None
    }
}

/// Which direction a request body names, if any.
pub open spec fn spec_parse_direction(s: Seq<char>) -> Option<Direction> {
    if s == "buy"@ {
        Some(Direction::Buy)
    } else if s == "sell"@ {
        Some(Direction::Sell)
    } else {
        None
    }
}

pub fn parse_card(s: &str) -> (r: Option<Card>)
    ensures
        r == spec_parse_card(s@),
{
    if str_eq(s, "spade") {
        Some(Card::Spade)
    } else if str_eq(s, "club") {
        Some(Card::Club)
    } else if str_eq(s, "diamond") {
        Some(Card::Diamond)
    } else if str_eq(s, "heart") {
        Some(Card::Heart)
    } else {
        None
    }
}

pub fn parse_direction(s: &str) -> (r: Option<Direction>)
    ensures
        r == spec_parse_direction(s@),
{
    if str_eq(s, "buy") {
        Some(Direction::Buy)
    } else if str_eq(s, "sell") {
        Some(Direction::Sell)
    } else {
        None
    }
}

/// A legal limit price lies strictly between zero and one hundred.
pub fn price_in_range(price: usize) -> (r: bool)
    ensures
        r <==> 1 <= price <= 99,
{
    price >= 1 && price <= 99
}

/// The admission checks for a limit order, made in the order the service
/// makes them — direction, then suit, then price — each failure answered
/// with its own status.
pub fn validate_order(card: &str, direction: &str, price: usize) -> (r: Result<
    (Card, Direction),
    HTTPResponse,
>)
    ensures
        r is Ok <==> spec_parse_direction(direction@) is Some && spec_parse_card(card@) is Some && 1
            <= price <= 99,
        match r {
            Ok((c, d)) => {
                &&& spec_parse_card(card@) == Some(c)
                &&& spec_parse_direction(direction@) == Some(d)
            },
            Err(resp) => {
                &&& spec_parse_direction(direction@) is None ==> resp.status@
                    == "INVALID_DIRECTION"@
                &&& spec_parse_direction(direction@) is Some && spec_parse_card(card@) is None
                    ==> resp.status@ == "INVALID_CARD"@
                &&& spec_parse_direction(direction@) is Some && spec_parse_card(card@) is Some
                    ==> resp.status@ == "INVALID_PRICE"@
            },
        },
{
    let direction = match parse_direction(direction) {
        Some(d) => d,
        None => {
            return Err(
                HTTPResponse {
                    status: String::from_str("INVALID_DIRECTION"),
                    message: String::from_str(
                        "For the direction, please send either `buy` or `sell`",
                    ),
                },
            );
        },
    };
    let card = match parse_card(card) {
        Some(c) => c,
        None => {
            return Err(
                HTTPResponse {
                    status: String::from_str("INVALID_CARD"),
                    message: String::from_str(
                        "For the card, please send either `spade`, `club`, `diamond`, or `heart`",
                    ),
                },
            );
        },
    };
    if !price_in_range(price) {
        return Err(
            HTTPResponse {
                status: String::from_str("INVALID_PRICE"),
                message: String::from_str("For the price, please send a number between 0 and 99"),
            },
        );
    }
    Ok((card, direction))
}

/// The admission checks for a cancellation, made in the order the service
/// makes them — suit first, then direction.
pub fn validate_cancel(card: &str, direction: &str) -> (r: Result<
    (Card, Direction),
    HTTPResponse,
>)
    ensures
        r is Ok <==> spec_parse_card(card@) is Some && spec_parse_direction(direction@) is Some,
        match r {
            Ok((c, d)) => {
                &&& spec_parse_card(card@) == Some(c)
                &&& spec_parse_direction(direction@) == Some(d)
            },
            Err(resp) => {
                &&& spec_parse_card(card@) is None ==> resp.status@ == "INVALID_CARD"@
                &&& spec_parse_card(card@) is Some && spec_parse_direction(direction@) is None
                    ==> resp.status@ == "INVALID_DIRECTION"@
            },
        },
{
    let card = match parse_card(card) {
        Some(c) => c,
        None => {
            return Err(
                HTTPResponse {
                    status: String::from_str("INVALID_CARD"),
                    message: String::from_str(
                        "For the card, please send either `spade`, `club`, `diamond`, or `heart`",
                    ),
                },
            );
        },
    };
    let direction = match parse_direction(direction) {
        Some(d) => d,
        None => {
            return Err(
                HTTPResponse {
                    status: String::from_str("INVALID_DIRECTION"),
                    message: String::from_str(
                        "For the direction, please send either `buy` or `sell`",
                    ),
                },
            );
        },
    };
    Ok((card, direction))
}

/// One request's rate accounting: the player's counter rises by one, and
/// the request passes while the new count stays within ten in the current
/// one-second window.
pub fn rate_limit_step(count: u8) -> (r: (u8, bool))
    requires
        count < u8::MAX,
    ensures
        r.0 == count + 1,
        r.1 <==> count + 1 <= 10,
{
    let c = count + 1;
    (c, c <= 10)
}

} // verus!
