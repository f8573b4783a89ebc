use vstd::prelude::*;

use crate::utils::CL;

verus! {

/// Whether an order buys or sells one card.
#[derive(Clone, Copy, Debug, PartialEq, Eq, Structural)]
pub enum Direction {
    Buy,
    Sell,
}

/// A suit of the card game; each suit has its own order book.
#[derive(Clone, Copy, Debug, PartialEq, Eq, Structural)]
pub enum Card {
    Spade,
    Club,
    Diamond,
    Heart,
}

impl Direction {
    /// The wire name of this direction.
    pub open spec fn spec_label(self) -> Seq<char> {
        match self {
            Direction::Buy => "buy"@,
            Direction::Sell => "sell"@,
        }
    }

    pub fn to_string(&self) -> (r: String)
        ensures
            r@ == self.spec_label(),
    {
        match self {
            Direction::Buy => String::from_str("buy"),
            Direction::Sell => String::from_str("sell"),
        }
    }
}

impl Card {
    /// The wire name of this suit.
    pub open spec fn spec_label(self) -> Seq<char> {
        match self {
            Card::Spade => "spade"@,
            Card::Club => "club"@,
            Card::Diamond => "diamond"@,
            Card::Heart => "heart"@,
        }
    }

    pub fn to_string(&self) -> (r: String)
        ensures
            r@ == self.spec_label(),
    {
        match self {
            Card::Spade => String::from_str("spade"),
            Card::Club => String::from_str("club"),
            Card::Diamond => String::from_str("diamond"),
            Card::Heart => String::from_str("heart"),
        }
    }

    /// The suit of the same colour: when `self` is the common suit,
    /// this is the suit whose holders are rewarded at round end.
    pub open spec fn spec_goal_suit(self) -> Card {
        match self {
            Card::Spade => Card::Club,
            Card::Club => Card::Spade,
            Card::Heart => Card::Diamond,
            Card::Diamond => Card::Heart,
        }
    }

    /// The three suits other than `self`: the same-colour suit first,
    /// then the two suits of the other colour.
    pub open spec fn spec_other_cards(self) -> (Card, Card, Card) {
        match self {
            Card::Spade => (Card::Club, Card::Diamond, Card::Heart),
            Card::Club => (Card::Spade, Card::Diamond, Card::Heart),
            Card::Heart => (Card::Diamond, Card::Spade, Card::Club),
            Card::Diamond => (Card::Heart, Card::Spade, Card::Club),
        }
    }

    pub fn get_goal_suit(&self) -> (r: Card)
        ensures
            r == self.spec_goal_suit(),
    {
        match self {
            Card::Spade => Card::Club,
            Card::Club => Card::Spade,
            Card::Heart => Card::Diamond,
            Card::Diamond => Card::Heart,
        }
    }

    pub fn get_other_cards(&self) -> (r: (Card, Card, Card))
        ensures
            r == self.spec_other_cards(),
    {
        match self {
            Card::Spade => (Card::Club, Card::Diamond, Card::Heart),
            Card::Club => (Card::Spade, Card::Diamond, Card::Heart),
            Card::Heart => (Card::Diamond, Card::Spade, Card::Club),
            Card::Diamond => (Card::Heart, Card::Spade, Card::Club),
        }
    }

    /// Console colours for the four books (spades, clubs, diamonds, hearts):
    /// the goal suit of `self` is highlighted.
    pub fn get_book_colors(&self) -> (r: (CL, CL, CL, CL))
        ensures
            r == match self {
                Card::Spade => (CL::LimeGreen, CL::DullTeal, CL::DullTeal, CL::DullTeal),
                Card::Club => (CL::DullTeal, CL::LimeGreen, CL::DullTeal, CL::DullTeal),
                Card::Heart => (CL::DullTeal, CL::DullTeal, CL::DullTeal, CL::LimeGreen),
                Card::Diamond => (CL::DullTeal, CL::DullTeal, CL::LimeGreen, CL::DullTeal),
            },
    {
        match self {
            Card::Spade => (CL::LimeGreen, CL::DullTeal, CL::DullTeal, CL::DullTeal),
            Card::Club => (CL::DullTeal, CL::LimeGreen, CL::DullTeal, CL::DullTeal),
            Card::Heart => (CL::DullTeal, CL::DullTeal, CL::DullTeal, CL::LimeGreen),
            Card::Diamond => (CL::DullTeal, CL::DullTeal, CL::LimeGreen, CL::DullTeal),
        }
    }
}

/// Per-player card counts, one field per suit.
#[derive(Clone, Copy, Debug, PartialEq, Eq, Structural)]
pub struct Inventory {
    pub spades: usize,
    pub clubs: usize,
    pub diamonds: usize,
    pub hearts: usize,
}

/// How many cards of suit `c` appear in `s`.
pub open spec fn count_card(s: Seq<Card>, c: Card) -> nat
    decreases s.len(),
{
    if s.len() == 0 {
        0
    } else {
        count_card(s.drop_last(), c) + if s.last() == c {
            1nat
        } else {
            0nat
        }
    }
}

pub proof fn lemma_count_card_take_step(s: Seq<Card>, c: Card, i: int)
    requires
        0 <= i < s.len(),
    ensures
        count_card(s.take(i + 1), c) == count_card(s.take(i), c) + if s[i] == c {
            1nat
        } else {
            0nat
        },
{
    assert(s.take(i + 1).drop_last() =~= s.take(i));
    assert(s.take(i + 1).last() == s[i]);
}

pub proof fn lemma_count_card_take_le(s: Seq<Card>, c: Card, i: int)
    requires
        0 <= i <= s.len(),
    ensures
        count_card(s.take(i), c) <= count_card(s, c),
    decreases s.len() - i,
{
    if i == s.len() {
        assert(s.take(i) =~= s);
    } else {
        lemma_count_card_take_step(s, c, i);
        lemma_count_card_take_le(s, c, i + 1);
    }
}

impl Inventory {
    /// The count this inventory holds of the given suit.
    pub open spec fn spec_get(self, card: Card) -> usize {
        match card {
            Card::Spade => self.spades,
            Card::Club => self.clubs,
            Card::Diamond => self.diamonds,
            Card::Heart => self.hearts,
        }
    }

    /// This inventory with the count of the given suit replaced by `n`.
    pub open spec fn spec_set(self, card: Card, n: usize) -> Inventory {
        match card {
            Card::Spade => Inventory { spades: n, ..self },
            Card::Club => Inventory { clubs: n, ..self },
            Card::Diamond => Inventory { diamonds: n, ..self },
            Card::Heart => Inventory { hearts: n, ..self },
        }
    }

    pub fn new() -> (r: Self)
        ensures
            r == (Inventory { spades: 0, clubs: 0, diamonds: 0, hearts: 0 }),
    {
        Self { spades: 0, clubs: 0, diamonds: 0, hearts: 0 }
    }

    /// Add every card of `cards` to this inventory, one count per card.
    pub fn count(&mut self, cards: Vec<Card>)
        requires
            old(self).spades + count_card(cards@, Card::Spade) <= usize::MAX,
            old(self).clubs + count_card(cards@, Card::Club) <= usize::MAX,
            old(self).diamonds + count_card(cards@, Card::Diamond) <= usize::MAX,
            old(self).hearts + count_card(cards@, Card::Heart) <= usize::MAX,
        ensures
            final(self).spades == old(self).spades + count_card(cards@, Card::Spade),
            final(self).clubs == old(self).clubs + count_card(cards@, Card::Club),
            final(self).diamonds == old(self).diamonds + count_card(cards@, Card::Diamond),
            final(self).hearts == old(self).hearts + count_card(cards@, Card::Heart),
    {
        let n = cards.len();
        let mut i: usize = 0;
        assert(cards@.take(0) =~= Seq::<Card>::empty());
        while i < n
            invariant
                i <= n,
                n == cards@.len(),
                self.spades == old(self).spades + count_card(cards@.take(i as int), Card::Spade),
                self.clubs == old(self).clubs + count_card(cards@.take(i as int), Card::Club),
                self.diamonds == old(self).diamonds + count_card(
                    cards@.take(i as int),
                    Card::Diamond,
                ),
                self.hearts == old(self).hearts + count_card(cards@.take(i as int), Card::Heart),
                old(self).spades + count_card(cards@, Card::Spade) <= usize::MAX,
                old(self).clubs + count_card(cards@, Card::Club) <= usize::MAX,
                old(self).diamonds + count_card(cards@, Card::Diamond) <= usize::MAX,
                old(self).hearts + count_card(cards@, Card::Heart) <= usize::MAX,
            decreases n - i,
        {
            proof {
                lemma_count_card_take_step(cards@, Card::Spade, i as int);
                lemma_count_card_take_step(cards@, Card::Club, i as int);
                lemma_count_card_take_step(cards@, Card::Diamond, i as int);
                lemma_count_card_take_step(cards@, Card::Heart, i as int);
                lemma_count_card_take_le(cards@, Card::Spade, i + 1);
                lemma_count_card_take_le(cards@, Card::Club, i + 1);
                lemma_count_card_take_le(cards@, Card::Diamond, i + 1);
                lemma_count_card_take_le(cards@, Card::Heart, i + 1);
            }
            match cards[i] {
                Card::Spade => {
                    self.spades = self.spades + 1;
                },
                Card::Club => {
                    self.clubs = self.clubs + 1;
                },
                Card::Diamond => {
                    self.diamonds = self.diamonds + 1;
                },
                Card::Heart => {
                    self.hearts = self.hearts + 1;
                },
            }
            i = i + 1;
        }
        proof {
            assert(cards@.take(n as int) =~= cards@);
        }
    }

    /// Raise (`add`) or lower (`!add`) the count of one suit by one.
    /// Lowering demands a card to give up, so inventories never go negative.
    pub fn change(&mut self, card: Card, add: bool)
        requires
            add ==> old(self).spec_get(card) < usize::MAX,
            !add ==> old(self).spec_get(card) >= 1,
        ensures
            *final(self) == old(self).spec_set(
                card,
                if add {
                    (old(self).spec_get(card) + 1) as usize
                } else {
                    (old(self).spec_get(card) - 1) as usize
                },
            ),
    {
        match card {
            Card::Spade => {
                let new_amount: usize = if add {
                    self.spades + 1
                } else {
                    self.spades - 1
                };
                self.spades = new_amount;
            },
            Card::Club => {
                let new_amount: usize = if add {
                    self.clubs + 1
                } else {
                    self.clubs - 1
                };
                self.clubs = new_amount;
            },
            Card::Diamond => {
                let new_amount: usize = if add {
                    self.diamonds + 1
                } else {
                    self.diamonds - 1
                };
                self.diamonds = new_amount;
            },
            Card::Heart => {
                let new_amount: usize = if add {
                    self.hearts + 1
                } else {
                    self.hearts - 1
                };
                self.hearts = new_amount;
            },
        }
    }

    /// Overwrite the count of one suit.
    pub fn set_count(&mut self, card: Card, n: usize)
        ensures
            *final(self) == old(self).spec_set(card, n),
    {
        match card {
            Card::Spade => self.spades = n,
            Card::Club => self.clubs = n,
            Card::Diamond => self.diamonds = n,
            Card::Heart => self.hearts = n,
        }
    }

    pub fn get(&self, card: &Card) -> (r: usize)
        ensures
            r == self.spec_get(*card),
    {
        match card {
            Card::Spade => self.spades,
            Card::Club => self.clubs,
            Card::Diamond => self.diamonds,
            Card::Heart => self.hearts,
        }
    }
}

/// A request against one book: a limit order when `price` is given,
/// a cancellation of the player's resting quote when it is not.
#[derive(Clone, Debug)]
pub struct Order {
    pub player_name: String,
    pub card: Card,
    pub direction: Direction,
    pub price: Option<usize>,
}

} // verus!
