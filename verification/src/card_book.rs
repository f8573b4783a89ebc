use vstd::prelude::*;

verus! {

// ===== The mathematical model of a book =====
/// Ghost image of one resting quote.
pub struct BookEntryV {
    pub price: int,
    pub player: Seq<char>,
}

/// Ghost image of one book side or of a whole book.
pub struct CardBookV {
    pub bids: Seq<BookEntryV>,
    pub asks: Seq<BookEntryV>,
    pub last_trade: Option<int>,
}

/// A quote with both fields already rendered as text, the shape an older
/// stream format published.
#[derive(Debug)]
pub struct BookEntryStringified {
    pub player_name: String,
    pub price: String,
}

/// One resting quote: a price and the quoting player's name.
#[derive(Debug)]
pub struct BookEntry {
    pub price: usize,
    pub player_name: String,
}

impl View for BookEntry {
    type V = BookEntryV;

    open spec fn view(&self) -> BookEntryV {
        BookEntryV { price: self.price as int, player: self.player_name@ }
    }
}

impl Clone for BookEntry {
    fn clone(&self) -> (r: Self)
        ensures
            r == *self,
    {
        BookEntry { price: self.price, player_name: self.player_name.clone() }
    }
}

/// The ghost images of a side's quotes, in book order.
pub open spec fn entries(s: Seq<BookEntry>) -> Seq<BookEntryV> {
    s.map_values(|e: BookEntry| e@)
}

/// Does some quote of `s` belong to `name`?
pub open spec fn has_player(s: Seq<BookEntryV>, name: Seq<char>) -> bool {
    exists|i: int| 0 <= i < s.len() && s[i].player == name
}

/// `s` with every quote of `name` removed.
pub open spec fn remove_player(s: Seq<BookEntryV>, name: Seq<char>) -> Seq<BookEntryV>
    decreases s.len(),
{
    if s.len() == 0 {
        s
    } else if s[0].player == name {
        remove_player(s.drop_first(), name)
    } else {
        seq![s[0]] + remove_player(s.drop_first(), name)
    }
}

/// The price of `name`'s first quote in `s` (zero when there is none).
pub open spec fn price_of(s: Seq<BookEntryV>, name: Seq<char>) -> int
    decreases s.len(),
{
    if s.len() == 0 {
        0
    } else if s[0].player == name {
        s[0].price
    } else {
        price_of(s.drop_first(), name)
    }
}

/// Whether a resting quote priced `a` keeps its place ahead of an arriving
/// quote priced `b`. `asc` is the side's direction (ascending for asks);
/// `tie_after` says whether the arrival queues behind quotes at its own
/// price, as a stable sort makes a fresh or improved quote do.
pub open spec fn stays_ahead(a: int, b: int, asc: bool, tie_after: bool) -> bool {
    if asc {
        if tie_after {
            a <= b
        } else {
            a < b
        }
    } else {
        if tie_after {
            a >= b
        } else {
            a > b
        }
    }
}

/// Insert `e` into a price-ordered side: it lands behind every quote that
/// stays ahead of it and in front of the rest.
pub open spec fn insert_side(
    s: Seq<BookEntryV>,
    e: BookEntryV,
    asc: bool,
    tie_after: bool,
) -> Seq<BookEntryV>
    decreases s.len(),
{
    if s.len() == 0 {
        seq![e]
    } else if stays_ahead(s[0].price, e.price, asc, tie_after) {
        seq![s[0]] + insert_side(s.drop_first(), e, asc, tie_after)
    } else {
        seq![e] + s
    }
}

/// What `update_bid` does: overwrite the player's bid price in place and
/// re-sort descending with a stable sort, or append-and-sort when the
/// player had no bid yet. A raised or fresh bid queues behind equal
/// prices; a lowered bid keeps its seniority over them.
pub open spec fn upsert_bid(s: Seq<BookEntryV>, price: int, name: Seq<char>) -> Seq<BookEntryV> {
    let e = BookEntryV { price, player: name };
    if !has_player(s, name) {
        insert_side(s, e, false, true)
    } else {
        let q = price_of(s, name);
        if price == q {
            s
        } else if price > q {
            insert_side(remove_player(s, name), e, false, true)
        } else {
            insert_side(remove_player(s, name), e, false, false)
        }
    }
}

/// What `update_ask` does, mirrored for the ascending ask list.
pub open spec fn upsert_ask(s: Seq<BookEntryV>, price: int, name: Seq<char>) -> Seq<BookEntryV> {
    let e = BookEntryV { price, player: name };
    if !has_player(s, name) {
        insert_side(s, e, true, true)
    } else {
        let q = price_of(s, name);
        if price == q {
            s
        } else if price < q {
            insert_side(remove_player(s, name), e, true, true)
        } else {
            insert_side(remove_player(s, name), e, true, false)
        }
    }
}

/// One side ordered by price, descending for bids, ascending for asks.
pub open spec fn sorted_side(s: Seq<BookEntryV>, asc: bool) -> bool {
    forall|i: int, j: int|
        0 <= i < j < s.len() ==> (if asc {
            s[i].price <= s[j].price
        } else {
            s[i].price >= s[j].price
        })
}

/// Bids are kept ordered from the highest price down.
pub open spec fn sorted_desc(s: Seq<BookEntryV>) -> bool {
    sorted_side(s, false)
}

/// Asks are kept ordered from the lowest price up.
pub open spec fn sorted_asc(s: Seq<BookEntryV>) -> bool {
    sorted_side(s, true)
}

/// No player holds two quotes on one side.
pub open spec fn unique_players(s: Seq<BookEntryV>) -> bool {
    forall|i: int, j: int| 0 <= i < j < s.len() ==> s[i].player != s[j].player
}

/// Every resting price is a legal limit price.
pub open spec fn prices_in_range(s: Seq<BookEntryV>) -> bool {
    forall|i: int| 0 <= i < s.len() ==> 1 <= #[trigger] s[i].price <= 99
}

/// The book invariant: both sides sorted the right way round, one quote
/// per player per side, all prices legal.
pub open spec fn book_wf(b: CardBookV) -> bool {
    &&& sorted_desc(b.bids)
    &&& sorted_asc(b.asks)
    &&& unique_players(b.bids)
    &&& unique_players(b.asks)
    &&& prices_in_range(b.bids)
    &&& prices_in_range(b.asks)
}

// ===== The book itself =====
/// One suit's order book: resting bids (descending), resting asks
/// (ascending), and the price of the suit's most recent trade.
#[derive(Debug)]
pub struct CardBook {
    pub bids: Vec<BookEntry>,
    pub asks: Vec<BookEntry>,
    pub last_trade: Option<usize>,
}

impl View for CardBook {
    type V = CardBookV;

    open spec fn view(&self) -> CardBookV {
        CardBookV {
            bids: entries(self.bids@),
            asks: entries(self.asks@),
            last_trade: match self.last_trade {
                Some(p) => Some(p as int),
                None => None,
            },
        }
    }
}

impl Clone for CardBook {
    fn clone(&self) -> (r: Self)
        ensures
            r@ == self@,
            r.bids@.len() == self.bids@.len(),
            r.asks@.len() == self.asks@.len(),
    {
        let mut bids: Vec<BookEntry> = Vec::new();
        let mut asks: Vec<BookEntry> = Vec::new();
        let nb = self.bids.len();
        let mut i: usize = 0;
        while i < nb
            invariant
                i <= nb,
                nb == self.bids@.len(),
                bids@.len() == i,
                forall|j: int| 0 <= j < i ==> bids@[j] == self.bids@[j],
            decreases nb - i,
        {
            bids.push(self.bids[i].clone());
            i = i + 1;
        }
        let na = self.asks.len();
        let mut k: usize = 0;
        while k < na
            invariant
                k <= na,
                na == self.asks@.len(),
                asks@.len() == k,
                forall|j: int| 0 <= j < k ==> asks@[j] == self.asks@[j],
            decreases na - k,
        {
            asks.push(self.asks[k].clone());
            k = k + 1;
        }
        let r = CardBook { bids, asks, last_trade: self.last_trade };
        proof {
            assert(r.bids@ =~= self.bids@);
            assert(r.asks@ =~= self.asks@);
        }
        r
    }
}

impl CardBook {
    pub fn new() -> (r: Self)
        ensures
            r@.bids.len() == 0,
            r@.asks.len() == 0,
            r@.last_trade is None,
    {
        let r = Self { bids: Vec::with_capacity(20), asks: Vec::with_capacity(20), last_trade: None };
        proof {
            assert(entries(r.bids@) =~= Seq::<BookEntryV>::empty());
            assert(entries(r.asks@) =~= Seq::<BookEntryV>::empty());
        }
        r
    }

    /// Remove the player's resting bid; a missing bid is a silent no-op.
    pub fn cancel_bid(&mut self, player_name: String)
        ensures
            final(self)@.bids == remove_player(old(self)@.bids, player_name@),
            final(self)@.asks == old(self)@.asks,
            final(self)@.last_trade == old(self)@.last_trade,
    {
        let kept = retain_others(&self.bids, &player_name);
        self.bids = kept;
    }

    /// Remove the player's resting ask; a missing ask is a silent no-op.
    pub fn cancel_ask(&mut self, player_name: String)
        ensures
            final(self)@.asks == remove_player(old(self)@.asks, player_name@),
            final(self)@.bids == old(self)@.bids,
            final(self)@.last_trade == old(self)@.last_trade,
    {
        let kept = retain_others(&self.asks, &player_name);
        self.asks = kept;
    }

    /// Overwrite the player's bid with a new price, or add one, keeping the
    /// side sorted descending as a stable sort would.
    pub fn update_bid(&mut self, price: usize, player_name: String)
        requires
            unique_players(old(self)@.bids),
        ensures
            final(self)@.bids == upsert_bid(old(self)@.bids, price as int, player_name@),
            final(self)@.asks == old(self)@.asks,
            final(self)@.last_trade == old(self)@.last_trade,
    {
        let ghost b0 = self@.bids;
        let ghost e = BookEntryV { price: price as int, player: player_name@ };
        let found = find_entry(&self.bids, &player_name);
        match found {
            None => {
                let pos = pos_bid_lt(&self.bids, price);
                proof {
                    lemma_insert_side_at(b0, e, false, true, pos as int);
                }
                self.bids.insert(pos, BookEntry { price, player_name });
                proof {
                    assert(entries(self.bids@) =~= b0.take(pos as int) + seq![e] + b0.skip(
                        pos as int,
                    ));
                }
            },
            Some(k) => {
                let q = self.bids[k].price;
                proof {
                    lemma_price_of_at(b0, k as int, player_name@);
                }
                if price == q {
                    // the quote already rests at this price; the stable
                    // re-sort leaves the side exactly as it stands
                } else {
                    proof {
                        lemma_remove_player_at(b0, k as int, player_name@);
                    }
                    self.bids.remove(k);
                    let ghost b1 = entries(self.bids@);
                    proof {
                        assert(b1 =~= b0.take(k as int) + b0.skip(k + 1));
                    }
                    if price > q {
                        let pos = pos_bid_lt(&self.bids, price);
                        proof {
                            lemma_insert_side_at(b1, e, false, true, pos as int);
                        }
                        self.bids.insert(pos, BookEntry { price, player_name });
                        proof {
                            assert(entries(self.bids@) =~= b1.take(pos as int) + seq![e] + b1.skip(
                                pos as int,
                            ));
                        }
                    } else {
                        let pos = pos_bid_le(&self.bids, price);
                        proof {
                            lemma_insert_side_at(b1, e, false, false, pos as int);
                        }
                        self.bids.insert(pos, BookEntry { price, player_name });
                        proof {
                            assert(entries(self.bids@) =~= b1.take(pos as int) + seq![e] + b1.skip(
                                pos as int,
                            ));
                        }
                    }
                }
            },
        }
    }

    /// Overwrite the player's ask with a new price, or add one, keeping the
    /// side sorted ascending as a stable sort would.
    pub fn update_ask(&mut self, price: usize, player_name: String)
        requires
            unique_players(old(self)@.asks),
        ensures
            final(self)@.asks == upsert_ask(old(self)@.asks, price as int, player_name@),
            final(self)@.bids == old(self)@.bids,
            final(self)@.last_trade == old(self)@.last_trade,
    {
        let ghost a0 = self@.asks;
        let ghost e = BookEntryV { price: price as int, player: player_name@ };
        let found = find_entry(&self.asks, &player_name);
        match found {
            None => {
                let pos = pos_ask_gt(&self.asks, price);
                proof {
                    lemma_insert_side_at(a0, e, true, true, pos as int);
                }
                self.asks.insert(pos, BookEntry { price, player_name });
                proof {
                    assert(entries(self.asks@) =~= a0.take(pos as int) + seq![e] + a0.skip(
                        pos as int,
                    ));
                }
            },
            Some(k) => {
                let q = self.asks[k].price;
                proof {
                    lemma_price_of_at(a0, k as int, player_name@);
                }
                if price == q {
                    // the quote already rests at this price; the stable
                    // re-sort leaves the side exactly as it stands
                } else {
                    proof {
                        lemma_remove_player_at(a0, k as int, player_name@);
                    }
                    self.asks.remove(k);
                    let ghost a1 = entries(self.asks@);
                    proof {
                        assert(a1 =~= a0.take(k as int) + a0.skip(k + 1));
                    }
                    if price < q {
                        let pos = pos_ask_gt(&self.asks, price);
                        proof {
                            lemma_insert_side_at(a1, e, true, true, pos as int);
                        }
                        self.asks.insert(pos, BookEntry { price, player_name });
                        proof {
                            assert(entries(self.asks@) =~= a1.take(pos as int) + seq![e] + a1.skip(
                                pos as int,
                            ));
                        }
                    } else {
                        let pos = pos_ask_ge(&self.asks, price);
                        proof {
                            lemma_insert_side_at(a1, e, true, false, pos as int);
                        }
                        self.asks.insert(pos, BookEntry { price, player_name });
                        proof {
                            assert(entries(self.asks@) =~= a1.take(pos as int) + seq![e] + a1.skip(
                                pos as int,
                            ));
                        }
                    }
                }
            },
        }
    }

    pub fn get_best_bid(&self) -> (r: (Option<usize>, Option<String>))
        ensures
            self@.bids.len() == 0 ==> r == (Option::<usize>::None, Option::<String>::None),
            self@.bids.len() > 0 ==> {
                &&& r.0 is Some && r.0->0 == self@.bids[0].price
                &&& r.1 is Some && r.1->0@ == self@.bids[0].player
            },
    {
        if self.bids.len() > 0 {
            let e = &self.bids[0];
            (Some(e.price), Some(e.player_name.clone()))
        } else {
            (None, None)
        }
    }

    pub fn get_best_ask(&self) -> (r: (Option<usize>, Option<String>))
        ensures
            self@.asks.len() == 0 ==> r == (Option::<usize>::None, Option::<String>::None),
            self@.asks.len() > 0 ==> {
                &&& r.0 is Some && r.0->0 == self@.asks[0].price
                &&& r.1 is Some && r.1->0@ == self@.asks[0].player
            },
    {
        if self.asks.len() > 0 {
            let e = &self.asks[0];
            (Some(e.price), Some(e.player_name.clone()))
        } else {
            (None, None)
        }
    }

    /// Clear both sides but keep the last trade price.
    pub fn reset_quotes(&mut self)
        ensures
            final(self)@.bids.len() == 0,
            final(self)@.asks.len() == 0,
            final(self)@.last_trade == old(self)@.last_trade,
    {
        self.bids = Vec::new();
        self.asks = Vec::new();
        proof {
            assert(entries(self.bids@) =~= Seq::<BookEntryV>::empty());
            assert(entries(self.asks@) =~= Seq::<BookEntryV>::empty());
        }
    }

    /// Clear both sides and forget the last trade price.
    pub fn reset_full_book(&mut self)
        ensures
            final(self)@.bids.len() == 0,
            final(self)@.asks.len() == 0,
            final(self)@.last_trade is None,
    {
        self.bids = Vec::new();
        self.asks = Vec::new();
        self.last_trade = None;
        proof {
            assert(entries(self.bids@) =~= Seq::<BookEntryV>::empty());
            assert(entries(self.asks@) =~= Seq::<BookEntryV>::empty());
        }
    }
}

// ===== Shared pieces of the side updates =====
/// `remove_player` over a sequence grown at the back.
pub proof fn lemma_remove_player_push(s: Seq<BookEntryV>, name: Seq<char>, e: BookEntryV)
    ensures
        remove_player(s.push(e), name) == if e.player == name {
            remove_player(s, name)
        } else {
            remove_player(s, name).push(e)
        },
    decreases s.len(),
{
    if s.len() == 0 {
        let t = s.push(e).drop_first();
        assert(t =~= Seq::<BookEntryV>::empty());
        assert(s.push(e)[0] == e);
        assert(remove_player(t, name) == t);
        if e.player == name {
            assert(remove_player(s.push(e), name) =~= remove_player(s, name));
        } else {
            assert(remove_player(s.push(e), name) =~= remove_player(s, name).push(e));
        }
    } else {
        assert(s.push(e).drop_first() =~= s.drop_first().push(e));
        lemma_remove_player_push(s.drop_first(), name, e);
        if s[0].player == name {
        } else {
            if e.player == name {
            } else {
                assert((seq![s[0]] + remove_player(s.drop_first(), name).push(e)) =~= (seq![s[0]]
                    + remove_player(s.drop_first(), name)).push(e));
            }
        }
    }
}

/// `insert_side` splits `s` at the first quote that does not stay ahead
/// of `e`.
pub proof fn lemma_insert_side_at(
    s: Seq<BookEntryV>,
    e: BookEntryV,
    asc: bool,
    tie_after: bool,
    j: int,
)
    requires
        0 <= j <= s.len(),
        forall|i: int| 0 <= i < j ==> stays_ahead(#[trigger] s[i].price, e.price, asc, tie_after),
        j < s.len() ==> !stays_ahead(s[j].price, e.price, asc, tie_after),
    ensures
        insert_side(s, e, asc, tie_after) == s.take(j) + seq![e] + s.skip(j),
    decreases j,
{
    if j == 0 {
        if s.len() == 0 {
            assert(insert_side(s, e, asc, tie_after) =~= s.take(0) + seq![e] + s.skip(0));
        } else {
            assert(seq![e] + s =~= s.take(0) + seq![e] + s.skip(0));
        }
    } else {
        assert(stays_ahead(s[0].price, e.price, asc, tie_after));
        assert(forall|i: int|
            0 <= i < j - 1 ==> stays_ahead(
                #[trigger] s.drop_first()[i].price,
                e.price,
                asc,
                tie_after,
            ));
        lemma_insert_side_at(s.drop_first(), e, asc, tie_after, j - 1);
        assert(seq![s[0]] + (s.drop_first().take(j - 1) + seq![e] + s.drop_first().skip(j - 1))
            =~= s.take(j) + seq![e] + s.skip(j));
    }
}

/// What `insert_side` builds: one new quote `e` and the old quotes kept;
/// the side's ordering, the one-quote-per-player rule and the legal price
/// range all survive the insertion.
pub proof fn lemma_insert_side_props(s: Seq<BookEntryV>, e: BookEntryV, asc: bool, tie_after: bool)
    ensures
        ({
            let r = insert_side(s, e, asc, tie_after);
            &&& r.len() == s.len() + 1
            &&& r.contains(e)
            &&& forall|i: int| 0 <= i < r.len() ==> r[i] == e || s.contains(#[trigger] r[i])
            &&& sorted_side(s, asc) ==> sorted_side(r, asc)
            &&& unique_players(s) && !has_player(s, e.player) ==> unique_players(r)
        }),
    decreases s.len(),
{
    let r = insert_side(s, e, asc, tie_after);
    if s.len() == 0 {
        assert(r[0] == e);
    } else if stays_ahead(s[0].price, e.price, asc, tie_after) {
        lemma_insert_side_props(s.drop_first(), e, asc, tie_after);
        let rr = insert_side(s.drop_first(), e, asc, tie_after);
        assert(r == seq![s[0]] + rr);
        assert(forall|i: int|
            0 <= i < s.drop_first().len() ==> s.drop_first()[i] == #[trigger] s[i + 1]);
        assert(r[0] == s[0]);
        assert(forall|i: int| 1 <= i < r.len() ==> r[i] == #[trigger] rr[i - 1]);
        let wi = choose|i: int| 0 <= i < rr.len() && rr[i] == e;
        assert(r[wi + 1] == e);
        assert forall|i: int| 0 <= i < r.len() implies r[i] == e || s.contains(#[trigger] r[i]) by {
            if i == 0 {
                assert(s[0] == r[i]);
            } else {
                if rr[i - 1] != e {
                    let j = choose|j: int|
                        0 <= j < s.drop_first().len() && s.drop_first()[j] == rr[i - 1];
                    assert(s[j + 1] == r[i]);
                }
            }
        }
        if sorted_side(s, asc) {
            assert(sorted_side(s.drop_first(), asc));
            assert forall|i: int, j: int|
                0 <= i < j < r.len() implies (if asc {
                r[i].price <= r[j].price
            } else {
                r[i].price >= r[j].price
            }) by {
                if i == 0 {
                    if r[j] != e {
                        let m = choose|m: int| 0 <= m < s.len() && s[m] == r[j];
                        if m > 0 {
                            assert(if asc {
                                s[0].price <= s[m].price
                            } else {
                                s[0].price >= s[m].price
                            });
                        }
                    }
                }
            }
        }
        if unique_players(s) && !has_player(s, e.player) {
            assert(unique_players(s.drop_first()));
            assert(!has_player(s.drop_first(), e.player)) by {
                assert forall|j: int|
                    0 <= j < s.drop_first().len() implies s.drop_first()[j].player
                    != e.player by {
                    assert(s.drop_first()[j] == s[j + 1]);
                }
            }
            assert forall|i: int, j: int|
                0 <= i < j < r.len() implies r[i].player != r[j].player by {
                if i == 0 {
                    if r[j] == e {
                        assert(s[0].player != e.player);
                    } else {
                        let mm = choose|mm: int|
                            0 <= mm < s.drop_first().len() && s.drop_first()[mm] == rr[j - 1];
                        assert(s[mm + 1].player != s[0].player);
                    }
                }
            }
        }
    } else {
        assert(r == seq![e] + s);
        assert(r[0] == e);
        assert forall|i: int| 0 <= i < r.len() implies r[i] == e || s.contains(#[trigger] r[i]) by {
            if i > 0 {
                assert(s[i - 1] == r[i]);
            }
        }
        if sorted_side(s, asc) {
            assert forall|i: int, j: int|
                0 <= i < j < r.len() implies (if asc {
                r[i].price <= r[j].price
            } else {
                r[i].price >= r[j].price
            }) by {
                if i == 0 {
                    assert(r[j] == s[j - 1]);
                    if j - 1 > 0 {
                        assert(if asc {
                            s[0].price <= s[j - 1].price
                        } else {
                            s[0].price >= s[j - 1].price
                        });
                    }
                }
            }
        }
        if unique_players(s) && !has_player(s, e.player) {
            assert forall|i: int, j: int|
                0 <= i < j < r.len() implies r[i].player != r[j].player by {
                if i == 0 {
                    assert(r[j] == s[j - 1]);
                    assert(s[j - 1].player != e.player);
                }
            }
        }
    }
}

/// What `remove_player` leaves: only quotes of other players, all of them
/// drawn from `s`; ordering and the one-quote-per-player rule survive.
pub proof fn lemma_remove_player_props(s: Seq<BookEntryV>, name: Seq<char>)
    ensures
        ({
            let r = remove_player(s, name);
            &&& r.len() <= s.len()
            &&& !has_player(r, name)
            &&& forall|i: int|
                0 <= i < r.len() ==> s.contains(#[trigger] r[i]) && r[i].player != name
            &&& sorted_side(s, true) ==> sorted_side(r, true)
            &&& sorted_side(s, false) ==> sorted_side(r, false)
            &&& unique_players(s) ==> unique_players(r)
        }),
    decreases s.len(),
{
    let r = remove_player(s, name);
    if s.len() == 0 {
    } else {
        lemma_remove_player_props(s.drop_first(), name);
        let rr = remove_player(s.drop_first(), name);
        assert(forall|i: int|
            0 <= i < s.drop_first().len() ==> s.drop_first()[i] == #[trigger] s[i + 1]);
        assert(sorted_side(s, true) ==> sorted_side(s.drop_first(), true));
        assert(sorted_side(s, false) ==> sorted_side(s.drop_first(), false));
        assert(unique_players(s) ==> unique_players(s.drop_first()));
        assert forall|i: int|
            0 <= i < rr.len() implies s.contains(#[trigger] rr[i]) && rr[i].player != name by {
            let j = choose|j: int| 0 <= j < s.drop_first().len() && s.drop_first()[j] == rr[i];
            assert(s[j + 1] == rr[i]);
        }
        if s[0].player == name {
            assert(r == rr);
        } else {
            assert(r == seq![s[0]] + rr);
            assert(r[0] == s[0]);
            assert(forall|i: int| 1 <= i < r.len() ==> r[i] == #[trigger] rr[i - 1]);
            if sorted_side(s, true) {
                assert forall|i: int, j: int|
                    0 <= i < j < r.len() implies r[i].price <= r[j].price by {
                    if i == 0 {
                        let m = choose|m: int| 0 <= m < s.len() && s[m] == rr[j - 1];
                        if m > 0 {
                            assert(s[0].price <= s[m].price);
                        }
                    }
                }
            }
            if sorted_side(s, false) {
                assert forall|i: int, j: int|
                    0 <= i < j < r.len() implies r[i].price >= r[j].price by {
                    if i == 0 {
                        let m = choose|m: int| 0 <= m < s.len() && s[m] == rr[j - 1];
                        if m > 0 {
                            assert(s[0].price >= s[m].price);
                        }
                    }
                }
            }
            if unique_players(s) {
                assert forall|i: int, j: int|
                    0 <= i < j < r.len() implies r[i].player != r[j].player by {
                    if i == 0 {
                        let mm = choose|mm: int|
                            0 <= mm < s.drop_first().len() && s.drop_first()[mm] == rr[j - 1];
                        assert(s[mm + 1].player != s[0].player);
                    }
                }
            }
        }
    }
}

/// Under the one-quote-per-player rule every quote of `name` carries the
/// price that `price_of` reads.
pub proof fn lemma_price_of_all(s: Seq<BookEntryV>, name: Seq<char>)
    requires
        unique_players(s),
    ensures
        forall|i: int|
            0 <= i < s.len() && (#[trigger] s[i].player) == name ==> s[i].price == price_of(
                s,
                name,
            ),
    decreases s.len(),
{
    if s.len() > 0 {
        assert(unique_players(s.drop_first()));
        lemma_price_of_all(s.drop_first(), name);
        assert(forall|i: int|
            0 <= i < s.drop_first().len() ==> s.drop_first()[i] == #[trigger] s[i + 1]);
        if s[0].player == name {
            assert forall|i: int|
                0 <= i < s.len() && (#[trigger] s[i].player) == name implies s[i].price
                == price_of(s, name) by {
                if i > 0 {
                    assert(s[0].player != s[i].player);
                }
            }
        } else {
            assert forall|i: int|
                0 <= i < s.len() && (#[trigger] s[i].player) == name implies s[i].price
                == price_of(s, name) by {
                if i > 0 {
                    assert(s.drop_first()[i - 1] == s[i]);
                    assert(s.drop_first()[i - 1].price == price_of(s.drop_first(), name));
                }
            }
        }
    }
}

/// The law of bid upserts: after any `update_bid` on a well-ordered side
/// with unique players, the side is still sorted best price first, still
/// has at most one quote per player, holds the player's new quote, and
/// otherwise holds only quotes it already had.
pub proof fn lemma_upsert_bid_wf(s: Seq<BookEntryV>, price: int, name: Seq<char>)
    requires
        sorted_desc(s),
        unique_players(s),
    ensures
        ({
            let r = upsert_bid(s, price, name);
            let e = BookEntryV { price, player: name };
            &&& sorted_desc(r)
            &&& unique_players(r)
            &&& r.contains(e)
            &&& forall|i: int|
                0 <= i < r.len() ==> r[i] == e || (s.contains(#[trigger] r[i]) && r[i].player
                    != name)
        }),
{
    let r = upsert_bid(s, price, name);
    let e = BookEntryV { price, player: name };
    if !has_player(s, name) {
        lemma_insert_side_props(s, e, false, true);
        assert forall|i: int|
            0 <= i < r.len() implies r[i] == e || (s.contains(#[trigger] r[i]) && r[i].player
            != name) by {
            if r[i] != e {
                let m = choose|m: int| 0 <= m < s.len() && s[m] == r[i];
                assert(s[m].player != name);
            }
        }
    } else {
        let q = price_of(s, name);
        lemma_price_of_all(s, name);
        if price == q {
            let k = choose|k: int| 0 <= k < s.len() && s[k].player == name;
            assert(s[k] == e);
            assert(r.contains(e));
            assert forall|i: int|
                0 <= i < r.len() implies r[i] == e || (s.contains(#[trigger] r[i]) && r[i].player
                != name) by {
                if r[i].player == name {
                    assert(r[i].price == q);
                    assert(r[i] == e);
                } else {
                    assert(s[i] == r[i]);
                }
            }
        } else {
            let s1 = remove_player(s, name);
            lemma_remove_player_props(s, name);
            let tie_after = price > q;
            lemma_insert_side_props(s1, e, false, tie_after);
            assert forall|i: int|
                0 <= i < r.len() implies r[i] == e || (s.contains(#[trigger] r[i]) && r[i].player
                != name) by {
                if r[i] != e {
                    let m = choose|m: int| 0 <= m < s1.len() && s1[m] == r[i];
                    assert(s.contains(s1[m]) && s1[m].player != name);
                }
            }
        }
    }
}

/// The law of ask upserts, mirrored for the ascending side.
pub proof fn lemma_upsert_ask_wf(s: Seq<BookEntryV>, price: int, name: Seq<char>)
    requires
        sorted_asc(s),
        unique_players(s),
    ensures
        ({
            let r = upsert_ask(s, price, name);
            let e = BookEntryV { price, player: name };
            &&& sorted_asc(r)
            &&& unique_players(r)
            &&& r.contains(e)
            &&& forall|i: int|
                0 <= i < r.len() ==> r[i] == e || (s.contains(#[trigger] r[i]) && r[i].player
                    != name)
        }),
{
    let r = upsert_ask(s, price, name);
    let e = BookEntryV { price, player: name };
    if !has_player(s, name) {
        lemma_insert_side_props(s, e, true, true);
        assert forall|i: int|
            0 <= i < r.len() implies r[i] == e || (s.contains(#[trigger] r[i]) && r[i].player
            != name) by {
            if r[i] != e {
                let m = choose|m: int| 0 <= m < s.len() && s[m] == r[i];
                assert(s[m].player != name);
            }
        }
    } else {
        let q = price_of(s, name);
        lemma_price_of_all(s, name);
        if price == q {
            let k = choose|k: int| 0 <= k < s.len() && s[k].player == name;
            assert(s[k] == e);
            assert(r.contains(e));
            assert forall|i: int|
                0 <= i < r.len() implies r[i] == e || (s.contains(#[trigger] r[i]) && r[i].player
                != name) by {
                if r[i].player == name {
                    assert(r[i].price == q);
                    assert(r[i] == e);
                } else {
                    assert(s[i] == r[i]);
                }
            }
        } else {
            let s1 = remove_player(s, name);
            lemma_remove_player_props(s, name);
            let tie_after = price < q;
            lemma_insert_side_props(s1, e, true, tie_after);
            assert forall|i: int|
                0 <= i < r.len() implies r[i] == e || (s.contains(#[trigger] r[i]) && r[i].player
                != name) by {
                if r[i] != e {
                    let m = choose|m: int| 0 <= m < s1.len() && s1[m] == r[i];
                    assert(s.contains(s1[m]) && s1[m].player != name);
                }
            }
        }
    }
}

/// `price_of` reads the first quote of `name`.
pub proof fn lemma_price_of_at(s: Seq<BookEntryV>, k: int, name: Seq<char>)
    requires
        0 <= k < s.len(),
        s[k].player == name,
        forall|j: int| 0 <= j < k ==> s[j].player != name,
    ensures
        has_player(s, name),
        price_of(s, name) == s[k].price,
    decreases k,
{
    if k > 0 {
        lemma_price_of_at(s.drop_first(), k - 1, name);
    }
}

/// When `name` quotes only at position `k`, removing the player removes
/// exactly that position.
pub proof fn lemma_remove_player_at(s: Seq<BookEntryV>, k: int, name: Seq<char>)
    requires
        0 <= k < s.len(),
        s[k].player == name,
        forall|j: int| 0 <= j < s.len() && j != k ==> s[j].player != name,
    ensures
        remove_player(s, name) == s.take(k) + s.skip(k + 1),
    decreases k,
{
    if k == 0 {
        lemma_remove_player_absent(s.drop_first(), name);
        assert(remove_player(s, name) =~= s.take(0) + s.skip(1));
    } else {
        lemma_remove_player_at(s.drop_first(), k - 1, name);
        assert(seq![s[0]] + (s.drop_first().take(k - 1) + s.drop_first().skip(k))
            =~= s.take(k) + s.skip(k + 1));
    }
}

/// Removing a player who quotes nowhere changes nothing.
pub proof fn lemma_remove_player_absent(s: Seq<BookEntryV>, name: Seq<char>)
    requires
        forall|j: int| 0 <= j < s.len() ==> s[j].player != name,
    ensures
        remove_player(s, name) == s,
    decreases s.len(),
{
    if s.len() > 0 {
        lemma_remove_player_absent(s.drop_first(), name);
        assert(seq![s[0]] + s.drop_first() =~= s);
    }
}

/// The index of `name`'s quote in `v`, when there is one.
fn find_entry(v: &Vec<BookEntry>, name: &String) -> (r: Option<usize>)
    ensures
        match r {
            Some(k) => {
                &&& k < v@.len()
                &&& entries(v@)[k as int].player == name@
                &&& forall|j: int| 0 <= j < k ==> entries(v@)[j].player != name@
            },
            None => forall|j: int| 0 <= j < v@.len() ==> entries(v@)[j].player != name@,
        },
{
    let n = v.len();
    let mut i: usize = 0;
    while i < n
        invariant
            i <= n,
            n == v@.len(),
            forall|j: int| 0 <= j < i ==> entries(v@)[j].player != name@,
        decreases n - i,
    {
        if v[i].player_name == *name {
            return Some(i);
        }
        i = i + 1;
    }
    None
}

/// The first position in a descending bid list priced strictly below `p`.
fn pos_bid_lt(v: &Vec<BookEntry>, p: usize) -> (r: usize)
    ensures
        r <= v@.len(),
        forall|i: int| 0 <= i < r ==> entries(v@)[i].price >= p,
        r < v@.len() ==> entries(v@)[r as int].price < p,
{
    let n = v.len();
    let mut i: usize = 0;
    while i < n
        invariant
            i <= n,
            n == v@.len(),
            forall|j: int| 0 <= j < i ==> entries(v@)[j].price >= p,
        decreases n - i,
    {
        if v[i].price < p {
            return i;
        }
        i = i + 1;
    }
    n
}

/// The first position in a descending bid list priced at or below `p`.
fn pos_bid_le(v: &Vec<BookEntry>, p: usize) -> (r: usize)
    ensures
        r <= v@.len(),
        forall|i: int| 0 <= i < r ==> entries(v@)[i].price > p,
        r < v@.len() ==> entries(v@)[r as int].price <= p,
{
    let n = v.len();
    let mut i: usize = 0;
    while i < n
        invariant
            i <= n,
            n == v@.len(),
            forall|j: int| 0 <= j < i ==> entries(v@)[j].price > p,
        decreases n - i,
    {
        if v[i].price <= p {
            return i;
        }
        i = i + 1;
    }
    n
}

/// The first position in an ascending ask list priced strictly above `p`.
fn pos_ask_gt(v: &Vec<BookEntry>, p: usize) -> (r: usize)
    ensures
        r <= v@.len(),
        forall|i: int| 0 <= i < r ==> entries(v@)[i].price <= p,
        r < v@.len() ==> entries(v@)[r as int].price > p,
{
    let n = v.len();
    let mut i: usize = 0;
    while i < n
        invariant
            i <= n,
            n == v@.len(),
            forall|j: int| 0 <= j < i ==> entries(v@)[j].price <= p,
        decreases n - i,
    {
        if v[i].price > p {
            return i;
        }
        i = i + 1;
    }
    n
}

/// The first position in an ascending ask list priced at or above `p`.
fn pos_ask_ge(v: &Vec<BookEntry>, p: usize) -> (r: usize)
    ensures
        r <= v@.len(),
        forall|i: int| 0 <= i < r ==> entries(v@)[i].price < p,
        r < v@.len() ==> entries(v@)[r as int].price >= p,
{
    let n = v.len();
    let mut i: usize = 0;
    while i < n
        invariant
            i <= n,
            n == v@.len(),
            forall|j: int| 0 <= j < i ==> entries(v@)[j].price < p,
        decreases n - i,
    {
        if v[i].price >= p {
            return i;
        }
        i = i + 1;
    }
    n
}

/// The quotes of `v` whose player is not `name`, in their original order.
fn retain_others(v: &Vec<BookEntry>, name: &String) -> (r: Vec<BookEntry>)
    ensures
        entries(r@) == remove_player(entries(v@), name@),
{
    let mut kept: Vec<BookEntry> = Vec::new();
    let n = v.len();
    let mut i: usize = 0;
    proof {
        assert(entries(v@.take(0)) =~= Seq::<BookEntryV>::empty());
        assert(entries(kept@) =~= Seq::<BookEntryV>::empty());
    }
    while i < n
        invariant
            i <= n,
            n == v@.len(),
            entries(kept@) == remove_player(entries(v@.take(i as int)), name@),
        decreases n - i,
    {
        proof {
            assert(entries(v@.take(i + 1)) =~= entries(v@.take(i as int)).push(v@[i as int]@));
            lemma_remove_player_push(entries(v@.take(i as int)), name@, v@[i as int]@);
        }
        if !(v[i].player_name == *name) {
            kept.push(v[i].clone());
        }
        i = i + 1;
    }
    proof {
        assert(v@.take(n as int) =~= v@);
    }
    kept
}

} // verus!
