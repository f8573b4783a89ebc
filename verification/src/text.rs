use vstd::prelude::*;

use crate::matching::{Card, Direction, Inventory};

verus! {

/// The character for one decimal digit.
pub open spec fn digit_char(d: nat) -> char {
    if d == 0 {
        '0'
    } else if d == 1 {
        '1'
    } else if d == 2 {
        '2'
    } else if d == 3 {
        '3'
    } else if d == 4 {
        '4'
    } else if d == 5 {
        '5'
    } else if d == 6 {
        '6'
    } else if d == 7 {
        '7'
    } else if d == 8 {
        '8'
    } else {
        '9'
    }
}

/// The decimal notation of `n`, most significant digit first, no leading
/// zeroes (a lone zero for zero itself).
pub open spec fn spec_digits(n: nat) -> Seq<char>
    decreases n,
{
    if n < 10 {
        seq![digit_char(n)]
    } else {
        spec_digits(n / 10).push(digit_char(n % 10))
    }
}

/// The string of one decimal digit.
fn digit_str(d: usize) -> (r: String)
    requires
        d < 10,
    ensures
        r@ == seq![digit_char(d as nat)],
{
    let r = match d {
        0 => String::from_str("0"),
        1 => String::from_str("1"),
        2 => String::from_str("2"),
        3 => String::from_str("3"),
        4 => String::from_str("4"),
        5 => String::from_str("5"),
        6 => String::from_str("6"),
        7 => String::from_str("7"),
        8 => String::from_str("8"),
        _ => String::from_str("9"),
    };
    proof {
        reveal_strlit("0");
        reveal_strlit("1");
        reveal_strlit("2");
        reveal_strlit("3");
        reveal_strlit("4");
        reveal_strlit("5");
        reveal_strlit("6");
        reveal_strlit("7");
        reveal_strlit("8");
        reveal_strlit("9");
        assert(r@ =~= seq![digit_char(d as nat)]);
    }
    r
}

/// Render `n` in decimal.
pub fn usize_to_string(n: usize) -> (r: String)
    ensures
        r@ == spec_digits(n as nat),
    decreases n,
{
    if n < 10 {
        digit_str(n)
    } else {
        let mut s = usize_to_string(n / 10);
        let d = digit_str(n % 10);
        s.append(d.as_str());
        proof {
            assert(s@ =~= spec_digits((n / 10) as nat).push(digit_char((n % 10) as nat)));
        }
        s
    }
}

/// The body of a successful order acknowledgement:
/// `<suit>,<direction>,<price>`, with `cancelled` in the price place when
/// the request was a cancellation.
pub open spec fn spec_order_ack(c: Card, d: Direction, price: Option<usize>) -> Seq<char> {
    c.spec_label() + ","@ + d.spec_label() + ","@ + match price {
        Some(p) => spec_digits(p as nat),
        None => "cancelled"@,
    }
}

/// Build the order acknowledgement body.
pub fn order_ack(c: &Card, d: &Direction, price: Option<usize>) -> (r: String)
    ensures
        r@ == spec_order_ack(*c, *d, price),
{
    let mut s = c.to_string();
    s.append(",");
    let dl = d.to_string();
    s.append(dl.as_str());
    s.append(",");
    match price {
        Some(p) => {
            let ps = usize_to_string(p);
            s.append(ps.as_str());
        },
        None => {
            s.append("cancelled");
        },
    }
    s
}

/// The inventory report body: the four counts, comma separated, in the
/// order spades, clubs, diamonds, hearts.
pub open spec fn spec_inventory_message(inv: Inventory) -> Seq<char> {
    spec_digits(inv.spades as nat) + ","@ + spec_digits(inv.clubs as nat) + ","@ + spec_digits(
        inv.diamonds as nat,
    ) + ","@ + spec_digits(inv.hearts as nat)
}

/// Build the inventory report body.
pub fn inventory_message(inv: &Inventory) -> (r: String)
    ensures
        r@ == spec_inventory_message(*inv),
{
    let mut s = usize_to_string(inv.spades);
    s.append(",");
    let c = usize_to_string(inv.clubs);
    s.append(c.as_str());
    s.append(",");
    let d = usize_to_string(inv.diamonds);
    s.append(d.as_str());
    s.append(",");
    let h = usize_to_string(inv.hearts);
    s.append(h.as_str());
    s
}

} // verus!
