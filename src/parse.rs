//! The command line format: `<id>: <Buy|Sell> <quantity> BTC @ <price> USD`,
//! as whitespace-separated words of the line's bytes.
use vstd::prelude::*;
use vstd::string::StringSliceAdditionalSpecFns;

use crate::order::{Order, OrderType};

verus! {

/// A byte that separates words: space, tab, line feed, vertical tab, form
/// feed or carriage return.
pub open spec fn is_space(c: u8) -> bool {
    c == 9 || c == 10 || c == 11 || c == 12 || c == 13 || c == 32
}

/// The words of `b`: the maximal runs of bytes that are not spaces, in order.
pub open spec fn words(b: Seq<u8>) -> Seq<Seq<u8>>
    decreases b.len(),
{
    if b.len() == 0 {
        seq![]
    } else {
        let p = b.drop_last();
        let c = b.last();
        let w = words(p);
        if is_space(c) {
            w
        } else if p.len() > 0 && !is_space(p.last()) && w.len() > 0 {
            w.update(w.len() - 1, w.last().push(c))
        } else {
            w.push(seq![c])
        }
    }
}

fn is_space_byte(c: u8) -> (r: bool)
    ensures
        r == is_space(c),
{
    c == 9 || c == 10 || c == 11 || c == 12 || c == 13 || c == 32
}

/// A prefix that ends inside a word has at least one word.
proof fn lemma_words_nonempty(b: Seq<u8>)
    requires
        b.len() > 0,
        !is_space(b.last()),
    ensures
        words(b).len() > 0,
{
    reveal_with_fuel(words, 2);
}

/// The byte contents of each of `v`'s vectors.
pub open spec fn views(v: Seq<Vec<u8>>) -> Seq<Seq<u8>> {
    v.map_values(|w: Vec<u8>| w@)
}

/// Splits `b` into its words.
pub fn split_words(b: &[u8]) -> (r: Vec<Vec<u8>>)
    ensures
        views(r@) == words(b@),
{
    let mut done: Vec<Vec<u8>> = Vec::new();
    let mut cur: Vec<u8> = Vec::new();
    let mut in_word: bool = false;
    let mut i: usize = 0;
    while i < b.len()
        invariant
            i <= b@.len(),
            in_word == (i > 0 && !is_space(b@[i - 1])),
            !in_word ==> cur@.len() == 0,
            words(b@.subrange(0, i as int)) == if in_word {
                views(done@).push(cur@)
            } else {
                views(done@)
            },
        decreases b.len() - i,
    {
        let c = b[i];
        let ghost p = b@.subrange(0, i as int);
        assert(b@.subrange(0, i + 1).drop_last() == p);
        assert(b@.subrange(0, i + 1).last() == c);
        if is_space_byte(c) {
            if in_word {
                let ghost before = views(done@);
                done.push(cur);
                cur = Vec::new();
                assert(views(done@) =~= before.push(words(p).last()));
                assert(views(done@) =~= words(p));
            }
            in_word = false;
        } else {
            let ghost w = words(p);
            if in_word {
                assert(p.last() == b@[i - 1]);
                proof { lemma_words_nonempty(p); }
                assert(words(b@.subrange(0, i + 1)) == w.update(w.len() - 1, w.last().push(c)));
            } else {
                assert(i > 0 ==> p.last() == b@[i - 1]);
                assert(words(b@.subrange(0, i + 1)) == w.push(seq![c]));
            }
            let ghost was_in_word = in_word;
            let ghost old_cur = cur@;
            cur.push(c);
            in_word = true;
            assert(cur@ =~= old_cur.push(c));
            proof {
                if was_in_word {
                    assert(w =~= views(done@).push(old_cur));
                    assert(w.update(w.len() - 1, w.last().push(c)) =~= views(done@).push(cur@));
                } else {
                    assert(w =~= views(done@));
                    assert(cur@ =~= seq![c]);
                }
            }
        }
        i = i + 1;
    }
    assert(b@.subrange(0, b@.len() as int) == b@);
    if in_word {
        let ghost before = views(done@);
        let ghost last = cur@;
        done.push(cur);
        assert(views(done@) =~= before.push(last));
    }
    done
}

/// An ASCII decimal digit.
pub open spec fn is_digit(c: u8) -> bool {
    48 <= c && c <= 57
}

/// Every byte of `t` is a decimal digit.
pub open spec fn all_digits(t: Seq<u8>) -> bool {
    forall|i: int| 0 <= i < t.len() ==> is_digit(#[trigger] t[i])
}

/// The number that the decimal digits `t` write.
pub open spec fn digits_value(t: Seq<u8>) -> nat
    decreases t.len(),
{
    if t.len() == 0 {
        0
    } else {
        digits_value(t.drop_last()) * 10 + (t.last() - 48) as nat
    }
}

/// The digits of an unsigned number: `t` without one leading `+`.
pub open spec fn unsigned_digits(t: Seq<u8>) -> Seq<u8> {
    if t.len() > 0 && t[0] == 43 {
        t.drop_first()
    } else {
        t
    }
}

/// `t` writes an unsigned decimal number no greater than `max`: an optional
/// `+`, then one digit or more.
pub open spec fn is_number_at_most(t: Seq<u8>, max: nat) -> bool {
    let d = unsigned_digits(t);
    d.len() > 0 && all_digits(d) && digits_value(d) <= max
}

/// The value of the unsigned decimal number `t`.
pub open spec fn number_value(t: Seq<u8>) -> nat {
    digits_value(unsigned_digits(t))
}

/// `t` without its trailing colons.
pub open spec fn trim_colons(t: Seq<u8>) -> Seq<u8>
    decreases t.len(),
{
    if t.len() > 0 && t.last() == 58 {
        trim_colons(t.drop_last())
    } else {
        t
    }
}

/// A longer run of digits writes a number no smaller.
proof fn lemma_digits_value_prefix(d: Seq<u8>, k: int)
    requires
        all_digits(d),
        0 <= k <= d.len(),
    ensures
        digits_value(d.subrange(0, k)) <= digits_value(d),
    decreases d.len(),
{
    if k < d.len() {
        let p = d.drop_last();
        assert(d.subrange(0, k) =~= p.subrange(0, k));
        lemma_digits_value_prefix(p, k);
    } else {
        assert(d.subrange(0, k) =~= d);
    }
}

/// Reads `t[..end]` as an unsigned decimal number no greater than `max`.
fn parse_number(t: &Vec<u8>, end: usize, max: u64) -> (r: Option<u64>)
    requires
        end <= t@.len(),
    ensures
        r == if is_number_at_most(t@.subrange(0, end as int), max as nat) {
            Some(number_value(t@.subrange(0, end as int)) as u64)
        } else {
            None::<u64>
        },
{
    let ghost whole = t@.subrange(0, end as int);
    let start: usize = if end > 0 && t[0] == 43 { 1 } else { 0 };
    let ghost d = unsigned_digits(whole);
    assert(d =~= t@.subrange(start as int, end as int));
    if start == end {
        return None;
    }
    let mut acc: u64 = 0;
    let mut i: usize = start;
    while i < end
        invariant
            start <= i <= end <= t@.len(),
            d == t@.subrange(start as int, end as int),
            d == unsigned_digits(t@.subrange(0, end as int)),
            all_digits(d.subrange(0, i - start)),
            acc as nat == digits_value(d.subrange(0, i - start)),
            acc <= max,
        decreases end - i,
    {
        let c = t[i];
        assert(d[i - start] == c);
        if c < 48 || c > 57 {
            assert(!is_digit(d[i - start]));
            return None;
        }
        let next: u128 = acc as u128 * 10 + (c - 48) as u128;
        assert(d.subrange(0, i + 1 - start).drop_last() =~= d.subrange(0, i - start));
        assert(d.subrange(0, i + 1 - start).last() == c);
        assert(digits_value(d.subrange(0, i + 1 - start)) == next);
        if next > max as u128 {
            proof {
                if all_digits(d) {
                    lemma_digits_value_prefix(d, i + 1 - start);
                }
            }
            return None;
        }
        acc = next as u64;
        i = i + 1;
        assert(all_digits(d.subrange(0, i - start)));
    }
    assert(d.subrange(0, end - start) =~= d);
    Some(acc)
}

/// The length of `t` without its trailing colons.
fn trimmed_len(t: &Vec<u8>) -> (r: usize)
    ensures
        r <= t@.len(),
        t@.subrange(0, r as int) == trim_colons(t@),
{
    let mut n: usize = t.len();
    assert(t@.subrange(0, n as int) =~= t@);
    while n > 0 && t[n - 1] == 58
        invariant
            n <= t@.len(),
            trim_colons(t@.subrange(0, n as int)) == trim_colons(t@),
        decreases n,
    {
        assert(t@.subrange(0, n as int).drop_last() =~= t@.subrange(0, n - 1));
        n = n - 1;
    }
    n
}

/// Why a well-shaped command line was refused: a number field does not hold
/// an unsigned number that fits its type.
#[derive(Clone, Copy, Debug, PartialEq, Eq, Structural)]
pub enum ParseOrderError {
    InvalidId,
    InvalidQuantity,
    InvalidPrice,
}

/// The side that the word `w` names: `Buy` or `Sell`.
pub open spec fn side_named(w: Seq<u8>) -> Option<OrderType> {
    if w == seq![66u8, 117u8, 121u8] {
        Some(OrderType::Buy)
    } else if w == seq![83u8, 101u8, 108u8, 108u8] {
        Some(OrderType::Sell)
    } else {
        None
    }
}

/// What a command line `b` holds. A line of seven words whose second word
/// names a side is an order, with the id in the first word (trailing colons
/// dropped), the quantity in the third and the price in the sixth; the other
/// words are not looked at. Any other line holds no order.
pub open spec fn parsed_order(b: Seq<u8>) -> Result<Option<Order>, ParseOrderError> {
    let w = words(b);
    if w.len() != 7 {
        Ok(None)
    } else {
        match side_named(w[1]) {
            None => Ok(None),
            Some(side) => {
                let id_text = trim_colons(w[0]);
                if !is_number_at_most(id_text, usize::MAX as nat) {
                    Err(ParseOrderError::InvalidId)
                } else if !is_number_at_most(w[2], u32::MAX as nat) {
                    Err(ParseOrderError::InvalidQuantity)
                } else if !is_number_at_most(w[5], u32::MAX as nat) {
                    Err(ParseOrderError::InvalidPrice)
                } else {
                    Ok(
                        Some(
                            Order {
                                id: number_value(id_text) as usize,
                                order_type: side,
                                price: number_value(w[5]) as u32,
                                quantity: number_value(w[2]) as u32,
                            },
                        ),
                    )
                }
            },
        }
    }
}

fn side_of_word(w: &Vec<u8>) -> (r: Option<OrderType>)
    ensures
        r == side_named(w@),
{
    if w.len() == 3 && w[0] == 66 && w[1] == 117 && w[2] == 121 {
        assert(w@ =~= seq![66u8, 117u8, 121u8]);
        Some(OrderType::Buy)
    } else if w.len() == 4 && w[0] == 83 && w[1] == 101 && w[2] == 108 && w[3] == 108 {
        assert(w@ =~= seq![83u8, 101u8, 108u8, 108u8]);
        Some(OrderType::Sell)
    } else {
        None
    }
}

impl Order {
    /// Reads an order from a command line such as `1: Buy 10 BTC @ 120 USD`.
    /// A line of another shape gives `Ok(None)`; a number that does not fit
    /// gives the error of its field.
    pub fn parse_input(input_str: &str) -> (r: Result<Option<Order>, ParseOrderError>)
        ensures
            r == parsed_order(input_str.spec_bytes()),
    {
        let parts = split_words(input_str.as_bytes());
        if parts.len() != 7 {
            return Ok(None);
        }
        let ghost w = words(input_str.spec_bytes());
        assert(parts[1]@ == w[1]);
        let order_type = match side_of_word(&parts[1]) {
            Some(side) => side,
            None => return Ok(None),
        };
        assert(parts[0]@ == w[0]);
        assert(parts[2]@ == w[2]);
        assert(parts[5]@ == w[5]);
        assert(parts[2]@.subrange(0, parts[2]@.len() as int) =~= w[2]);
        assert(parts[5]@.subrange(0, parts[5]@.len() as int) =~= w[5]);
        let id_end = trimmed_len(&parts[0]);
        let id = match parse_number(&parts[0], id_end, usize::MAX as u64) {
            Some(v) => v as usize,
            None => return Err(ParseOrderError::InvalidId),
        };
        let quantity = match parse_number(&parts[2], parts[2].len(), u32::MAX as u64) {
            Some(v) => v as u32,
            None => return Err(ParseOrderError::InvalidQuantity),
        };
        let price = match parse_number(&parts[5], parts[5].len(), u32::MAX as u64) {
            Some(v) => v as u32,
            None => return Err(ParseOrderError::InvalidPrice),
        };
        Ok(Some(Order { id, order_type, price, quantity }))
    }
}

} // verus!
