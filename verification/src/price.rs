//! Fixed-point prices.

use vstd::prelude::*;
use crate::text::{decimal, digit, digit_char, push_decimal};

verus! {

/// A price in hundredths of a currency unit.
pub type Price = u64;

/// How many `Price` steps make one currency unit.
pub const PRICE_SCALE: u64 = 100;

/// Generated prices lie in `[0, PRICE_LIMIT)`, that is below 100 units.
pub const PRICE_LIMIT: u64 = 10_000;

/// The price that a uniformly drawn 32-bit value stands for: the draw, read
/// as a fraction of `2^32`, times `PRICE_LIMIT`, rounded down.
pub open spec fn scaled_price(draw: u32) -> Price {
    ((draw as int * PRICE_LIMIT as int) / 0x1_0000_0000) as Price
}

/// Scales a raw 32-bit draw into the price range.
pub fn scale_draw(draw: u32) -> (price: Price)
    ensures
        price == scaled_price(draw),
        price < PRICE_LIMIT,
{
    let wide: u64 = draw as u64 * PRICE_LIMIT;
    wide / 0x1_0000_0000
}

/// How a price is written: the whole units in decimal, then, unless the
/// fraction is zero, a point and the hundredths without a trailing zero
/// (`5750` is written `57.5`, `5` is written `0.05`, `300` is written `3`).
pub open spec fn price_text(price: Price) -> Seq<char> {
    let whole = decimal((price / PRICE_SCALE) as nat);
    let fraction = (price % PRICE_SCALE) as int;
    if fraction == 0 {
        whole
    } else if fraction % 10 == 0 {
        whole.push('.').push(digit(fraction / 10))
    } else {
        whole.push('.').push(digit(fraction / 10)).push(digit(fraction % 10))
    }
}

/// Appends the written form of `price` to `out`.
pub fn push_price(out: &mut String, price: Price)
    ensures
        final(out)@ == old(out)@ + price_text(price),
{
    push_decimal(out, price / PRICE_SCALE);
    let fraction: u64 = price % PRICE_SCALE;
    if fraction != 0 {
        out.push('.');
        out.push(digit_char(fraction / 10));
        if fraction % 10 != 0 {
            out.push(digit_char(fraction % 10));
        }
    }
    assert(out@ == old(out)@ + price_text(price));
}

/// The written form of `price`.
pub fn format_price(price: Price) -> (text: String)
    ensures
        text@ == price_text(price),
{
    let mut text = String::new();
    push_price(&mut text, price);
    text
}

} // verus!
