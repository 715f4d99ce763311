//! The price owed for a quantity of one item on a given date.
//!
//! A sale whose date matches replaces every other rule. Without one, a bulk
//! rule applies once the quantity reaches its bundle size. Otherwise each
//! unit costs the unit price.

use crate::calendar::CalendarDate;
use crate::catalog::{Item, SaleDate, SalePrice};
use vstd::arithmetic::div_mod::{lemma_fundamental_div_mod, lemma_small_mod, lemma_basic_div};
use vstd::prelude::*;

verus! {

/// `quantity` units where every `amount` units cost `total_price` together
/// and each unit left over costs `price`.
pub open spec fn bundle_price(quantity: int, amount: int, total_price: int, price: int) -> int {
    (quantity / amount) * total_price + (quantity % amount) * price
}

/// `quantity` units at `price` each with `percent` per cent taken off,
/// rounded down to a whole cent.
pub open spec fn percentage_price(quantity: int, price: int, percent: int) -> int {
    quantity * price * (100 - percent) / 100
}

/// The price of `quantity` units at unit price `price` under a sale's
/// discount.
pub open spec fn sale_price_of(sale_price: SalePrice, quantity: int, price: int) -> int {
    match sale_price {
        SalePrice::QuantityForFixedPrice(amount, total_price) => bundle_price(
            quantity,
            amount as int,
            total_price as int,
            price,
        ),
        SalePrice::PercentageOff(percent) => percentage_price(quantity, price, percent as int),
        SalePrice::TwoForOne => quantity * price,
    }
}

/// Whether a sale that recurs on `date` is on at the calendar date `on`.
pub open spec fn sale_applies(date: SaleDate, on: CalendarDate) -> bool {
    match date {
        SaleDate::DayOfWeek(weekday) => on.weekday == weekday,
        SaleDate::MonthAndDay(month, day) => on.month == month && on.day == day,
    }
}

/// Whether `item` has a sale that is on at the date `on`.
pub open spec fn on_sale(item: Item, on: CalendarDate) -> bool {
    item.sale matches Some(sale) && sale_applies(sale.date, on)
}

/// The price owed for `quantity` units of `item` on the date `on`.
pub open spec fn line_price(item: Item, quantity: int, on: CalendarDate) -> int {
    if on_sale(item, on) {
        sale_price_of(item.sale.unwrap().sale_price, quantity, item.price as int)
    } else {
        match item.bulk_pricing {
            Some(bulk) if quantity >= bulk.amount => bundle_price(
                quantity,
                bulk.amount as int,
                bulk.total_price as int,
                item.price as int,
            ),
            _ => quantity * item.price,
        }
    }
}

/// The largest price that one line can come to.
pub open spec fn max_line_price() -> int {
    u32::MAX * u32::MAX
}

/// A bundle price is made of two non-negative parts and is at most the
/// quantity times the dearer of the two prices.
pub proof fn lemma_bundle_price_bounds(quantity: int, amount: int, total_price: int, price: int)
    requires
        0 <= quantity <= u32::MAX,
        1 <= amount,
        0 <= total_price <= u32::MAX,
        0 <= price <= u32::MAX,
    ensures
        0 <= quantity / amount <= quantity,
        0 <= quantity % amount < amount,
        0 <= (quantity / amount) * total_price <= max_line_price(),
        0 <= (quantity % amount) * price <= max_line_price(),
        0 <= bundle_price(quantity, amount, total_price, price) <= max_line_price(),
{
    let b = quantity / amount;
    let r = quantity % amount;
    lemma_fundamental_div_mod(quantity, amount);
    assert(0 <= r < amount);
    assert(quantity == amount * b + r);
    assert(b >= 0) by (nonlinear_arith)
        requires
            quantity == amount * b + r,
            0 <= r < amount,
            quantity >= 0,
            amount >= 1,
    ;
    assert(b <= amount * b) by (nonlinear_arith)
        requires
            b >= 0,
            amount >= 1,
    ;
    let m: int = 0xffff_ffff;
    assert(0 <= b * total_price <= b * m) by (nonlinear_arith)
        requires
            b >= 0,
            0 <= total_price <= m,
    ;
    assert(0 <= r * price <= r * m) by (nonlinear_arith)
        requires
            r >= 0,
            0 <= price <= m,
    ;
    assert(b * m + r * m == (b + r) * m) by (nonlinear_arith);
    assert((b + r) * m <= m * m) by (nonlinear_arith)
        requires
            0 <= b + r <= m,
            m >= 0,
    ;
    assert(b * m <= (b + r) * m) by (nonlinear_arith)
        requires
            r >= 0,
            m >= 0,
    ;
    assert(r * m <= (b + r) * m) by (nonlinear_arith)
        requires
            b >= 0,
            m >= 0,
    ;
}

/// A discounted price lies between nothing and the full price, and is
/// the exact discounted amount less the part of a cent that is dropped.
pub proof fn lemma_percentage_price_bounds(quantity: int, price: int, percent: int)
    requires
        0 <= quantity <= u32::MAX,
        0 <= price <= u32::MAX,
        0 <= percent <= 100,
    ensures
        0 <= quantity * price <= max_line_price(),
        0 <= quantity * price * (100 - percent) <= max_line_price() * 100,
        0 <= percentage_price(quantity, price, percent) <= quantity * price,
        0 <= quantity * price * (100 - percent) - 100 * percentage_price(quantity, price, percent)
            < 100,
{
    let m: int = 0xffff_ffff;
    let full = quantity * price;
    assert(0 <= full <= m * m) by (nonlinear_arith)
        requires
            full == quantity * price,
            0 <= quantity <= m,
            0 <= price <= m,
    ;
    let scaled = full * (100 - percent);
    assert(0 <= scaled <= full * 100) by (nonlinear_arith)
        requires
            scaled == full * (100 - percent),
            0 <= full,
            0 <= percent <= 100,
    ;
    assert(0 <= scaled / 100 <= full) by (nonlinear_arith)
        requires
            0 <= scaled <= full * 100,
    ;
    lemma_fundamental_div_mod(scaled, 100);
}

/// A line price is never negative and never above `max_line_price()`.
pub proof fn lemma_line_price_bounds(item: Item, quantity: int, on: CalendarDate)
    requires
        item.valid(),
        0 <= quantity <= u32::MAX,
    ensures
        0 <= line_price(item, quantity, on) <= max_line_price(),
{
    let price = item.price as int;
    lemma_percentage_price_bounds(quantity, price, 0);
    if on_sale(item, on) {
        match item.sale.unwrap().sale_price {
            SalePrice::QuantityForFixedPrice(amount, total_price) => {
                lemma_bundle_price_bounds(quantity, amount as int, total_price as int, price);
            },
            SalePrice::PercentageOff(percent) => {
                lemma_percentage_price_bounds(quantity, price, percent as int);
            },
            SalePrice::TwoForOne => {},
        }
    } else {
        match item.bulk_pricing {
            Some(bulk) => {
                lemma_bundle_price_bounds(
                    quantity,
                    bulk.amount as int,
                    bulk.total_price as int,
                    price,
                );
            },
            None => {},
        }
    }
}

/// Without a bulk rule and without a sale that is on, every unit costs the
/// unit price.
pub proof fn law_plain_price(item: Item, quantity: int, on: CalendarDate)
    requires
        item.bulk_pricing is None,
        !on_sale(item, on),
    ensures
        line_price(item, quantity, on) == quantity * item.price,
{
}

/// With a bulk rule and without a sale that is on, full bundles cost the
/// bundle price and the units left over the unit price, whatever the
/// quantity.
pub proof fn law_bulk_price(item: Item, quantity: int, on: CalendarDate)
    requires
        item.valid(),
        item.bulk_pricing is Some,
        !on_sale(item, on),
        0 <= quantity,
    ensures
        line_price(item, quantity, on) == bundle_price(
            quantity,
            item.bulk_pricing.unwrap().amount as int,
            item.bulk_pricing.unwrap().total_price as int,
            item.price as int,
        ),
{
    let amount = item.bulk_pricing.unwrap().amount as int;
    if quantity < amount {
        lemma_basic_div(quantity, amount);
        lemma_small_mod(quantity as nat, amount as nat);
    }
}

/// Nothing is owed for a quantity of zero, whatever rules the item has.
pub proof fn law_zero_quantity(item: Item, on: CalendarDate)
    requires
        item.valid(),
    ensures
        line_price(item, 0, on) == 0,
{
    let price = item.price as int;
    if on_sale(item, on) {
        match item.sale.unwrap().sale_price {
            SalePrice::QuantityForFixedPrice(amount, total_price) => {
                lemma_basic_div(0, amount as int);
                lemma_small_mod(0, amount as nat);
                assert(bundle_price(0, amount as int, total_price as int, price) == 0);
            },
            SalePrice::PercentageOff(percent) => {
                assert(0 * price * (100 - percent) == 0) by (nonlinear_arith);
                assert(percentage_price(0, price, percent as int) == 0);
            },
            SalePrice::TwoForOne => {},
        }
    }
}

/// Zero per cent off leaves the full price; a hundred per cent off leaves
/// nothing.
pub proof fn law_percentage_extremes(quantity: int, price: int)
    ensures
        sale_price_of(SalePrice::PercentageOff(0), quantity, price) == quantity * price,
        sale_price_of(SalePrice::PercentageOff(100), quantity, price) == 0,
{
    let full = quantity * price;
    assert(full * 100 / 100 == full) by (nonlinear_arith);
    assert(full * 0 == 0) by (nonlinear_arith);
    assert(quantity * price * (100 - 0) == full * 100);
    assert(quantity * price * (100 - 100) == full * 0);
}

/// A sale that is on decides the price alone: a bulk rule, met or not,
/// changes nothing.
pub proof fn law_sale_precedence(item: Item, other: Item, quantity: int, on: CalendarDate)
    requires
        on_sale(item, on),
        other.sale == item.sale,
        other.price == item.price,
    ensures
        line_price(item, quantity, on) == sale_price_of(
            item.sale.unwrap().sale_price,
            quantity,
            item.price as int,
        ),
        line_price(item, quantity, on) == line_price(other, quantity, on),
{
}

/// The bundle formula on machine integers.
fn bundle_total(quantity: u32, amount: u32, total_price: u32, price: u32) -> (r: u64)
    requires
        amount >= 1,
    ensures
        r == bundle_price(quantity as int, amount as int, total_price as int, price as int),
{
    let bulk_count: u32 = quantity / amount;
    let remainder: u32 = quantity % amount;
    proof {
        lemma_bundle_price_bounds(quantity as int, amount as int, total_price as int, price as int);
    }
    let bundles: u64 = (bulk_count as u64) * (total_price as u64);
    let rest: u64 = (remainder as u64) * (price as u64);
    bundles + rest
}

/// The price of `quantity` units at unit price `price` under the discount
/// `sale_price`.
pub fn apply_sale_price(sale_price: &SalePrice, quantity: u32, price: u32) -> (r: u64)
    requires
        sale_price.valid(),
    ensures
        r == sale_price_of(*sale_price, quantity as int, price as int),
{
    match sale_price {
        SalePrice::QuantityForFixedPrice(amount, total_price) => bundle_total(
            quantity,
            *amount,
            *total_price,
            price,
        ),
        SalePrice::PercentageOff(percent) => {
            proof {
                lemma_percentage_price_bounds(quantity as int, price as int, *percent as int);
            }
            let full: u128 = (quantity as u128) * (price as u128);
            let kept: u128 = (100 - *percent) as u128;
            let scaled: u128 = full * kept;
            (scaled / 100) as u64
        },
        SalePrice::TwoForOne => {
            proof {
                lemma_percentage_price_bounds(quantity as int, price as int, 0);
            }
            (quantity as u64) * (price as u64)
        },
    }
}

/// Whether a sale that recurs on `date` is on at the calendar date `on`.
pub fn sale_is_on(date: &SaleDate, on: &CalendarDate) -> (r: bool)
    ensures
        r == sale_applies(*date, *on),
{
    match date {
        SaleDate::DayOfWeek(weekday) => on.weekday == *weekday,
        SaleDate::MonthAndDay(month, day) => on.month == *month && on.day == *day,
    }
}

/// The price owed for `quantity` units of `item` on the date `on`.
pub fn price_for(item: &Item, quantity: u32, on: &CalendarDate) -> (r: u64)
    requires
        item.valid(),
    ensures
        r == line_price(*item, quantity as int, *on),
        r <= max_line_price(),
{
    proof {
        lemma_line_price_bounds(*item, quantity as int, *on);
        lemma_percentage_price_bounds(quantity as int, item.price as int, 0);
    }
    match &item.sale {
        Some(sale) if sale_is_on(&sale.date, on) => {
            return apply_sale_price(&sale.sale_price, quantity, item.price);
        },
        _ => {},
    }
    match &item.bulk_pricing {
        Some(bulk) if quantity >= bulk.amount => bundle_total(
            quantity,
            bulk.amount,
            bulk.total_price,
            item.price,
        ),
        _ => (quantity as u64) * (item.price as u64),
    }
}

} // verus!
