//! The catalog's data: items and the rules that change their price.

use crate::calendar::DayOfWeek;
use vstd::prelude::*;

verus! {

/// Why a rule or a cart was refused.
#[derive(Clone, Copy, Debug, PartialEq, Eq, Structural)]
pub enum PricingError {
    /// A percentage discount outside `0..=100`.
    InvalidPercentage,
    /// A cart entry names a product that the catalog does not hold.
    UnknownProduct,
}

/// Every `amount` units bought together cost `total_price`; the units left
/// over cost the unit price each.
#[derive(Clone, Copy, Debug, PartialEq, Eq, Structural)]
pub struct BulkPricing {
    pub amount: u32,
    pub total_price: u32,
}

/// The discount of a sale.
#[derive(Clone, Copy, Debug, PartialEq, Eq, Structural)]
pub enum SalePrice {
    /// Every `.0` units bought together cost `.1`.
    QuantityForFixedPrice(u32, u32),
    /// The given percentage, in `0..=100`, is taken off the price.
    PercentageOff(u8),
    /// Every unit is charged at the full unit price. The name promises a
    /// discount; this rule gives none.
    TwoForOne,
}

/// When a sale recurs.
#[derive(Clone, Copy, Debug, PartialEq, Eq, Structural)]
pub enum SaleDate {
    /// Every year on this month (`1..=12`) and day (`1..=31`).
    MonthAndDay(u32, u32),
    /// Every week on this day.
    DayOfWeek(DayOfWeek),
}

/// A discount and the dates on which it replaces normal pricing.
#[derive(Clone, Copy, Debug, PartialEq, Eq, Structural)]
pub struct Sale {
    pub date: SaleDate,
    pub sale_price: SalePrice,
}

/// One product of the catalog. `price` is the price of one unit, in cents.
#[derive(Clone, Debug)]
pub struct Item {
    pub id: u32,
    pub name: String,
    pub image_url: String,
    pub price: u32,
    pub bulk_pricing: Option<BulkPricing>,
    pub sale: Option<Sale>,
}

impl BulkPricing {
    /// A bundle holds at least one unit.
    pub open spec fn valid(self) -> bool {
        self.amount >= 1
    }

    pub fn is_valid(&self) -> (r: bool)
        ensures
            r == self.valid(),
    {
        self.amount >= 1
    }
}

impl SalePrice {
    /// A bundle holds at least one unit; a percentage is at most 100.
    pub open spec fn valid(self) -> bool {
        match self {
            SalePrice::QuantityForFixedPrice(amount, _) => amount >= 1,
            SalePrice::PercentageOff(percent) => percent <= 100,
            SalePrice::TwoForOne => true,
        }
    }

    pub fn is_valid(&self) -> (r: bool)
        ensures
            r == self.valid(),
    {
        match self {
            SalePrice::QuantityForFixedPrice(amount, _) => *amount >= 1,
            SalePrice::PercentageOff(percent) => *percent <= 100,
            SalePrice::TwoForOne => true,
        }
    }

    /// A discount of `percent` per cent. Refused unless `percent` lies in
    /// `0..=100`.
    pub fn percentage_off(percent: i64) -> (r: Result<SalePrice, PricingError>)
        ensures
            0 <= percent <= 100 ==> r == Ok::<SalePrice, PricingError>(
                SalePrice::PercentageOff(percent as u8),
            ),
            !(0 <= percent <= 100) ==> r == Err::<SalePrice, PricingError>(
                PricingError::InvalidPercentage,
            ),
            r matches Ok(discount) ==> discount.valid(),
    {
        if 0 <= percent && percent <= 100 {
            Ok(SalePrice::PercentageOff(percent as u8))
        } else {
            Err(PricingError::InvalidPercentage)
        }
    }
}

impl Sale {
    pub open spec fn valid(self) -> bool {
        self.sale_price.valid()
    }
}

impl Item {
    /// The rules of the item, where it has any, are valid.
    pub open spec fn valid(self) -> bool {
        &&& self.bulk_pricing matches Some(bulk) ==> bulk.valid()
        &&& self.sale matches Some(sale) ==> sale.valid()
    }

    pub fn is_valid(&self) -> (r: bool)
        ensures
            r == self.valid(),
    {
        let bulk_ok = match &self.bulk_pricing {
            Some(bulk) => bulk.is_valid(),
            None => true,
        };
        let sale_ok = match &self.sale {
            Some(sale) => sale.sale_price.is_valid(),
            None => true,
        };
        bulk_ok && sale_ok
    }
}

} // verus!
