//! Pricing of a shopping cart against a catalog of items whose prices are
//! changed by date-scoped sales and by bulk-purchase rules.
//!
//! All monetary amounts are whole numbers of the currency's minor unit
//! (cents). Unit prices, bundle prices and quantities are `u32`, so that a
//! line price always fits in `u64` and a cart total in `u128`.

pub mod calendar;
pub mod cart;
pub mod catalog;
pub mod pricing;

pub use calendar::{CalendarDate, DayOfWeek};
pub use cart::{CartEntry, ShoppingCart};
pub use catalog::{BulkPricing, Item, PricingError, Sale, SaleDate, SalePrice};
pub use pricing::{apply_sale_price, price_for};
