use cart_pricing::calendar::CalendarDate;
use cart_pricing::cart::{catalog_is_valid, lookup, CartEntry, ShoppingCart};
use cart_pricing::catalog::{
    BulkPricing, Item, PricingError, Sale, SaleDate, SalePrice,
};
use cart_pricing::calendar::DayOfWeek;
use cart_pricing::pricing::{apply_sale_price, price_for, sale_is_on};

fn item(name: &str, price: u32, bulk: Option<(u32, u32)>, sale: Option<Sale>) -> Item {
    Item {
        id: 1,
        name: name.to_string(),
        image_url: String::new(),
        price,
        bulk_pricing: bulk.map(|(amount, total_price)| BulkPricing { amount, total_price }),
        sale,
    }
}

fn catalog() -> Vec<Item> {
    vec![
        item("Brownie", 200, Some((4, 700)), None),
        item("Key Lime Cheesecake", 800, None, None),
        item("Cookie", 125, Some((6, 600)), None),
        item("Mini Gingerbread Donut", 50, None, None),
    ]
}

fn sale_catalog() -> Vec<Item> {
    vec![
        item(
            "Key Lime Cheesecake",
            800,
            None,
            Some(Sale {
                date: SaleDate::MonthAndDay(10, 1),
                sale_price: SalePrice::PercentageOff(25),
            }),
        ),
        item(
            "Cookie",
            125,
            Some((6, 600)),
            Some(Sale {
                date: SaleDate::DayOfWeek(DayOfWeek::Fri),
                sale_price: SalePrice::QuantityForFixedPrice(8, 600),
            }),
        ),
        item(
            "Mini Gingerbread Donut",
            50,
            None,
            Some(Sale {
                date: SaleDate::DayOfWeek(DayOfWeek::Tue),
                sale_price: SalePrice::TwoForOne,
            }),
        ),
    ]
}

// 2021-10-01 was a Friday, 2021-10-05 a Tuesday, 2021-10-06 a Wednesday.
fn friday_october_first() -> CalendarDate {
    CalendarDate::from_ymd(2021, 10, 1).unwrap()
}

fn wednesday() -> CalendarDate {
    CalendarDate::from_ymd(2021, 10, 6).unwrap()
}

#[test]
fn from_ymd_gives_the_weekday_of_the_calendar() {
    let friday = CalendarDate::from_ymd(2021, 10, 1).unwrap();
    assert_eq!(friday.weekday, DayOfWeek::Fri);
    assert_eq!((friday.year, friday.month, friday.day), (2021, 10, 1));
    assert_eq!(CalendarDate::from_ymd(2021, 10, 2).unwrap().weekday, DayOfWeek::Sat);
    assert_eq!(CalendarDate::from_ymd(2021, 10, 3).unwrap().weekday, DayOfWeek::Sun);
    assert_eq!(CalendarDate::from_ymd(2021, 10, 4).unwrap().weekday, DayOfWeek::Mon);
    assert_eq!(CalendarDate::from_ymd(2021, 10, 5).unwrap().weekday, DayOfWeek::Tue);
    assert_eq!(CalendarDate::from_ymd(2021, 10, 6).unwrap().weekday, DayOfWeek::Wed);
    assert_eq!(CalendarDate::from_ymd(2021, 10, 7).unwrap().weekday, DayOfWeek::Thu);
    assert_eq!(CalendarDate::from_ymd(2024, 2, 29).unwrap().weekday, DayOfWeek::Thu);
    assert_eq!(CalendarDate::from_ymd(1, 1, 1).unwrap().weekday, DayOfWeek::Mon);
}

#[test]
fn from_ymd_refuses_dates_that_do_not_exist() {
    assert_eq!(CalendarDate::from_ymd(2015, 2, 29), None);
    assert_eq!(CalendarDate::from_ymd(2023, 4, 31), None);
    assert_eq!(CalendarDate::from_ymd(2015, 0, 14), None);
    assert_eq!(CalendarDate::from_ymd(2015, 13, 1), None);
    assert_eq!(CalendarDate::from_ymd(2015, 1, 0), None);
    assert_eq!(CalendarDate::from_ymd(2015, 1, 32), None);
    assert_eq!(CalendarDate::from_ymd(400000, 1, 1), None);
    assert_eq!(CalendarDate::from_ymd(-400000, 1, 1), None);
}

#[test]
fn with_weekday_index_counts_from_monday() {
    let expected = [
        DayOfWeek::Mon,
        DayOfWeek::Tue,
        DayOfWeek::Wed,
        DayOfWeek::Thu,
        DayOfWeek::Fri,
        DayOfWeek::Sat,
        DayOfWeek::Sun,
    ];
    for (n, weekday) in expected.iter().enumerate() {
        assert_eq!(DayOfWeek::from_index(n as u32), Some(*weekday));
        assert_eq!(
            CalendarDate::with_weekday_index(2000, 5, 17, Some(n as u32)),
            Some(CalendarDate { year: 2000, month: 5, day: 17, weekday: *weekday })
        );
    }
    assert_eq!(DayOfWeek::from_index(7), None);
    assert_eq!(CalendarDate::with_weekday_index(2000, 5, 17, Some(7)), None);
    assert_eq!(CalendarDate::with_weekday_index(2000, 5, 17, None), None);
}

#[test]
fn plain_price_is_quantity_times_unit_price() {
    let cheesecake = item("Key Lime Cheesecake", 800, None, None);
    for q in [0u32, 1, 2, 7, 1000] {
        assert_eq!(price_for(&cheesecake, q, &wednesday()), q as u64 * 800);
    }
    // A sale that is not on changes nothing.
    let on_sale_elsewhere = &sale_catalog()[0];
    assert_eq!(price_for(on_sale_elsewhere, 4, &wednesday()), 3200);
}

#[test]
fn bulk_price_charges_bundles_and_leftovers() {
    let cookie = item("Cookie", 125, Some((6, 600)), None);
    assert_eq!(price_for(&cookie, 5, &wednesday()), 625);
    assert_eq!(price_for(&cookie, 6, &wednesday()), 600);
    assert_eq!(price_for(&cookie, 7, &wednesday()), 725);
    assert_eq!(price_for(&cookie, 8, &wednesday()), 850);
    assert_eq!(price_for(&cookie, 12, &wednesday()), 1200);
    assert_eq!(price_for(&cookie, 13, &wednesday()), 1325);
}

#[test]
fn bulk_rule_applies_when_the_sale_is_not_on() {
    let cookie = &sale_catalog()[1];
    assert_eq!(price_for(cookie, 7, &wednesday()), 725);
    assert_eq!(price_for(cookie, 3, &wednesday()), 375);
}

#[test]
fn zero_quantity_costs_nothing() {
    for entry in catalog().iter().chain(sale_catalog().iter()) {
        assert_eq!(price_for(entry, 0, &wednesday()), 0);
        assert_eq!(price_for(entry, 0, &friday_october_first()), 0);
        assert_eq!(price_for(entry, 0, &CalendarDate::from_ymd(2021, 10, 5).unwrap()), 0);
    }
}

#[test]
fn percentage_off_extremes() {
    assert_eq!(apply_sale_price(&SalePrice::PercentageOff(0), 3, 222), 666);
    assert_eq!(apply_sale_price(&SalePrice::PercentageOff(100), 3, 222), 0);
    assert_eq!(apply_sale_price(&SalePrice::PercentageOff(25), 4, 800), 2400);
    assert_eq!(apply_sale_price(&SalePrice::PercentageOff(50), 1, 333), 166);
    assert_eq!(apply_sale_price(&SalePrice::PercentageOff(25), 1, 1), 0);
}

#[test]
fn percentage_off_is_validated() {
    assert_eq!(SalePrice::percentage_off(0), Ok(SalePrice::PercentageOff(0)));
    assert_eq!(SalePrice::percentage_off(25), Ok(SalePrice::PercentageOff(25)));
    assert_eq!(SalePrice::percentage_off(100), Ok(SalePrice::PercentageOff(100)));
    assert_eq!(SalePrice::percentage_off(101), Err(PricingError::InvalidPercentage));
    assert_eq!(SalePrice::percentage_off(-1), Err(PricingError::InvalidPercentage));
    assert_eq!(SalePrice::percentage_off(256), Err(PricingError::InvalidPercentage));
    assert_eq!(SalePrice::percentage_off(i64::MIN), Err(PricingError::InvalidPercentage));
}

#[test]
fn validity_of_rules() {
    assert!(SalePrice::PercentageOff(100).is_valid());
    assert!(!SalePrice::PercentageOff(101).is_valid());
    assert!(SalePrice::QuantityForFixedPrice(1, 0).is_valid());
    assert!(!SalePrice::QuantityForFixedPrice(0, 5).is_valid());
    assert!(SalePrice::TwoForOne.is_valid());
    assert!(BulkPricing { amount: 1, total_price: 0 }.is_valid());
    assert!(!BulkPricing { amount: 0, total_price: 700 }.is_valid());
    assert!(item("a", 1, Some((4, 700)), None).is_valid());
    assert!(!item("a", 1, Some((0, 700)), None).is_valid());
    let bad_sale = Sale {
        date: SaleDate::MonthAndDay(10, 1),
        sale_price: SalePrice::PercentageOff(200),
    };
    assert!(!item("a", 1, Some((4, 700)), Some(bad_sale)).is_valid());
    assert!(sale_catalog().iter().all(|entry| entry.is_valid()));
}

#[test]
fn two_for_one_charges_every_unit() {
    assert_eq!(apply_sale_price(&SalePrice::TwoForOne, 0, 50), 0);
    assert_eq!(apply_sale_price(&SalePrice::TwoForOne, 1, 50), 50);
    assert_eq!(apply_sale_price(&SalePrice::TwoForOne, 2, 50), 100);
    assert_eq!(apply_sale_price(&SalePrice::TwoForOne, 5, 50), 250);
    let donut = &sale_catalog()[2];
    let tuesday = CalendarDate::from_ymd(2021, 10, 5).unwrap();
    assert_eq!(price_for(donut, 4, &tuesday), 200);
}

#[test]
fn sale_bundle_formula() {
    let bundle = SalePrice::QuantityForFixedPrice(8, 600);
    assert_eq!(apply_sale_price(&bundle, 7, 125), 875);
    assert_eq!(apply_sale_price(&bundle, 8, 125), 600);
    assert_eq!(apply_sale_price(&bundle, 9, 125), 725);
    assert_eq!(apply_sale_price(&bundle, 16, 125), 1200);
}

#[test]
fn sale_takes_precedence_over_bulk() {
    let cookie = &sale_catalog()[1];
    // On a Friday the sale bundle of 8 decides, although 8 meets the bulk
    // threshold of 6.
    assert_eq!(price_for(cookie, 8, &friday_october_first()), 600);
    assert_eq!(price_for(cookie, 6, &friday_october_first()), 750);
    assert_eq!(price_for(cookie, 6, &wednesday()), 600);
}

#[test]
fn sale_dates_match_by_weekday_or_by_month_and_day() {
    let friday = friday_october_first();
    assert!(sale_is_on(&SaleDate::DayOfWeek(DayOfWeek::Fri), &friday));
    assert!(!sale_is_on(&SaleDate::DayOfWeek(DayOfWeek::Sat), &friday));
    assert!(sale_is_on(&SaleDate::MonthAndDay(10, 1), &friday));
    assert!(!sale_is_on(&SaleDate::MonthAndDay(1, 10), &friday));
    assert!(!sale_is_on(&SaleDate::MonthAndDay(10, 2), &friday));
    // The year does not matter.
    let other_year = CalendarDate::from_ymd(1999, 10, 1).unwrap();
    assert!(sale_is_on(&SaleDate::MonthAndDay(10, 1), &other_year));
}

#[test]
fn largest_line_fits() {
    let dear = item("dear", u32::MAX, Some((1, u32::MAX)), None);
    let expected = u32::MAX as u64 * u32::MAX as u64;
    assert_eq!(price_for(&dear, u32::MAX, &wednesday()), expected);
    assert_eq!(apply_sale_price(&SalePrice::PercentageOff(0), u32::MAX, u32::MAX), expected);
    assert_eq!(apply_sale_price(&SalePrice::TwoForOne, u32::MAX, u32::MAX), expected);
    let mut cart = ShoppingCart::new();
    cart.add("dear", u32::MAX);
    assert_eq!(cart.total(&[dear], &wednesday()), Ok(expected as u128));
}

#[test]
fn scenario_cookie_seven() {
    let mut cart = ShoppingCart::new();
    cart.add("Cookie", 7);
    assert_eq!(cart.total(&catalog(), &wednesday()), Ok(725));
}

#[test]
fn scenario_mixed_cart() {
    let mut cart = ShoppingCart::new();
    cart.add("Cookie", 1);
    cart.add("Brownie", 4);
    cart.add("Key Lime Cheesecake", 1);
    assert_eq!(cart.total(&catalog(), &wednesday()), Ok(1625));
}

#[test]
fn scenario_cookie_eight() {
    let mut cart = ShoppingCart::new();
    cart.add("Cookie", 8);
    assert_eq!(cart.total(&catalog(), &wednesday()), Ok(850));
}

#[test]
fn scenario_sales_on_friday_october_first() {
    let mut cart = ShoppingCart::new();
    cart.add("Cookie", 8);
    cart.add("Key Lime Cheesecake", 4);
    assert_eq!(cart.total(&sale_catalog(), &friday_october_first()), Ok(3000));
}

#[test]
fn total_does_not_depend_on_order() {
    let mut one = ShoppingCart::new();
    one.add("Cookie", 7);
    one.add("Brownie", 5);
    one.add("Mini Gingerbread Donut", 3);
    let mut other = ShoppingCart::new();
    other.add("Mini Gingerbread Donut", 3);
    other.add("Cookie", 7);
    other.add("Brownie", 5);
    let expected = 725 + 700 + 200 + 150;
    assert_eq!(one.total(&catalog(), &wednesday()), Ok(expected));
    assert_eq!(other.total(&catalog(), &wednesday()), Ok(expected));
}

#[test]
fn empty_and_cleared_carts_total_zero() {
    let mut cart = ShoppingCart::new();
    assert_eq!(cart.total(&catalog(), &wednesday()), Ok(0));
    assert_eq!(cart.total(&[], &wednesday()), Ok(0));
    cart.add("Cookie", 7);
    cart.add("Nothing of the kind", 1);
    cart.clear();
    assert_eq!(cart.total(&catalog(), &wednesday()), Ok(0));
}

#[test]
fn add_overwrites_the_quantity() {
    let mut cart = ShoppingCart::new();
    cart.add("Cookie", 1);
    cart.add("Brownie", 1);
    cart.add("Cookie", 7);
    assert_eq!(cart.total(&catalog(), &wednesday()), Ok(725 + 200));
    cart.add("Cookie", 0);
    assert_eq!(cart.total(&catalog(), &wednesday()), Ok(200));
}

#[test]
fn unknown_product_fails_the_total() {
    let mut cart = ShoppingCart::new();
    cart.add("Cookie", 1);
    cart.add("Eclair", 1);
    assert_eq!(cart.total(&catalog(), &wednesday()), Err(PricingError::UnknownProduct));
    assert_eq!(cart.total(&[], &wednesday()), Err(PricingError::UnknownProduct));
}

#[test]
fn lookup_takes_the_first_match() {
    let items = vec![
        item("Cookie", 125, None, None),
        item("Brownie", 200, None, None),
        item("Cookie", 999, None, None),
    ];
    assert_eq!(lookup(&items, &"Cookie".to_string()).map(|found| found.price), Some(125));
    assert_eq!(lookup(&items, &"Brownie".to_string()).map(|found| found.price), Some(200));
    assert!(lookup(&items, &"Eclair".to_string()).is_none());
    let mut cart = ShoppingCart::new();
    cart.add("Cookie", 2);
    assert_eq!(cart.total(&items, &wednesday()), Ok(250));
}

#[test]
fn load_replaces_the_lines_and_keeps_the_last_quantity() {
    let mut cart = ShoppingCart::new();
    cart.add("Key Lime Cheesecake", 9);
    let lines = vec![
        CartEntry { product: "Cookie".to_string(), quantity: 1 },
        CartEntry { product: "Brownie".to_string(), quantity: 4 },
        CartEntry { product: "Cookie".to_string(), quantity: 7 },
    ];
    cart.load(&lines);
    assert_eq!(cart.total(&catalog(), &wednesday()), Ok(725 + 700));
    cart.load(&[]);
    assert_eq!(cart.total(&catalog(), &wednesday()), Ok(0));
}

#[test]
fn catalog_validity_needs_every_item_valid() {
    assert!(catalog_is_valid(&[]));
    assert!(catalog_is_valid(&catalog()));
    assert!(catalog_is_valid(&sale_catalog()));
    let mut items = catalog();
    items.push(item("Eclair", 300, Some((0, 500)), None));
    assert!(!catalog_is_valid(&items));
    items.insert(0, item("Tart", 300, None, None));
    assert!(!catalog_is_valid(&items));
}
