use vio_api::objects::raw_market::{Item, Listing, Market, RobloxUser};

#[test]
fn roblox_user_accessors() {
    let u = RobloxUser::new(123, &"name".to_string(), &"Display".to_string());
    assert_eq!(u.id(), 123);
    assert_eq!(u.name(), "name");
    assert_eq!(u.display_name(), "Display");
    assert_eq!(u.url(), "https://rblx.name/123");
    assert_eq!(RobloxUser::new(0, &String::new(), &String::new()).url(), "https://rblx.name/0");
    let v = RobloxUser::new(1230, &String::new(), &String::new());
    assert_ne!(u.url(), v.url());
}

#[test]
fn listing_and_item() {
    let l = Listing::new(7, 3, 2.5f32.to_bits());
    assert_eq!(l.vendor(), 7);
    assert_eq!(l.amount(), 3);
    assert_eq!(f32::from_bits(l.price()), 2.5);
    let mut it = Item::new();
    assert_eq!(it.name(), "");
    assert!(it.buy().is_empty() && it.sell().is_empty());
    it.add_buy(1, 2, 1.5f32.to_bits());
    it.add_buy(3, 4, 0.5f32.to_bits());
    it.add_sell(5, 6, 9.0f32.to_bits());
    assert_eq!(it.buy().len(), 2);
    assert_eq!(it.buy()[1].vendor(), 3);
    assert_eq!(it.sell().len(), 1);
    assert_eq!(f32::from_bits(it.sell()[0].price()), 9.0);
}

#[test]
fn new_market_is_scan_zero() {
    let before = mongodb::bson::DateTime::now();
    let m = Market::new();
    assert_eq!(m.id(), 0);
    assert!(m.time_scanned() >= before);
}
