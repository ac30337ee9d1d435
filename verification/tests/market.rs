use std::collections::HashMap;

use vio_api::objects::database::{
    index_users, item_field_path, item_history, latest_items, projection_fields, recent_instance, Count,
};
use vio_api::objects::market::helper::{
    decode_market, insert_users_into_market_data, resolve_scan, MarketError, StoredInt, StoredItem, StoredListing,
    StoredMarket, StoredVendor,
};
use vio_api::objects::market::market::{Item, RobloxUser};
use vio_api::table::StringMap;

fn user(id: u64, name: &str) -> RobloxUser {
    RobloxUser { id, name: name.to_string(), display_name: format!("{} display", name) }
}

fn directory() -> HashMap<u64, RobloxUser> {
    index_users(vec![user(1, "alice"), user(2, "bob"), user(i64::MAX as u64, "max")])
}

fn offer(price: f64, amount: u32, vendor: StoredVendor) -> StoredListing {
    StoredListing { price_bits: price.to_bits(), amount, vendor }
}

fn stored_item(name: &str, buy: Vec<StoredListing>, sell: Vec<StoredListing>) -> StoredItem {
    StoredItem { name: name.to_string(), id: StoredInt::Absent, time_scanned: None, buy, sell }
}

fn scan(id: StoredInt, time: Option<i64>, items: Vec<(&str, StoredItem)>) -> StoredMarket {
    let mut m = StringMap::new();
    for (k, v) in items {
        m.insert(k.to_string(), v);
    }
    StoredMarket { id, time_scanned: time, items: m }
}

fn sword_scan(id: StoredInt) -> StoredMarket {
    scan(
        id,
        Some(1_700_000_000_000),
        vec![(
            "Sword",
            stored_item(
                "Sword",
                vec![offer(12.5, 3, StoredVendor::Int32(1)), offer(13.0, 1, StoredVendor::Int64(2))],
                vec![offer(9.75, 2, StoredVendor::Int64(i64::MAX))],
            ),
        )],
    )
}

fn vendor_name(v: &StoredVendor) -> Option<String> {
    match v {
        StoredVendor::User(u) => Some(u.name.clone()),
        _ => None,
    }
}

#[test]
fn index_users_keeps_the_later_user() {
    let d = index_users(vec![user(1, "a"), user(2, "b"), user(1, "c")]);
    assert_eq!(d.len(), 2);
    assert_eq!(d[&1].name, "c");
    assert_eq!(d[&2].name, "b");
}

#[test]
fn insert_users_keeps_an_unknown_vendor() {
    let s = scan(
        StoredInt::Int64(3),
        Some(1000),
        vec![("Iron", stored_item("Iron", vec![offer(4.0, 1, StoredVendor::Int64(9))], vec![]))],
    );
    let r = insert_users_into_market_data(&s, &HashMap::new(), 55).ok().unwrap();
    assert_eq!(r.id, StoredInt::Int64(3));
    assert_eq!(r.time_scanned, Some(1000));
    let iron = r.items.get("Iron").unwrap();
    assert_eq!(iron.id, StoredInt::Int32(3));
    assert_eq!(iron.time_scanned, Some(1000));
    assert_eq!(iron.buy.len(), 1);
    assert!(matches!(iron.buy[0].vendor, StoredVendor::Int64(9)));
    assert_eq!(f64::from_bits(iron.buy[0].price_bits), 4.0);
    assert_eq!(iron.buy[0].amount, 1);
    assert!(iron.sell.is_empty());
}

#[test]
fn insert_users_keeps_the_order_of_the_items() {
    let s = scan(
        StoredInt::Int32(1),
        Some(0),
        vec![
            ("Zinc", stored_item("Zinc", vec![], vec![])),
            ("Axe", stored_item("Axe", vec![], vec![])),
            ("Mace", stored_item("Mace", vec![], vec![])),
        ],
    );
    let r = insert_users_into_market_data(&s, &directory(), 0).ok().unwrap();
    let names: Vec<&str> = r.items.entries().iter().map(|p| p.0.as_str()).collect();
    assert_eq!(names, vec!["Zinc", "Axe", "Mace"]);
}

#[test]
fn insert_users_names_the_known_vendors() {
    let r = insert_users_into_market_data(&sword_scan(StoredInt::Int32(7)), &directory(), 0).ok().unwrap();
    let it = r.items.get("Sword").unwrap();
    assert_eq!(it.id, StoredInt::Int32(7));
    assert_eq!(it.time_scanned, Some(1_700_000_000_000));
    assert_eq!(vendor_name(&it.buy[0].vendor), Some("alice".to_string()));
    assert_eq!(vendor_name(&it.buy[1].vendor), Some("bob".to_string()));
    assert_eq!(vendor_name(&it.sell[0].vendor), Some("max".to_string()));
    assert_eq!(f64::from_bits(it.sell[0].price_bits), 9.75);
}

#[test]
fn insert_users_fills_a_missing_time_with_now() {
    let s = scan(StoredInt::Int32(2), None, vec![("Axe", stored_item("Axe", vec![], vec![]))]);
    let r = insert_users_into_market_data(&s, &directory(), 77).ok().unwrap();
    assert_eq!(r.time_scanned, None);
    assert_eq!(r.items.get("Axe").unwrap().time_scanned, Some(77));
}

#[test]
fn insert_users_converts_the_scan_number() {
    let d = directory();
    let at = |id: StoredInt| {
        let r = insert_users_into_market_data(&sword_scan(id), &d, 0).ok().unwrap();
        r.items.get("Sword").unwrap().id
    };
    assert_eq!(at(StoredInt::Int32(-1)), StoredInt::Int64(4_294_967_295));
    assert_eq!(at(StoredInt::Absent), StoredInt::Int32(0));
    assert_eq!(at(StoredInt::Int64((1 << 32) + 5)), StoredInt::Int32(5));
    assert_eq!(at(StoredInt::Int64(2_147_483_648)), StoredInt::Int64(2_147_483_648));
}

#[test]
fn insert_users_refuses_an_unencodable_user() {
    let d = index_users(vec![user(u64::MAX, "minus one")]);
    let s = scan(
        StoredInt::Int32(1),
        Some(0),
        vec![("Axe", stored_item("Axe", vec![], vec![offer(2.0, 1, StoredVendor::Int32(-1))]))],
    );
    assert_eq!(insert_users_into_market_data(&s, &d, 0).err(), Some(MarketError::UnencodableUser));
    // A user that no offer selects does not matter.
    let s = scan(StoredInt::Int32(1), Some(0), vec![("Axe", stored_item("Axe", vec![], vec![]))]);
    assert!(insert_users_into_market_data(&s, &d, 0).is_ok());
}

#[test]
fn decode_market_reads_an_enriched_scan() {
    let e = insert_users_into_market_data(&sword_scan(StoredInt::Int32(7)), &directory(), 0).ok().unwrap();
    let m = decode_market(&e).ok().unwrap();
    assert_eq!(m.d, 7);
    assert_eq!(m.time_scanned, 1_700_000_000_000);
    let it = m.get_item("Sword").unwrap();
    assert_eq!(it.id, 7);
    assert_eq!(it.buy[0].vendor.name, "alice");
    assert_eq!(it.buy[0].amount, 3);
    assert_eq!(it.sell[0].vendor.name, "max");
}

#[test]
fn decode_market_errors() {
    let d = directory();
    let enriched = |s: StoredMarket| insert_users_into_market_data(&s, &d, 0).ok().unwrap();
    for id in [StoredInt::Int32(-4), StoredInt::Int64(1 << 32), StoredInt::Absent] {
        assert_eq!(decode_market(&enriched(sword_scan(id))).err(), Some(MarketError::BadId));
    }
    let s = scan(StoredInt::Int32(1), None, vec![]);
    assert_eq!(decode_market(&enriched(s)).err(), Some(MarketError::MissingTime));
    let s = scan(
        StoredInt::Int32(1),
        Some(0),
        vec![("Axe", stored_item("Axe", vec![], vec![offer(2.0, 1, StoredVendor::Int32(99))]))],
    );
    assert_eq!(decode_market(&enriched(s)).err(), Some(MarketError::BadItem));
    // Items that were never enriched have no number or time.
    assert_eq!(decode_market(&sword_scan(StoredInt::Int32(1))).err(), Some(MarketError::BadItem));
}

#[test]
fn resolution_names_the_vendors() {
    let m = resolve_scan(&sword_scan(StoredInt::Int32(7)), &directory()).ok().unwrap();
    assert_eq!(m.d, 7);
    assert_eq!(m.time_scanned, 1_700_000_000_000);
    let it = m.get_item("Sword").unwrap();
    assert_eq!(it.name, "Sword");
    assert_eq!(it.id, 7);
    assert_eq!(it.time_scanned, 1_700_000_000_000);
    assert_eq!(it.buy.len(), 2);
    assert_eq!(it.buy[0].vendor.name, "alice");
    assert_eq!(f64::from_bits(it.buy[0].price_bits), 12.5);
    assert_eq!(it.buy[1].vendor.name, "bob");
    assert_eq!(it.sell[0].vendor.name, "max");
    assert!(m.get_item("Shield").is_none());
}

#[test]
fn resolution_keeps_a_stored_user_record() {
    let s = scan(
        StoredInt::Int64(3),
        Some(5),
        vec![("Bow", stored_item("Bow", vec![offer(1.0, 1, StoredVendor::User(user(40, "carol")))], vec![]))],
    );
    let m = resolve_scan(&s, &directory()).ok().unwrap();
    assert_eq!(m.d, 3);
    assert_eq!(m.get_item("Bow").unwrap().buy[0].vendor.name, "carol");
    // A known user 0 takes the place of the stored record.
    let d0 = index_users(vec![user(0, "zero")]);
    let m = resolve_scan(&s, &d0).ok().unwrap();
    assert_eq!(m.get_item("Bow").unwrap().buy[0].vendor.name, "zero");
}

#[test]
fn resolution_errors() {
    let d = directory();
    assert_eq!(resolve_scan(&sword_scan(StoredInt::Int32(-4)), &d).err(), Some(MarketError::BadId));
    assert_eq!(resolve_scan(&sword_scan(StoredInt::Int64(1 << 32)), &d).err(), Some(MarketError::BadId));
    assert_eq!(resolve_scan(&sword_scan(StoredInt::Absent), &d).err(), Some(MarketError::BadId));
    assert_eq!(resolve_scan(&sword_scan(StoredInt::Int64(4_294_967_295)), &d).ok().unwrap().d, 4_294_967_295);
    let s = scan(StoredInt::Int32(1), None, vec![]);
    assert_eq!(resolve_scan(&s, &d).err(), Some(MarketError::MissingTime));
    let s = scan(
        StoredInt::Int32(1),
        Some(0),
        vec![("Axe", stored_item("Axe", vec![], vec![offer(2.0, 1, StoredVendor::Int32(99))]))],
    );
    assert_eq!(resolve_scan(&s, &d).err(), Some(MarketError::BadItem));
    let s = scan(
        StoredInt::Int32(1),
        Some(0),
        vec![("Axe", stored_item("Axe", vec![offer(2.0, 1, StoredVendor::Other)], vec![]))],
    );
    assert_eq!(resolve_scan(&s, &d).err(), Some(MarketError::BadItem));
    let s = scan(
        StoredInt::Int32(1),
        Some(0),
        vec![("Axe", stored_item("Axe", vec![], vec![offer(2.0, 1, StoredVendor::Int32(-1))]))],
    );
    let far = index_users(vec![user(u64::MAX, "minus one")]);
    assert_eq!(resolve_scan(&s, &far).err(), Some(MarketError::UnencodableUser));
}

#[test]
fn resolution_of_a_restricted_scan_is_restricted() {
    let d = directory();
    let two = |keep_shield: bool| {
        let mut items = vec![(
            "Sword",
            stored_item("Sword", vec![offer(12.5, 3, StoredVendor::Int32(1))], vec![]),
        )];
        if keep_shield {
            items.push(("Shield", stored_item("Shield", vec![], vec![offer(3.0, 4, StoredVendor::Int32(2))])));
        }
        scan(StoredInt::Int32(11), Some(99), items)
    };
    let full = resolve_scan(&two(true), &d).ok().unwrap();
    let part = resolve_scan(&two(false), &d).ok().unwrap();
    assert_eq!(part.d, full.d);
    assert_eq!(part.time_scanned, full.time_scanned);
    assert_eq!(part.items.len(), 1);
    let a = part.get_item("Sword").unwrap();
    let b = full.get_item("Sword").unwrap();
    assert_eq!((a.id, a.time_scanned, a.buy.len()), (b.id, b.time_scanned, b.buy.len()));
    assert_eq!(a.buy[0].vendor.name, b.buy[0].vendor.name);
    assert!(part.get_item("Shield").is_none());
}

#[test]
fn item_history_grows_at_the_end() {
    let d = directory();
    let mut scans = vec![sword_scan(StoredInt::Int32(4)), sword_scan(StoredInt::Int32(2))];
    let before: Vec<u32> = item_history(&scans, "Sword", &d).iter().map(|i| i.id).collect();
    scans.push(sword_scan(StoredInt::Int32(8)));
    scans.push(sword_scan(StoredInt::Int32(6)));
    let after: Vec<u32> = item_history(&scans, "Sword", &d).iter().map(|i| i.id).collect();
    assert_eq!(before, vec![2, 4]);
    assert_eq!(after, vec![2, 4, 6, 8]);
}

#[test]
fn item_history_is_sorted_by_scan() {
    let d = directory();
    let scans = vec![
        sword_scan(StoredInt::Int32(5)),
        sword_scan(StoredInt::Int32(2)),
        sword_scan(StoredInt::Int64(3)),
        scan(StoredInt::Int32(4), Some(1), vec![]),
        sword_scan(StoredInt::Int32(-1)),
        sword_scan(StoredInt::Int32(9)),
    ];
    let h: Vec<Item> = item_history(&scans, "Sword", &d);
    let ids: Vec<u32> = h.iter().map(|i| i.id).collect();
    assert_eq!(ids, vec![2, 5, 9]);
    assert!(item_history(&scans, "Shield", &d).is_empty());
}

#[test]
fn item_history_keeps_the_later_scan_of_a_number() {
    let d = directory();
    let mut later = sword_scan(StoredInt::Int32(5));
    later.time_scanned = Some(42);
    let scans = vec![sword_scan(StoredInt::Int32(5)), later];
    let h = item_history(&scans, "Sword", &d);
    assert_eq!(h.len(), 1);
    assert_eq!(h[0].time_scanned, 42);
}

#[test]
fn latest_items_gathers_each_requested_item() {
    let d = directory();
    let names = vec!["Sword".to_string(), "Shield".to_string()];
    let found = vec![Some(sword_scan(StoredInt::Int32(8))), None];
    let mm = latest_items(&names, &found, &d).ok().unwrap();
    assert_eq!(mm.items.len(), 1);
    assert_eq!(mm.items.get("Sword").unwrap().id, 8);
    assert!(mm.items.get("Shield").is_none());
    let found = vec![Some(sword_scan(StoredInt::Int32(-8))), None];
    assert_eq!(latest_items(&names, &found, &d).err(), Some(MarketError::BadId));
}

#[test]
fn recent_instance_follows_the_count() {
    let d = directory();
    assert!(recent_instance(None, None, &d).ok().unwrap().is_none());
    let c = Count { _id: 0, count: 6 };
    let m = recent_instance(Some(c), Some(sword_scan(StoredInt::Int32(6))), &d).ok().unwrap().unwrap();
    assert_eq!(m.d, 6);
    let c = Count { _id: 0, count: 6 };
    let r = recent_instance(Some(c), Some(scan(StoredInt::Int32(6), None, vec![])), &d);
    assert_eq!(r.err(), Some(MarketError::MissingTime));
}

#[test]
fn query_fields() {
    assert_eq!(item_field_path("Sword"), "items.Sword");
    assert_eq!(projection_fields(&vec![]), vec!["_id", "time_scanned"]);
    let f = projection_fields(&vec!["a".to_string(), "b".to_string(), "a".to_string()]);
    assert_eq!(f, vec!["_id", "time_scanned", "items.a", "items.b"]);
}
