use vstd::prelude::*;

use std::collections::HashMap;

use crate::objects::market::market::{items_view, Item, ItemView, Listing, Market, MarketView, RobloxUser};
use crate::objects::raw_market::bson_now;
use crate::table::{keys_distinct, lemma_pairs_map_dom, lemma_pairs_map_value, pairs_map, StringMap};

verus! {

broadcast use vstd::std_specs::hash::group_hash_axioms;

/// How an integer field of a scan document is stored.
#[derive(PartialEq, Eq, Structural, Clone, Copy, Debug)]
pub enum StoredInt {
    Int32(i32),
    Int64(i64),
    /// Missing, or stored as something other than an integer.
    Absent,
}

/// How the vendor, the third entry of a stored offer, is stored.
pub enum StoredVendor {
    Int32(i32),
    Int64(i64),
    /// A user record stored in place of the account number.
    User(RobloxUser),
    /// Anything else.
    Other,
}

impl Clone for StoredVendor {
    fn clone(&self) -> (r: Self)
        ensures
            r == *self,
    {
        match self {
            StoredVendor::Int32(x) => StoredVendor::Int32(*x),
            StoredVendor::Int64(x) => StoredVendor::Int64(*x),
            StoredVendor::User(u) => StoredVendor::User(u.clone()),
            StoredVendor::Other => StoredVendor::Other,
        }
    }
}

/// An offer as a scan document stores it: `[price, amount, vendor]`, the
/// price as the bit pattern of its 64-bit float.
pub struct StoredListing {
    pub price_bits: u64,
    pub amount: u32,
    pub vendor: StoredVendor,
}

impl Clone for StoredListing {
    fn clone(&self) -> (r: Self)
        ensures
            r == *self,
    {
        StoredListing { price_bits: self.price_bits, amount: self.amount, vendor: self.vendor.clone() }
    }
}

/// What a stored item is, as a mathematical value.
pub struct StoredItemView {
    pub name: Seq<char>,
    pub id: StoredInt,
    pub time_scanned: Option<i64>,
    pub buy: Seq<StoredListing>,
    pub sell: Seq<StoredListing>,
}

/// An item as a scan document stores it: its name, its `_id` and
/// `time_scanned` (`None` where missing or not a date) and its offers.
pub struct StoredItem {
    pub name: String,
    pub id: StoredInt,
    pub time_scanned: Option<i64>,
    pub buy: Vec<StoredListing>,
    pub sell: Vec<StoredListing>,
}

impl View for StoredItem {
    type V = StoredItemView;

    open spec fn view(&self) -> StoredItemView {
        StoredItemView {
            name: self.name@,
            id: self.id,
            time_scanned: self.time_scanned,
            buy: self.buy@,
            sell: self.sell@,
        }
    }
}

/// What a stored scan is, as a mathematical value.
pub struct StoredMarketView {
    pub id: StoredInt,
    pub time_scanned: Option<i64>,
    pub items: Map<Seq<char>, StoredItemView>,
}

/// A market scan as the database stores it: its `_id`, its `time_scanned`
/// (milliseconds since the UNIX epoch; `None` where the field is missing or
/// not a date) and its items by name.
pub struct StoredMarket {
    pub id: StoredInt,
    pub time_scanned: Option<i64>,
    pub items: StringMap<StoredItem>,
}

impl View for StoredMarket {
    type V = StoredMarketView;

    open spec fn view(&self) -> StoredMarketView {
        StoredMarketView {
            id: self.id,
            time_scanned: self.time_scanned,
            items: self.items@.map_values(|s: StoredItem| s@),
        }
    }
}

/// Why a stored scan does not make a market.
#[derive(PartialEq, Eq, Structural, Clone, Copy, Debug)]
pub enum MarketError {
    /// A user to be written into the scan has an account number above
    /// `i64::MAX`, which a document cannot hold.
    UnencodableUser,
    /// The scan's `_id` is missing, not an integer, or not a 32-bit unsigned
    /// number.
    BadId,
    /// The scan's time is missing or not a date.
    MissingTime,
    /// An item lacks a valid `_id` or time, or has an offer whose vendor is
    /// not a user record.
    BadItem,
}

// ----- Writing users into a stored scan -----

/// The number that the scan's `_id` is read as for its items: an integer
/// converted as `as u32` does, and 0 for anything else.
pub open spec fn scan_key(id: StoredInt) -> u32 {
    match id {
        StoredInt::Int32(x) => x as u32,
        StoredInt::Int64(x) => x as u32,
        StoredInt::Absent => 0,
    }
}

/// How a document stores the number `n` (`Bson::from(u32)`): as a 32-bit
/// integer where it fits, else as a 64-bit one.
pub open spec fn stored_number(n: u32) -> StoredInt {
    if n <= i32::MAX {
        StoredInt::Int32(n as i32)
    } else {
        StoredInt::Int64(n as i64)
    }
}

/// The account number that an offer's vendor entry is read as: an integer
/// converted as `as u64` does, and 0 for anything else.
pub open spec fn vendor_key(v: StoredVendor) -> u64 {
    match v {
        StoredVendor::Int64(x) => x as u64,
        StoredVendor::Int32(x) => x as u64,
        _ => 0,
    }
}

/// The known user that an offer's vendor entry selects, if any.
pub open spec fn selected_user(l: StoredListing, users: Map<u64, RobloxUser>) -> Option<RobloxUser> {
    if users.contains_key(vendor_key(l.vendor)) {
        Some(users[vendor_key(l.vendor)])
    } else {
        None
    }
}

/// A document can hold the user: its account number fits in an `i64`.
pub open spec fn encodable(u: RobloxUser) -> bool {
    u.id <= i64::MAX
}

/// Every user that the offers select can be written into a document.
pub open spec fn offers_encodable(s: Seq<StoredListing>, users: Map<u64, RobloxUser>) -> bool {
    forall|i: int| 0 <= i < s.len() ==> (#[trigger] selected_user(s[i], users) matches Some(u) ==> encodable(u))
}

/// The offer with the selected user written in place of the vendor entry;
/// an offer that selects no user stays as it is.
pub open spec fn enrich_listing(l: StoredListing, users: Map<u64, RobloxUser>) -> StoredListing {
    match selected_user(l, users) {
        Some(u) => StoredListing { price_bits: l.price_bits, amount: l.amount, vendor: StoredVendor::User(u) },
        None => l,
    }
}

/// All offers, users written in.
pub open spec fn enrich_offers(s: Seq<StoredListing>, users: Map<u64, RobloxUser>) -> Seq<StoredListing> {
    s.map_values(|l: StoredListing| enrich_listing(l, users))
}

/// The item with the scan's number `key` and time `t` written in, and its
/// offers' users.
pub open spec fn enrich_item(si: StoredItemView, key: u32, t: i64, users: Map<u64, RobloxUser>) -> StoredItemView {
    StoredItemView {
        name: si.name,
        id: stored_number(key),
        time_scanned: Some(t),
        buy: enrich_offers(si.buy, users),
        sell: enrich_offers(si.sell, users),
    }
}

/// The time written into the items: the scan's, else `now`.
pub open spec fn items_time(m: StoredMarketView, now: i64) -> i64 {
    match m.time_scanned {
        Some(t) => t,
        None => now,
    }
}

/// Every user to be written into the scan's items can be written.
pub open spec fn scan_encodable(m: StoredMarketView, users: Map<u64, RobloxUser>) -> bool {
    forall|k: Seq<char>| #[trigger] m.items.contains_key(k) ==> offers_encodable(m.items[k].buy, users)
        && offers_encodable(m.items[k].sell, users)
}

/// The scan with users written in: each item gets the scan's number and time
/// (`now` where the scan has no time) and each offer that selects a known
/// user gets that user's record; the scan's own fields stay. It fails where a
/// selected user cannot be written.
pub open spec fn enrich(m: StoredMarketView, users: Map<u64, RobloxUser>, now: i64) -> Result<StoredMarketView, MarketError> {
    if scan_encodable(m, users) {
        Ok(StoredMarketView {
            id: m.id,
            time_scanned: m.time_scanned,
            items: m.items.map_values(|si: StoredItemView| enrich_item(si, scan_key(m.id), items_time(m, now), users)),
        })
    } else {
        Err(MarketError::UnencodableUser)
    }
}

/// The outcome of writing users into a scan, with the scan taken by its view.
pub open spec fn enriched_view(r: Result<StoredMarket, MarketError>) -> Result<StoredMarketView, MarketError> {
    match r {
        Ok(m) => Ok(m@),
        Err(e) => Err(e),
    }
}

fn enrich_listing_exec(l: &StoredListing, users: &HashMap<u64, RobloxUser>) -> (r: Result<StoredListing, MarketError>)
    ensures
        match r {
            Ok(x) => (selected_user(*l, users@) matches Some(u) ==> encodable(u)) && x == enrich_listing(*l, users@),
            Err(e) => e == MarketError::UnencodableUser && (selected_user(*l, users@) matches Some(u) && !encodable(u)),
        },
{
    let k: u64 = match &l.vendor {
        StoredVendor::Int64(x) => *x as u64,
        StoredVendor::Int32(x) => *x as u64,
        _ => 0,
    };
    match users.get(&k) {
        Some(u) => {
            if u.id > 0x7fff_ffff_ffff_ffff {
                return Err(MarketError::UnencodableUser);
            }
            Ok(StoredListing { price_bits: l.price_bits, amount: l.amount, vendor: StoredVendor::User(u.clone()) })
        },
        None => Ok(l.clone()),
    }
}

fn enrich_offers_exec(s: &Vec<StoredListing>, users: &HashMap<u64, RobloxUser>) -> (r: Result<Vec<StoredListing>, MarketError>)
    ensures
        match r {
            Ok(v) => offers_encodable(s@, users@) && v@ == enrich_offers(s@, users@),
            Err(e) => e == MarketError::UnencodableUser && !offers_encodable(s@, users@),
        },
{
    let mut out: Vec<StoredListing> = Vec::new();
    let mut i: usize = 0;
    while i < s.len()
        invariant
            i <= s@.len(),
            out@.len() == i,
            forall|j: int| 0 <= j < i ==> (#[trigger] selected_user(s@[j], users@) matches Some(u) ==> encodable(u)),
            forall|j: int| 0 <= j < i ==> out@[j] == enrich_listing(s@[j], users@),
        decreases s@.len() - i,
    {
        match enrich_listing_exec(&s[i], users) {
            Ok(l) => out.push(l),
            Err(e) => {
                proof {
                    assert(!(selected_user(s@[i as int], users@) matches Some(u) ==> encodable(u)));
                }
                return Err(e);
            },
        }
        i = i + 1;
    }
    proof {
        assert(out@ =~= enrich_offers(s@, users@));
    }
    Ok(out)
}

/// Writes users into a stored scan: every item gets the scan's number (its
/// `_id` as `as u32` reads it, 0 where it is no integer) and the scan's time
/// (`now` where the scan has none), and every offer whose vendor number is a
/// key of `roblox_users` gets that user's record in place of the number.
/// Offers with other vendors stay as they are. Fails where a user to be
/// written has an account number that a document cannot hold.
pub fn insert_users_into_market_data(market: &StoredMarket, roblox_users: &HashMap<u64, RobloxUser>, now: i64) -> (r: Result<StoredMarket, MarketError>)
    requires
        market.items.wf(),
    ensures
        enriched_view(r) == enrich(market@, roblox_users@, now),
        r matches Ok(m) ==> m.items.wf() && m.items.keys() == market.items.keys(),
{
    let key: u32 = match market.id {
        StoredInt::Int32(x) => x as u32,
        StoredInt::Int64(x) => x as u32,
        StoredInt::Absent => 0,
    };
    let number: StoredInt = if key <= 0x7fff_ffff {
        StoredInt::Int32(key as i32)
    } else {
        StoredInt::Int64(key as i64)
    };
    let time: i64 = match market.time_scanned {
        Some(t) => t,
        None => now,
    };
    let entries = market.items.entries();
    let ghost stored = market@.items;
    let ghost f = |si: StoredItemView| enrich_item(si, scan_key(market@.id), items_time(market@, now), roblox_users@);
    let mut items: StringMap<StoredItem> = StringMap::new();
    proof {
        assert(items@.map_values(|s: StoredItem| s@) =~= pairs_map(entries@.take(0)).map_values(
            |s: StoredItem| s@,
        ).map_values(f));
        assert(entries@.take(0).map_values(|p: (String, StoredItem)| p.0@) =~= Seq::<Seq<char>>::empty());
    }
    let mut i: usize = 0;
    while i < entries.len()
        invariant
            i <= entries@.len(),
            keys_distinct(entries@),
            pairs_map(entries@) == market.items@,
            stored == market@.items,
            stored == market.items@.map_values(|s: StoredItem| s@),
            key == scan_key(market@.id),
            number == stored_number(key),
            time == items_time(market@, now),
            f == (|si: StoredItemView| enrich_item(si, scan_key(market@.id), items_time(market@, now), roblox_users@)),
            items.wf(),
            entries@.map_values(|p: (String, StoredItem)| p.0@) == market.items.keys(),
            items.keys() == entries@.take(i as int).map_values(|p: (String, StoredItem)| p.0@),
            forall|j: int| 0 <= j < i ==> offers_encodable(#[trigger] entries@[j].1@.buy, roblox_users@)
                && offers_encodable(entries@[j].1@.sell, roblox_users@),
            items@.map_values(|s: StoredItem| s@) == pairs_map(entries@.take(i as int)).map_values(
                |s: StoredItem| s@,
            ).map_values(f),
        decreases entries@.len() - i,
    {
        let si = &entries[i].1;
        let buy = match enrich_offers_exec(&si.buy, roblox_users) {
            Ok(b) => b,
            Err(e) => {
                proof {
                    lemma_pairs_map_value(entries@, i as int);
                    assert(stored.contains_key(entries@[i as int].0@));
                    assert(!scan_encodable(market@, roblox_users@));
                }
                return Err(e);
            },
        };
        let sell = match enrich_offers_exec(&si.sell, roblox_users) {
            Ok(s) => s,
            Err(e) => {
                proof {
                    lemma_pairs_map_value(entries@, i as int);
                    assert(stored.contains_key(entries@[i as int].0@));
                    assert(!scan_encodable(market@, roblox_users@));
                }
                return Err(e);
            },
        };
        let it = StoredItem { name: si.name.clone(), id: number, time_scanned: Some(time), buy, sell };
        let ghost before = items@.map_values(|s: StoredItem| s@);
        proof {
            let k = entries@[i as int].0@;
            lemma_pairs_map_dom(entries@.take(i as int), k);
            if items@.contains_key(k) {
                assert(before.contains_key(k));
                assert(pairs_map(entries@.take(i as int)).contains_key(k));
                let j = choose|j: int| 0 <= j < entries@.take(i as int).len() && entries@.take(i as int)[j].0@ == k;
                assert(entries@[j].0@ == k);
            }
        }
        items.insert(entries[i].0.clone(), it);
        proof {
            assert(entries@.take(i + 1).map_values(|p: (String, StoredItem)| p.0@) =~= entries@.take(
                i as int,
            ).map_values(|p: (String, StoredItem)| p.0@).push(entries@[i as int].0@));
            let p = pairs_map(entries@.take(i as int));
            let k = entries@[i as int].0@;
            let v = entries@[i as int].1;
            assert(entries@.take(i + 1).drop_last() =~= entries@.take(i as int));
            assert(entries@.take(i + 1).last() == entries@[i as int]);
            assert(pairs_map(entries@.take(i + 1)) == p.insert(k, v));
            assert(it@ == f(v@));
            assert(p.insert(k, v).map_values(|s: StoredItem| s@).map_values(f) =~= p.map_values(
                |s: StoredItem| s@,
            ).map_values(f).insert(k, f(v@)));
            assert(items@.map_values(|s: StoredItem| s@) =~= before.insert(k, it@));
        }
        i = i + 1;
    }
    proof {
        assert(entries@.take(entries@.len() as int) =~= entries@);
        assert(items.keys() == market.items.keys());
        assert forall|k: Seq<char>| #[trigger] stored.contains_key(k) implies offers_encodable(
            stored[k].buy,
            roblox_users@,
        ) && offers_encodable(stored[k].sell, roblox_users@) by {
            lemma_pairs_map_dom(entries@, k);
            let j = choose|j: int| 0 <= j < entries@.len() && entries@[j].0@ == k;
            lemma_pairs_map_value(entries@, j);
            assert(offers_encodable(entries@[j].1@.buy, roblox_users@));
        }
        assert(scan_encodable(market@, roblox_users@));
    }
    let r = StoredMarket { id: market.id, time_scanned: market.time_scanned, items };
    proof {
        assert(r@.items =~= stored.map_values(f));
    }
    Ok(r)
}


// ----- Reading a stored scan as a market -----

/// The number that a stored `_id` decodes to as a `u32`: a non-negative
/// integer that fits.
pub open spec fn market_number(id: StoredInt) -> Option<u32> {
    match id {
        StoredInt::Int32(x) => if 0 <= x { Some(x as u32) } else { None },
        StoredInt::Int64(x) => if 0 <= x <= u32::MAX { Some(x as u32) } else { None },
        StoredInt::Absent => None,
    }
}

/// The offer as a market offer: its vendor entry must be a user record.
pub open spec fn decode_listing(l: StoredListing) -> Option<Listing> {
    match l.vendor {
        StoredVendor::User(u) => Some(Listing { price_bits: l.price_bits, amount: l.amount, vendor: u }),
        _ => None,
    }
}

/// All offers decoded, in order, or `None` if one of them does not decode.
pub open spec fn decode_all(s: Seq<StoredListing>) -> Option<Seq<Listing>> {
    if forall|i: int| 0 <= i < s.len() ==> (#[trigger] decode_listing(s[i])) is Some {
        Some(Seq::new(s.len(), |i: int| decode_listing(s[i])->0))
    } else {
        None
    }
}

/// The item as a market item: it needs a valid number and time, and offers
/// whose vendors are user records.
pub open spec fn decode_item(si: StoredItemView) -> Option<ItemView> {
    match (market_number(si.id), si.time_scanned, decode_all(si.buy), decode_all(si.sell)) {
        (Some(d), Some(t), Some(b), Some(s)) => Some(
            ItemView { name: si.name, id: d, time_scanned: t, buy: b, sell: s },
        ),
        _ => None,
    }
}

/// The stored scan read as a market. The first of these that fails decides
/// the error: the scan's number, its time, then its items.
pub open spec fn decoded_market(m: StoredMarketView) -> Result<MarketView, MarketError> {
    match market_number(m.id) {
        None => Err(MarketError::BadId),
        Some(d) => match m.time_scanned {
            None => Err(MarketError::MissingTime),
            Some(t) => if forall|k: Seq<char>| #[trigger] m.items.contains_key(k) ==> decode_item(m.items[k]) is Some {
                Ok(MarketView { d, time_scanned: t, items: m.items.map_values(|si: StoredItemView| decode_item(si)->0) })
            } else {
                Err(MarketError::BadItem)
            },
        },
    }
}

/// The outcome of reading a scan as a market, with the market taken by its view.
pub open spec fn outcome_view(r: Result<Market, MarketError>) -> Result<MarketView, MarketError> {
    match r {
        Ok(m) => Ok(m@),
        Err(e) => Err(e),
    }
}

fn number_exec(id: StoredInt) -> (r: Option<u32>)
    ensures
        r == market_number(id),
{
    match id {
        StoredInt::Int32(x) => if x >= 0 { Some(x as u32) } else { None },
        StoredInt::Int64(x) => if x >= 0 && x <= 0xffff_ffff { Some(x as u32) } else { None },
        StoredInt::Absent => None,
    }
}

fn decode_all_exec(s: &Vec<StoredListing>) -> (r: Option<Vec<Listing>>)
    ensures
        match r {
            Some(v) => decode_all(s@) == Some(v@),
            None => decode_all(s@) is None,
        },
{
    let mut out: Vec<Listing> = Vec::new();
    let mut i: usize = 0;
    while i < s.len()
        invariant
            i <= s@.len(),
            out@.len() == i,
            forall|j: int| 0 <= j < i ==> (#[trigger] decode_listing(s@[j])) is Some,
            forall|j: int| 0 <= j < i ==> out@[j] == decode_listing(s@[j])->0,
        decreases s@.len() - i,
    {
        match &s[i].vendor {
            StoredVendor::User(u) => out.push(Listing { price_bits: s[i].price_bits, amount: s[i].amount, vendor: u.clone() }),
            _ => {
                proof {
                    assert(decode_listing(s@[i as int]) is None);
                }
                return None;
            },
        }
        i = i + 1;
    }
    proof {
        assert(out@ =~= Seq::new(s@.len(), |j: int| decode_listing(s@[j])->0));
    }
    Some(out)
}

fn decode_item_exec(si: &StoredItem) -> (r: Option<Item>)
    ensures
        match r {
            Some(i) => decode_item(si@) == Some(i@),
            None => decode_item(si@) is None,
        },
{
    let d = match number_exec(si.id) {
        Some(d) => d,
        None => return None,
    };
    let t = match si.time_scanned {
        Some(t) => t,
        None => return None,
    };
    let buy = match decode_all_exec(&si.buy) {
        Some(b) => b,
        None => return None,
    };
    let sell = match decode_all_exec(&si.sell) {
        Some(s) => s,
        None => return None,
    };
    Some(Item { name: si.name.clone(), id: d, time_scanned: t, buy, sell })
}

/// Reads a stored scan as a market: its number and time, and each item with
/// its number, time and offers, every offer's vendor being a user record.
pub fn decode_market(market: &StoredMarket) -> (r: Result<Market, MarketError>)
    requires
        market.items.wf(),
    ensures
        outcome_view(r) == decoded_market(market@),
        r matches Ok(m) ==> m.wf(),
{
    let d: u32 = match number_exec(market.id) {
        Some(d) => d,
        None => return Err(MarketError::BadId),
    };
    let t: i64 = match market.time_scanned {
        Some(t) => t,
        None => return Err(MarketError::MissingTime),
    };
    let entries = market.items.entries();
    let ghost stored = market@.items;
    let mut items: StringMap<Item> = StringMap::new();
    proof {
        assert(items_view(items@) =~= pairs_map(entries@.take(0)).map_values(|s: StoredItem| s@).map_values(
            |si: StoredItemView| decode_item(si)->0,
        ));
    }
    let mut i: usize = 0;
    while i < entries.len()
        invariant
            i <= entries@.len(),
            keys_distinct(entries@),
            pairs_map(entries@) == market.items@,
            stored == market@.items,
            stored == market.items@.map_values(|s: StoredItem| s@),
            market_number(market@.id) == Some(d),
            market@.time_scanned == Some(t),
            items.wf(),
            forall|j: int| 0 <= j < i ==> (#[trigger] decode_item(entries@[j].1@)) is Some,
            items_view(items@) == pairs_map(entries@.take(i as int)).map_values(|s: StoredItem| s@).map_values(
                |si: StoredItemView| decode_item(si)->0,
            ),
        decreases entries@.len() - i,
    {
        match decode_item_exec(&entries[i].1) {
            Some(it) => {
                let ghost before = items_view(items@);
                items.insert(entries[i].0.clone(), it);
                proof {
                    let p = pairs_map(entries@.take(i as int));
                    let k = entries@[i as int].0@;
                    let v = entries@[i as int].1;
                    assert(entries@.take(i + 1).drop_last() =~= entries@.take(i as int));
                    assert(entries@.take(i + 1).last() == entries@[i as int]);
                    assert(pairs_map(entries@.take(i + 1)) == p.insert(k, v));
                    assert(p.insert(k, v).map_values(|s: StoredItem| s@).map_values(
                        |si: StoredItemView| decode_item(si)->0,
                    ) =~= p.map_values(|s: StoredItem| s@).map_values(|si: StoredItemView| decode_item(si)->0).insert(
                        k,
                        it@,
                    ));
                    assert(items_view(items@) =~= before.insert(k, it@));
                }
            },
            None => {
                proof {
                    lemma_pairs_map_value(entries@, i as int);
                    let k = entries@[i as int].0@;
                    assert(stored.contains_key(k));
                    assert(stored[k] == entries@[i as int].1@);
                    assert(decode_item(stored[k]) is None);
                }
                return Err(MarketError::BadItem);
            },
        }
        i = i + 1;
    }
    proof {
        assert(entries@.take(entries@.len() as int) =~= entries@);
        assert forall|k: Seq<char>| #[trigger] stored.contains_key(k) implies decode_item(stored[k]) is Some by {
            lemma_pairs_map_dom(entries@, k);
            let j = choose|j: int| 0 <= j < entries@.len() && entries@[j].0@ == k;
            lemma_pairs_map_value(entries@, j);
            assert(decode_item(entries@[j].1@) is Some);
        }
        assert(items_view(items@) =~= stored.map_values(|si: StoredItemView| decode_item(si)->0));
    }
    Ok(Market { d, time_scanned: t, items })
}

// ----- The two steps together -----

/// A stored scan as the server serves it: users written in, then read as a
/// market. The time written into items of a scan without time does not show:
/// such a scan does not read as a market.
pub open spec fn resolve_market(m: StoredMarketView, users: Map<u64, RobloxUser>) -> Result<MarketView, MarketError> {
    match enrich(m, users, 0) {
        Err(e) => Err(e),
        Ok(e) => decoded_market(e),
    }
}

/// Writing users in at any time `now`, then reading the scan as a market,
/// gives the same outcome.
pub proof fn lemma_resolve_any_time(m: StoredMarketView, users: Map<u64, RobloxUser>, now: i64)
    ensures
        match enrich(m, users, now) {
            Err(e) => resolve_market(m, users) == Err::<MarketView, MarketError>(e),
            Ok(e) => decoded_market(e) == resolve_market(m, users),
        },
{
    if scan_encodable(m, users) && m.time_scanned is Some {
        assert(enrich(m, users, now) == enrich(m, users, 0));
    }
}

/// A scan that the server serves keeps exactly its stored items, each under
/// its own name, carrying the scan's number and time and as many offers as
/// were stored.
pub proof fn law_resolution_keeps_items(m: StoredMarketView, users: Map<u64, RobloxUser>)
    requires
        resolve_market(m, users) is Ok,
    ensures
        ({
            let mv = resolve_market(m, users)->Ok_0;
            &&& mv.items.dom() == m.items.dom()
            &&& forall|k: Seq<char>| #[trigger] mv.items.contains_key(k) ==> {
                &&& mv.items[k].name == m.items[k].name
                &&& mv.items[k].id == mv.d
                &&& mv.items[k].time_scanned == mv.time_scanned
                &&& mv.items[k].buy.len() == m.items[k].buy.len()
                &&& mv.items[k].sell.len() == m.items[k].sell.len()
            }
        }),
{
    let e = enrich(m, users, 0)->Ok_0;
    let mv = resolve_market(m, users)->Ok_0;
    assert(mv.items.dom() =~= m.items.dom());
    assert forall|k: Seq<char>| #[trigger] mv.items.contains_key(k) implies {
        &&& mv.items[k].name == m.items[k].name
        &&& mv.items[k].id == mv.d
        &&& mv.items[k].time_scanned == mv.time_scanned
        &&& mv.items[k].buy.len() == m.items[k].buy.len()
        &&& mv.items[k].sell.len() == m.items[k].sell.len()
    } by {
        assert(e.items.contains_key(k));
        assert(decode_item(e.items[k]) is Some);
    }
}

/// `t` is the offers `s` with users written in: the same number of offers,
/// each with its own price and amount, and the directory's record of the
/// vendor's account number in place of the vendor where the directory has
/// that number; other vendors stay.
pub open spec fn users_written(s: Seq<StoredListing>, t: Seq<StoredListing>, users: Map<u64, RobloxUser>) -> bool {
    &&& t.len() == s.len()
    &&& forall|i: int| 0 <= i < s.len() ==> {
        &&& (#[trigger] t[i]).price_bits == s[i].price_bits
        &&& t[i].amount == s[i].amount
        &&& t[i].vendor == if users.contains_key(vendor_key(s[i].vendor)) {
            StoredVendor::User(users[vendor_key(s[i].vendor)])
        } else {
            s[i].vendor
        }
    }
}

/// Every user that an offer of `s` selects has an account number that a
/// document can hold.
pub open spec fn selected_fit(s: Seq<StoredListing>, users: Map<u64, RobloxUser>) -> bool {
    forall|i: int| 0 <= i < s.len() && users.contains_key(vendor_key(#[trigger] s[i].vendor)) ==> users[vendor_key(
        s[i].vendor,
    )].id <= i64::MAX
}

/// Writing users into a scan succeeds exactly when every user that an offer
/// selects fits in a document. Then the scan keeps its `_id`, its time and
/// its item names; every item keeps its name, gets the number that the
/// scan's `_id` reads as and the scan's time (`now` where the scan has none);
/// and every offer keeps its price and amount and gets the directory's whole
/// record of its vendor where the directory has the vendor's number.
pub proof fn law_users_written(m: StoredMarketView, users: Map<u64, RobloxUser>, now: i64)
    ensures
        enrich(m, users, now) is Ok <==> forall|k: Seq<char>| #[trigger] m.items.contains_key(k) ==> selected_fit(
            m.items[k].buy,
            users,
        ) && selected_fit(m.items[k].sell, users),
        enrich(m, users, now) matches Ok(e) ==> {
            &&& e.id == m.id
            &&& e.time_scanned == m.time_scanned
            &&& e.items.dom() == m.items.dom()
            &&& forall|k: Seq<char>| #[trigger] m.items.contains_key(k) ==> {
                &&& e.items[k].name == m.items[k].name
                &&& e.items[k].id == stored_number(scan_key(m.id))
                &&& e.items[k].time_scanned == Some(
                    if m.time_scanned is Some {
                        m.time_scanned->0
                    } else {
                        now
                    },
                )
                &&& users_written(m.items[k].buy, e.items[k].buy, users)
                &&& users_written(m.items[k].sell, e.items[k].sell, users)
            }
        },
{
    assert forall|s: Seq<StoredListing>| offers_encodable(s, users) <==> selected_fit(s, users) by {
        if offers_encodable(s, users) {
            assert forall|i: int| 0 <= i < s.len() && users.contains_key(vendor_key(#[trigger] s[i].vendor)) implies users[vendor_key(
                s[i].vendor,
            )].id <= i64::MAX by {
                assert(selected_user(s[i], users) matches Some(u) ==> encodable(u));
            }
        }
        if selected_fit(s, users) {
            assert forall|i: int| 0 <= i < s.len() implies (#[trigger] selected_user(s[i], users) matches Some(u)
                ==> encodable(u)) by {
                if users.contains_key(vendor_key(s[i].vendor)) {
                    assert(users[vendor_key(s[i].vendor)].id <= i64::MAX);
                }
            }
        }
    }
    if enrich(m, users, now) is Ok {
        let e = enrich(m, users, now)->Ok_0;
        assert(e.items.dom() =~= m.items.dom());
        assert forall|k: Seq<char>| #[trigger] m.items.contains_key(k) implies users_written(
            m.items[k].buy,
            e.items[k].buy,
            users,
        ) && users_written(m.items[k].sell, e.items[k].sell, users) by {
            let si = m.items[k];
            assert forall|i: int| 0 <= i < si.buy.len() implies {
                &&& (#[trigger] e.items[k].buy[i]).price_bits == si.buy[i].price_bits
                &&& e.items[k].buy[i].amount == si.buy[i].amount
                &&& e.items[k].buy[i].vendor == if users.contains_key(vendor_key(si.buy[i].vendor)) {
                    StoredVendor::User(users[vendor_key(si.buy[i].vendor)])
                } else {
                    si.buy[i].vendor
                }
            } by {
                assert(e.items[k].buy[i] == enrich_listing(si.buy[i], users));
            }
            assert forall|i: int| 0 <= i < si.sell.len() implies {
                &&& (#[trigger] e.items[k].sell[i]).price_bits == si.sell[i].price_bits
                &&& e.items[k].sell[i].amount == si.sell[i].amount
                &&& e.items[k].sell[i].vendor == if users.contains_key(vendor_key(si.sell[i].vendor)) {
                    StoredVendor::User(users[vendor_key(si.sell[i].vendor)])
                } else {
                    si.sell[i].vendor
                }
            } by {
                assert(e.items[k].sell[i] == enrich_listing(si.sell[i], users));
            }
        }
    }
}

/// `v` is the offers `s` read as market offers: the same number of offers,
/// each with its own price and amount, and the user record that the offer
/// stores as its vendor.
pub open spec fn offers_read(s: Seq<StoredListing>, v: Seq<Listing>) -> bool {
    &&& v.len() == s.len()
    &&& forall|i: int| 0 <= i < s.len() ==> {
        &&& (#[trigger] v[i]).price_bits == s[i].price_bits
        &&& v[i].amount == s[i].amount
        &&& s[i].vendor == StoredVendor::User(v[i].vendor)
    }
}

/// A stored scan that reads as a market keeps its item names, and every item
/// keeps its name and time and every offer its price, amount and user.
pub proof fn law_decoded_offers(m: StoredMarketView)
    ensures
        decoded_market(m) matches Ok(mv) ==> {
            &&& Some(mv.d) == market_number(m.id)
            &&& Some(mv.time_scanned) == m.time_scanned
            &&& mv.items.dom() == m.items.dom()
            &&& forall|k: Seq<char>| #[trigger] m.items.contains_key(k) ==> {
                &&& mv.items[k].name == m.items[k].name
                &&& Some(mv.items[k].id) == market_number(m.items[k].id)
                &&& Some(mv.items[k].time_scanned) == m.items[k].time_scanned
                &&& offers_read(m.items[k].buy, mv.items[k].buy)
                &&& offers_read(m.items[k].sell, mv.items[k].sell)
            }
        },
{
    if decoded_market(m) is Ok {
        let mv = decoded_market(m)->Ok_0;
        assert(mv.items.dom() =~= m.items.dom());
        assert forall|k: Seq<char>| #[trigger] m.items.contains_key(k) implies offers_read(
            m.items[k].buy,
            mv.items[k].buy,
        ) && offers_read(m.items[k].sell, mv.items[k].sell) by {
            let si = m.items[k];
            assert(decode_item(si) is Some);
            assert forall|i: int| 0 <= i < si.buy.len() implies {
                &&& (#[trigger] mv.items[k].buy[i]).price_bits == si.buy[i].price_bits
                &&& mv.items[k].buy[i].amount == si.buy[i].amount
                &&& si.buy[i].vendor == StoredVendor::User(mv.items[k].buy[i].vendor)
            } by {
                assert(decode_listing(si.buy[i]) is Some);
            }
            assert forall|i: int| 0 <= i < si.sell.len() implies {
                &&& (#[trigger] mv.items[k].sell[i]).price_bits == si.sell[i].price_bits
                &&& mv.items[k].sell[i].amount == si.sell[i].amount
                &&& si.sell[i].vendor == StoredVendor::User(mv.items[k].sell[i].vendor)
            } by {
                assert(decode_listing(si.sell[i]) is Some);
            }
        }
    }
}

/// In a served scan every offer keeps its stored price and amount, and its
/// vendor is the directory's record of the stored account number where the
/// directory has it, else the user record the scan stores.
pub proof fn law_served_offers(m: StoredMarketView, users: Map<u64, RobloxUser>)
    ensures
        resolve_market(m, users) matches Ok(mv) ==> forall|k: Seq<char>| #[trigger] m.items.contains_key(k) ==> {
            &&& served_offers(m.items[k].buy, mv.items[k].buy, users)
            &&& served_offers(m.items[k].sell, mv.items[k].sell, users)
        },
{
    law_users_written(m, users, 0);
    if resolve_market(m, users) is Ok {
        let e = enrich(m, users, 0)->Ok_0;
        law_decoded_offers(e);
        let mv = resolve_market(m, users)->Ok_0;
        assert forall|k: Seq<char>| #[trigger] m.items.contains_key(k) implies {
            &&& served_offers(m.items[k].buy, mv.items[k].buy, users)
            &&& served_offers(m.items[k].sell, mv.items[k].sell, users)
        } by {
            assert(e.items.contains_key(k));
            let b = m.items[k].buy;
            let s = m.items[k].sell;
            assert forall|i: int| 0 <= i < b.len() implies {
                &&& (#[trigger] mv.items[k].buy[i]).price_bits == b[i].price_bits
                &&& mv.items[k].buy[i].amount == b[i].amount
                &&& if users.contains_key(vendor_key(b[i].vendor)) {
                    mv.items[k].buy[i].vendor == users[vendor_key(b[i].vendor)]
                } else {
                    b[i].vendor == StoredVendor::User(mv.items[k].buy[i].vendor)
                }
            } by {
                assert(e.items[k].buy[i].vendor == StoredVendor::User(mv.items[k].buy[i].vendor));
            }
            assert forall|i: int| 0 <= i < s.len() implies {
                &&& (#[trigger] mv.items[k].sell[i]).price_bits == s[i].price_bits
                &&& mv.items[k].sell[i].amount == s[i].amount
                &&& if users.contains_key(vendor_key(s[i].vendor)) {
                    mv.items[k].sell[i].vendor == users[vendor_key(s[i].vendor)]
                } else {
                    s[i].vendor == StoredVendor::User(mv.items[k].sell[i].vendor)
                }
            } by {
                assert(e.items[k].sell[i].vendor == StoredVendor::User(mv.items[k].sell[i].vendor));
            }
        }
    }
}

/// `v` is the stored offers `s` as served: the same number of offers, each
/// with its own price and amount, its vendor the directory's record of the
/// stored account number where the directory has it, else the stored user
/// record.
pub open spec fn served_offers(s: Seq<StoredListing>, v: Seq<Listing>, users: Map<u64, RobloxUser>) -> bool {
    &&& v.len() == s.len()
    &&& forall|i: int| 0 <= i < s.len() ==> {
        &&& (#[trigger] v[i]).price_bits == s[i].price_bits
        &&& v[i].amount == s[i].amount
        &&& if users.contains_key(vendor_key(s[i].vendor)) {
            v[i].vendor == users[vendor_key(s[i].vendor)]
        } else {
            s[i].vendor == StoredVendor::User(v[i].vendor)
        }
    }
}

/// The scan with only the items named in `names`.
pub open spec fn restrict_items(m: StoredMarketView, names: Set<Seq<char>>) -> StoredMarketView {
    StoredMarketView { id: m.id, time_scanned: m.time_scanned, items: m.items.restrict(names) }
}

/// Serving a scan read with only some of its items gives the served full
/// scan with only those items.
pub proof fn law_resolve_restricted(m: StoredMarketView, users: Map<u64, RobloxUser>, names: Set<Seq<char>>)
    requires
        resolve_market(m, users) is Ok,
    ensures
        ({
            let mv = resolve_market(m, users)->Ok_0;
            resolve_market(restrict_items(m, names), users) == Ok::<MarketView, MarketError>(
                MarketView { d: mv.d, time_scanned: mv.time_scanned, items: mv.items.restrict(names) },
            )
        }),
{
    let r = restrict_items(m, names);
    assert(scan_encodable(r, users));
    let e = enrich(m, users, 0)->Ok_0;
    let er = enrich(r, users, 0)->Ok_0;
    assert(er.items =~= e.items.restrict(names));
    assert forall|k: Seq<char>| #[trigger] er.items.contains_key(k) implies decode_item(er.items[k]) is Some by {
        assert(e.items.contains_key(k));
    }
    let mv = resolve_market(m, users)->Ok_0;
    assert(resolve_market(r, users)->Ok_0.items =~= mv.items.restrict(names));
}

/// Reads a BSON date as milliseconds since the UNIX epoch, with
/// `mongodb::bson::DateTime::timestamp_millis`. Nothing is promised of the
/// value: the date is opaque to the library.
#[verifier::external_body]
fn bson_millis(t: mongodb::bson::DateTime) -> i64 {
    t.timestamp_millis()
}

/// A stored scan as the server serves it: users written in at the present
/// time, then read as a market.
pub fn resolve_scan(market: &StoredMarket, roblox_users: &HashMap<u64, RobloxUser>) -> (r: Result<Market, MarketError>)
    requires
        market.items.wf(),
    ensures
        outcome_view(r) == resolve_market(market@, roblox_users@),
        r matches Ok(m) ==> m.wf(),
{
    let now = bson_millis(bson_now());
    proof {
        lemma_resolve_any_time(market@, roblox_users@, now);
    }
    match insert_users_into_market_data(market, roblox_users, now) {
        Err(e) => Err(e),
        Ok(enriched) => decode_market(&enriched),
    }
}

} // verus!
